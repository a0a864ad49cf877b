//! Declarative element descriptions.
//!
//! An [`AnyElement`] names one desired child: an identity key plus a
//! property cell whose tag picks the behavior.  Each render pass hands the
//! reconciler a freshly produced tree of element descriptions.

use crate::component::ComponentKind;
use crate::key::{ElementKey, KeyView};
use crate::props::{AnyProps, PropsValue};
use vstd::prelude::*;

verus! {

/// One desired child: identity key, behavior and properties.
pub struct AnyElement {
    pub key: ElementKey,
    pub props: AnyProps,
}

impl AnyElement {
    /// The behavior this element asks for.
    pub open spec fn spec_kind(&self) -> ComponentKind {
        self.props.spec_kind()
    }

    /// The identity and behavior of this element, the pair reconciliation
    /// matches on.
    pub open spec fn spec_desc(&self) -> (KeyView, ComponentKind) {
        (self.key@, self.spec_kind())
    }

    /// The child elements this element describes.
    pub open spec fn spec_children(&self) -> Seq<AnyElement> {
        self.props.spec_children()
    }

    pub fn new(key: ElementKey, props: AnyProps) -> (r: AnyElement)
        ensures
            r.key == key,
            r.props == props,
    {
        AnyElement { key, props }
    }

    pub fn key(&self) -> (r: &ElementKey)
        ensures
            r == &self.key,
    {
        &self.key
    }

    /// Reads the behavior tag.
    pub fn kind(&self) -> (r: ComponentKind)
        ensures
            r == self.spec_kind(),
    {
        self.props.kind()
    }
}

/// The key and behavior of each element in `s`, in order.
pub open spec fn descs_of(s: Seq<AnyElement>) -> Seq<(KeyView, ComponentKind)> {
    Seq::new(s.len(), |i: int| s[i].spec_desc())
}

/// Something that can contribute elements to a child list: one element, or
/// a whole batch of them.
pub trait ExtendWithElements: Sized {
    /// The elements contributed, in order.
    spec fn spec_elements(&self) -> Seq<AnyElement>;

    /// Appends the contributed elements to `dest`.
    fn extend_with_elements(self, dest: &mut Vec<AnyElement>)
        ensures
            final(dest)@ == old(dest)@ + self.spec_elements(),
    ;
}

impl ExtendWithElements for AnyElement {
    open spec fn spec_elements(&self) -> Seq<AnyElement> {
        seq![*self]
    }

    fn extend_with_elements(self, dest: &mut Vec<AnyElement>) {
        let ghost me = self;
        dest.push(self);
        proof {
            assert(final(dest)@ =~= old(dest)@ + seq![me]);
        }
    }
}

impl ExtendWithElements for Vec<AnyElement> {
    open spec fn spec_elements(&self) -> Seq<AnyElement> {
        self@
    }

    fn extend_with_elements(self, dest: &mut Vec<AnyElement>) {
        let mut batch = self;
        dest.append(&mut batch);
    }
}

/// Appends elements from any contributor to a child list.
pub fn extend_with_elements<U: ExtendWithElements>(dest: &mut Vec<AnyElement>, elements: U)
    ensures
        final(dest)@ == old(dest)@ + elements.spec_elements(),
{
    elements.extend_with_elements(dest);
}

} // verus!
