//! Type-erased component properties.
//!
//! An [`AnyProps`] cell carries one component's input data together with its
//! ownership mode.  The payload is a tagged union over the closed set of
//! known property types; the tag names the behavior the properties belong
//! to, so a downcast is checked rather than assumed.

use crate::component::ComponentKind;
use crate::components::{ContextProviderProps, CounterProps, FragmentProps, ViewProps};
use vstd::prelude::*;

verus! {

/// Marker for types that can serve as component properties.
pub trait Props {

}

/// Properties for components that take none.
#[derive(Clone, Copy, Debug, PartialEq, Eq, Structural)]
pub struct NoProps;

impl Props for NoProps {

}

/// The closed union of property payloads, tagged by behavior.
pub enum PropsValue {
    Fragment(FragmentProps),
    ContextProvider(ContextProviderProps),
    View(ViewProps),
    Counter(CounterProps),
}

impl PropsValue {
    /// The behavior these properties belong to.
    pub open spec fn spec_kind(&self) -> ComponentKind {
        match self {
            PropsValue::Fragment(_) => ComponentKind::Fragment,
            PropsValue::ContextProvider(_) => ComponentKind::ContextProvider,
            PropsValue::View(_) => ComponentKind::View,
            PropsValue::Counter(_) => ComponentKind::Counter,
        }
    }

    /// Reads the behavior tag.
    pub fn kind(&self) -> (r: ComponentKind)
        ensures
            r == self.spec_kind(),
    {
        match self {
            PropsValue::Fragment(_) => ComponentKind::Fragment,
            PropsValue::ContextProvider(_) => ComponentKind::ContextProvider,
            PropsValue::View(_) => ComponentKind::View,
            PropsValue::Counter(_) => ComponentKind::Counter,
        }
    }
}

/// A type-erased, ownership-aware property cell.
///
/// Exactly one cell owns a given payload; borrowed cells are views of a
/// caller's payload and never free it.  Both constructors record the mode so
/// the destruction responsibility stays with the owner.
pub struct AnyProps {
    /// Whether this cell owns its payload.
    pub owned: bool,
    pub value: PropsValue,
}

impl AnyProps {
    pub open spec fn spec_kind(&self) -> ComponentKind {
        self.value.spec_kind()
    }

    /// The child elements these properties describe.
    pub open spec fn spec_children(&self) -> Seq<crate::element::AnyElement> {
        match self.value {
            PropsValue::Fragment(p) => p.children@,
            PropsValue::ContextProvider(p) => p.children@,
            PropsValue::View(p) => p.children@,
            PropsValue::Counter(_) => Seq::empty(),
        }
    }

    /// Wraps a payload the cell will own.
    pub fn owned(value: PropsValue) -> (r: AnyProps)
        ensures
            r.owned,
            r.value == value,
    {
        AnyProps { owned: true, value }
    }

    /// Wraps a payload owned by the caller.
    pub fn borrowed(value: PropsValue) -> (r: AnyProps)
        ensures
            !r.owned,
            r.value == value,
    {
        AnyProps { owned: false, value }
    }

    /// Reads the behavior tag of the payload.
    pub fn kind(&self) -> (r: ComponentKind)
        ensures
            r == self.spec_kind(),
    {
        self.value.kind()
    }
}

} // verus!
