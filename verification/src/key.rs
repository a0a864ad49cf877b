//! Identity keys for components.
//!
//! An [`ElementKey`] names one logical child across render passes.  It wraps a
//! comparable value from a closed set of key kinds; two keys are equal exactly
//! when their wrapped values are equal.  Keys identify children for
//! reconciliation and are never used for ordering.

use vstd::prelude::*;

verus! {

/// The value wrapped by an identity key: a number or a text label.
#[derive(Debug)]
pub enum KeyData {
    Num(u64),
    Text(String),
}

/// Mathematical image of a key: the same shape with the text as a sequence.
pub enum KeyView {
    Num(u64),
    Text(Seq<char>),
}

impl View for KeyData {
    type V = KeyView;

    open spec fn view(&self) -> KeyView {
        match self {
            KeyData::Num(n) => KeyView::Num(*n),
            KeyData::Text(s) => KeyView::Text(s@),
        }
    }
}

/// A stable identity for one logical child across render passes.
///
/// Equality delegates to the wrapped value: two keys are equal iff their
/// wrapped values are equal.
#[derive(Debug)]
pub struct ElementKey {
    pub data: KeyData,
}

impl View for ElementKey {
    type V = KeyView;

    open spec fn view(&self) -> KeyView {
        self.data@
    }
}

impl ElementKey {
    /// Wraps a value as an identity key.
    pub fn new(data: KeyData) -> (r: ElementKey)
        ensures
            r@ == data@,
    {
        ElementKey { data }
    }

    /// A numeric key, the common case for generated child lists.
    pub fn num(n: u64) -> (r: ElementKey)
        ensures
            r@ == KeyView::Num(n),
    {
        ElementKey { data: KeyData::Num(n) }
    }

    /// A text key.
    pub fn text(s: String) -> (r: ElementKey)
        ensures
            r@ == KeyView::Text(s@),
    {
        ElementKey { data: KeyData::Text(s) }
    }

    /// Whether two keys name the same logical child.
    pub fn key_eq(&self, other: &ElementKey) -> (r: bool)
        ensures
            r == (self@ == other@),
    {
        match &self.data {
            KeyData::Num(a) => match &other.data {
                KeyData::Num(b) => *a == *b,
                KeyData::Text(_) => false,
            },
            KeyData::Text(a) => match &other.data {
                KeyData::Num(_) => false,
                KeyData::Text(b) => *a == *b,
            },
        }
    }
}

impl Clone for ElementKey {
    /// Keys are shared freely between the child collection and the instances
    /// it holds; a clone names the same logical child.
    fn clone(&self) -> (r: ElementKey)
        ensures
            r@ == self@,
    {
        match &self.data {
            KeyData::Num(n) => ElementKey { data: KeyData::Num(*n) },
            KeyData::Text(s) => ElementKey { data: KeyData::Text(s.clone()) },
        }
    }
}

} // verus!
