//! Built-in components.
//!
//! The closed set of behaviors the runtime knows: transparent containers,
//! a context provider, a layout view, and a counter that reacts to events
//! through a private state cell.

use crate::context::Context;
use crate::element::AnyElement;
use crate::layout::LayoutStyle;
use crate::props::Props;
use vstd::prelude::*;

verus! {

/// Properties of [`Fragment`]: a bare child list.
pub struct FragmentProps {
    pub children: Vec<AnyElement>,
}

impl Props for FragmentProps {

}

/// A transparent container that only groups its children.
#[derive(Clone, Copy, Debug, PartialEq, Eq, Structural)]
pub struct Fragment;

impl Fragment {
    pub fn new() -> (r: Fragment)
        ensures
            r == Fragment,
    {
        Fragment
    }
}

/// Properties of [`ContextProvider`]: a child list and the context entry to
/// push for it.
pub struct ContextProviderProps {
    pub children: Vec<AnyElement>,
    pub value: Option<Context>,
}

impl Props for ContextProviderProps {

}

/// A transparent container that pushes one context entry for the duration
/// of its subtree's evaluation.
#[derive(Clone, Copy, Debug, PartialEq, Eq, Structural)]
pub struct ContextProvider;

impl ContextProvider {
    pub fn new() -> (r: ContextProvider)
        ensures
            r == ContextProvider,
    {
        ContextProvider
    }
}

/// Properties of [`View`]: a child list and the layout intent to cache.
pub struct ViewProps {
    pub children: Vec<AnyElement>,
    pub layout_style: LayoutStyle,
}

impl Props for ViewProps {

}

/// A layout container: caches its layout intent for the draw pass.
#[derive(Clone, Copy, Debug, PartialEq, Eq, Structural)]
pub struct View;

impl View {
    pub fn new() -> (r: View)
        ensures
            r == View,
    {
        View
    }
}

/// Properties of [`Counter`]: how much each event adds.
#[derive(Clone, Copy, Debug, PartialEq, Eq, Structural)]
pub struct CounterProps {
    pub step: i64,
}

impl Props for CounterProps {

}

/// A leaf component holding one private integer cell, incremented by `step`
/// for every event its subscription receives.
#[derive(Clone, Copy, Debug, PartialEq, Eq, Structural)]
pub struct Counter;

impl Counter {
    pub fn new() -> (r: Counter)
        ensures
            r == Counter,
    {
        Counter
    }
}

} // verus!
