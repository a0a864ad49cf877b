//! A reactive component runtime for text-cell user interfaces.
//!
//! Application code describes a tree of keyed, stateful components; on every
//! frame the tree reconciler matches the freshly produced description against
//! the previous pass by identity key and behavior kind, reusing, creating and
//! tearing down component instances.  Hook slots give each instance positional
//! persistent state, reactive cells track changes and wake the scheduler, and
//! a scoped context stack provides type-keyed dependency lookup.

pub mod key;
pub mod component;
pub mod components;
pub mod context;
pub mod element;
pub mod events;
pub mod handler;
pub mod hooks;
pub mod laws;
pub mod layout;
pub mod multimap;
pub mod props;
pub mod router;
pub mod state;
pub mod tree;
