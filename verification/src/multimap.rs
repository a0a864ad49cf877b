//! Insertion-ordered keyed multimaps for the child collection.
//!
//! [`AppendOnlyMultimap`] collects the children claimed by one render pass in
//! the order the pass produced them; [`RemoveOnlyMultimap`] is the settled
//! collection the next pass reclaims matching instances from, front first.
//! Both are viewed as the sequence of live `(key, value)` entries in
//! insertion order.

use crate::component::InstantiatedComponent;
use crate::key::{ElementKey, KeyView};
use vstd::prelude::*;

verus! {

/// The first position in `s` whose key has view `k` is `j`.
pub open spec fn is_first_key(s: Seq<(ElementKey, InstantiatedComponent)>, k: KeyView, j: int) -> bool {
    &&& 0 <= j < s.len()
    &&& s[j].0@ == k
    &&& forall|i: int| 0 <= i < j ==> s[i].0@ != k
}

/// An ordered keyed collection that only grows at the back.
pub struct AppendOnlyMultimap {
    pub items: Vec<(ElementKey, InstantiatedComponent)>,
}

impl Default for AppendOnlyMultimap {
    fn default() -> (r: Self)
        ensures
            r.items@.len() == 0,
    {
        AppendOnlyMultimap { items: Vec::new() }
    }
}

impl AppendOnlyMultimap {
    /// Appends a value under the given key, after every existing entry.
    pub fn push_back(&mut self, key: ElementKey, value: InstantiatedComponent)
        ensures
            final(self).items@ == old(self).items@.push((key, value)),
    {
        self.items.push((key, value));
    }

    /// The number of entries.
    pub fn len(&self) -> (r: usize)
        ensures
            r == self.items@.len(),
    {
        self.items.len()
    }
}

/// An ordered keyed collection that only shrinks, front first per key.
pub struct RemoveOnlyMultimap {
    pub items: Vec<(ElementKey, InstantiatedComponent)>,
}

impl Default for RemoveOnlyMultimap {
    fn default() -> (r: Self)
        ensures
            r.items@.len() == 0,
    {
        RemoveOnlyMultimap { items: Vec::new() }
    }
}

impl From<AppendOnlyMultimap> for RemoveOnlyMultimap {
    fn from(m: AppendOnlyMultimap) -> (r: RemoveOnlyMultimap) {
        RemoveOnlyMultimap { items: m.items }
    }
}

impl vstd::std_specs::convert::FromSpecImpl<AppendOnlyMultimap> for RemoveOnlyMultimap {
    open spec fn obeys_from_spec() -> bool {
        true
    }

    open spec fn from_spec(m: AppendOnlyMultimap) -> RemoveOnlyMultimap {
        RemoveOnlyMultimap { items: m.items }
    }
}

impl RemoveOnlyMultimap {
    /// Removes and returns the oldest entry stored under `key`, if any.
    pub fn pop_front(&mut self, key: &ElementKey) -> (r: Option<InstantiatedComponent>)
        ensures
            match r {
                Some(v) => exists|j: int|
                    {
                        &&& #[trigger] is_first_key(old(self).items@, key@, j)
                        &&& v == old(self).items@[j].1
                        &&& final(self).items@ == old(self).items@.remove(j)
                    },
                None => {
                    &&& final(self).items@ == old(self).items@
                    &&& forall|i: int|
                        0 <= i < old(self).items@.len() ==> old(self).items@[i].0@ != key@
                },
            },
    {
        let mut j: usize = 0;
        while j < self.items.len()
            invariant
                j <= self.items@.len(),
                *self == *old(self),
                forall|i: int| 0 <= i < j ==> old(self).items@[i].0@ != key@,
            decreases self.items@.len() - j,
        {
            if self.items[j].0.key_eq(key) {
                let (_, v) = self.items.remove(j);
                proof {
                    assert(is_first_key(old(self).items@, key@, j as int));
                }
                return Some(v);
            }
            j = j + 1;
        }
        None
    }

    /// Removes and returns the entry at the front, whatever its key.
    pub fn pop_front_entry(&mut self) -> (r: Option<(ElementKey, InstantiatedComponent)>)
        ensures
            match r {
                Some(e) => {
                    &&& old(self).items@.len() > 0
                    &&& e == old(self).items@[0]
                    &&& final(self).items@ == old(self).items@.drop_first()
                },
                None => {
                    &&& old(self).items@.len() == 0
                    &&& final(self).items@ == old(self).items@
                },
            },
    {
        if self.items.len() == 0 {
            return None;
        }
        let e = self.items.remove(0);
        Some(e)
    }

    /// The entry at position `i` of the remaining order, read-only.
    pub fn iter(&self, i: usize) -> (r: Option<&InstantiatedComponent>)
        ensures
            match r {
                Some(v) => i < self.items@.len() && *v == self.items@[i as int].1,
                None => i >= self.items@.len(),
            },
    {
        if i < self.items.len() {
            Some(&self.items[i].1)
        } else {
            None
        }
    }

    /// The entry at position `i` of the remaining order, writable.
    pub fn iter_mut(&mut self, i: usize) -> (r: Option<&mut InstantiatedComponent>)
        ensures
            match r {
                Some(v) => {
                    &&& i < old(self).items@.len()
                    &&& *v == old(self).items@[i as int].1
                    &&& final(self).items@ == old(self).items@.update(
                        i as int,
                        (old(self).items@[i as int].0, *final(v)),
                    )
                },
                None => i >= old(self).items@.len() && final(self).items@ == old(self).items@,
            },
    {
        if i < self.items.len() {
            Some(&mut self.items[i].1)
        } else {
            None
        }
    }

    /// The key at position `i` of the remaining order.
    pub fn key_at(&self, i: usize) -> (r: Option<&ElementKey>)
        ensures
            match r {
                Some(k) => i < self.items@.len() && *k == self.items@[i as int].0,
                None => i >= self.items@.len(),
            },
    {
        if i < self.items.len() {
            Some(&self.items[i].0)
        } else {
            None
        }
    }

    /// The number of entries left.
    pub fn len(&self) -> (r: usize)
        ensures
            r == self.items@.len(),
    {
        self.items.len()
    }
}

} // verus!
