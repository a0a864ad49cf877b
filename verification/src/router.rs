//! Navigation history.
//!
//! A bounded list of route contexts with a cursor.  Pushing a route drops
//! everything ahead of the cursor, going back and forward moves the cursor
//! without changing the list.

use crate::state::Value;
use vstd::prelude::*;

verus! {

/// One entry of the navigation history.
#[derive(Debug)]
pub struct RouteContext {
    /// The route's path.
    pub path: String,
    /// State carried along with the navigation, if any.
    pub state: Option<Value>,
}

/// Mathematical image of a route context.
pub struct RouteContextView {
    pub path: Seq<char>,
    pub state: Option<Value>,
}

impl View for RouteContext {
    type V = RouteContextView;

    open spec fn view(&self) -> RouteContextView {
        RouteContextView { path: self.path@, state: self.state }
    }
}

impl Clone for RouteContext {
    fn clone(&self) -> (r: RouteContext)
        ensures
            r@ == self@,
    {
        RouteContext { path: self.path.clone(), state: self.state }
    }
}

/// The navigation history: past and future entries around a cursor.
pub struct RouterHistory {
    /// The cursor: the position of the current route in `history`.
    pub current: usize,
    /// The entries, oldest first.
    pub history: Vec<RouteContext>,
    /// The bound on how much history is kept.
    pub max_length: usize,
}

impl RouterHistory {
    /// The entries after dropping the oldest when the bound is reached.
    pub open spec fn spec_after_evict(&self) -> Seq<RouteContext> {
        if self.history@.len() >= self.max_length && self.history@.len() > 0 {
            self.history@.drop_first()
        } else {
            self.history@
        }
    }

    /// Records a navigation: evicts the oldest entry if the bound is
    /// reached, advances the cursor, writes the new route there and drops
    /// every entry ahead of it.
    pub fn push(&mut self, context: RouteContext)
        requires
            old(self).current + 1 <= old(self).spec_after_evict().len(),
        ensures
            final(self).current == old(self).current + 1,
            final(self).history@ == old(self).spec_after_evict().take(
                old(self).current + 1,
            ).push(context),
            final(self).max_length == old(self).max_length,
    {
        if self.history.len() >= self.max_length {
            if self.history.len() > 0 {
                let _ = self.history.remove(0);
                proof {
                    assert(self.history@ =~= old(self).history@.drop_first());
                }
            }
        }
        self.current = self.current + 1;
        self.history.insert(self.current, context);
        self.history.truncate(self.current + 1);
        proof {
            assert(final(self).history@ =~= old(self).spec_after_evict().take(
                old(self).current + 1,
            ).push(context));
        }
    }

    /// Replaces the current route in place and drops every entry ahead of it.
    pub fn replace(&mut self, route: RouteContext)
        requires
            old(self).current < old(self).history@.len(),
        ensures
            final(self).current == old(self).current,
            final(self).history@ == old(self).history@.take(old(self).current as int).push(route),
            final(self).max_length == old(self).max_length,
    {
        let n = self.history.len();
        proof {
            assert(self.current < n);
        }
        self.history[self.current] = route;
        self.history.truncate(self.current + 1);
        proof {
            assert(final(self).history@ =~= old(self).history@.take(
                old(self).current as int,
            ).push(route));
        }
    }

    /// Moves the cursor one entry back; reports whether it moved.
    pub fn back(&mut self) -> (r: bool)
        ensures
            r == (old(self).current > 0),
            final(self).history@ == old(self).history@,
            final(self).max_length == old(self).max_length,
            r ==> final(self).current == old(self).current - 1,
            !r ==> final(self).current == old(self).current,
    {
        if self.current > 0 {
            self.current = self.current - 1;
            true
        } else {
            false
        }
    }

    /// Moves the cursor one entry forward; reports whether it moved.
    pub fn forward(&mut self) -> (r: bool)
        requires
            old(self).history@.len() > 0,
        ensures
            r == (old(self).current < old(self).history@.len() - 1),
            final(self).history@ == old(self).history@,
            final(self).max_length == old(self).max_length,
            r ==> final(self).current == old(self).current + 1,
            !r ==> final(self).current == old(self).current,
    {
        if self.current < self.history.len() - 1 {
            self.current = self.current + 1;
            true
        } else {
            false
        }
    }

    /// Moves the cursor by `n` entries, forward or back; reports whether the
    /// target was in range and the cursor moved.
    pub fn go(&mut self, n: i32) -> (r: bool)
        requires
            old(self).current <= i32::MAX,
            old(self).current + n <= i32::MAX,
            old(self).current + n >= i32::MIN,
        ensures
            r == (0 <= old(self).current + n < old(self).history@.len()),
            final(self).history@ == old(self).history@,
            final(self).max_length == old(self).max_length,
            r ==> final(self).current == old(self).current + n,
            !r ==> final(self).current == old(self).current,
    {
        let new_index = self.current as i32 + n;
        if new_index >= 0 && (new_index as usize) < self.history.len() {
            self.current = new_index as usize;
            true
        } else {
            false
        }
    }

    /// The route under the cursor.
    pub fn current_context(&self) -> (r: RouteContext)
        requires
            self.current < self.history@.len(),
        ensures
            r@ == self.history@[self.current as int]@,
    {
        self.history[self.current].clone()
    }
}

impl Default for RouterHistory {
    fn default() -> (r: RouterHistory)
        ensures
            r.current == 0,
            r.history@.len() == 0,
            r.max_length == 0,
    {
        RouterHistory { current: 0, history: Vec::new(), max_length: 0 }
    }
}

} // verus!
