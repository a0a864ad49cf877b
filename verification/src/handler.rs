//! Event callbacks for component properties.
//!
//! A [`Handler`] carries the reaction a component registered for an event,
//! from a closed set of actions over reactive cells.  A default handler does
//! nothing; `take` hands the handler out and resets the slot, as a callback
//! that is consumed when fired.

use crate::state::{State, StateArena, Value};
use vstd::prelude::*;

verus! {

/// What a handler does when it fires.
#[derive(Clone, Copy, Debug, PartialEq, Eq, Structural)]
pub enum HandlerAction {
    /// React by doing nothing.
    Inert,
    /// Add the given amount to an integer cell, wrapping on overflow.
    AddToState(State, i64),
    /// Overwrite a cell.
    SetState(State, Value),
}

/// An event callback slot.
#[derive(Clone, Copy, Debug, PartialEq, Eq, Structural)]
pub struct Handler {
    /// Whether a caller installed this handler, as opposed to the default.
    pub provided: bool,
    pub action: HandlerAction,
}

impl Default for Handler {
    fn default() -> (r: Handler)
        ensures
            !r.provided,
            r.action is Inert,
    {
        Handler { provided: false, action: HandlerAction::Inert }
    }
}

impl From<HandlerAction> for Handler {
    fn from(action: HandlerAction) -> (r: Handler) {
        Handler { provided: true, action }
    }
}

impl vstd::std_specs::convert::FromSpecImpl<HandlerAction> for Handler {
    open spec fn obeys_from_spec() -> bool {
        true
    }

    open spec fn from_spec(action: HandlerAction) -> Handler {
        Handler { provided: true, action }
    }
}

impl Handler {
    /// Whether this is the default, do-nothing handler.
    pub fn is_default(&self) -> (r: bool)
        ensures
            r == !self.provided,
    {
        !self.provided
    }

    /// Hands the handler out and resets the slot to the default.
    pub fn take(&mut self) -> (r: Handler)
        ensures
            r == *old(self),
            !final(self).provided,
            final(self).action is Inert,
    {
        let r = Handler { provided: self.provided, action: self.action };
        self.provided = false;
        self.action = HandlerAction::Inert;
        r
    }

    /// Fires the handler: applies its action to the cell arena through the
    /// full mutation path, so a mutation marks the cell changed and wakes
    /// its registered waiters.
    pub fn apply(&self, arena: &mut StateArena)
        ensures
            spec_fired_n(*old(arena), *final(arena), self.action, 1),
            match self.action {
                HandlerAction::Inert => *final(arena) == *old(arena),
                HandlerAction::AddToState(h, d) => {
                    &&& (old(arena).spec_valid(h) && !old(arena).spec_borrowed(h) && old(arena).spec_value(h) is Int) ==> {
                        &&& final(arena).spec_valid(h)
                        &&& final(arena).spec_value(h) == Value::Int(
                            old(arena).spec_value(h)->Int_0.wrapping_add(d),
                        )
                        &&& final(arena).spec_changed(h)
                        &&& !final(arena).spec_borrowed(h)
                        &&& final(arena).spec_shared(h) == old(arena).spec_shared(h)
                        &&& final(arena).wake_log@ == old(arena).wake_log@ + old(arena).spec_wakers(h)
                        &&& old(arena).same_slots_except(*final(arena), h.index as int)
                        &&& old(arena).same_cells_except(*final(arena), h)
                        &&& final(arena).slots@.len() == old(arena).slots@.len()
                    }
                    &&& !(old(arena).spec_valid(h) && !old(arena).spec_borrowed(h) && old(arena).spec_value(h) is Int) ==> *final(arena) == *old(arena)
                },
                HandlerAction::SetState(h, v) => {
                    &&& (old(arena).spec_valid(h) && !old(arena).spec_borrowed(h)) ==> {
                        &&& final(arena).spec_valid(h)
                        &&& final(arena).spec_value(h) == v
                        &&& final(arena).spec_changed(h)
                        &&& !final(arena).spec_borrowed(h)
                        &&& final(arena).spec_shared(h) == old(arena).spec_shared(h)
                        &&& final(arena).wake_log@ == old(arena).wake_log@ + old(arena).spec_wakers(h)
                        &&& old(arena).same_slots_except(*final(arena), h.index as int)
                        &&& old(arena).same_cells_except(*final(arena), h)
                        &&& final(arena).slots@.len() == old(arena).slots@.len()
                    }
                    &&& !(old(arena).spec_valid(h) && !old(arena).spec_borrowed(h)) ==> *final(arena) == *old(arena)
                },
            },
    {
        match self.action {
            HandlerAction::Inert => {},
            HandlerAction::AddToState(h, d) => {
                let _ = arena.add_to_int(h, d);
            },
            HandlerAction::SetState(h, v) => {
                let _ = arena.set(h, v);
            },
        }
        proof {
            reveal_with_fuel(spec_add_n, 2);
            reveal_with_fuel(spec_repeat, 2);
            match self.action {
                HandlerAction::Inert => {},
                HandlerAction::AddToState(h, _) => {
                    if old(arena).spec_valid(h) && !old(arena).spec_borrowed(h) && old(
                        arena,
                    ).spec_value(h) is Int && old(arena).spec_shared(h) {
                        assert(spec_repeat(old(arena).spec_wakers(h), 1) =~= old(
                            arena,
                        ).spec_wakers(h));
                    }
                },
                HandlerAction::SetState(h, _) => {
                    if old(arena).spec_valid(h) && !old(arena).spec_borrowed(h) && old(
                        arena,
                    ).spec_shared(h) {
                        assert(spec_repeat(old(arena).spec_wakers(h), 1) =~= old(
                            arena,
                        ).spec_wakers(h));
                    }
                },
            }
        }
    }
}

/// `x` after `n` wrapping additions of `d`, in firing order.
pub open spec fn spec_add_n(x: i64, d: i64, n: nat) -> i64
    decreases n,
{
    if n == 0 {
        x
    } else {
        spec_add_n(x, d, (n - 1) as nat).wrapping_add(d)
    }
}

/// `s` repeated `n` times, one copy appended per firing.
pub open spec fn spec_repeat(s: Seq<u64>, n: nat) -> Seq<u64>
    decreases n,
{
    if n == 0 {
        Seq::empty()
    } else {
        spec_repeat(s, (n - 1) as nat) + s
    }
}

/// The arena after a handler action fired `n` times in a row: the n-fold of
/// one firing.  A firing on a live, unborrowed cell of the right shape
/// lands its mutation, marks the cell changed, and delivers one wake per
/// registered waiter — a private cell's registration is cleared by the
/// first firing, a shared cell's is kept and woken again by every firing.
/// A firing that finds the cell stale, borrowed or of the wrong shape does
/// nothing, and an inert action never does anything.
pub open spec fn spec_fired_n(
    pre: StateArena,
    post: StateArena,
    action: HandlerAction,
    n: nat,
) -> bool {
    if n == 0 {
        post == pre
    } else {
        match action {
            HandlerAction::Inert => post == pre,
            HandlerAction::AddToState(h, d) => {
                if pre.spec_valid(h) && !pre.spec_borrowed(h) && pre.spec_value(h) is Int {
                    &&& post.spec_valid(h)
                    &&& post.spec_value(h) == Value::Int(
                        spec_add_n(pre.spec_value(h)->Int_0, d, n),
                    )
                    &&& post.spec_changed(h)
                    &&& !post.spec_borrowed(h)
                    &&& post.spec_shared(h) == pre.spec_shared(h)
                    &&& post.spec_wakers(h) == if pre.spec_shared(h) {
                        pre.spec_wakers(h)
                    } else {
                        Seq::<u64>::empty()
                    }
                    &&& post.wake_log@ == pre.wake_log@ + if pre.spec_shared(h) {
                        spec_repeat(pre.spec_wakers(h), n)
                    } else {
                        pre.spec_wakers(h)
                    }
                    &&& pre.same_cells_except(post, h)
                    &&& post.slots@.len() == pre.slots@.len()
                    &&& post.next_generation == pre.next_generation
                } else {
                    post == pre
                }
            },
            HandlerAction::SetState(h, v) => {
                if pre.spec_valid(h) && !pre.spec_borrowed(h) {
                    &&& post.spec_valid(h)
                    &&& post.spec_value(h) == v
                    &&& post.spec_changed(h)
                    &&& !post.spec_borrowed(h)
                    &&& post.spec_shared(h) == pre.spec_shared(h)
                    &&& post.spec_wakers(h) == if pre.spec_shared(h) {
                        pre.spec_wakers(h)
                    } else {
                        Seq::<u64>::empty()
                    }
                    &&& post.wake_log@ == pre.wake_log@ + if pre.spec_shared(h) {
                        spec_repeat(pre.spec_wakers(h), n)
                    } else {
                        pre.spec_wakers(h)
                    }
                    &&& pre.same_cells_except(post, h)
                    &&& post.slots@.len() == pre.slots@.len()
                    &&& post.next_generation == pre.next_generation
                } else {
                    post == pre
                }
            },
        }
    }
}

/// Firing once more extends an n-fold firing to an (n+1)-fold one.
#[verifier::spinoff_prover]
#[verifier::rlimit(100)]
pub proof fn lemma_fired_n_step(
    pre: StateArena,
    mid: StateArena,
    post: StateArena,
    action: HandlerAction,
    n: nat,
)
    requires
        spec_fired_n(pre, mid, action, n),
        spec_fired_n(mid, post, action, 1),
    ensures
        spec_fired_n(pre, post, action, n + 1),
{
    reveal_with_fuel(spec_add_n, 2);
    reveal_with_fuel(spec_repeat, 2);
    if n == 0 {
        return ;
    }
    match action {
        HandlerAction::Inert => {},
        HandlerAction::AddToState(h, d) => {
            if pre.spec_valid(h) && !pre.spec_borrowed(h) && pre.spec_value(h) is Int {
                assert(mid.spec_value(h) is Int);
                if pre.spec_shared(h) {
                    assert(post.wake_log@ =~= pre.wake_log@ + spec_repeat(
                        pre.spec_wakers(h),
                        n + 1,
                    ));
                } else {
                    assert(mid.spec_wakers(h) =~= Seq::<u64>::empty());
                    assert(post.wake_log@ =~= pre.wake_log@ + pre.spec_wakers(h));
                }
                pre.lemma_same_cells_trans(mid, post, h);
            }
        },
        HandlerAction::SetState(h, v) => {
            if pre.spec_valid(h) && !pre.spec_borrowed(h) {
                if pre.spec_shared(h) {
                    assert(post.wake_log@ =~= pre.wake_log@ + spec_repeat(
                        pre.spec_wakers(h),
                        n + 1,
                    ));
                } else {
                    assert(mid.spec_wakers(h) =~= Seq::<u64>::empty());
                    assert(post.wake_log@ =~= pre.wake_log@ + pre.spec_wakers(h));
                }
                pre.lemma_same_cells_trans(mid, post, h);
            }
        },
    }
}

} // verus!
