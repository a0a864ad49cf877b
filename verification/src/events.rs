//! Terminal event fan-out.
//!
//! One upstream event source is shared by many independently polled
//! downstream queues, one per interested hook.  Each queue buffers the events
//! it has not yet been polled for.  A queue whose owner was torn down is dead:
//! delivery prunes its buffer and skips it, so a torn-down subtree cannot
//! hold events alive.

use vstd::prelude::*;

verus! {

/// A terminal input event.
#[derive(Clone, Copy, Debug, PartialEq, Eq, Structural)]
pub enum Event {
    /// A timer or external tick.
    Tick,
    /// A key press, by code.
    Key(u16),
    /// A resize to the given width and height.
    Resize(u16, u16),
    /// The interrupt keystroke.
    CtrlC,
}

/// A handle to one downstream event queue.
#[derive(Clone, Copy, Debug, PartialEq, Eq, Structural)]
pub struct TerminalEvents {
    pub index: usize,
}

/// One downstream queue.
pub struct Subscriber {
    /// Cleared when the owning hook is torn down.
    pub alive: bool,
    /// Events delivered but not yet polled for.
    pub pending: Vec<Event>,
}

/// The upstream side of the fan-out.
pub struct EventHub {
    pub subscribers: Vec<Subscriber>,
    pub received_ctrl_c: bool,
}

impl EventHub {
    /// The queue behind `t` is live.
    pub open spec fn spec_alive(&self, t: TerminalEvents) -> bool {
        t.index < self.subscribers@.len() && self.subscribers@[t.index as int].alive
    }

    /// The buffered events behind `t`.
    pub open spec fn spec_pending(&self, t: TerminalEvents) -> Seq<Event> {
        self.subscribers@[t.index as int].pending@
    }

    /// Every subscriber other than `i` is exactly as it was.
    pub open spec fn same_subs_except(&self, post: EventHub, i: int) -> bool {
        &&& post.subscribers@.len() == self.subscribers@.len()
        &&& forall|j: int|
            0 <= j < self.subscribers@.len() && j != i ==> post.subscribers@[j]
                == self.subscribers@[j]
    }

    /// `post` differs from this hub only in that some subscribers were
    /// closed and emptied.
    pub open spec fn dissolves_to(&self, post: EventHub) -> bool {
        &&& post.subscribers@.len() == self.subscribers@.len()
        &&& forall|i: int|
            0 <= i < self.subscribers@.len() ==> (#[trigger] post.subscribers@[i])
                == self.subscribers@[i] || (!post.subscribers@[i].alive
                && post.subscribers@[i].pending@.len() == 0)
    }

    /// `post` extends this hub: old subscribers are unchanged or closed and
    /// emptied, and new ones may have been appended.
    pub open spec fn dissolves_into(&self, post: EventHub) -> bool {
        &&& post.subscribers@.len() >= self.subscribers@.len()
        &&& forall|i: int|
            0 <= i < self.subscribers@.len() ==> (#[trigger] post.subscribers@[i])
                == self.subscribers@[i] || (!post.subscribers@[i].alive
                && post.subscribers@[i].pending@.len() == 0)
    }

    /// The number of events a drain of `sub` fires: the queue's length when
    /// it is live, nothing otherwise.
    pub open spec fn spec_queue_len(&self, sub: TerminalEvents) -> nat {
        if sub.index < self.subscribers@.len() && self.subscribers@[sub.index as int].alive {
            self.spec_pending(sub).len()
        } else {
            0
        }
    }

    /// The hub after the queue behind `sub` was drained: a live queue is
    /// emptied in place, a dead or unknown one is left alone, and no other
    /// queue moves.
    pub open spec fn spec_drained_to(&self, post: EventHub, sub: TerminalEvents) -> bool {
        &&& post.subscribers@.len() == self.subscribers@.len()
        &&& forall|i: int|
            0 <= i < self.subscribers@.len() && i != sub.index ==> (
            #[trigger] post.subscribers@[i]) == self.subscribers@[i]
        &&& sub.index < self.subscribers@.len() ==> {
            &&& post.subscribers@[sub.index as int].alive == self.subscribers@[sub.index
                as int].alive
            &&& if self.subscribers@[sub.index as int].alive {
                post.subscribers@[sub.index as int].pending@.len() == 0
            } else {
                post.subscribers@[sub.index as int] == self.subscribers@[sub.index as int]
            }
        }
        &&& post.received_ctrl_c == self.received_ctrl_c
    }

    pub fn new() -> (r: EventHub)
        ensures
            r.subscribers@.len() == 0,
            !r.received_ctrl_c,
    {
        EventHub { subscribers: Vec::new(), received_ctrl_c: false }
    }

    pub fn received_ctrl_c(&self) -> (r: bool)
        ensures
            r == self.received_ctrl_c,
    {
        self.received_ctrl_c
    }

    /// Opens a fresh downstream queue and hands back its handle.
    pub fn events(&mut self) -> (t: TerminalEvents)
        ensures
            t.index == old(self).subscribers@.len(),
            final(self).subscribers@.len() == old(self).subscribers@.len() + 1,
            forall|j: int|
                0 <= j < old(self).subscribers@.len() ==> final(self).subscribers@[j] == old(
                    self,
                ).subscribers@[j],
            final(self).spec_alive(t),
            final(self).spec_pending(t) == Seq::<Event>::empty(),
            final(self).received_ctrl_c == old(self).received_ctrl_c,
    {
        let t = TerminalEvents { index: self.subscribers.len() };
        self.subscribers.push(Subscriber { alive: true, pending: Vec::new() });
        proof {
            assert(final(self).spec_pending(t) =~= Seq::<Event>::empty());
        }
        t
    }

    /// Closes the queue behind `t`; later deliveries skip it.
    pub fn unsubscribe(&mut self, t: TerminalEvents)
        ensures
            !final(self).spec_alive(t),
            old(self).same_subs_except(*final(self), t.index as int),
            t.index < old(self).subscribers@.len() ==> final(self).spec_pending(t)
                == Seq::<Event>::empty(),
            forall|t2: TerminalEvents|
                t2.index != t.index ==> final(self).spec_alive(t2) == old(self).spec_alive(t2),
            final(self).received_ctrl_c == old(self).received_ctrl_c,
    {
        if t.index < self.subscribers.len() {
            let s = &mut self.subscribers[t.index];
            s.alive = false;
            s.pending = Vec::new();
            proof {
                assert(final(self).spec_pending(t) =~= Seq::<Event>::empty());
            }
        }
    }

    /// Delivers one upstream event.  The interrupt keystroke only raises the
    /// interrupt flag; any other event is appended to every live queue, and
    /// dead queues are pruned in passing.
    pub fn dispatch(&mut self, e: Event)
        ensures
            e is CtrlC ==> {
                &&& final(self).received_ctrl_c
                &&& final(self).subscribers@ == old(self).subscribers@
            },
            !(e is CtrlC) ==> {
                &&& final(self).received_ctrl_c == old(self).received_ctrl_c
                &&& final(self).subscribers@.len() == old(self).subscribers@.len()
                &&& forall|j: int|
                    0 <= j < old(self).subscribers@.len() ==> final(self).subscribers@[j].alive
                        == old(self).subscribers@[j].alive
                &&& forall|j: int|
                    0 <= j < old(self).subscribers@.len() && old(self).subscribers@[j].alive
                        ==> final(self).subscribers@[j].pending@ == old(
                        self,
                    ).subscribers@[j].pending@.push(e)
                &&& forall|j: int|
                    0 <= j < old(self).subscribers@.len() && !old(self).subscribers@[j].alive
                        ==> final(self).subscribers@[j].pending@ == Seq::<Event>::empty()
            },
    {
        let is_interrupt = match e {
            Event::CtrlC => true,
            _ => false,
        };
        if is_interrupt {
            self.received_ctrl_c = true;
            return ;
        }
        let n = self.subscribers.len();
        let mut i: usize = 0;
        while i < n
            invariant
                i <= n,
                n == self.subscribers@.len(),
                self.subscribers@.len() == old(self).subscribers@.len(),
                self.received_ctrl_c == old(self).received_ctrl_c,
                forall|j: int| i <= j < n ==> self.subscribers@[j] == old(self).subscribers@[j],
                forall|j: int|
                    0 <= j < i ==> self.subscribers@[j].alive == old(self).subscribers@[j].alive,
                forall|j: int|
                    0 <= j < i && old(self).subscribers@[j].alive ==> self.subscribers@[j].pending@
                        == old(self).subscribers@[j].pending@.push(e),
                forall|j: int|
                    0 <= j < i && !old(self).subscribers@[j].alive ==> self.subscribers@[j].pending@
                        == Seq::<Event>::empty(),
            decreases n - i,
        {
            let s = &mut self.subscribers[i];
            if s.alive {
                s.pending.push(e);
            } else {
                s.pending = Vec::new();
                proof {
                    assert(self.subscribers@[i as int].pending@ =~= Seq::<Event>::empty());
                }
            }
            i = i + 1;
        }
    }

    /// Polls the queue behind `t` for its oldest buffered event.
    pub fn poll_next(&mut self, t: TerminalEvents) -> (r: Option<Event>)
        ensures
            match r {
                Some(e) => {
                    &&& old(self).spec_alive(t)
                    &&& old(self).spec_pending(t).len() > 0
                    &&& e == old(self).spec_pending(t)[0]
                    &&& final(self).spec_pending(t) == old(self).spec_pending(t).drop_first()
                    &&& old(self).same_subs_except(*final(self), t.index as int)
                    &&& final(self).spec_alive(t)
                    &&& final(self).received_ctrl_c == old(self).received_ctrl_c
                },
                None => {
                    &&& *final(self) == *old(self)
                    &&& (old(self).spec_alive(t) ==> old(self).spec_pending(t).len() == 0)
                },
            },
    {
        if t.index >= self.subscribers.len() {
            return None;
        }
        if !self.subscribers[t.index].alive {
            return None;
        }
        if self.subscribers[t.index].pending.len() == 0 {
            return None;
        }
        let s = &mut self.subscribers[t.index];
        let e = s.pending.remove(0);
        proof {
            assert(final(self).spec_pending(t) =~= old(self).spec_pending(t).drop_first());
        }
        Some(e)
    }
}

} // verus!
