//! Reactive state cells.
//!
//! Cells live in an explicit arena of slots; a [`State`] handle is an index
//! plus the generation the slot carried when the cell was created.  Slots are
//! retired when their owning hook is torn down and are never reused, so a
//! stale handle fails cleanly instead of aliasing another cell.
//!
//! A writable borrow takes the value out as a guard.  Only if the guard is
//! actually written through does releasing it mark the cell changed, deliver
//! a wake to every registered waiter and, for a private cell, clear the
//! registration; a guard that was only read leaves the cell untouched.

use vstd::prelude::*;

verus! {

/// The closed set of values a reactive cell can hold.
#[derive(Clone, Copy, Debug, PartialEq, Eq, Structural)]
pub enum Value {
    Int(i64),
    Flag(bool),
}

/// Why a cell access failed.
#[derive(Clone, Copy, Debug, PartialEq, Eq, Structural)]
pub enum StateError {
    /// The owning slot was torn down; the handle is stale.
    Released,
    /// A writable borrow is outstanding.
    Borrowed,
    /// The cell holds a different shape of value than the operation
    /// expects: the typed error a checked downcast reports instead of
    /// undefined behavior.
    TypeMismatch,
}

/// A copyable handle to one reactive cell.
#[derive(Clone, Copy, Debug, PartialEq, Eq, Structural)]
pub struct State {
    pub index: usize,
    pub generation: u64,
}

/// One arena slot backing a reactive cell.
pub struct Slot {
    pub generation: u64,
    /// The current value; `None` once the cell is released.
    pub value: Option<Value>,
    /// Whether a writable borrow is outstanding.
    pub borrowed: bool,
    /// Whether a mutation has happened since the last poll.
    pub changed: bool,
    /// Waiters to wake on the next mutation, by instance id.
    pub wakers: Vec<u64>,
    /// Shared cells keep their waiter set across a wake; private cells clear
    /// it as the wake is delivered.
    pub shared: bool,
}

/// A writable borrow of a cell, held as a value until released.
#[derive(Debug)]
pub struct StateMutRef {
    pub handle: State,
    pub value: Value,
    /// Set once the borrow is written through.
    pub dirty: bool,
}

impl StateMutRef {
    /// Reads the borrowed value without counting as a mutation.
    pub fn get(&self) -> (r: Value)
        ensures
            r == self.value,
    {
        self.value
    }

    /// Overwrites the borrowed value; counts as a mutation.
    pub fn set(&mut self, v: Value)
        ensures
            final(self).handle == old(self).handle,
            final(self).value == v,
            final(self).dirty,
    {
        self.value = v;
        self.dirty = true;
    }

    /// Writable access to the borrowed value; counts as a mutation even if
    /// the caller never writes through the reference.
    pub fn value_mut(&mut self) -> (r: &mut Value)
        ensures
            *r == old(self).value,
            final(self).handle == old(self).handle,
            final(self).value == *final(r),
            final(self).dirty,
    {
        self.dirty = true;
        &mut self.value
    }
}

/// The arena of reactive cells, with the log of delivered wakes.
pub struct StateArena {
    pub slots: Vec<Slot>,
    pub next_generation: u64,
    /// Every wake delivered so far, in order, by instance id.
    pub wake_log: Vec<u64>,
}

impl StateArena {
    /// The handle points at a live cell.
    pub open spec fn spec_valid(&self, h: State) -> bool {
        &&& h.index < self.slots@.len()
        &&& self.slots@[h.index as int].generation == h.generation
        &&& self.slots@[h.index as int].value is Some
    }

    /// The value of a live cell.
    pub open spec fn spec_value(&self, h: State) -> Value {
        self.slots@[h.index as int].value->0
    }

    pub open spec fn spec_changed(&self, h: State) -> bool {
        self.slots@[h.index as int].changed
    }

    pub open spec fn spec_borrowed(&self, h: State) -> bool {
        self.slots@[h.index as int].borrowed
    }

    pub open spec fn spec_wakers(&self, h: State) -> Seq<u64> {
        self.slots@[h.index as int].wakers@
    }

    pub open spec fn spec_shared(&self, h: State) -> bool {
        self.slots@[h.index as int].shared
    }

    /// Every slot other than `i` is exactly as it was.
    pub open spec fn same_slots_except(&self, post: StateArena, i: int) -> bool {
        &&& post.slots@.len() == self.slots@.len()
        &&& forall|j: int| 0 <= j < self.slots@.len() && j != i ==> post.slots@[j] == self.slots@[j]
    }

    /// Every live cell other than the one behind `h` is exactly as it was.
    pub open spec fn same_cells_except(&self, post: StateArena, h: State) -> bool {
        forall|h2: State|
            h2 != h && self.spec_valid(h2) ==> {
                &&& (#[trigger] post.spec_valid(h2))
                &&& post.spec_value(h2) == self.spec_value(h2)
                &&& post.spec_changed(h2) == self.spec_changed(h2)
                &&& post.spec_borrowed(h2) == self.spec_borrowed(h2)
                &&& post.spec_wakers(h2) == self.spec_wakers(h2)
                &&& post.spec_shared(h2) == self.spec_shared(h2)
            }
    }

    /// Leaving every other live cell untouched composes.
    pub proof fn lemma_same_cells_trans(self, mid: StateArena, post: StateArena, h: State)
        requires
            self.same_cells_except(mid, h),
            mid.same_cells_except(post, h),
        ensures
            self.same_cells_except(post, h),
    {
        assert forall|h2: State|
            h2 != h && self.spec_valid(h2) implies #[trigger] post.spec_valid(h2) by {
            assert(mid.spec_valid(h2));
        }
        assert forall|h2: State|
            h2 != h && self.spec_valid(h2) implies #[trigger] post.spec_value(h2)
            == self.spec_value(h2) by {
            assert(mid.spec_valid(h2));
            assert(post.spec_valid(h2));
            assert(mid.spec_value(h2) == self.spec_value(h2));
        }
        assert forall|h2: State|
            h2 != h && self.spec_valid(h2) implies #[trigger] post.spec_changed(h2)
            == self.spec_changed(h2) by {
            assert(mid.spec_valid(h2));
            assert(post.spec_valid(h2));
            assert(mid.spec_changed(h2) == self.spec_changed(h2));
        }
        assert forall|h2: State|
            h2 != h && self.spec_valid(h2) implies #[trigger] post.spec_borrowed(h2)
            == self.spec_borrowed(h2) by {
            assert(mid.spec_valid(h2));
            assert(post.spec_valid(h2));
            assert(mid.spec_borrowed(h2) == self.spec_borrowed(h2));
        }
        assert forall|h2: State|
            h2 != h && self.spec_valid(h2) implies #[trigger] post.spec_wakers(h2)
            == self.spec_wakers(h2) by {
            assert(mid.spec_valid(h2));
            assert(post.spec_valid(h2));
            assert(mid.spec_wakers(h2) == self.spec_wakers(h2));
        }
        assert forall|h2: State|
            h2 != h && self.spec_valid(h2) implies #[trigger] post.spec_shared(h2)
            == self.spec_shared(h2) by {
            assert(mid.spec_valid(h2));
            assert(post.spec_valid(h2));
            assert(mid.spec_shared(h2) == self.spec_shared(h2));
        }
    }

    pub fn new() -> (r: StateArena)
        ensures
            r.slots@.len() == 0,
            r.wake_log@.len() == 0,
    {
        StateArena { slots: Vec::new(), next_generation: 0, wake_log: Vec::new() }
    }

    /// Creates a cell. `shared` picks the waiter-set policy: a shared cell
    /// keeps its waiters across a wake, a private cell clears them.
    fn insert_slot(&mut self, init: Value, shared: bool) -> (h: State)
        ensures
            !old(self).spec_valid(h),
            final(self).spec_valid(h),
            h.index == old(self).slots@.len(),
            final(self).spec_value(h) == init,
            !final(self).spec_changed(h),
            !final(self).spec_borrowed(h),
            final(self).spec_wakers(h) == Seq::<u64>::empty(),
            final(self).spec_shared(h) == shared,
            final(self).slots@.len() == old(self).slots@.len() + 1,
            forall|j: int|
                0 <= j < old(self).slots@.len() ==> final(self).slots@[j] == old(self).slots@[j],
            final(self).wake_log@ == old(self).wake_log@,
    {
        let generation = self.next_generation;
        self.next_generation = self.next_generation.wrapping_add(1);
        let h = State { index: self.slots.len(), generation };
        self.slots.push(
            Slot {
                generation,
                value: Some(init),
                borrowed: false,
                changed: false,
                wakers: Vec::new(),
                shared,
            },
        );
        h
    }

    /// Creates a private cell, the backing of one hook's state.
    pub fn insert(&mut self, init: Value) -> (h: State)
        ensures
            !old(self).spec_valid(h),
            final(self).spec_valid(h),
            h.index == old(self).slots@.len(),
            final(self).spec_value(h) == init,
            !final(self).spec_changed(h),
            !final(self).spec_borrowed(h),
            final(self).spec_wakers(h) == Seq::<u64>::empty(),
            !final(self).spec_shared(h),
            final(self).slots@.len() == old(self).slots@.len() + 1,
            forall|j: int|
                0 <= j < old(self).slots@.len() ==> final(self).slots@[j] == old(self).slots@[j],
            final(self).wake_log@ == old(self).wake_log@,
    {
        self.insert_slot(init, false)
    }

    /// Creates a shared cell for a cross-tree store.
    pub fn insert_shared(&mut self, init: Value) -> (h: State)
        ensures
            !old(self).spec_valid(h),
            final(self).spec_valid(h),
            h.index == old(self).slots@.len(),
            final(self).spec_value(h) == init,
            !final(self).spec_changed(h),
            !final(self).spec_borrowed(h),
            final(self).spec_wakers(h) == Seq::<u64>::empty(),
            final(self).spec_shared(h),
            final(self).slots@.len() == old(self).slots@.len() + 1,
            forall|j: int|
                0 <= j < old(self).slots@.len() ==> final(self).slots@[j] == old(self).slots@[j],
            final(self).wake_log@ == old(self).wake_log@,
    {
        self.insert_slot(init, true)
    }

    /// Tears the cell down.  The handle, and every copy of it, is stale from
    /// here on: reads and writes fail with [`StateError::Released`].
    pub fn free(&mut self, h: State)
        ensures
            !final(self).spec_valid(h),
            old(self).same_slots_except(*final(self), h.index as int),
            forall|h2: State|
                h2.index != h.index ==> final(self).spec_valid(h2) == old(self).spec_valid(h2),
            forall|h2: State| !old(self).spec_valid(h2) ==> !final(self).spec_valid(h2),
            !old(self).spec_valid(h) ==> *final(self) == *old(self),
            final(self).slots@.len() == old(self).slots@.len(),
            final(self).next_generation == old(self).next_generation,
            final(self).wake_log@ == old(self).wake_log@,
    {
        if h.index < self.slots.len() {
            let live = self.slots[h.index].generation == h.generation
                && self.slots[h.index].value.is_some();
            if live {
                let slot = &mut self.slots[h.index];
                slot.value = None;
                slot.borrowed = false;
                slot.changed = false;
                slot.wakers = Vec::new();
            }
        }
    }

    /// Read-only access to the cell's value; never marks it changed.
    pub fn try_read(&self, h: State) -> (r: Result<&Value, StateError>)
        ensures
            match r {
                Ok(v) => self.spec_valid(h) && !self.spec_borrowed(h) && *v == self.spec_value(h),
                Err(e) => match e {
                    StateError::Released => !self.spec_valid(h),
                    StateError::Borrowed => self.spec_valid(h) && self.spec_borrowed(h),
                    StateError::TypeMismatch => false,
                },
            },
    {
        if h.index >= self.slots.len() {
            return Err(StateError::Released);
        }
        let slot = &self.slots[h.index];
        if slot.generation != h.generation {
            return Err(StateError::Released);
        }
        match &slot.value {
            Some(v) => {
                if slot.borrowed {
                    Err(StateError::Borrowed)
                } else {
                    Ok(v)
                }
            },
            None => Err(StateError::Released),
        }
    }

    /// Read-only access for callers that know the cell is live and unborrowed.
    pub fn read(&self, h: State) -> (r: &Value)
        requires
            self.spec_valid(h),
            !self.spec_borrowed(h),
        ensures
            *r == self.spec_value(h),
    {
        match self.try_read(h) {
            Ok(v) => v,
            Err(_) => vstd::pervasive::unreached(),
        }
    }

    /// The value of a live, unborrowed cell, by copy.
    pub fn get(&self, h: State) -> (r: Value)
        requires
            self.spec_valid(h),
            !self.spec_borrowed(h),
        ensures
            r == self.spec_value(h),
    {
        *self.read(h)
    }

    /// Takes a writable borrow.  Fails fast if the cell is stale or a borrow
    /// is already outstanding; never waits.
    pub fn try_write(&mut self, h: State) -> (r: Result<StateMutRef, StateError>)
        ensures
            match r {
                Ok(g) => {
                    &&& old(self).spec_valid(h)
                    &&& !old(self).spec_borrowed(h)
                    &&& g.handle == h
                    &&& g.value == old(self).spec_value(h)
                    &&& !g.dirty
                    &&& final(self).spec_borrowed(h)
                    &&& final(self).spec_valid(h)
                    &&& final(self).spec_value(h) == old(self).spec_value(h)
                    &&& final(self).spec_changed(h) == old(self).spec_changed(h)
                    &&& final(self).spec_wakers(h) == old(self).spec_wakers(h)
                    &&& final(self).spec_shared(h) == old(self).spec_shared(h)
                    &&& old(self).same_slots_except(*final(self), h.index as int)
                    &&& final(self).wake_log@ == old(self).wake_log@
                    &&& final(self).next_generation == old(self).next_generation
                },
                Err(e) => {
                    &&& *final(self) == *old(self)
                    &&& match e {
                        StateError::Released => !old(self).spec_valid(h),
                        StateError::Borrowed => old(self).spec_valid(h) && old(
                            self,
                        ).spec_borrowed(h),
                        StateError::TypeMismatch => false,
                    }
                },
            },
    {
        if h.index >= self.slots.len() {
            return Err(StateError::Released);
        }
        if self.slots[h.index].generation != h.generation {
            return Err(StateError::Released);
        }
        let value = match &self.slots[h.index].value {
            Some(v) => *v,
            None => {
                return Err(StateError::Released);
            },
        };
        if self.slots[h.index].borrowed {
            return Err(StateError::Borrowed);
        }
        let slot = &mut self.slots[h.index];
        slot.borrowed = true;
        Ok(StateMutRef { handle: h, value, dirty: false })
    }

    /// A writable borrow for callers that know the cell is live and unborrowed.
    pub fn write(&mut self, h: State) -> (g: StateMutRef)
        requires
            old(self).spec_valid(h),
            !old(self).spec_borrowed(h),
        ensures
            g.handle == h,
            g.value == old(self).spec_value(h),
            !g.dirty,
            final(self).spec_borrowed(h),
            final(self).spec_valid(h),
            final(self).spec_value(h) == old(self).spec_value(h),
            final(self).spec_changed(h) == old(self).spec_changed(h),
            final(self).spec_wakers(h) == old(self).spec_wakers(h),
            final(self).spec_shared(h) == old(self).spec_shared(h),
            old(self).same_slots_except(*final(self), h.index as int),
            final(self).wake_log@ == old(self).wake_log@,
            final(self).next_generation == old(self).next_generation,
    {
        match self.try_write(h) {
            Ok(g) => g,
            Err(_) => vstd::pervasive::unreached(),
        }
    }

    /// Releases a writable borrow.  Exactly when the borrow was written
    /// through, the new value lands, the cell is marked changed, one wake is
    /// delivered to every registered waiter, and a private cell's
    /// registration is cleared.  An unwritten borrow releases with no trace.
    pub fn release(&mut self, g: StateMutRef)
        requires
            old(self).spec_valid(g.handle),
            old(self).spec_borrowed(g.handle),
        ensures
            final(self).spec_valid(g.handle),
            !final(self).spec_borrowed(g.handle),
            old(self).same_slots_except(*final(self), g.handle.index as int),
            final(self).spec_shared(g.handle) == old(self).spec_shared(g.handle),
            final(self).next_generation == old(self).next_generation,
            g.dirty ==> {
                &&& final(self).spec_value(g.handle) == g.value
                &&& final(self).spec_changed(g.handle)
                &&& final(self).wake_log@ == old(self).wake_log@ + old(self).spec_wakers(g.handle)
                &&& final(self).spec_wakers(g.handle) == if old(self).spec_shared(g.handle) {
                    old(self).spec_wakers(g.handle)
                } else {
                    Seq::<u64>::empty()
                }
            },
            !g.dirty ==> {
                &&& final(self).spec_value(g.handle) == old(self).spec_value(g.handle)
                &&& final(self).spec_changed(g.handle) == old(self).spec_changed(g.handle)
                &&& final(self).spec_wakers(g.handle) == old(self).spec_wakers(g.handle)
                &&& final(self).wake_log@ == old(self).wake_log@
            },
    {
        let h = g.handle;
        if g.dirty {
            let shared = self.slots[h.index].shared;
            let mut waiting: Vec<u64> = Vec::new();
            let slot = &mut self.slots[h.index];
            std::mem::swap(&mut waiting, &mut slot.wakers);
            slot.borrowed = false;
            slot.value = Some(g.value);
            slot.changed = true;
            self.append_wake_log(&waiting);
            if shared {
                let back = &mut self.slots[h.index];
                back.wakers = waiting;
            } else {
                proof {
                    assert(final(self).spec_wakers(g.handle) =~= Seq::<u64>::empty());
                }
            }
        } else {
            let slot = &mut self.slots[h.index];
            slot.borrowed = false;
        }
    }

    /// Appends the drained waiter list to the wake log, one delivered wake
    /// per waiter, in registration order.
    fn append_wake_log(&mut self, ws: &Vec<u64>)
        ensures
            final(self).slots@ == old(self).slots@,
            final(self).next_generation == old(self).next_generation,
            final(self).wake_log@ == old(self).wake_log@ + ws@,
    {
        proof {
            assert(self.wake_log@ =~= self.wake_log@ + ws@.take(0));
        }
        let mut i: usize = 0;
        while i < ws.len()
            invariant
                i <= ws@.len(),
                self.slots@ == old(self).slots@,
                self.next_generation == old(self).next_generation,
                self.wake_log@ == old(self).wake_log@ + ws@.take(i as int),
            decreases ws@.len() - i,
        {
            self.wake_log.push(ws[i]);
            proof {
                assert(self.wake_log@ =~= old(self).wake_log@ + ws@.take(i + 1));
            }
            i = i + 1;
        }
        proof {
            assert(ws@.take(ws@.len() as int) =~= ws@);
        }
    }

    /// Write-then-overwrite: always counts as a mutation when the cell is
    /// writable; a stale or borrowed cell is left untouched and the fault
    /// is reported.
    pub fn set(&mut self, h: State, v: Value) -> (r: Result<(), StateError>)
        ensures
            r == if !old(self).spec_valid(h) {
                Result::<(), StateError>::Err(StateError::Released)
            } else if old(self).spec_borrowed(h) {
                Result::<(), StateError>::Err(StateError::Borrowed)
            } else {
                Result::<(), StateError>::Ok(())
            },
            old(self).spec_valid(h) && !old(self).spec_borrowed(h) ==> {
                &&& final(self).spec_valid(h)
                &&& final(self).spec_value(h) == v
                &&& final(self).spec_changed(h)
                &&& !final(self).spec_borrowed(h)
                &&& final(self).spec_shared(h) == old(self).spec_shared(h)
                &&& final(self).wake_log@ == old(self).wake_log@ + old(self).spec_wakers(h)
                &&& final(self).spec_wakers(h) == if old(self).spec_shared(h) {
                    old(self).spec_wakers(h)
                } else {
                    Seq::<u64>::empty()
                }
                &&& old(self).same_slots_except(*final(self), h.index as int)
                &&& old(self).same_cells_except(*final(self), h)
                &&& final(self).slots@.len() == old(self).slots@.len()
                &&& final(self).next_generation == old(self).next_generation
            },
            !(old(self).spec_valid(h) && !old(self).spec_borrowed(h)) ==> *final(self) == *old(
                self,
            ),
    {
        let r = match self.try_write(h) {
            Ok(mut g) => {
                g.set(v);
                self.release(g);
                Ok(())
            },
            Err(e) => Err(e),
        };
        proof {
            if old(self).spec_valid(h) && !old(self).spec_borrowed(h) {
                assert forall|h2: State| h2 != h && old(self).spec_valid(h2) implies {
                    &&& (#[trigger] self.spec_valid(h2))
                    &&& self.spec_value(h2) == old(self).spec_value(h2)
                    &&& self.spec_changed(h2) == old(self).spec_changed(h2)
                    &&& self.spec_borrowed(h2) == old(self).spec_borrowed(h2)
                    &&& self.spec_wakers(h2) == old(self).spec_wakers(h2)
                    &&& self.spec_shared(h2) == old(self).spec_shared(h2)
                } by {
                    if h2.index == h.index {
                        assert(h2.generation == old(self).slots@[h.index as int].generation);
                        assert(h.generation == old(self).slots@[h.index as int].generation);
                        assert(h2 == h);
                    } else {
                        assert(self.slots@[h2.index as int] == old(self).slots@[h2.index as int]);
                    }
                }
            }
        }
        r
    }

    /// Adds to an integer cell through the full mutation path, wrapping on
    /// overflow; a stale, borrowed or non-integer cell is left untouched
    /// and the fault is reported.
    pub fn add_to_int(&mut self, h: State, d: i64) -> (r: Result<(), StateError>)
        ensures
            r == if !old(self).spec_valid(h) {
                Result::<(), StateError>::Err(StateError::Released)
            } else if old(self).spec_borrowed(h) {
                Result::<(), StateError>::Err(StateError::Borrowed)
            } else if !(old(self).spec_value(h) is Int) {
                Result::<(), StateError>::Err(StateError::TypeMismatch)
            } else {
                Result::<(), StateError>::Ok(())
            },
            (old(self).spec_valid(h) && !old(self).spec_borrowed(h) && old(self).spec_value(
                h,
            ) is Int) ==> {
                &&& final(self).spec_valid(h)
                &&& final(self).spec_value(h) == Value::Int(
                    old(self).spec_value(h)->Int_0.wrapping_add(d),
                )
                &&& final(self).spec_changed(h)
                &&& !final(self).spec_borrowed(h)
                &&& final(self).spec_shared(h) == old(self).spec_shared(h)
                &&& final(self).wake_log@ == old(self).wake_log@ + old(self).spec_wakers(h)
                &&& final(self).spec_wakers(h) == if old(self).spec_shared(h) {
                    old(self).spec_wakers(h)
                } else {
                    Seq::<u64>::empty()
                }
                &&& old(self).same_slots_except(*final(self), h.index as int)
                &&& old(self).same_cells_except(*final(self), h)
                &&& final(self).slots@.len() == old(self).slots@.len()
                &&& final(self).next_generation == old(self).next_generation
            },
            !(old(self).spec_valid(h) && !old(self).spec_borrowed(h) && old(self).spec_value(
                h,
            ) is Int) ==> *final(self) == *old(self),
    {
        let verdict = match self.try_read(h) {
            Ok(v) => match v {
                Value::Int(_) => Ok(()),
                Value::Flag(_) => Err(StateError::TypeMismatch),
            },
            Err(e) => Err(e),
        };
        let r = match verdict {
            Ok(_) => {
                let mut g = self.write(h);
                let x = match g.get() {
                    Value::Int(x) => x,
                    Value::Flag(_) => vstd::pervasive::unreached(),
                };
                g.set(Value::Int(x.wrapping_add(d)));
                self.release(g);
                Ok(())
            },
            Err(e) => Err(e),
        };
        proof {
            if old(self).spec_valid(h) && !old(self).spec_borrowed(h) {
                assert forall|h2: State| h2 != h && old(self).spec_valid(h2) implies {
                    &&& (#[trigger] self.spec_valid(h2))
                    &&& self.spec_value(h2) == old(self).spec_value(h2)
                    &&& self.spec_changed(h2) == old(self).spec_changed(h2)
                    &&& self.spec_borrowed(h2) == old(self).spec_borrowed(h2)
                    &&& self.spec_wakers(h2) == old(self).spec_wakers(h2)
                    &&& self.spec_shared(h2) == old(self).spec_shared(h2)
                } by {
                    if h2.index == h.index {
                        assert(h2.generation == old(self).slots@[h.index as int].generation);
                        assert(h.generation == old(self).slots@[h.index as int].generation);
                        assert(h2 == h);
                    } else {
                        assert(self.slots@[h2.index as int] == old(self).slots@[h2.index as int]);
                    }
                }
            }
        }
        r
    }

    /// Registers the single outstanding waiter of a private cell, replacing
    /// any previous registration; does nothing on a stale or borrowed cell.
    pub fn set_waker(&mut self, h: State, id: u64)
        ensures
            old(self).spec_valid(h) && !old(self).spec_borrowed(h) ==> {
                &&& final(self).spec_wakers(h) == seq![id]
                &&& final(self).spec_valid(h)
                &&& final(self).spec_value(h) == old(self).spec_value(h)
                &&& final(self).spec_changed(h) == old(self).spec_changed(h)
                &&& !final(self).spec_borrowed(h)
                &&& final(self).spec_shared(h) == old(self).spec_shared(h)
                &&& old(self).same_slots_except(*final(self), h.index as int)
                &&& old(self).same_cells_except(*final(self), h)
                &&& final(self).wake_log@ == old(self).wake_log@
            },
            !(old(self).spec_valid(h) && !old(self).spec_borrowed(h)) ==> *final(self) == *old(
                self,
            ),
    {
        if h.index < self.slots.len() {
            let live = self.slots[h.index].generation == h.generation
                && self.slots[h.index].value.is_some() && !self.slots[h.index].borrowed;
            if live {
                let slot = &mut self.slots[h.index];
                let mut w: Vec<u64> = Vec::new();
                w.push(id);
                slot.wakers = w;
                proof {
                    assert(final(self).spec_wakers(h) =~= seq![id]);
                }
            }
        }
    }

    /// Adds one consuming instance to a shared cell's waiter set, once;
    /// does nothing on a stale or borrowed cell.
    pub fn add_waker(&mut self, h: State, id: u64)
        ensures
            old(self).spec_valid(h) && !old(self).spec_borrowed(h) ==> {
                &&& final(self).spec_wakers(h) == if old(self).spec_wakers(h).contains(id) {
                    old(self).spec_wakers(h)
                } else {
                    old(self).spec_wakers(h).push(id)
                }
                &&& final(self).spec_valid(h)
                &&& final(self).spec_value(h) == old(self).spec_value(h)
                &&& final(self).spec_changed(h) == old(self).spec_changed(h)
                &&& !final(self).spec_borrowed(h)
                &&& final(self).spec_shared(h) == old(self).spec_shared(h)
                &&& old(self).same_slots_except(*final(self), h.index as int)
                &&& old(self).same_cells_except(*final(self), h)
                &&& final(self).wake_log@ == old(self).wake_log@
            },
            !(old(self).spec_valid(h) && !old(self).spec_borrowed(h)) ==> *final(self) == *old(
                self,
            ),
    {
        if h.index < self.slots.len() {
            let live = self.slots[h.index].generation == h.generation
                && self.slots[h.index].value.is_some() && !self.slots[h.index].borrowed;
            if live {
                let n = self.slots[h.index].wakers.len();
                let mut present = false;
                let mut i: usize = 0;
                while i < n
                    invariant
                        i <= n,
                        n == self.slots@[h.index as int].wakers@.len(),
                        h.index < self.slots@.len(),
                        *self == *old(self),
                        present <==> exists|k: int|
                            0 <= k < i && self.slots@[h.index as int].wakers@[k] == id,
                    decreases n - i,
                {
                    if self.slots[h.index].wakers[i] == id {
                        present = true;
                        proof {
                            assert(self.slots@[h.index as int].wakers@[i as int] == id);
                        }
                    }
                    i = i + 1;
                }
                proof {
                    if present {
                        assert(self.slots@[h.index as int].wakers@.contains(id));
                    } else {
                        assert(forall|k: int|
                            0 <= k < n ==> self.slots@[h.index as int].wakers@[k] != id);
                        assert(!self.slots@[h.index as int].wakers@.contains(id));
                    }
                }
                if !present {
                    let slot = &mut self.slots[h.index];
                    slot.wakers.push(id);
                }
            }
        }
    }

    /// Consumes the cell's changed mark: reports and clears it, clearing a
    /// shared cell's drained waiter set with it.  Reports `false` on a
    /// stale or borrowed cell.
    pub fn take_change(&mut self, h: State) -> (r: bool)
        ensures
            r == (old(self).spec_valid(h) && !old(self).spec_borrowed(h) && old(self).spec_changed(
                h,
            )),
            r ==> {
                &&& final(self).spec_valid(h)
                &&& final(self).spec_value(h) == old(self).spec_value(h)
                &&& !final(self).spec_changed(h)
                &&& !final(self).spec_borrowed(h)
                &&& final(self).spec_shared(h) == old(self).spec_shared(h)
                &&& final(self).spec_wakers(h) == if old(self).spec_shared(h) {
                    Seq::<u64>::empty()
                } else {
                    old(self).spec_wakers(h)
                }
                &&& old(self).same_slots_except(*final(self), h.index as int)
                &&& old(self).same_cells_except(*final(self), h)
                &&& final(self).wake_log@ == old(self).wake_log@
            },
            !r ==> *final(self) == *old(self),
    {
        if h.index >= self.slots.len() {
            return false;
        }
        let live = self.slots[h.index].generation == h.generation
            && self.slots[h.index].value.is_some() && !self.slots[h.index].borrowed;
        if !live {
            return false;
        }
        if !self.slots[h.index].changed {
            return false;
        }
        let slot = &mut self.slots[h.index];
        slot.changed = false;
        if slot.shared {
            slot.wakers = Vec::new();
            proof {
                assert(final(self).spec_wakers(h) =~= Seq::<u64>::empty());
            }
        }
        true
    }
}

} // verus!
