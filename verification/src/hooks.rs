//! Hook slots: positional persistent state for component instances.
//!
//! Each instance owns an ordered list of hook slots.  During an update the
//! running index starts at zero and every hook registration call takes the
//! next slot: on the instance's first update the slot is created, on every
//! later update the stored slot is returned — provided it holds the same
//! kind of hook as the call requests.  Registering a different kind at the
//! same position is a wiring fault and is surfaced as
//! [`HookError::TypeMismatch`], never silently ignored.

use crate::context::{ContextStack, ContextValue, TypeTag, ctx_lookup};
use crate::events::{EventHub, TerminalEvents};
use crate::handler::Handler;
use crate::state::{State, StateArena, Value};
use vstd::prelude::*;

verus! {

/// The kinds of hooks a slot can hold.
#[derive(Clone, Copy, Debug, PartialEq, Eq, Structural)]
pub enum HookKind {
    State,
    Store,
    Memo,
    Task,
    Events,
}

/// A memo slot: the cached value and the hash of the inputs it was computed
/// from.
#[derive(Clone, Copy, Debug, PartialEq, Eq, Structural)]
pub struct MemoSlot {
    pub deps: u64,
    pub value: Value,
}

/// A background task slot.
#[derive(Clone, Copy, Debug, PartialEq, Eq, Structural)]
pub struct TaskSlot {
    pub done: bool,
}

/// An event subscription slot: the downstream queue and the reaction to
/// fire per event.
#[derive(Clone, Copy, Debug, PartialEq, Eq, Structural)]
pub struct EventsSlot {
    pub sub: TerminalEvents,
    pub handler: Handler,
}

/// One persistent hook slot.
#[derive(Clone, Copy, Debug, PartialEq, Eq, Structural)]
pub enum HookSlot {
    /// A private reactive cell.
    State(State),
    /// A cell shared across subtrees.
    Store(State),
    Memo(MemoSlot),
    Task(TaskSlot),
    Events(EventsSlot),
}

impl HookSlot {
    pub open spec fn spec_kind(&self) -> HookKind {
        match self {
            HookSlot::State(_) => HookKind::State,
            HookSlot::Store(_) => HookKind::Store,
            HookSlot::Memo(_) => HookKind::Memo,
            HookSlot::Task(_) => HookKind::Task,
            HookSlot::Events(_) => HookKind::Events,
        }
    }

    pub fn kind(&self) -> (r: HookKind)
        ensures
            r == self.spec_kind(),
    {
        match self {
            HookSlot::State(_) => HookKind::State,
            HookSlot::Store(_) => HookKind::Store,
            HookSlot::Memo(_) => HookKind::Memo,
            HookSlot::Task(_) => HookKind::Task,
            HookSlot::Events(_) => HookKind::Events,
        }
    }
}

/// A hook registration fault.
#[derive(Clone, Copy, Debug, PartialEq, Eq, Structural)]
pub enum HookError {
    /// The slot at the running index holds a different kind of hook than
    /// the call requested: a hook was registered conditionally between
    /// renders.
    TypeMismatch,
}

/// The per-update view over one instance's hook slots.
pub struct Hooks<'a> {
    /// The instance's slots, held for the duration of the update.
    pub slots: Vec<HookSlot>,
    /// Whether this is the instance's first update ever.
    pub first_update: bool,
    /// The running slot index, reset to zero at the start of each update.
    pub index: usize,
    /// The context stack in scope, when attached.
    pub context: Option<&'a ContextStack>,
}

impl<'a> Hooks<'a> {
    pub fn new(slots: Vec<HookSlot>, first_update: bool) -> (r: Hooks<'a>)
        ensures
            r.slots == slots,
            r.first_update == first_update,
            r.index == 0,
            r.context is None,
    {
        Hooks { slots, first_update, index: 0, context: None }
    }

    /// The same hooks with the given context stack in scope.
    pub fn with_context_stack<'b>(self, context: &'b ContextStack) -> (r: Hooks<'b>)
        ensures
            r.slots == self.slots,
            r.first_update == self.first_update,
            r.index == self.index,
            r.context == Option::Some(context),
    {
        Hooks {
            slots: self.slots,
            first_update: self.first_update,
            index: self.index,
            context: Some(context),
        }
    }

    /// Takes the next slot: on the first update, creates it from `fresh`;
    /// on later updates, checks that the stored slot is of the same kind.
    /// Returns the slot's position, or the wiring fault.
    pub fn use_hook(&mut self, fresh: HookSlot) -> (r: Result<usize, HookError>)
        requires
            old(self).index < usize::MAX,
        ensures
            final(self).first_update == old(self).first_update,
            final(self).context == old(self).context,
            final(self).index == old(self).index + 1,
            final(self).slots@ == if old(self).first_update {
                old(self).slots@.push(fresh)
            } else {
                old(self).slots@
            },
            r == if old(self).index < final(self).slots@.len() && final(self).slots@[old(
                self,
            ).index as int].spec_kind() == fresh.spec_kind() {
                Result::<usize, HookError>::Ok(old(self).index)
            } else {
                Result::<usize, HookError>::Err(HookError::TypeMismatch)
            },
    {
        if self.first_update {
            self.slots.push(fresh);
        }
        let idx = self.index;
        self.index = idx + 1;
        if idx < self.slots.len() && self.slots[idx].kind() == fresh.kind() {
            Ok(idx)
        } else {
            Err(HookError::TypeMismatch)
        }
    }

    /// Registers a private reactive cell initialized to `init` on the first
    /// update, and returns the persisted handle on every update.
    pub fn use_state(&mut self, arena: &mut StateArena, init: Value) -> (r: Result<
        State,
        HookError,
    >)
        requires
            old(self).index < usize::MAX,
        ensures
            final(self).first_update == old(self).first_update,
            final(self).context == old(self).context,
            final(self).index == old(self).index + 1,
            old(self).first_update && old(self).index == old(self).slots@.len() ==> {
                &&& exists|h: State|
                    {
                        &&& r == Result::<State, HookError>::Ok(h)
                        &&& final(self).slots@ == old(self).slots@.push(HookSlot::State(h))
                        &&& !old(arena).spec_valid(h)
                        &&& final(arena).spec_valid(h)
                        &&& final(arena).spec_value(h) == init
                        &&& !final(arena).spec_changed(h)
                        &&& !final(arena).spec_borrowed(h)
                        &&& !final(arena).spec_shared(h)
                        &&& final(arena).spec_wakers(h) == Seq::<u64>::empty()
                        &&& h.index == old(arena).slots@.len()
                    }
                &&& final(arena).slots@.len() == old(arena).slots@.len() + 1
                &&& forall|j: int|
                    0 <= j < old(arena).slots@.len() ==> final(arena).slots@[j] == old(
                        arena,
                    ).slots@[j]
                &&& final(arena).wake_log@ == old(arena).wake_log@
            },
            !(old(self).first_update && old(self).index == old(self).slots@.len()) ==> {
                &&& *final(arena) == *old(arena)
                &&& final(self).slots@ == old(self).slots@
                &&& r == if old(self).index < old(self).slots@.len() && old(self).slots@[old(
                    self,
                ).index as int] is State {
                    Result::<State, HookError>::Ok(old(self).slots@[old(self).index as int]->State_0)
                } else {
                    Result::<State, HookError>::Err(HookError::TypeMismatch)
                }
            },
    {
        if self.first_update && self.index == self.slots.len() {
            let h = arena.insert(init);
            self.slots.push(HookSlot::State(h));
            self.index = self.index + 1;
            Ok(h)
        } else {
            let idx = self.index;
            self.index = idx + 1;
            if idx < self.slots.len() {
                match &self.slots[idx] {
                    HookSlot::State(h) => Ok(*h),
                    _ => Err(HookError::TypeMismatch),
                }
            } else {
                Err(HookError::TypeMismatch)
            }
        }
    }

    /// Binds a shared store cell to this instance on the first update, and
    /// returns the persisted handle on every update; the handle passed on
    /// later updates is ignored in favor of the bound one.
    pub fn use_store(&mut self, cell: State) -> (r: Result<State, HookError>)
        requires
            old(self).index < usize::MAX,
        ensures
            final(self).first_update == old(self).first_update,
            final(self).context == old(self).context,
            final(self).index == old(self).index + 1,
            old(self).first_update && old(self).index == old(self).slots@.len() ==> {
                &&& r == Result::<State, HookError>::Ok(cell)
                &&& final(self).slots@ == old(self).slots@.push(HookSlot::Store(cell))
            },
            !(old(self).first_update && old(self).index == old(self).slots@.len()) ==> {
                &&& final(self).slots@ == old(self).slots@
                &&& r == if old(self).index < old(self).slots@.len() && old(self).slots@[old(
                    self,
                ).index as int] is Store {
                    Result::<State, HookError>::Ok(old(self).slots@[old(self).index as int]->Store_0)
                } else {
                    Result::<State, HookError>::Err(HookError::TypeMismatch)
                }
            },
    {
        if self.first_update && self.index == self.slots.len() {
            self.slots.push(HookSlot::Store(cell));
            self.index = self.index + 1;
            Ok(cell)
        } else {
            let idx = self.index;
            self.index = idx + 1;
            if idx < self.slots.len() {
                match &self.slots[idx] {
                    HookSlot::Store(h) => Ok(*h),
                    _ => Err(HookError::TypeMismatch),
                }
            } else {
                Err(HookError::TypeMismatch)
            }
        }
    }

    /// Dependency-cached value: recomputed only when the dependency hash
    /// changes, otherwise the cached value is returned.
    pub fn use_memo(&mut self, deps: u64, value: Value) -> (r: Result<Value, HookError>)
        requires
            old(self).index < usize::MAX,
        ensures
            final(self).first_update == old(self).first_update,
            final(self).context == old(self).context,
            final(self).index == old(self).index + 1,
            old(self).first_update && old(self).index == old(self).slots@.len() ==> {
                &&& r == Result::<Value, HookError>::Ok(value)
                &&& final(self).slots@ == old(self).slots@.push(
                    HookSlot::Memo(MemoSlot { deps, value }),
                )
            },
            !(old(self).first_update && old(self).index == old(self).slots@.len()) ==> {
                let i = old(self).index as int;
                if i < old(self).slots@.len() && old(self).slots@[i] is Memo {
                    let m = old(self).slots@[i]->Memo_0;
                    if m.deps != deps {
                        &&& r == Result::<Value, HookError>::Ok(value)
                        &&& final(self).slots@ == old(self).slots@.update(
                            i,
                            HookSlot::Memo(MemoSlot { deps, value }),
                        )
                    } else {
                        &&& r == Result::<Value, HookError>::Ok(m.value)
                        &&& final(self).slots@ == old(self).slots@
                    }
                } else {
                    &&& r == Result::<Value, HookError>::Err(HookError::TypeMismatch)
                    &&& final(self).slots@ == old(self).slots@
                }
            },
    {
        if self.first_update && self.index == self.slots.len() {
            self.slots.push(HookSlot::Memo(MemoSlot { deps, value }));
            self.index = self.index + 1;
            Ok(value)
        } else {
            let idx = self.index;
            self.index = idx + 1;
            if idx < self.slots.len() {
                let stored = match &self.slots[idx] {
                    HookSlot::Memo(m) => Some(*m),
                    _ => None,
                };
                match stored {
                    Some(m) => {
                        if m.deps != deps {
                            self.slots[idx] = HookSlot::Memo(MemoSlot { deps, value });
                            Ok(value)
                        } else {
                            Ok(m.value)
                        }
                    },
                    None => Err(HookError::TypeMismatch),
                }
            } else {
                Err(HookError::TypeMismatch)
            }
        }
    }

    /// Dependency-gated side effect: reports whether the effect should run,
    /// true on the first update and whenever the dependency hash changes.
    pub fn use_effect(&mut self, deps: u64) -> (r: Result<bool, HookError>)
        requires
            old(self).index < usize::MAX,
        ensures
            final(self).first_update == old(self).first_update,
            final(self).context == old(self).context,
            final(self).index == old(self).index + 1,
            old(self).first_update && old(self).index == old(self).slots@.len() ==> {
                &&& r == Result::<bool, HookError>::Ok(true)
                &&& final(self).slots@ == old(self).slots@.push(
                    HookSlot::Memo(MemoSlot { deps, value: Value::Flag(true) }),
                )
            },
            !(old(self).first_update && old(self).index == old(self).slots@.len()) ==> {
                let i = old(self).index as int;
                if i < old(self).slots@.len() && old(self).slots@[i] is Memo {
                    let m = old(self).slots@[i]->Memo_0;
                    if m.deps != deps {
                        &&& r == Result::<bool, HookError>::Ok(true)
                        &&& final(self).slots@ == old(self).slots@.update(
                            i,
                            HookSlot::Memo(MemoSlot { deps, value: Value::Flag(true) }),
                        )
                    } else {
                        &&& r == Result::<bool, HookError>::Ok(false)
                        &&& final(self).slots@ == old(self).slots@
                    }
                } else {
                    &&& r == Result::<bool, HookError>::Err(HookError::TypeMismatch)
                    &&& final(self).slots@ == old(self).slots@
                }
            },
    {
        if self.first_update && self.index == self.slots.len() {
            self.slots.push(HookSlot::Memo(MemoSlot { deps, value: Value::Flag(true) }));
            self.index = self.index + 1;
            Ok(true)
        } else {
            let idx = self.index;
            self.index = idx + 1;
            if idx < self.slots.len() {
                let stored = match &self.slots[idx] {
                    HookSlot::Memo(m) => Some(*m),
                    _ => None,
                };
                match stored {
                    Some(m) => {
                        if m.deps != deps {
                            self.slots[idx] = HookSlot::Memo(
                                MemoSlot { deps, value: Value::Flag(true) },
                            );
                            Ok(true)
                        } else {
                            Ok(false)
                        }
                    },
                    None => Err(HookError::TypeMismatch),
                }
            } else {
                Err(HookError::TypeMismatch)
            }
        }
    }

    /// Registers a background task slot on the first update.
    pub fn use_future(&mut self) -> (r: Result<usize, HookError>)
        requires
            old(self).index < usize::MAX,
        ensures
            final(self).first_update == old(self).first_update,
            final(self).context == old(self).context,
            final(self).index == old(self).index + 1,
            final(self).slots@ == if old(self).first_update {
                old(self).slots@.push(HookSlot::Task(TaskSlot { done: false }))
            } else {
                old(self).slots@
            },
            r == if old(self).index < final(self).slots@.len() && final(self).slots@[old(
                self,
            ).index as int] is Task {
                Result::<usize, HookError>::Ok(old(self).index)
            } else {
                Result::<usize, HookError>::Err(HookError::TypeMismatch)
            },
    {
        let fresh = HookSlot::Task(TaskSlot { done: false });
        match self.use_hook(fresh) {
            Ok(i) => Ok(i),
            Err(e) => Err(e),
        }
    }

    /// Subscribes to the terminal event stream on the first update, and on
    /// every update installs the reaction to fire per received event.
    pub fn use_events(&mut self, hub: &mut EventHub, handler: Handler) -> (r: Result<
        TerminalEvents,
        HookError,
    >)
        requires
            old(self).index < usize::MAX,
        ensures
            final(self).first_update == old(self).first_update,
            final(self).context == old(self).context,
            final(self).index == old(self).index + 1,
            old(self).first_update && old(self).index == old(self).slots@.len() ==> {
                &&& exists|t: TerminalEvents|
                    {
                        &&& r == Result::<TerminalEvents, HookError>::Ok(t)
                        &&& final(self).slots@ == old(self).slots@.push(
                            HookSlot::Events(EventsSlot { sub: t, handler }),
                        )
                        &&& t.index == old(hub).subscribers@.len()
                        &&& final(hub).spec_alive(t)
                        &&& final(hub).spec_pending(t) == Seq::<crate::events::Event>::empty()
                    }
                &&& final(hub).subscribers@.len() == old(hub).subscribers@.len() + 1
                &&& forall|j: int|
                    0 <= j < old(hub).subscribers@.len() ==> final(hub).subscribers@[j] == old(
                        hub,
                    ).subscribers@[j]
                &&& final(hub).received_ctrl_c == old(hub).received_ctrl_c
            },
            !(old(self).first_update && old(self).index == old(self).slots@.len()) ==> {
                &&& *final(hub) == *old(hub)
                &&& {
                    let i = old(self).index as int;
                    if i < old(self).slots@.len() && old(self).slots@[i] is Events {
                        let s = old(self).slots@[i]->Events_0;
                        &&& r == Result::<TerminalEvents, HookError>::Ok(s.sub)
                        &&& final(self).slots@ == old(self).slots@.update(
                            i,
                            HookSlot::Events(EventsSlot { sub: s.sub, handler }),
                        )
                    } else {
                        &&& r == Result::<TerminalEvents, HookError>::Err(HookError::TypeMismatch)
                        &&& final(self).slots@ == old(self).slots@
                    }
                }
            },
    {
        if self.first_update && self.index == self.slots.len() {
            let t = hub.events();
            self.slots.push(HookSlot::Events(EventsSlot { sub: t, handler }));
            self.index = self.index + 1;
            Ok(t)
        } else {
            let idx = self.index;
            self.index = idx + 1;
            if idx < self.slots.len() {
                let stored = match &self.slots[idx] {
                    HookSlot::Events(s) => Some(s.sub),
                    _ => None,
                };
                match stored {
                    Some(sub) => {
                        self.slots[idx] = HookSlot::Events(EventsSlot { sub, handler });
                        Ok(sub)
                    },
                    None => Err(HookError::TypeMismatch),
                }
            } else {
                Err(HookError::TypeMismatch)
            }
        }
    }

    /// Looks up a context entry of the requested type in the attached
    /// stack, if a stack is attached and an entry is present.
    pub fn try_use_context(&self, tag: TypeTag) -> (r: Option<&'a ContextValue>)
        ensures
            match r {
                Some(v) => {
                    &&& self.context is Some
                    &&& ctx_lookup(self.context->0@, tag) is Some
                    &&& *v == self.context->0@[ctx_lookup(self.context->0@, tag)->0].spec_value()
                    &&& v.spec_tag() == tag
                },
                None => self.context is Some ==> ctx_lookup(self.context->0@, tag) is None,
            },
    {
        match self.context {
            Some(stack) => stack.get_context(tag),
            None => None,
        }
    }

    /// Looks up a context entry that must be present; a missing entry is a
    /// wiring fault the caller rules out.
    pub fn use_context(&self, tag: TypeTag) -> (r: &'a ContextValue)
        requires
            self.context is Some,
            ctx_lookup(self.context->0@, tag) is Some,
        ensures
            *r == self.context->0@[ctx_lookup(self.context->0@, tag)->0].spec_value(),
            r.spec_tag() == tag,
    {
        match self.try_use_context(tag) {
            Some(v) => v,
            None => vstd::pervasive::unreached(),
        }
    }
}


/// One mixing step of the dependency hash.
pub open spec fn spec_mix(acc: u64, part: u64) -> u64 {
    (acc ^ part).wrapping_mul(0x100000001b3)
}

/// The dependency hash of a list of words: a deterministic fold, so equal
/// dependency lists always hash equal.
pub open spec fn spec_hash_deps(parts: Seq<u64>) -> u64
    decreases parts.len(),
{
    if parts.len() == 0 {
        0xcbf29ce484222325
    } else {
        spec_mix(spec_hash_deps(parts.drop_last()), parts.last())
    }
}

/// Folds a component's dependency words into the hash that memo and effect
/// hooks compare between renders.
pub fn hash_deps(parts: &Vec<u64>) -> (r: u64)
    ensures
        r == spec_hash_deps(parts@),
{
    let mut acc: u64 = 0xcbf29ce484222325;
    let mut i: usize = 0;
    proof {
        assert(parts@.take(0) =~= Seq::<u64>::empty());
    }
    while i < parts.len()
        invariant
            i <= parts@.len(),
            acc == spec_hash_deps(parts@.take(i as int)),
        decreases parts@.len() - i,
    {
        proof {
            assert(parts@.take(i + 1).drop_last() =~= parts@.take(i as int));
            assert(parts@.take(i + 1).last() == parts@[i as int]);
        }
        acc = (acc ^ parts[i]).wrapping_mul(0x100000001b3);
        i = i + 1;
    }
    proof {
        assert(parts@.take(parts@.len() as int) =~= parts@);
    }
    acc
}

} // verus!
