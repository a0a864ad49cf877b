//! Component instances and tree reconciliation.
//!
//! An [`InstantiatedComponent`] couples a behavior with its persistent hook
//! slots and its reconciled children.  Each render pass walks the freshly
//! produced element descriptions: an instance is reused when its key and
//! behavior both match (type identity is stronger than key identity),
//! constructed when nothing matches, and torn down — hooks, cells and whole
//! subtree — when its key is no longer described.

use crate::context::{Context, ContextStack};
use crate::element::{AnyElement, descs_of};
use crate::events::{EventHub, TerminalEvents};
use crate::handler::{Handler, HandlerAction, lemma_fired_n_step, spec_fired_n};
use crate::hooks::{EventsSlot, HookKind, HookSlot, Hooks};
use crate::key::{ElementKey, KeyView};
use crate::layout::LayoutStyle;
use crate::multimap::{AppendOnlyMultimap, RemoveOnlyMultimap};
use crate::props::{AnyProps, PropsValue};
use crate::state::{State, StateArena, Value};
use vstd::prelude::*;

verus! {

/// The closed set of behaviors, the runtime type identity of a component.
#[derive(Clone, Copy, Debug, PartialEq, Eq, Structural)]
pub enum ComponentKind {
    Fragment,
    ContextProvider,
    View,
    Counter,
}

/// The layout intent an instance caches after updating against `props`:
/// a view caches its requested style, every other behavior the default.
pub open spec fn spec_layout_of(props: AnyProps) -> LayoutStyle {
    match props.value {
        PropsValue::View(p) => p.layout_style,
        _ => LayoutStyle::spec_default(),
    }
}

/// Whether a behavior is layout-transparent: a transparent container only
/// groups its children and claims no layout node of its own.
pub open spec fn spec_transparent(kind: ComponentKind) -> bool {
    kind is Fragment || kind is ContextProvider
}

/// The hook slots a behavior registers, in order, on every update.
pub open spec fn hook_schema(kind: ComponentKind) -> Seq<HookKind> {
    match kind {
        ComponentKind::Fragment => Seq::empty(),
        ComponentKind::ContextProvider => Seq::empty(),
        ComponentKind::View => Seq::empty(),
        ComponentKind::Counter => seq![HookKind::State, HookKind::Events],
    }
}

/// The slots hold exactly the schema's kinds, in order.
pub open spec fn slots_match(slots: Seq<HookSlot>, kind: ComponentKind) -> bool {
    &&& slots.len() == hook_schema(kind).len()
    &&& forall|i: int|
        0 <= i < slots.len() ==> (#[trigger] slots[i].spec_kind()) == hook_schema(kind)[i]
}

/// The reconciled children of one instance.
pub struct Components {
    pub components: RemoveOnlyMultimap,
}

/// One mounted component: its identity, behavior, hook slots and children.
pub struct InstantiatedComponent {
    pub key: ElementKey,
    pub kind: ComponentKind,
    /// A tree-unique identity, stable for the instance's whole life.
    pub id: u64,
    pub hooks: Vec<HookSlot>,
    pub children: Components,
    /// True until the first update has run.
    pub first_update: bool,
    pub layout_style: LayoutStyle,
    pub has_transparent_layout: bool,
}

/// The mutable surroundings of a render pass: the cell arena, the event
/// hub, and the instance id counter.
pub struct RenderEnv {
    pub arena: StateArena,
    pub hub: EventHub,
    pub next_instance_id: u64,
}

impl RenderEnv {
    pub fn new() -> (r: RenderEnv)
        ensures
            r.arena.slots@.len() == 0,
            r.arena.wake_log@.len() == 0,
            r.hub.subscribers@.len() == 0,
            !r.hub.received_ctrl_c,
            r.next_instance_id == 0,
    {
        RenderEnv { arena: StateArena::new(), hub: EventHub::new(), next_instance_id: 0 }
    }
}

/// A well-formed instance: before its first update it is empty; afterwards
/// its slots follow its behavior's schema, and every child entry is keyed
/// by its instance's own key and well-formed in turn.
pub open spec fn inst_wf(inst: InstantiatedComponent) -> bool
    decreases inst, 0int,
{
    &&& if inst.first_update {
        inst.hooks@.len() == 0 && inst.children.components.items@.len() == 0
    } else {
        slots_match(inst.hooks@, inst.kind)
    }
    &&& children_wf(inst.children.components.items@)
}

/// Well-formedness of a child collection's entries.
pub open spec fn children_wf(s: Seq<(ElementKey, InstantiatedComponent)>) -> bool
    decreases s, 1int,
{
    if s.len() == 0 {
        true
    } else {
        &&& children_wf(s.drop_last())
        &&& s.last().1.key@ == s.last().0@
        &&& !s.last().1.first_update
        &&& inst_wf(s.last().1)
    }
}

/// The state handles owned by the instance's own hook slots.
pub open spec fn own_handles(slots: Seq<HookSlot>) -> Set<State> {
    Set::new(
        |h: State|
            exists|i: int|
                0 <= i < slots.len() && match #[trigger] slots[i] {
                    HookSlot::State(h2) => h2 == h,
                    _ => false,
                },
    )
}

/// The state handles owned by the whole subtree's hook slots.  Handles of
/// shared store cells are not owned: tearing the subtree down must not
/// release them.
pub open spec fn tree_handles(inst: InstantiatedComponent) -> Set<State>
    decreases inst, 0int,
{
    own_handles(inst.hooks@).union(children_handles(inst.children.components.items@))
}

pub open spec fn children_handles(s: Seq<(ElementKey, InstantiatedComponent)>) -> Set<State>
    decreases s, 1int,
{
    if s.len() == 0 {
        Set::empty()
    } else {
        children_handles(s.drop_last()).union(tree_handles(s.last().1))
    }
}

/// The event subscriptions owned by the whole subtree's hook slots, by
/// queue position.
pub open spec fn tree_subs(inst: InstantiatedComponent) -> Set<usize>
    decreases inst, 0int,
{
    own_subs(inst.hooks@).union(children_subs(inst.children.components.items@))
}

pub open spec fn own_subs(slots: Seq<HookSlot>) -> Set<usize> {
    Set::new(
        |i: usize|
            exists|k: int|
                0 <= k < slots.len() && match #[trigger] slots[k] {
                    HookSlot::Events(s) => s.sub.index == i,
                    _ => false,
                },
    )
}

pub open spec fn children_subs(s: Seq<(ElementKey, InstantiatedComponent)>) -> Set<usize>
    decreases s, 1int,
{
    if s.len() == 0 {
        Set::empty()
    } else {
        children_subs(s.drop_last()).union(tree_subs(s.last().1))
    }
}

/// Aggregate readiness: the instance needs a re-render iff one of its own
/// reactive hooks has a pending change, or one of its children does.
pub open spec fn spec_ready(inst: InstantiatedComponent, arena: StateArena) -> bool
    decreases inst, 0int,
{
    hooks_ready(inst.hooks@, arena) || children_ready(inst.children.components.items@, arena)
}

pub open spec fn hook_ready(slot: HookSlot, arena: StateArena) -> bool {
    match slot {
        HookSlot::State(h) => arena.spec_valid(h) && !arena.spec_borrowed(h) && arena.spec_changed(
            h,
        ),
        HookSlot::Store(h) => arena.spec_valid(h) && !arena.spec_borrowed(h) && arena.spec_changed(
            h,
        ),
        _ => false,
    }
}

pub open spec fn hooks_ready(slots: Seq<HookSlot>, arena: StateArena) -> bool {
    exists|i: int| 0 <= i < slots.len() && hook_ready(#[trigger] slots[i], arena)
}

pub open spec fn children_ready(s: Seq<(ElementKey, InstantiatedComponent)>, arena: StateArena) -> bool
    decreases s, 1int,
{
    if s.len() == 0 {
        false
    } else {
        children_ready(s.drop_last(), arena) || spec_ready(s.last().1, arena)
    }
}


/// The persistent identity of a hook slot: the cell or subscription it
/// owns.  A memo's cached value or an events slot's handler may change from
/// render to render; the identity may not.
#[derive(Clone, Copy, Debug, PartialEq, Eq, Structural)]
pub enum SlotId {
    StateCell(State),
    StoreCell(State),
    MemoValue,
    TaskBody,
    EventQueue(usize),
}

pub open spec fn slot_id(slot: HookSlot) -> SlotId {
    match slot {
        HookSlot::State(h) => SlotId::StateCell(h),
        HookSlot::Store(h) => SlotId::StoreCell(h),
        HookSlot::Memo(_) => SlotId::MemoValue,
        HookSlot::Task(_) => SlotId::TaskBody,
        HookSlot::Events(e) => SlotId::EventQueue(e.sub.index),
    }
}

/// The persistent identities of a slot list, in order.
pub open spec fn slot_ids(slots: Seq<HookSlot>) -> Seq<SlotId> {
    Seq::new(slots.len(), |i: int| slot_id(slots[i]))
}

/// The first position in `prev` keyed by `k`, scanning from the front.
pub open spec fn raw_first_key(
    prev: Seq<(ElementKey, InstantiatedComponent)>,
    k: KeyView,
) -> Option<int>
    decreases prev.len(),
{
    if prev.len() == 0 {
        Option::None
    } else if prev[0].0@ == k {
        Option::Some(0)
    } else {
        match raw_first_key(prev.drop_first(), k) {
            Option::Some(j) => Option::Some(j + 1),
            Option::None => Option::None,
        }
    }
}

/// `raw_first_key` finds exactly the first entry with the key, and only
/// fails when no entry has it.
pub proof fn lemma_raw_first_key(prev: Seq<(ElementKey, InstantiatedComponent)>, k: KeyView)
    ensures
        match raw_first_key(prev, k) {
            Option::Some(j) => crate::multimap::is_first_key(prev, k, j),
            Option::None => forall|i: int| 0 <= i < prev.len() ==> prev[i].0@ != k,
        },
    decreases prev.len(),
{
    if prev.len() == 0 {
    } else if prev[0].0@ == k {
    } else {
        lemma_raw_first_key(prev.drop_first(), k);
        match raw_first_key(prev.drop_first(), k) {
            Option::Some(j) => {
                assert forall|i: int| 0 <= i < j + 1 implies prev[i].0@ != k by {
                    if i > 0 {
                        assert(prev.drop_first()[i - 1] == prev[i]);
                    }
                }
                assert(prev.drop_first()[j] == prev[j + 1]);
            },
            Option::None => {
                assert forall|i: int| 0 <= i < prev.len() implies prev[i].0@ != k by {
                    if i > 0 {
                        assert(prev.drop_first()[i - 1] == prev[i]);
                    }
                }
            },
        }
    }
}

/// A position satisfying `is_first_key` is the one `raw_first_key` finds.
pub proof fn lemma_first_key_unique(
    prev: Seq<(ElementKey, InstantiatedComponent)>,
    k: KeyView,
    j: int,
)
    requires
        crate::multimap::is_first_key(prev, k, j),
    ensures
        raw_first_key(prev, k) == Option::Some(j),
{
    lemma_raw_first_key(prev, k);
    match raw_first_key(prev, k) {
        Option::Some(j2) => {
            if j2 < j {
                assert(prev[j2].0@ == k);
            } else if j < j2 {
                assert(prev[j].0@ == k);
            }
        },
        Option::None => {
            assert(prev[j].0@ == k);
        },
    }
}

/// What one reconciliation pass does with the previous child entries, given
/// the desired descriptions: for each description, the previous instance it
/// claims (matched by key, then by behavior), and the instances it drops —
/// claimed under a key whose behavior changed, or never claimed at all.
pub struct ReconcilePlan {
    pub claimed: Seq<Option<InstantiatedComponent>>,
    pub dropped: Seq<InstantiatedComponent>,
}

pub open spec fn spec_reconcile(
    prev: Seq<(ElementKey, InstantiatedComponent)>,
    descs: Seq<(KeyView, ComponentKind)>,
) -> ReconcilePlan
    decreases descs.len(),
{
    if descs.len() == 0 {
        ReconcilePlan {
            claimed: Seq::empty(),
            dropped: Seq::new(prev.len(), |i: int| prev[i].1),
        }
    } else {
        match raw_first_key(prev, descs[0].0) {
            Option::None => {
                let rest = spec_reconcile(prev, descs.drop_first());
                ReconcilePlan {
                    claimed: seq![Option::None].add(rest.claimed),
                    dropped: rest.dropped,
                }
            },
            Option::Some(j) => {
                let inst = prev[j].1;
                let rest = spec_reconcile(prev.remove(j), descs.drop_first());
                if inst.kind == descs[0].1 {
                    ReconcilePlan {
                        claimed: seq![Option::Some(inst)].add(rest.claimed),
                        dropped: rest.dropped,
                    }
                } else {
                    ReconcilePlan {
                        claimed: seq![Option::None].add(rest.claimed),
                        dropped: seq![inst].add(rest.dropped),
                    }
                }
            },
        }
    }
}

/// Constructs a fresh, not yet updated instance for an element.
pub fn new_instance(element: &AnyElement, env: &mut RenderEnv) -> (r: InstantiatedComponent)
    ensures
        r.key@ == element.key@,
        r.kind == element.spec_kind(),
        r.hooks@.len() == 0,
        r.children.components.items@.len() == 0,
        r.first_update,
        r.layout_style == LayoutStyle::spec_default(),
        !r.has_transparent_layout,
        final(env).arena == old(env).arena,
        final(env).hub == old(env).hub,
        r.id == old(env).next_instance_id,
        final(env).next_instance_id >= old(env).next_instance_id,
    {
        let id = env.next_instance_id;
        if env.next_instance_id < u64::MAX {
            env.next_instance_id = env.next_instance_id + 1;
        }
        InstantiatedComponent {
            key: element.key.clone(),
            kind: element.kind(),
            id,
            hooks: Vec::new(),
            children: Components { components: RemoveOnlyMultimap::default() },
            first_update: true,
            layout_style: LayoutStyle::default(),
            has_transparent_layout: false,
        }
    }

/// A child's subtree handles are among the collection's handles.
pub proof fn lemma_children_handles_member(s: Seq<(ElementKey, InstantiatedComponent)>, c: int)
    requires
        0 <= c < s.len(),
    ensures
        forall|h: State|
            tree_handles(s[c].1).contains(h) ==> #[trigger] children_handles(s).contains(h),
    decreases s.len(),
{
    if c == s.len() - 1 {
        assert forall|h: State|
            tree_handles(s[c].1).contains(h) implies #[trigger] children_handles(s).contains(
            h,
        ) by {
            assert(s.last() == s[c]);
            assert(tree_handles(s.last().1).contains(h));
        }
    } else {
        lemma_children_handles_member(s.drop_last(), c);
        assert forall|h: State|
            tree_handles(s[c].1).contains(h) implies #[trigger] children_handles(s).contains(
            h,
        ) by {
            assert(s.drop_last()[c] == s[c]);
            assert(children_handles(s.drop_last()).contains(h));
        }
    }
}

/// A child's subtree subscriptions are among the collection's.
pub proof fn lemma_children_subs_member(s: Seq<(ElementKey, InstantiatedComponent)>, c: int)
    requires
        0 <= c < s.len(),
    ensures
        forall|i: usize| tree_subs(s[c].1).contains(i) ==> #[trigger] children_subs(s).contains(i),
    decreases s.len(),
{
    if c == s.len() - 1 {
        assert forall|i: usize|
            tree_subs(s[c].1).contains(i) implies #[trigger] children_subs(s).contains(i) by {
            assert(s.last() == s[c]);
            assert(tree_subs(s.last().1).contains(i));
        }
    } else {
        lemma_children_subs_member(s.drop_last(), c);
        assert forall|i: usize|
            tree_subs(s[c].1).contains(i) implies #[trigger] children_subs(s).contains(i) by {
            assert(s.drop_last()[c] == s[c]);
            assert(children_subs(s.drop_last()).contains(i));
        }
    }
}

/// Tears an instance down: releases every state cell owned by a hook of the
/// instance or of any descendant, closes every event subscription they
/// held, and touches nothing else.  A released cell's handles are stale
/// from here on; a mutation through one fails instead of waking anything.
pub fn teardown(inst: &InstantiatedComponent, env: &mut RenderEnv)
    ensures
        forall|h: State| #[trigger]
            tree_handles(*inst).contains(h) ==> !final(env).arena.spec_valid(h),
        forall|h: State|
            !old(env).arena.spec_valid(h) ==> !final(env).arena.spec_valid(h),
        forall|h: State|
            old(env).arena.spec_valid(h) && !tree_handles(*inst).contains(h) ==> {
                &&& final(env).arena.spec_valid(h)
                &&& final(env).arena.spec_value(h) == old(env).arena.spec_value(h)
                &&& final(env).arena.spec_changed(h) == old(env).arena.spec_changed(h)
                &&& final(env).arena.spec_borrowed(h) == old(env).arena.spec_borrowed(h)
                &&& final(env).arena.spec_wakers(h) == old(env).arena.spec_wakers(h)
                &&& final(env).arena.spec_shared(h) == old(env).arena.spec_shared(h)
            },
        final(env).arena.slots@.len() == old(env).arena.slots@.len(),
        final(env).arena.wake_log@ == old(env).arena.wake_log@,
        final(env).hub.subscribers@.len() == old(env).hub.subscribers@.len(),
        forall|i: usize|
            i < old(env).hub.subscribers@.len() && !(#[trigger] tree_subs(*inst).contains(i))
                ==> final(env).hub.subscribers@[i as int] == old(env).hub.subscribers@[i as int],
        forall|i: usize|
            tree_subs(*inst).contains(i) && i < old(env).hub.subscribers@.len() ==> {
                &&& !final(env).hub.subscribers@[i as int].alive
                &&& final(env).hub.subscribers@[i as int].pending@ == Seq::<
                    crate::events::Event,
                >::empty()
            },
        old(env).hub.dissolves_to(final(env).hub),
        final(env).hub.received_ctrl_c == old(env).hub.received_ctrl_c,
        final(env).next_instance_id == old(env).next_instance_id,
    decreases *inst, 0int,
{
    let n = inst.hooks.len();
    let mut i: usize = 0;
    while i < n
        invariant
            i <= n,
            n == inst.hooks@.len(),
            forall|h: State|
                (exists|k: int|
                    0 <= k < i && match #[trigger] inst.hooks@[k] {
                        HookSlot::State(h2) => h2 == h,
                        _ => false,
                    }) ==> !env.arena.spec_valid(h),
            forall|h: State| !old(env).arena.spec_valid(h) ==> !env.arena.spec_valid(h),
            forall|h: State|
                old(env).arena.spec_valid(h) && !(#[trigger] own_handles(
                    inst.hooks@,
                ).contains(h)) ==> {
                    &&& env.arena.spec_valid(h)
                    &&& env.arena.spec_value(h) == old(env).arena.spec_value(h)
                    &&& env.arena.spec_changed(h) == old(env).arena.spec_changed(h)
                    &&& env.arena.spec_borrowed(h) == old(env).arena.spec_borrowed(h)
                    &&& env.arena.spec_wakers(h) == old(env).arena.spec_wakers(h)
                    &&& env.arena.spec_shared(h) == old(env).arena.spec_shared(h)
                },
            env.arena.slots@.len() == old(env).arena.slots@.len(),
            env.arena.wake_log@ == old(env).arena.wake_log@,
            env.hub.subscribers@.len() == old(env).hub.subscribers@.len(),
            forall|s: usize|
                s < old(env).hub.subscribers@.len() && !(#[trigger] own_subs(
                    inst.hooks@,
                ).contains(s)) ==> env.hub.subscribers@[s as int] == old(
                    env,
                ).hub.subscribers@[s as int],
            forall|s: usize|
                (exists|k: int|
                    0 <= k < i && match #[trigger] inst.hooks@[k] {
                        HookSlot::Events(e) => e.sub.index == s,
                        _ => false,
                    }) && s < old(env).hub.subscribers@.len() ==> {
                    &&& !env.hub.subscribers@[s as int].alive
                    &&& env.hub.subscribers@[s as int].pending@ == Seq::<
                        crate::events::Event,
                    >::empty()
                },
            old(env).hub.dissolves_to(env.hub),
            env.hub.received_ctrl_c == old(env).hub.received_ctrl_c,
            env.next_instance_id == old(env).next_instance_id,
        decreases n - i,
    {
        match &inst.hooks[i] {
            HookSlot::State(h) => {
                proof {
                    let hh = *h;
                    assert(match inst.hooks@[i as int] {
                        HookSlot::State(h2) => h2 == hh,
                        _ => false,
                    });
                    assert(own_handles(inst.hooks@).contains(hh));
                }
                env.arena.free(*h);
            },
            HookSlot::Events(e) => {
                proof {
                    let ss = e.sub.index;
                    assert(match inst.hooks@[i as int] {
                        HookSlot::Events(e2) => e2.sub.index == ss,
                        _ => false,
                    });
                    assert(own_subs(inst.hooks@).contains(ss));
                }
                env.hub.unsubscribe(e.sub);
            },
            HookSlot::Store(_) => {},
            HookSlot::Memo(_) => {},
            HookSlot::Task(_) => {},
        }
        i = i + 1;
    }
    let m = inst.children.components.items.len();
    let ghost entries = inst.children.components.items@;
    let ghost mid_env = *env;
    let mut c: usize = 0;
    while c < m
        invariant
            c <= m,
            m == entries.len(),
            entries == inst.children.components.items@,
            forall|h: State|
                #[trigger] own_handles(inst.hooks@).contains(h) ==> !env.arena.spec_valid(h),
            forall|h: State|
                #[trigger] children_handles(entries.take(c as int)).contains(h)
                    ==> !env.arena.spec_valid(h),
            forall|h: State| !old(env).arena.spec_valid(h) ==> !env.arena.spec_valid(h),
            forall|h: State|
                old(env).arena.spec_valid(h) && !(#[trigger] tree_handles(*inst).contains(h))
                    ==> {
                    &&& env.arena.spec_valid(h)
                    &&& env.arena.spec_value(h) == old(env).arena.spec_value(h)
                    &&& env.arena.spec_changed(h) == old(env).arena.spec_changed(h)
                    &&& env.arena.spec_borrowed(h) == old(env).arena.spec_borrowed(h)
                    &&& env.arena.spec_wakers(h) == old(env).arena.spec_wakers(h)
                    &&& env.arena.spec_shared(h) == old(env).arena.spec_shared(h)
                },
            env.arena.slots@.len() == old(env).arena.slots@.len(),
            env.arena.wake_log@ == old(env).arena.wake_log@,
            env.hub.subscribers@.len() == old(env).hub.subscribers@.len(),
            forall|s: usize|
                s < old(env).hub.subscribers@.len() && !(#[trigger] tree_subs(*inst).contains(
                    s,
                )) ==> env.hub.subscribers@[s as int] == old(env).hub.subscribers@[s as int],
            forall|s: usize|
                #[trigger] own_subs(inst.hooks@).contains(s) && s < old(
                    env,
                ).hub.subscribers@.len() ==> {
                    &&& !env.hub.subscribers@[s as int].alive
                    &&& env.hub.subscribers@[s as int].pending@ == Seq::<
                        crate::events::Event,
                    >::empty()
                },
            forall|s: usize|
                #[trigger] children_subs(entries.take(c as int)).contains(s) && s < old(
                    env,
                ).hub.subscribers@.len() ==> {
                    &&& !env.hub.subscribers@[s as int].alive
                    &&& env.hub.subscribers@[s as int].pending@ == Seq::<
                        crate::events::Event,
                    >::empty()
                },
            old(env).hub.dissolves_to(env.hub),
            env.hub.received_ctrl_c == old(env).hub.received_ctrl_c,
            env.next_instance_id == old(env).next_instance_id,
        decreases m - c,
    {
        proof {
            assert(decreases_to!(*inst => inst.children));
            assert(decreases_to!(inst.children => inst.children.components));
            assert(decreases_to!(inst.children.components => inst.children.components.items));
            assert(decreases_to!(inst.children.components.items
                => inst.children.components.items@));
            assert(decreases_to!(inst.children.components.items@
                => inst.children.components.items@[c as int]));
            assert(decreases_to!(inst.children.components.items@[c as int]
                => inst.children.components.items@[c as int].1));
        }
        proof {
            lemma_children_handles_member(entries, c as int);
            lemma_children_subs_member(entries, c as int);
            assert(tree_handles(*inst) == own_handles(inst.hooks@).union(
                children_handles(entries),
            ));
            assert(tree_subs(*inst) == own_subs(inst.hooks@).union(children_subs(entries)));
        }
        let child = &inst.children.components.items[c].1;
        teardown(child, env);
        proof {
            assert(entries.take(c + 1).drop_last() =~= entries.take(c as int));
            assert(entries.take(c + 1).last() == entries[c as int]);
            assert(children_handles(entries.take(c + 1)) =~= children_handles(
                entries.take(c as int),
            ).union(tree_handles(entries[c as int].1)));
            assert(children_subs(entries.take(c + 1)) =~= children_subs(
                entries.take(c as int),
            ).union(tree_subs(entries[c as int].1)));
        }
        c = c + 1;
    }
    proof {
        assert(entries.take(m as int) =~= entries);
        assert(tree_handles(*inst) == own_handles(inst.hooks@).union(children_handles(entries)));
        assert(tree_subs(*inst) == own_subs(inst.hooks@).union(children_subs(entries)));
    }
}


/// Every entry of a well-formed collection is well-formed.
pub proof fn lemma_children_wf_entry(s: Seq<(ElementKey, InstantiatedComponent)>, c: int)
    requires
        children_wf(s),
        0 <= c < s.len(),
    ensures
        s[c].1.key@ == s[c].0@,
        !s[c].1.first_update,
        inst_wf(s[c].1),
    decreases s.len(),
{
    if c == s.len() - 1 {
        assert(s.last() == s[c]);
    } else {
        lemma_children_wf_entry(s.drop_last(), c);
        assert(s.drop_last()[c] == s[c]);
    }
}

/// Removing an entry keeps a collection well-formed.
pub proof fn lemma_children_wf_remove(s: Seq<(ElementKey, InstantiatedComponent)>, j: int)
    requires
        children_wf(s),
        0 <= j < s.len(),
    ensures
        children_wf(s.remove(j)),
    decreases s.len(),
{
    if j == s.len() - 1 {
        assert(s.remove(j) =~= s.drop_last());
    } else {
        lemma_children_wf_remove(s.drop_last(), j);
        assert(s.remove(j).drop_last() =~= s.drop_last().remove(j));
        assert(s.remove(j).last() == s.last());
    }
}

/// The claim phase of reconciliation: walks the desired descriptions in
/// order, reclaiming from the previous children the oldest entry with a
/// matching key.  A reclaimed instance whose behavior differs from the
/// requested one is not reused: it goes to the dropped list, because type
/// identity is stronger than key identity.  What the phase does is exactly
/// [`spec_reconcile`] of the previous entries and the descriptions.
fn claim_children(
    prev: &mut RemoveOnlyMultimap,
    elements: &Vec<AnyElement>,
) -> (r: (Vec<Option<InstantiatedComponent>>, Vec<InstantiatedComponent>))
    requires
        children_wf(old(prev).items@),
    ensures
        ({
            let plan = spec_reconcile(old(prev).items@, descs_of(elements@));
            &&& r.0@.len() == elements@.len()
            &&& forall|j: int| 0 <= j < elements@.len() ==> r.0@[j] == plan.claimed[j]
            &&& plan.dropped == r.1@ + Seq::new(
                final(prev).items@.len(),
                |i: int| final(prev).items@[i].1,
            )
            &&& forall|j: int|
                0 <= j < elements@.len() && (#[trigger] plan.claimed[j]) is Some ==> {
                    let ci = plan.claimed[j]->0;
                    &&& inst_wf(ci)
                    &&& !ci.first_update
                    &&& ci.kind == elements@[j].spec_kind()
                    &&& ci.key@ == elements@[j].key@
                }
            &&& children_wf(final(prev).items@)
        }),
{
    let ghost prev0 = prev.items@;
    let ghost descs = descs_of(elements@);
    let ghost plan = spec_reconcile(prev0, descs);
    let mut claimed: Vec<Option<InstantiatedComponent>> = Vec::new();
    let mut dropped: Vec<InstantiatedComponent> = Vec::new();
    let n = elements.len();
    let mut j: usize = 0;
    proof {
        assert(descs.skip(0) =~= descs);
    }
    while j < n
        invariant
            j <= n,
            n == elements@.len(),
            descs == descs_of(elements@),
            plan == spec_reconcile(prev0, descs),
            claimed@.len() == j,
            children_wf(prev.items@),
            plan.claimed == claimed@ + spec_reconcile(prev.items@, descs.skip(j as int)).claimed,
            plan.dropped == dropped@ + spec_reconcile(prev.items@, descs.skip(j as int)).dropped,
            forall|k: int|
                0 <= k < j && (#[trigger] claimed@[k]) is Some ==> {
                    let ci = claimed@[k]->0;
                    &&& inst_wf(ci)
                    &&& !ci.first_update
                    &&& ci.kind == elements@[k].spec_kind()
                    &&& ci.key@ == elements@[k].key@
                },
        decreases n - j,
    {
        let ghost rest = spec_reconcile(prev.items@, descs.skip(j as int));
        let ghost cur = prev.items@;
        proof {
            assert(descs.skip(j as int)[0] == descs[j as int]);
            assert(descs.skip(j as int).drop_first() =~= descs.skip(j + 1));
            assert(descs[j as int] == elements@[j as int].spec_desc());
        }
        let e = &elements[j];
        let kind = e.kind();
        let popped = prev.pop_front(&e.key);
        match popped {
            Some(ci) => {
                let ghost jj = choose|jj: int|
                    {
                        &&& #[trigger] crate::multimap::is_first_key(cur, e.key@, jj)
                        &&& ci == cur[jj].1
                        &&& prev.items@ == cur.remove(jj)
                    };
                proof {
                    lemma_first_key_unique(cur, e.key@, jj);
                    lemma_children_wf_entry(cur, jj);
                    lemma_children_wf_remove(cur, jj);
                }
                if ci.kind == kind {
                    claimed.push(Some(ci));
                    proof {
                        assert(rest.claimed == seq![Option::Some(ci)] + spec_reconcile(
                            prev.items@,
                            descs.skip(j + 1),
                        ).claimed);
                        assert(plan.claimed =~= claimed@ + spec_reconcile(
                            prev.items@,
                            descs.skip(j + 1),
                        ).claimed);
                        assert(plan.dropped =~= dropped@ + spec_reconcile(
                            prev.items@,
                            descs.skip(j + 1),
                        ).dropped);
                    }
                } else {
                    claimed.push(None);
                    dropped.push(ci);
                    proof {
                        assert(rest.claimed == seq![Option::None::<InstantiatedComponent>]
                            + spec_reconcile(prev.items@, descs.skip(j + 1)).claimed);
                        assert(rest.dropped == seq![ci] + spec_reconcile(
                            prev.items@,
                            descs.skip(j + 1),
                        ).dropped);
                        assert(plan.claimed =~= claimed@ + spec_reconcile(
                            prev.items@,
                            descs.skip(j + 1),
                        ).claimed);
                        assert(plan.dropped =~= dropped@ + spec_reconcile(
                            prev.items@,
                            descs.skip(j + 1),
                        ).dropped);
                    }
                }
            },
            None => {
                claimed.push(None);
                proof {
                    lemma_raw_first_key(cur, e.key@);
                    if raw_first_key(cur, e.key@) is Some {
                        let jj = raw_first_key(cur, e.key@)->0;
                        assert(cur[jj].0@ == e.key@);
                        assert(false);
                    }
                    assert(rest.claimed == seq![Option::None::<InstantiatedComponent>]
                        + spec_reconcile(prev.items@, descs.skip(j + 1)).claimed);
                    assert(plan.claimed =~= claimed@ + spec_reconcile(
                        prev.items@,
                        descs.skip(j + 1),
                    ).claimed);
                    assert(plan.dropped =~= dropped@ + spec_reconcile(
                        prev.items@,
                        descs.skip(j + 1),
                    ).dropped);
                }
            },
        }
        j = j + 1;
    }
    proof {
        assert(descs.skip(n as int) =~= Seq::<(KeyView, ComponentKind)>::empty());
        let tail = spec_reconcile(prev.items@, descs.skip(n as int));
        assert(tail.claimed =~= Seq::<Option<InstantiatedComponent>>::empty());
        assert(plan.claimed =~= claimed@);
        assert(plan.dropped =~= dropped@ + Seq::new(
            prev.items@.len(),
            |i: int| prev.items@[i].1,
        ));
    }
    (claimed, dropped)
}


/// How the render environment may evolve across an update pass: cells may
/// be created and released, but a cell live before and after is untouched —
/// its value, changed mark and waiters are exactly as they were; released
/// handles stay stale; no wake is delivered; event queues are only opened
/// or closed, never fed.
pub open spec fn env_evolves(pre: RenderEnv, post: RenderEnv) -> bool {
    &&& post.arena.slots@.len() >= pre.arena.slots@.len()
    &&& forall|h: State|
        pre.arena.spec_valid(h) && post.arena.spec_valid(h) ==> {
            &&& (#[trigger] post.arena.spec_value(h)) == pre.arena.spec_value(h)
            &&& post.arena.spec_changed(h) == pre.arena.spec_changed(h)
            &&& post.arena.spec_borrowed(h) == pre.arena.spec_borrowed(h)
            &&& post.arena.spec_wakers(h) == pre.arena.spec_wakers(h)
            &&& post.arena.spec_shared(h) == pre.arena.spec_shared(h)
        }
    &&& forall|h: State|
        h.index < pre.arena.slots@.len() && !pre.arena.spec_valid(h) ==> !(
        #[trigger] post.arena.spec_valid(h))
    &&& post.arena.wake_log@ == pre.arena.wake_log@
    &&& pre.hub.dissolves_into(post.hub)
    &&& post.hub.received_ctrl_c == pre.hub.received_ctrl_c
}

/// What one reconciliation pass guarantees, relating the previous child
/// entries and the desired elements to the new entries and the environment.
///
/// The new collection holds exactly one instance per desired element, in
/// the order the pass specified them.  An instance claimed by key with an
/// unchanged behavior is the previous one: same identity, same hook slots.
/// An unclaimed description gets a freshly constructed instance whose hook
/// cells are new allocations.  Every dropped instance — claimed under a key
/// whose behavior changed, or not claimed at all — has its subtree's cells
/// released and its subtree's event queues closed.
pub open spec fn reconciled_children(
    pre_entries: Seq<(ElementKey, InstantiatedComponent)>,
    elems: Seq<AnyElement>,
    post_entries: Seq<(ElementKey, InstantiatedComponent)>,
    pre_env: RenderEnv,
    post_env: RenderEnv,
) -> bool {
    let plan = spec_reconcile(pre_entries, descs_of(elems));
    &&& post_entries.len() == elems.len()
    &&& forall|j: int|
        0 <= j < elems.len() ==> {
            let e = #[trigger] post_entries[j];
            &&& e.0@ == elems[j].key@
            &&& e.1.key@ == elems[j].key@
            &&& e.1.kind == elems[j].spec_kind()
            &&& !e.1.first_update
            &&& e.1.layout_style == spec_layout_of(elems[j].props)
            &&& e.1.has_transparent_layout == spec_transparent(elems[j].spec_kind())
        }
    &&& forall|j: int|
        0 <= j < elems.len() ==> match #[trigger] plan.claimed[j] {
            Option::Some(ci) => {
                &&& post_entries[j].1.id == ci.id
                &&& slot_ids(post_entries[j].1.hooks@) == slot_ids(ci.hooks@)
            },
            Option::None => forall|h: State|
                #[trigger] own_handles(post_entries[j].1.hooks@).contains(h) ==> h.index
                    >= pre_env.arena.slots@.len(),
        }
    &&& forall|d: int, h: State|
        0 <= d < plan.dropped.len() && #[trigger] tree_handles(plan.dropped[d]).contains(h)
            && h.index < pre_env.arena.slots@.len() ==> !post_env.arena.spec_valid(h)
    &&& forall|d: int, i: usize|
        0 <= d < plan.dropped.len() && #[trigger] tree_subs(plan.dropped[d]).contains(i) && i
            < pre_env.hub.subscribers@.len() ==> {
            &&& !post_env.hub.subscribers@[i as int].alive
            &&& post_env.hub.subscribers@[i as int].pending@.len() == 0
        }
}

/// Environment evolution composes across successive passes.
pub proof fn lemma_env_evolves_trans(a: RenderEnv, b: RenderEnv, c: RenderEnv)
    requires
        env_evolves(a, b),
        env_evolves(b, c),
    ensures
        env_evolves(a, c),
{
    assert forall|h: State| a.arena.spec_valid(h) && c.arena.spec_valid(h) implies {
        &&& (#[trigger] c.arena.spec_value(h)) == a.arena.spec_value(h)
        &&& c.arena.spec_changed(h) == a.arena.spec_changed(h)
        &&& c.arena.spec_borrowed(h) == a.arena.spec_borrowed(h)
        &&& c.arena.spec_wakers(h) == a.arena.spec_wakers(h)
        &&& c.arena.spec_shared(h) == a.arena.spec_shared(h)
    } by {
        if !b.arena.spec_valid(h) {
            assert(h.index < b.arena.slots@.len());
            assert(!c.arena.spec_valid(h));
        }
    }
    assert forall|h: State|
        h.index < a.arena.slots@.len() && !a.arena.spec_valid(h) implies !(
    #[trigger] c.arena.spec_valid(h)) by {
        assert(h.index < b.arena.slots@.len());
    }
    assert forall|i: int| 0 <= i < a.hub.subscribers@.len() implies (
    #[trigger] c.hub.subscribers@[i]) == a.hub.subscribers@[i] || (!c.hub.subscribers@[i].alive
        && c.hub.subscribers@[i].pending@.len() == 0) by {
        assert(b.hub.subscribers@[i] == a.hub.subscribers@[i] || (!b.hub.subscribers@[i].alive
            && b.hub.subscribers@[i].pending@.len() == 0));
    }
}

/// Reconciles one instance's children against the freshly produced element
/// list: reuses the oldest previous instance with a matching key and an
/// unchanged behavior, constructs instances for the rest, updates every
/// child in list order, and tears down whatever the pass no longer
/// describes.  When `context` carries an entry, it is pushed for exactly
/// the duration of the children's evaluation.
#[verifier::rlimit(100)]
pub fn update_children(
    children: &mut Components,
    elements: &Vec<AnyElement>,
    context: Option<Context>,
    stack: &mut ContextStack,
    env: &mut RenderEnv,
)
    requires
        children_wf(old(children).components.items@),
    ensures
        children_wf(final(children).components.items@),
        reconciled_children(
            old(children).components.items@,
            elements@,
            final(children).components.items@,
            *old(env),
            *final(env),
        ),
        env_evolves(*old(env), *final(env)),
        final(stack)@ == old(stack)@,
    decreases elements@, 1int,
{
    let ghost prev0 = children.components.items@;
    let ghost descs = descs_of(elements@);
    let ghost plan = spec_reconcile(prev0, descs);
    let ghost env0 = *env;
    let ghost stack0 = stack@;
    let pushed = match &context {
        Some(c) => {
            stack.push(*c);
            true
        },
        None => false,
    };
    let (mut claimed, dropped) = claim_children(&mut children.components, elements);
    let ghost leftover0 = children.components.items@;
    let n = elements.len();
    let mut used = AppendOnlyMultimap::default();
    let mut j: usize = 0;
    while j < n
        invariant
            j <= n,
            n == elements@.len(),
            descs == descs_of(elements@),
            plan == spec_reconcile(prev0, descs),
            claimed@.len() == n - j,
            forall|k: int| 0 <= k < n - j ==> claimed@[k] == plan.claimed[j + k],
            forall|k: int|
                0 <= k < n && (#[trigger] plan.claimed[k]) is Some ==> {
                    let ci = plan.claimed[k]->0;
                    &&& inst_wf(ci)
                    &&& !ci.first_update
                    &&& ci.kind == elements@[k].spec_kind()
                    &&& ci.key@ == elements@[k].key@
                },
            children.components.items@ == leftover0,
            used.items@.len() == j,
            children_wf(used.items@),
            forall|k: int|
                0 <= k < j ==> {
                    let e = #[trigger] used.items@[k];
                    &&& e.0@ == elements@[k].key@
                    &&& e.1.key@ == elements@[k].key@
                    &&& e.1.kind == elements@[k].spec_kind()
                    &&& !e.1.first_update
                    &&& e.1.layout_style == spec_layout_of(elements@[k].props)
                    &&& e.1.has_transparent_layout == spec_transparent(elements@[k].spec_kind())
                },
            forall|k: int|
                0 <= k < j ==> match #[trigger] plan.claimed[k] {
                    Option::Some(ci) => {
                        &&& used.items@[k].1.id == ci.id
                        &&& slot_ids(used.items@[k].1.hooks@) == slot_ids(ci.hooks@)
                    },
                    Option::None => forall|h: State|
                        #[trigger] own_handles(used.items@[k].1.hooks@).contains(h) ==> h.index
                            >= env0.arena.slots@.len(),
                },
            env_evolves(env0, *env),
            stack@ == if pushed {
                stack0.push(context->0)
            } else {
                stack0
            },
            pushed == (context is Some),
        decreases n - j,
    {
        let ghost envj = *env;
        let ghost used_pre = used.items@;
        let e = &elements[j];
        let ghost claimed_pre = claimed@;
        let slot = claimed.remove(0);
        let mut comp = match slot {
            Some(ci) => ci,
            None => new_instance(e, env),
        };
        proof {
            assert(claimed@ =~= claimed_pre.drop_first());
            assert(plan.claimed[j as int] == slot);
            if slot is None {
                assert(inst_wf(comp));
            }
            assert(decreases_to!(elements@ => elements@[j as int]));
            assert(decreases_to!(elements@[j as int] => elements@[j as int].props));
            assert(elements@[j as int].props == e.props);
        }
        update_instance(&mut comp, &e.props, stack, env);
        used.push_back(e.key.clone(), comp);
        proof {
            assert(used.items@.drop_last() =~= used_pre);
            assert(env_evolves(envj, *env));
            lemma_env_evolves_trans(env0, envj, *env);
            if plan.claimed[j as int] is None {
                assert forall|h: State|
                    #[trigger] own_handles(used.items@[j as int].1.hooks@).contains(h)
                    implies h.index >= env0.arena.slots@.len() by {
                    assert(h.index >= envj.arena.slots@.len());
                }
            }
            assert forall|k: int| 0 <= k < n - (j + 1) implies claimed@[k] == plan.claimed[j + 1
                + k] by {}
        }
        j = j + 1;
    }
    let ghost env_upd = *env;
    let ghost used_final = used.items@;
    let m = dropped.len();
    let mut d: usize = 0;
    while d < m
        invariant
            d <= m,
            m == dropped@.len(),
            children.components.items@ == leftover0,
            used.items@ == used_final,
            env_evolves(env0, *env),
            env.arena.slots@.len() >= env_upd.arena.slots@.len(),
            forall|d2: int, h: State|
                0 <= d2 < d && #[trigger] tree_handles(dropped@[d2]).contains(h)
                    ==> !env.arena.spec_valid(h),
            forall|d2: int, i: usize|
                0 <= d2 < d && #[trigger] tree_subs(dropped@[d2]).contains(i) && i
                    < env.hub.subscribers@.len() ==> {
                    &&& !env.hub.subscribers@[i as int].alive
                    &&& env.hub.subscribers@[i as int].pending@.len() == 0
                },
            env.hub.subscribers@.len() >= env0.hub.subscribers@.len(),
        decreases m - d,
    {
        let ghost envd = *env;
        teardown(&dropped[d], env);
        proof {
            assert forall|h: State|
                envd.arena.spec_valid(h) && env.arena.spec_valid(h) implies {
                &&& (#[trigger] env.arena.spec_value(h)) == envd.arena.spec_value(h)
                &&& env.arena.spec_changed(h) == envd.arena.spec_changed(h)
                &&& env.arena.spec_borrowed(h) == envd.arena.spec_borrowed(h)
                &&& env.arena.spec_wakers(h) == envd.arena.spec_wakers(h)
                &&& env.arena.spec_shared(h) == envd.arena.spec_shared(h)
            } by {
                if tree_handles(dropped@[d as int]).contains(h) {
                    assert(!env.arena.spec_valid(h));
                }
            }
            assert(env_evolves(envd, *env));
            lemma_env_evolves_trans(env0, envd, *env);
        }
        d = d + 1;
    }
    let mut leftover_torn: usize = 0;
    let ghost lt0 = leftover0;
    let total_leftover = children.components.len();
    proof {
        assert(lt0.len() == total_leftover);
    }
    while children.components.len() > 0
        invariant
            lt0.len() <= usize::MAX,
            leftover_torn <= lt0.len(),
            children.components.items@ == lt0.skip(leftover_torn as int),
            used.items@ == used_final,
            env_evolves(env0, *env),
            forall|d2: int, h: State|
                0 <= d2 < m && #[trigger] tree_handles(dropped@[d2]).contains(h)
                    ==> !env.arena.spec_valid(h),
            forall|d2: int, i: usize|
                0 <= d2 < m && #[trigger] tree_subs(dropped@[d2]).contains(i) && i
                    < env.hub.subscribers@.len() ==> {
                    &&& !env.hub.subscribers@[i as int].alive
                    &&& env.hub.subscribers@[i as int].pending@.len() == 0
                },
            forall|l2: int, h: State|
                0 <= l2 < leftover_torn && #[trigger] tree_handles(lt0[l2].1).contains(h)
                    ==> !env.arena.spec_valid(h),
            forall|l2: int, i: usize|
                0 <= l2 < leftover_torn && #[trigger] tree_subs(lt0[l2].1).contains(i) && i
                    < env.hub.subscribers@.len() ==> {
                    &&& !env.hub.subscribers@[i as int].alive
                    &&& env.hub.subscribers@[i as int].pending@.len() == 0
                },
            env.hub.subscribers@.len() >= env0.hub.subscribers@.len(),
            m == dropped@.len(),
        decreases children.components.items@.len(),
    {
        let popped = children.components.pop_front_entry();
        match popped {
            Some(entry) => {
                proof {
                    assert(entry.1 == lt0[leftover_torn as int].1);
                    assert(children.components.items@ =~= lt0.skip(leftover_torn + 1));
                }
                let ghost envd = *env;
                teardown(&entry.1, env);
                proof {
                    assert forall|h: State|
                        envd.arena.spec_valid(h) && env.arena.spec_valid(h) implies {
                        &&& (#[trigger] env.arena.spec_value(h)) == envd.arena.spec_value(h)
                        &&& env.arena.spec_changed(h) == envd.arena.spec_changed(h)
                        &&& env.arena.spec_borrowed(h) == envd.arena.spec_borrowed(h)
                        &&& env.arena.spec_wakers(h) == envd.arena.spec_wakers(h)
                        &&& env.arena.spec_shared(h) == envd.arena.spec_shared(h)
                    } by {
                        if tree_handles(entry.1).contains(h) {
                            assert(!env.arena.spec_valid(h));
                        }
                    }
                    assert(env_evolves(envd, *env));
                    lemma_env_evolves_trans(env0, envd, *env);
                }
                leftover_torn = leftover_torn + 1;
            },
            None => {
                proof {
                    assert(false);
                }
            },
        }
    }
    proof {
        assert(lt0.skip(leftover_torn as int).len() == 0);
        assert(leftover_torn == lt0.len());
    }
    children.components = RemoveOnlyMultimap::from(used);
    if pushed {
        let _ = stack.pop();
        proof {
            assert(stack0.push(context->0).drop_last() =~= stack0);
        }
    }
    proof {
        assert(plan.dropped == dropped@ + Seq::new(lt0.len(), |i: int| lt0[i].1));
        assert forall|di: int, h: State|
            0 <= di < plan.dropped.len() && #[trigger] tree_handles(plan.dropped[di]).contains(
                h,
            ) && h.index < env0.arena.slots@.len() implies !final(env).arena.spec_valid(h) by {
            if di < dropped@.len() {
                assert(plan.dropped[di] == dropped@[di]);
            } else {
                assert(plan.dropped[di] == lt0[di - dropped@.len()].1);
            }
        }
        assert forall|di: int, i: usize|
            0 <= di < plan.dropped.len() && #[trigger] tree_subs(plan.dropped[di]).contains(i)
                && i < env0.hub.subscribers@.len() implies {
            &&& !final(env).hub.subscribers@[i as int].alive
            &&& final(env).hub.subscribers@[i as int].pending@.len() == 0
        } by {
            assert(i < final(env).hub.subscribers@.len());
            if di < dropped@.len() {
                assert(plan.dropped[di] == dropped@[di]);
            } else {
                assert(plan.dropped[di] == lt0[di - dropped@.len()].1);
            }
        }
    }
}


/// Runs one instance's update step: resets the hook index, runs the
/// behavior for the instance's kind — which registers its hook slots in
/// their fixed order and describes its children — then reconciles the
/// children and caches the layout intent.  Reuse keeps the instance's
/// identity and every persistent hook identity; a first update creates the
/// hook cells fresh.
#[verifier::rlimit(100)]
pub fn update_instance(
    inst: &mut InstantiatedComponent,
    props: &AnyProps,
    stack: &mut ContextStack,
    env: &mut RenderEnv,
)
    requires
        props.spec_kind() == old(inst).kind,
        inst_wf(*old(inst)),
    ensures
        final(inst).key == old(inst).key,
        final(inst).kind == old(inst).kind,
        final(inst).id == old(inst).id,
        !final(inst).first_update,
        final(inst).layout_style == spec_layout_of(*props),
        final(inst).has_transparent_layout == spec_transparent(old(inst).kind),
        inst_wf(*final(inst)),
        !old(inst).first_update ==> slot_ids(final(inst).hooks@) == slot_ids(old(inst).hooks@),
        old(inst).first_update ==> forall|h: State|
            #[trigger] own_handles(final(inst).hooks@).contains(h) ==> h.index >= old(
                env,
            ).arena.slots@.len(),
        old(inst).kind is Counter ==> {
            &&& final(inst).hooks@.len() == 2
            &&& final(inst).hooks@[0] is State
            &&& final(inst).hooks@[1] is Events
            &&& final(inst).hooks@[1]->Events_0.handler == Handler {
                provided: true,
                action: HandlerAction::AddToState(
                    final(inst).hooks@[0]->State_0,
                    props.value->Counter_0.step,
                ),
            }
        },
        old(inst).kind is Counter && !old(inst).first_update && old(
            inst,
        ).children.components.items@.len() == 0 ==> *final(env) == *old(env),
        old(inst).kind is Counter && old(inst).first_update ==> {
            let cell = final(inst).hooks@[0]->State_0;
            let sub = final(inst).hooks@[1]->Events_0.sub;
            &&& final(env).arena.spec_valid(cell)
            &&& final(env).arena.spec_value(cell) == Value::Int(0)
            &&& !final(env).arena.spec_changed(cell)
            &&& !final(env).arena.spec_borrowed(cell)
            &&& !final(env).arena.spec_shared(cell)
            &&& final(env).arena.spec_wakers(cell) == Seq::<u64>::empty()
            &&& sub.index == old(env).hub.subscribers@.len()
            &&& final(env).hub.spec_alive(sub)
            &&& final(env).hub.spec_pending(sub) == Seq::<crate::events::Event>::empty()
        },
        reconciled_children(
            old(inst).children.components.items@,
            props.spec_children(),
            final(inst).children.components.items@,
            *old(env),
            *final(env),
        ),
        env_evolves(*old(env), *final(env)),
        final(stack)@ == old(stack)@,
    decreases *props, 0int,
{
    let ghost env0 = *env;
    let first = inst.first_update;
    let mut taken: Vec<HookSlot> = Vec::new();
    std::mem::swap(&mut taken, &mut inst.hooks);
    let mut hooks = Hooks::new(taken, first);
    let mut layout = LayoutStyle::default();
    let mut transparent = false;
    match &props.value {
        PropsValue::Fragment(p) => {
            transparent = true;
            proof {
                assert(decreases_to!(*props => props.value));
                assert(decreases_to!(props.value => props.value->Fragment_0));
                assert(decreases_to!(props.value->Fragment_0
                    => props.value->Fragment_0.children));
                assert(decreases_to!(props.value->Fragment_0.children
                    => props.value->Fragment_0.children@));
            }
            update_children(&mut inst.children, &p.children, None, stack, env);
        },
        PropsValue::ContextProvider(p) => {
            transparent = true;
            proof {
                assert(decreases_to!(*props => props.value));
                assert(decreases_to!(props.value => props.value->ContextProvider_0));
                assert(decreases_to!(props.value->ContextProvider_0
                    => props.value->ContextProvider_0.children));
                assert(decreases_to!(props.value->ContextProvider_0.children
                    => props.value->ContextProvider_0.children@));
            }
            update_children(&mut inst.children, &p.children, p.value, stack, env);
        },
        PropsValue::View(p) => {
            layout = p.layout_style;
            proof {
                assert(decreases_to!(*props => props.value));
                assert(decreases_to!(props.value => props.value->View_0));
                assert(decreases_to!(props.value->View_0 => props.value->View_0.children));
                assert(decreases_to!(props.value->View_0.children
                    => props.value->View_0.children@));
            }
            update_children(&mut inst.children, &p.children, None, stack, env);
        },
        PropsValue::Counter(p) => {
            proof {
                if !first {
                    assert(slots_match(hooks.slots@, ComponentKind::Counter));
                    assert(hook_schema(ComponentKind::Counter)[0] == HookKind::State);
                    assert(hook_schema(ComponentKind::Counter)[1] == HookKind::Events);
                    assert(hooks.slots@[0].spec_kind() == HookKind::State);
                    assert(hooks.slots@[1].spec_kind() == HookKind::Events);
                    assert(hooks.slots@[0] is State);
                    assert(hooks.slots@[1] is Events);
                } else {
                    assert(hooks.slots@.len() == 0);
                }
            }
            let st = match hooks.use_state(&mut env.arena, Value::Int(0)) {
                Ok(h) => h,
                Err(_) => vstd::pervasive::unreached(),
            };
            let reaction = Handler::from(HandlerAction::AddToState(st, p.step));
            let _sub = match hooks.use_events(&mut env.hub, reaction) {
                Ok(t) => t,
                Err(_) => vstd::pervasive::unreached(),
            };
            let ghost env_hooks = *env;
            proof {
                assert(env_evolves(env0, env_hooks));
            }
            let ghost lt0 = inst.children.components.items@;
            let total = inst.children.components.len();
            proof {
                assert(lt0.len() == total);
            }
            let mut leftover_torn: usize = 0;
            while inst.children.components.len() > 0
                invariant
                    lt0.len() <= usize::MAX,
                    leftover_torn <= lt0.len(),
                    lt0.len() == 0 ==> *env == env_hooks,
                    inst.key == old(inst).key,
                    inst.kind == old(inst).kind,
                    inst.id == old(inst).id,
                    inst.first_update == old(inst).first_update,
                    inst.hooks@.len() == 0,
                    inst.children.components.items@ == lt0.skip(leftover_torn as int),
                    env_evolves(env_hooks, *env),
                    forall|l2: int, h: State|
                        0 <= l2 < leftover_torn && #[trigger] tree_handles(lt0[l2].1).contains(
                            h,
                        ) ==> !env.arena.spec_valid(h),
                    forall|l2: int, i: usize|
                        0 <= l2 < leftover_torn && #[trigger] tree_subs(lt0[l2].1).contains(i)
                            && i < env.hub.subscribers@.len() ==> {
                            &&& !env.hub.subscribers@[i as int].alive
                            &&& env.hub.subscribers@[i as int].pending@.len() == 0
                        },
                decreases inst.children.components.items@.len(),
            {
                let popped = inst.children.components.pop_front_entry();
                match popped {
                    Some(entry) => {
                        proof {
                            assert(entry.1 == lt0[leftover_torn as int].1);
                            assert(inst.children.components.items@ =~= lt0.skip(
                                leftover_torn + 1,
                            ));
                        }
                        let ghost envd = *env;
                        teardown(&entry.1, env);
                        proof {
                            assert forall|h: State|
                                envd.arena.spec_valid(h) && env.arena.spec_valid(h) implies {
                                &&& (#[trigger] env.arena.spec_value(h)) == envd.arena.spec_value(
                                    h,
                                )
                                &&& env.arena.spec_changed(h) == envd.arena.spec_changed(h)
                                &&& env.arena.spec_borrowed(h) == envd.arena.spec_borrowed(h)
                                &&& env.arena.spec_wakers(h) == envd.arena.spec_wakers(h)
                                &&& env.arena.spec_shared(h) == envd.arena.spec_shared(h)
                            } by {
                                if tree_handles(entry.1).contains(h) {
                                    assert(!env.arena.spec_valid(h));
                                }
                            }
                            assert(env_evolves(envd, *env));
                            lemma_env_evolves_trans(env_hooks, envd, *env);
                        }
                        leftover_torn = leftover_torn + 1;
                    },
                    None => {
                        proof {
                            assert(false);
                        }
                    },
                }
            }
            proof {
                assert(lt0.skip(leftover_torn as int).len() == 0);
                assert(leftover_torn == lt0.len());
                lemma_env_evolves_trans(env0, env_hooks, *env);
                let elems = props.spec_children();
                assert(elems =~= Seq::<AnyElement>::empty());
                assert(descs_of(elems) =~= Seq::<(KeyView, ComponentKind)>::empty());
                let plan = spec_reconcile(lt0, descs_of(elems));
                assert(plan.dropped =~= Seq::new(lt0.len(), |i: int| lt0[i].1));
                assert forall|di: int, h: State|
                    0 <= di < plan.dropped.len() && #[trigger] tree_handles(
                        plan.dropped[di],
                    ).contains(h) && h.index < env0.arena.slots@.len() implies !env.arena.spec_valid(
                    h,
                ) by {
                    assert(plan.dropped[di] == lt0[di].1);
                }
                assert forall|di: int, i: usize|
                    0 <= di < plan.dropped.len() && #[trigger] tree_subs(
                        plan.dropped[di],
                    ).contains(i) && i < env0.hub.subscribers@.len() implies {
                    &&& !env.hub.subscribers@[i as int].alive
                    &&& env.hub.subscribers@[i as int].pending@.len() == 0
                } by {
                    assert(plan.dropped[di] == lt0[di].1);
                    assert(i < env.hub.subscribers@.len());
                }
            }
        },
    }
    inst.hooks = hooks.slots;
    inst.first_update = false;
    inst.layout_style = layout;
    inst.has_transparent_layout = transparent;
    proof {
        if old(inst).kind is Counter {
            assert(inst.hooks@.len() == 2);
            assert(inst.hooks@[0].spec_kind() == HookKind::State);
            assert(inst.hooks@[1].spec_kind() == HookKind::Events);
            assert forall|i: int|
                0 <= i < inst.hooks@.len() implies (#[trigger] inst.hooks@[i].spec_kind())
                == hook_schema(inst.kind)[i] by {
                if i == 0 {
                } else {
                }
            }
            assert(slots_match(inst.hooks@, inst.kind));
            if !old(inst).first_update {
                assert(slot_ids(inst.hooks@) =~= slot_ids(old(inst).hooks@));
            } else {
                assert forall|h: State|
                    #[trigger] own_handles(inst.hooks@).contains(h) implies h.index >= old(
                    env,
                ).arena.slots@.len() by {}
            }
        } else {
            assert(inst.hooks@ == old(inst).hooks@);
            assert(hook_schema(inst.kind).len() == 0);
            if !old(inst).first_update {
                assert(slot_ids(inst.hooks@) =~= slot_ids(old(inst).hooks@));
            }
            assert(slots_match(inst.hooks@, inst.kind));
        }
        assert(inst_wf(*inst));
    }
}


/// Readiness depends only on which cells are live, unborrowed and marked
/// changed; two arenas agreeing on those agree on readiness.
pub proof fn lemma_ready_congruent(inst: InstantiatedComponent, a1: StateArena, a2: StateArena)
    requires
        forall|h: State| a1.spec_valid(h) == a2.spec_valid(h),
        forall|h: State|
            a1.spec_valid(h) ==> a1.spec_borrowed(h) == a2.spec_borrowed(h)
                && a1.spec_changed(h) == a2.spec_changed(h),
    ensures
        spec_ready(inst, a1) == spec_ready(inst, a2),
    decreases inst, 0int,
{
    assert forall|i: int| 0 <= i < inst.hooks@.len() implies hook_ready(
        #[trigger] inst.hooks@[i],
        a1,
    ) == hook_ready(inst.hooks@[i], a2) by {}
    assert(hooks_ready(inst.hooks@, a1) == hooks_ready(inst.hooks@, a2));
    lemma_children_ready_congruent(inst.children.components.items@, a1, a2);
}

pub proof fn lemma_children_ready_congruent(
    s: Seq<(ElementKey, InstantiatedComponent)>,
    a1: StateArena,
    a2: StateArena,
)
    requires
        forall|h: State| a1.spec_valid(h) == a2.spec_valid(h),
        forall|h: State|
            a1.spec_valid(h) ==> a1.spec_borrowed(h) == a2.spec_borrowed(h)
                && a1.spec_changed(h) == a2.spec_changed(h),
    ensures
        children_ready(s, a1) == children_ready(s, a2),
    decreases s, 1int,
{
    if s.len() > 0 {
        lemma_children_ready_congruent(s.drop_last(), a1, a2);
        lemma_ready_congruent(s.last().1, a1, a2);
    }
}

/// Readiness over a prefix extends one hook at a time.
pub proof fn lemma_hooks_ready_step(s: Seq<HookSlot>, i: int, a: StateArena)
    requires
        0 <= i < s.len(),
    ensures
        hooks_ready(s.take(i + 1), a) == (hooks_ready(s.take(i), a) || hook_ready(s[i], a)),
{
    if hooks_ready(s.take(i), a) {
        let w = choose|w: int| 0 <= w < s.take(i).len() && hook_ready(s.take(i)[w], a);
        assert(s.take(i + 1)[w] == s.take(i)[w]);
        assert(hooks_ready(s.take(i + 1), a));
    } else if hook_ready(s[i], a) {
        assert(s.take(i + 1)[i] == s[i]);
        assert(hooks_ready(s.take(i + 1), a));
    } else {
        assert forall|w: int| 0 <= w < s.take(i + 1).len() implies !hook_ready(
            #[trigger] s.take(i + 1)[w],
            a,
        ) by {
            if w < i {
                assert(s.take(i + 1)[w] == s.take(i)[w]);
            } else {
                assert(s.take(i + 1)[w] == s[i]);
            }
        }
    }
}

/// Polls one reactive cell: consumes its changed mark if set, otherwise
/// registers the polling instance as a waiter — keyed for a shared cell,
/// replacing for a private one.
fn poll_cell(arena: &mut StateArena, h: State, keyed: bool, id: u64) -> (r: bool)
    ensures
        r == (old(arena).spec_valid(h) && !old(arena).spec_borrowed(h) && old(
            arena,
        ).spec_changed(h)),
        old(arena).spec_valid(h) && !old(arena).spec_borrowed(h) ==> !final(arena).spec_changed(
            h,
        ),
        old(arena).spec_valid(h) && !old(arena).spec_borrowed(h) && !old(arena).spec_changed(h)
            && !keyed ==> final(arena).spec_wakers(h) == seq![id],
        old(arena).spec_valid(h) && !old(arena).spec_borrowed(h) && !old(arena).spec_changed(h)
            && keyed ==> {
            &&& final(arena).spec_wakers(h).contains(id)
            &&& forall|id2: u64|
                old(arena).spec_wakers(h).contains(id2)
                    ==> #[trigger] final(arena).spec_wakers(h).contains(id2)
        },
        forall|h2: State|
            h2 != h && old(arena).spec_valid(h2) ==> (#[trigger] final(arena).spec_wakers(h2))
                == old(arena).spec_wakers(h2),
        forall|h2: State|
            h2 != h && old(arena).spec_valid(h2) ==> (#[trigger] final(arena).spec_changed(h2))
                == old(arena).spec_changed(h2),
        forall|h2: State|
            final(arena).spec_valid(h2) == (#[trigger] old(arena).spec_valid(h2)),
        forall|h2: State|
            old(arena).spec_valid(h2) ==> (#[trigger] final(arena).spec_value(h2)) == old(
                arena,
            ).spec_value(h2),
        forall|h2: State|
            old(arena).spec_valid(h2) ==> (#[trigger] final(arena).spec_borrowed(h2)) == old(
                arena,
            ).spec_borrowed(h2),
        forall|h2: State|
            old(arena).spec_valid(h2) ==> (#[trigger] final(arena).spec_shared(h2)) == old(
                arena,
            ).spec_shared(h2),
        forall|h2: State|
            old(arena).spec_valid(h2) && (#[trigger] final(arena).spec_changed(h2)) ==> old(
                arena,
            ).spec_changed(h2),
        !r ==> forall|h2: State|
            old(arena).spec_valid(h2) ==> (#[trigger] final(arena).spec_changed(h2)) == old(
                arena,
            ).spec_changed(h2),
        final(arena).slots@.len() == old(arena).slots@.len(),
        final(arena).wake_log@ == old(arena).wake_log@,
{
    let changed = arena.take_change(h);
    let ghost mid = *arena;
    if !changed {
        if keyed {
            arena.add_waker(h, id);
        } else {
            arena.set_waker(h, id);
        }
    }
    proof {
        assert forall|h2: State|
            old(arena).spec_valid(h2) implies (#[trigger] arena.spec_value(h2)) == old(
            arena,
        ).spec_value(h2) by {
            if h2 != h {
                assert(mid.spec_valid(h2));
                assert(mid.spec_value(h2) == old(arena).spec_value(h2));
                assert(arena.spec_value(h2) == mid.spec_value(h2));
            }
        }
        assert forall|h2: State|
            old(arena).spec_valid(h2) implies (#[trigger] arena.spec_borrowed(h2)) == old(
            arena,
        ).spec_borrowed(h2) by {
            if h2 != h {
                assert(mid.spec_valid(h2));
                assert(mid.spec_borrowed(h2) == old(arena).spec_borrowed(h2));
            }
        }
        assert forall|h2: State|
            old(arena).spec_valid(h2) implies (#[trigger] arena.spec_shared(h2)) == old(
            arena,
        ).spec_shared(h2) by {
            if h2 != h {
                assert(mid.spec_valid(h2));
                assert(mid.spec_shared(h2) == old(arena).spec_shared(h2));
            }
        }
        assert forall|h2: State|
            old(arena).spec_valid(h2) && (#[trigger] arena.spec_changed(h2)) implies old(
            arena,
        ).spec_changed(h2) by {
            if h2 != h {
                assert(mid.spec_valid(h2));
                assert(mid.spec_changed(h2) == old(arena).spec_changed(h2));
            }
        }
        if !changed {
            assert forall|h2: State| old(arena).spec_valid(h2) implies (
            #[trigger] arena.spec_changed(h2)) == old(arena).spec_changed(h2) by {
                if h2 != h {
                    assert(mid.spec_valid(h2));
                    assert(mid.spec_changed(h2) == old(arena).spec_changed(h2));
                }
            }
        }
        assert forall|h2: State|
            h2 != h && old(arena).spec_valid(h2) implies (#[trigger] arena.spec_wakers(h2))
            == old(arena).spec_wakers(h2) by {
            assert(mid.spec_valid(h2));
            assert(mid.spec_wakers(h2) == old(arena).spec_wakers(h2));
        }
        assert forall|h2: State|
            h2 != h && old(arena).spec_valid(h2) implies (#[trigger] arena.spec_changed(h2))
            == old(arena).spec_changed(h2) by {
            assert(mid.spec_valid(h2));
            assert(mid.spec_changed(h2) == old(arena).spec_changed(h2));
        }
        if old(arena).spec_valid(h) && !old(arena).spec_borrowed(h) && !old(arena).spec_changed(
            h,
        ) && keyed {
            let w_old = old(arena).spec_wakers(h);
            let w_new = arena.spec_wakers(h);
            if w_old.contains(id) {
                assert(w_new == w_old);
            } else {
                assert(w_new == w_old.push(id));
                assert(w_new[w_new.len() - 1] == id);
                assert(w_new.contains(id));
            }
            assert forall|id2: u64| w_old.contains(id2) implies w_new.contains(id2) by {
                let k = choose|k: int| 0 <= k < w_old.len() && w_old[k] == id2;
                assert(w_new[k] == id2);
            }
        }
    }
    changed
}

/// The cell a hook slot polls, if any.
pub open spec fn slot_cell(slot: HookSlot) -> Option<State> {
    match slot {
        HookSlot::State(h) => Option::Some(h),
        HookSlot::Store(h) => Option::Some(h),
        _ => Option::None,
    }
}

/// Every cell polled by the instance's own hook slots, private or shared.
pub open spec fn own_cells(slots: Seq<HookSlot>) -> Set<State> {
    Set::new(
        |h: State|
            exists|i: int|
                0 <= i < slots.len() && slot_cell(#[trigger] slots[i]) == Option::Some(h),
    )
}

/// Every cell polled anywhere in the subtree.
pub open spec fn tree_cells(inst: InstantiatedComponent) -> Set<State>
    decreases inst, 0int,
{
    own_cells(inst.hooks@).union(children_cells(inst.children.components.items@))
}

pub open spec fn children_cells(s: Seq<(ElementKey, InstantiatedComponent)>) -> Set<State>
    decreases s, 1int,
{
    if s.len() == 0 {
        Set::empty()
    } else {
        children_cells(s.drop_last()).union(tree_cells(s.last().1))
    }
}

/// A child's polled cells are among the collection's.
pub proof fn lemma_children_cells_member(s: Seq<(ElementKey, InstantiatedComponent)>, c: int)
    requires
        0 <= c < s.len(),
    ensures
        forall|h: State|
            tree_cells(s[c].1).contains(h) ==> #[trigger] children_cells(s).contains(h),
    decreases s.len(),
{
    if c == s.len() - 1 {
        assert forall|h: State|
            tree_cells(s[c].1).contains(h) implies #[trigger] children_cells(s).contains(h) by {
            assert(s.last() == s[c]);
            assert(tree_cells(s.last().1).contains(h));
        }
    } else {
        lemma_children_cells_member(s.drop_last(), c);
        assert forall|h: State|
            tree_cells(s[c].1).contains(h) implies #[trigger] children_cells(s).contains(h) by {
            assert(s.drop_last()[c] == s[c]);
            assert(children_cells(s.drop_last()).contains(h));
        }
    }
}

/// One depth-first poll over the tree: consumes every pending change mark,
/// registers this pass's waiters on the still-pending cells, and reports
/// the aggregate readiness — the logical or, over the instance's own
/// reactive hooks and all descendants', of "a change is pending", computed
/// freshly against the state the poll started from.
#[verifier::rlimit(100)]
pub fn poll_ready(inst: &InstantiatedComponent, env: &mut RenderEnv) -> (r: bool)
    ensures
        r == spec_ready(*inst, old(env).arena),
        forall|h: State|
            final(env).arena.spec_valid(h) == (#[trigger] old(env).arena.spec_valid(h)),
        forall|h: State|
            old(env).arena.spec_valid(h) ==> (#[trigger] final(env).arena.spec_value(h)) == old(
                env,
            ).arena.spec_value(h),
        forall|h: State|
            old(env).arena.spec_valid(h) ==> (#[trigger] final(env).arena.spec_borrowed(h))
                == old(env).arena.spec_borrowed(h),
        forall|h: State|
            old(env).arena.spec_valid(h) ==> (#[trigger] final(env).arena.spec_shared(h)) == old(
                env,
            ).arena.spec_shared(h),
        forall|h: State|
            old(env).arena.spec_valid(h) && (#[trigger] final(env).arena.spec_changed(h))
                ==> old(env).arena.spec_changed(h),
        !r ==> forall|h: State|
            old(env).arena.spec_valid(h) ==> (#[trigger] final(env).arena.spec_changed(h))
                == old(env).arena.spec_changed(h),
        forall|h: State|
            #[trigger] tree_cells(*inst).contains(h) && old(env).arena.spec_valid(h) && !old(
                env,
            ).arena.spec_borrowed(h) ==> !final(env).arena.spec_changed(h),
        forall|h: State|
            old(env).arena.spec_valid(h) && !(#[trigger] tree_cells(*inst).contains(h))
                ==> final(env).arena.spec_wakers(h) == old(env).arena.spec_wakers(h),
        forall|h: State, id2: u64|
            old(env).arena.spec_valid(h) && !old(env).arena.spec_borrowed(h)
                && !old(env).arena.spec_changed(h) && !(#[trigger] tree_handles(*inst).contains(
                h,
            )) && (#[trigger] old(env).arena.spec_wakers(h).contains(id2))
                ==> final(env).arena.spec_wakers(h).contains(id2),
        forall|i: int|
            0 <= i < inst.hooks@.len() && (#[trigger] inst.hooks@[i]) is State && {
                let h = inst.hooks@[i]->State_0;
                &&& old(env).arena.spec_valid(h)
                &&& !old(env).arena.spec_borrowed(h)
                &&& !old(env).arena.spec_changed(h)
                &&& forall|i2: int|
                    0 <= i2 < inst.hooks@.len() && i2 != i ==> slot_cell(
                        #[trigger] inst.hooks@[i2],
                    ) != Option::Some(h)
                &&& !children_cells(inst.children.components.items@).contains(h)
            } ==> final(env).arena.spec_wakers(inst.hooks@[i]->State_0) == seq![inst.id],
        forall|i: int|
            0 <= i < inst.hooks@.len() && (#[trigger] inst.hooks@[i]) is Store && {
                let h = inst.hooks@[i]->Store_0;
                &&& old(env).arena.spec_valid(h)
                &&& !old(env).arena.spec_borrowed(h)
                &&& !old(env).arena.spec_changed(h)
                &&& !tree_handles(*inst).contains(h)
            } ==> final(env).arena.spec_wakers(inst.hooks@[i]->Store_0).contains(inst.id),
        final(env).arena.slots@.len() == old(env).arena.slots@.len(),
        final(env).arena.wake_log@ == old(env).arena.wake_log@,
        final(env).hub == old(env).hub,
        final(env).next_instance_id == old(env).next_instance_id,
    decreases *inst, 0int,
{
    let mut ready = false;
    let n = inst.hooks.len();
    let mut i: usize = 0;
    proof {
        assert(inst.hooks@.take(0) =~= Seq::<HookSlot>::empty());
    }
    while i < n
        invariant
            i <= n,
            n == inst.hooks@.len(),
            ready == hooks_ready(inst.hooks@.take(i as int), old(env).arena),
            forall|h: State|
                env.arena.spec_valid(h) == (#[trigger] old(env).arena.spec_valid(h)),
            forall|h: State|
                old(env).arena.spec_valid(h) ==> (#[trigger] env.arena.spec_value(h)) == old(
                    env,
                ).arena.spec_value(h),
            forall|h: State|
                old(env).arena.spec_valid(h) ==> (#[trigger] env.arena.spec_borrowed(h)) == old(
                    env,
                ).arena.spec_borrowed(h),
            forall|h: State|
                old(env).arena.spec_valid(h) ==> (#[trigger] env.arena.spec_shared(h)) == old(
                    env,
                ).arena.spec_shared(h),
            forall|h: State|
                old(env).arena.spec_valid(h) && (#[trigger] env.arena.spec_changed(h)) ==> old(
                    env,
                ).arena.spec_changed(h),
            !ready ==> forall|h: State|
                old(env).arena.spec_valid(h) ==> (#[trigger] env.arena.spec_changed(h)) == old(
                    env,
                ).arena.spec_changed(h),
            forall|k: int|
                0 <= k < i && (#[trigger] slot_cell(inst.hooks@[k])) is Some ==> {
                    let h = slot_cell(inst.hooks@[k])->0;
                    old(env).arena.spec_valid(h) && !old(env).arena.spec_borrowed(h)
                        ==> !env.arena.spec_changed(h)
                },
            forall|h: State|
                old(env).arena.spec_valid(h) && !(#[trigger] own_cells(inst.hooks@).contains(h))
                    ==> env.arena.spec_wakers(h) == old(env).arena.spec_wakers(h),
            forall|h: State, id2: u64|
                old(env).arena.spec_valid(h) && !old(env).arena.spec_borrowed(h)
                    && !old(env).arena.spec_changed(h) && !(#[trigger] own_handles(
                    inst.hooks@,
                ).contains(h)) && (#[trigger] old(env).arena.spec_wakers(h).contains(id2))
                    ==> env.arena.spec_wakers(h).contains(id2),
            forall|k: int|
                0 <= k < i && (#[trigger] inst.hooks@[k]) is State && {
                    let h = inst.hooks@[k]->State_0;
                    &&& old(env).arena.spec_valid(h)
                    &&& !old(env).arena.spec_borrowed(h)
                    &&& !old(env).arena.spec_changed(h)
                    &&& forall|i2: int|
                        0 <= i2 < inst.hooks@.len() && i2 != k ==> slot_cell(
                            #[trigger] inst.hooks@[i2],
                        ) != Option::Some(h)
                } ==> env.arena.spec_wakers(inst.hooks@[k]->State_0) == seq![inst.id],
            forall|k: int|
                0 <= k < i && (#[trigger] inst.hooks@[k]) is Store && {
                    let h = inst.hooks@[k]->Store_0;
                    &&& old(env).arena.spec_valid(h)
                    &&& !old(env).arena.spec_borrowed(h)
                    &&& !old(env).arena.spec_changed(h)
                    &&& !own_handles(inst.hooks@).contains(h)
                } ==> env.arena.spec_wakers(inst.hooks@[k]->Store_0).contains(inst.id),
            env.arena.slots@.len() == old(env).arena.slots@.len(),
            env.arena.wake_log@ == old(env).arena.wake_log@,
            env.hub == old(env).hub,
            env.next_instance_id == old(env).next_instance_id,
        decreases n - i,
    {
        let ghost pre = env.arena;
        proof {
            match slot_cell(inst.hooks@[i as int]) {
                Option::Some(h) => {
                    assert(own_cells(inst.hooks@).contains(h));
                },
                Option::None => {},
            }
        }
        let hr = match &inst.hooks[i] {
            HookSlot::State(h) => poll_cell(&mut env.arena, *h, false, inst.id),
            HookSlot::Store(h) => poll_cell(&mut env.arena, *h, true, inst.id),
            HookSlot::Memo(_) => false,
            HookSlot::Task(_) => false,
            HookSlot::Events(_) => false,
        };
        proof {
            assert forall|k: int|
                0 <= k < i + 1 && (#[trigger] slot_cell(inst.hooks@[k])) is Some implies {
                let h = slot_cell(inst.hooks@[k])->0;
                old(env).arena.spec_valid(h) && !old(env).arena.spec_borrowed(h)
                    ==> !env.arena.spec_changed(h)
            } by {
                let h = slot_cell(inst.hooks@[k])->0;
                if old(env).arena.spec_valid(h) && !old(env).arena.spec_borrowed(h) {
                    assert(pre.spec_valid(h));
                    assert(pre.spec_value(h) == pre.spec_value(h));
                    assert(pre.spec_borrowed(h) == old(env).arena.spec_borrowed(h));
                    if k < i {
                        assert(!pre.spec_changed(h));
                        if env.arena.spec_changed(h) {
                            assert(pre.spec_changed(h));
                        }
                    } else {
                        match inst.hooks@[i as int] {
                            HookSlot::State(h2) => {
                                assert(h2 == h);
                            },
                            HookSlot::Store(h2) => {
                                assert(h2 == h);
                            },
                            _ => {},
                        }
                        assert(!env.arena.spec_changed(h));
                    }
                }
            }
            lemma_hooks_ready_step(inst.hooks@, i as int, old(env).arena);
            if !ready {
                match inst.hooks@[i as int] {
                    HookSlot::State(h) => {
                        if old(env).arena.spec_valid(h) {
                            assert(pre.spec_valid(h));
                            assert(pre.spec_value(h) == old(env).arena.spec_value(h));
                            assert(pre.spec_borrowed(h) == old(env).arena.spec_borrowed(h));
                            assert(pre.spec_changed(h) == old(env).arena.spec_changed(h));
                        } else {
                            assert(!pre.spec_valid(h));
                        }
                    },
                    HookSlot::Store(h) => {
                        if old(env).arena.spec_valid(h) {
                            assert(pre.spec_valid(h));
                            assert(pre.spec_value(h) == old(env).arena.spec_value(h));
                            assert(pre.spec_borrowed(h) == old(env).arena.spec_borrowed(h));
                            assert(pre.spec_changed(h) == old(env).arena.spec_changed(h));
                        } else {
                            assert(!pre.spec_valid(h));
                        }
                    },
                    _ => {},
                }
                assert(hr == hook_ready(inst.hooks@[i as int], old(env).arena));
            }
        }
        ready = ready || hr;
        i = i + 1;
    }
    proof {
        assert(inst.hooks@.take(n as int) =~= inst.hooks@);
    }
    let ghost entries = inst.children.components.items@;
    let m = inst.children.components.items.len();
    let mut c: usize = 0;
    proof {
        assert(entries.take(0) =~= Seq::<(ElementKey, InstantiatedComponent)>::empty());
    }
    while c < m
        invariant
            c <= m,
            m == entries.len(),
            entries == inst.children.components.items@,
            ready == (hooks_ready(inst.hooks@, old(env).arena) || children_ready(
                entries.take(c as int),
                old(env).arena,
            )),
            forall|h: State|
                env.arena.spec_valid(h) == (#[trigger] old(env).arena.spec_valid(h)),
            forall|h: State|
                old(env).arena.spec_valid(h) ==> (#[trigger] env.arena.spec_value(h)) == old(
                    env,
                ).arena.spec_value(h),
            forall|h: State|
                old(env).arena.spec_valid(h) ==> (#[trigger] env.arena.spec_borrowed(h)) == old(
                    env,
                ).arena.spec_borrowed(h),
            forall|h: State|
                old(env).arena.spec_valid(h) ==> (#[trigger] env.arena.spec_shared(h)) == old(
                    env,
                ).arena.spec_shared(h),
            forall|h: State|
                old(env).arena.spec_valid(h) && (#[trigger] env.arena.spec_changed(h)) ==> old(
                    env,
                ).arena.spec_changed(h),
            !ready ==> forall|h: State|
                old(env).arena.spec_valid(h) ==> (#[trigger] env.arena.spec_changed(h)) == old(
                    env,
                ).arena.spec_changed(h),
            forall|h: State|
                #[trigger] own_cells(inst.hooks@).contains(h) && old(env).arena.spec_valid(h)
                    && !old(env).arena.spec_borrowed(h) ==> !env.arena.spec_changed(h),
            forall|h: State|
                #[trigger] children_cells(entries.take(c as int)).contains(h) && old(
                    env,
                ).arena.spec_valid(h) && !old(env).arena.spec_borrowed(h)
                    ==> !env.arena.spec_changed(h),
            forall|h: State|
                old(env).arena.spec_valid(h) && !(#[trigger] tree_cells(*inst).contains(h))
                    ==> env.arena.spec_wakers(h) == old(env).arena.spec_wakers(h),
            forall|h: State, id2: u64|
                old(env).arena.spec_valid(h) && !old(env).arena.spec_borrowed(h)
                    && !old(env).arena.spec_changed(h) && !(#[trigger] tree_handles(
                    *inst,
                ).contains(h)) && (#[trigger] old(env).arena.spec_wakers(h).contains(id2))
                    ==> env.arena.spec_wakers(h).contains(id2),
            forall|k: int|
                0 <= k < n && (#[trigger] inst.hooks@[k]) is State && {
                    let h = inst.hooks@[k]->State_0;
                    &&& old(env).arena.spec_valid(h)
                    &&& !old(env).arena.spec_borrowed(h)
                    &&& !old(env).arena.spec_changed(h)
                    &&& forall|i2: int|
                        0 <= i2 < inst.hooks@.len() && i2 != k ==> slot_cell(
                            #[trigger] inst.hooks@[i2],
                        ) != Option::Some(h)
                    &&& !children_cells(entries).contains(h)
                } ==> env.arena.spec_wakers(inst.hooks@[k]->State_0) == seq![inst.id],
            forall|k: int|
                0 <= k < n && (#[trigger] inst.hooks@[k]) is Store && {
                    let h = inst.hooks@[k]->Store_0;
                    &&& old(env).arena.spec_valid(h)
                    &&& !old(env).arena.spec_borrowed(h)
                    &&& !old(env).arena.spec_changed(h)
                    &&& !tree_handles(*inst).contains(h)
                } ==> env.arena.spec_wakers(inst.hooks@[k]->Store_0).contains(inst.id),
            env.arena.slots@.len() == old(env).arena.slots@.len(),
            env.arena.wake_log@ == old(env).arena.wake_log@,
            env.hub == old(env).hub,
            env.next_instance_id == old(env).next_instance_id,
        decreases m - c,
    {
        proof {
            lemma_children_cells_member(entries, c as int);
            lemma_children_handles_member(entries, c as int);
            assert(tree_cells(*inst) == own_cells(inst.hooks@).union(children_cells(entries)));
            assert(tree_handles(*inst) == own_handles(inst.hooks@).union(
                children_handles(entries),
            ));
            assert(decreases_to!(*inst => inst.children));
            assert(decreases_to!(inst.children => inst.children.components));
            assert(decreases_to!(inst.children.components => inst.children.components.items));
            assert(decreases_to!(inst.children.components.items
                => inst.children.components.items@));
            assert(decreases_to!(inst.children.components.items@
                => inst.children.components.items@[c as int]));
            assert(decreases_to!(inst.children.components.items@[c as int]
                => inst.children.components.items@[c as int].1));
        }
        let ghost pre = env.arena;
        let child = &inst.children.components.items[c].1;
        let cr = poll_ready(child, env);
        proof {
            assert(entries.take(c + 1).drop_last() =~= entries.take(c as int));
            assert(entries.take(c + 1).last() == entries[c as int]);
            assert(children_cells(entries.take(c + 1)) =~= children_cells(
                entries.take(c as int),
            ).union(tree_cells(entries[c as int].1)));
            assert forall|h: State|
                #[trigger] own_cells(inst.hooks@).contains(h) && old(env).arena.spec_valid(h)
                    && !old(env).arena.spec_borrowed(h) implies !env.arena.spec_changed(h) by {
                assert(pre.spec_valid(h));
                assert(pre.spec_borrowed(h) == old(env).arena.spec_borrowed(h));
                if tree_cells(entries[c as int].1).contains(h) {
                    assert(!env.arena.spec_changed(h));
                } else {
                    assert(!pre.spec_changed(h));
                    if env.arena.spec_changed(h) {
                        assert(pre.spec_changed(h));
                    }
                }
            }
            assert forall|h: State|
                #[trigger] children_cells(entries.take(c + 1)).contains(h) && old(
                    env,
                ).arena.spec_valid(h) && !old(env).arena.spec_borrowed(h)
                implies !env.arena.spec_changed(h) by {
                assert(pre.spec_valid(h));
                assert(pre.spec_borrowed(h) == old(env).arena.spec_borrowed(h));
                if tree_cells(entries[c as int].1).contains(h) {
                    assert(!env.arena.spec_changed(h));
                } else {
                    assert(children_cells(entries.take(c as int)).contains(h));
                    assert(!pre.spec_changed(h));
                    if env.arena.spec_changed(h) {
                        assert(pre.spec_changed(h));
                    }
                }
            }
            if !ready {
                assert forall|h: State|
                    pre.spec_valid(h) implies pre.spec_borrowed(h) == old(
                    env,
                ).arena.spec_borrowed(h) && pre.spec_changed(h) == old(env).arena.spec_changed(
                    h,
                ) by {
                    assert(old(env).arena.spec_valid(h));
                    assert(pre.spec_value(h) == old(env).arena.spec_value(h));
                }
                lemma_ready_congruent(*child, pre, old(env).arena);
                assert(cr == spec_ready(entries[c as int].1, old(env).arena));
            }
        }
        ready = ready || cr;
        c = c + 1;
    }
    proof {
        assert(entries.take(m as int) =~= entries);
        assert(tree_cells(*inst) == own_cells(inst.hooks@).union(children_cells(entries)));
        assert forall|h: State|
            #[trigger] tree_cells(*inst).contains(h) && old(env).arena.spec_valid(h) && !old(
                env,
            ).arena.spec_borrowed(h) implies !env.arena.spec_changed(h) by {
            if own_cells(inst.hooks@).contains(h) {
            } else {
                assert(children_cells(entries).contains(h));
            }
        }
    }
    ready
}


/// The arena may change only the way event handlers change it: cells keep
/// their identity, borrow state and waiter policy, marks are only added,
/// and the wake log only grows.
pub open spec fn arena_handled(pre: StateArena, post: StateArena) -> bool {
    &&& post.slots@.len() == pre.slots@.len()
    &&& forall|h: State| post.spec_valid(h) == (#[trigger] pre.spec_valid(h))
    &&& forall|h: State|
        pre.spec_valid(h) ==> (#[trigger] post.spec_borrowed(h)) == pre.spec_borrowed(h)
    &&& forall|h: State|
        pre.spec_valid(h) ==> (#[trigger] post.spec_shared(h)) == pre.spec_shared(h)
    &&& forall|h: State|
        pre.spec_valid(h) && (#[trigger] pre.spec_changed(h)) ==> post.spec_changed(h)
    &&& pre.wake_log@.is_prefix_of(post.wake_log@)
}

/// The hub may change only the way draining changes it: the subscriber
/// list and liveness stay, queues only shrink.
pub open spec fn hub_drained(pre: EventHub, post: EventHub) -> bool {
    &&& post.subscribers@.len() == pre.subscribers@.len()
    &&& forall|i: int|
        0 <= i < pre.subscribers@.len() ==> {
            &&& (#[trigger] post.subscribers@[i].alive) == pre.subscribers@[i].alive
            &&& post.subscribers@[i].pending@.len() <= pre.subscribers@[i].pending@.len()
        }
    &&& post.received_ctrl_c == pre.received_ctrl_c
}


/// The events hooks of a slot list, in slot order.
pub open spec fn own_events(slots: Seq<HookSlot>) -> Seq<EventsSlot>
    decreases slots.len(),
{
    if slots.len() == 0 {
        Seq::empty()
    } else {
        own_events(slots.drop_last()) + (match slots.last() {
            HookSlot::Events(e) => seq![e],
            _ => Seq::empty(),
        })
    }
}

/// The events hooks of the whole subtree, depth first in traversal order —
/// the order the drain fires them in.
pub open spec fn tree_events(inst: InstantiatedComponent) -> Seq<EventsSlot>
    decreases inst, 0int,
{
    own_events(inst.hooks@) + children_events(inst.children.components.items@)
}

pub open spec fn children_events(s: Seq<(ElementKey, InstantiatedComponent)>) -> Seq<EventsSlot>
    decreases s, 1int,
{
    if s.len() == 0 {
        Seq::empty()
    } else {
        children_events(s.drop_last()) + tree_events(s.last().1)
    }
}

/// The drain of a list of events hooks, as a fold over intermediate
/// states: `states[k]` is the arena and hub before the k-th hook drains,
/// and each hook fires its handler once per event its queue holds at that
/// point and leaves the queue empty.  A queue shared by two hooks is seen
/// already drained by the second.
pub open spec fn spec_drain_trace(
    states: Seq<(StateArena, EventHub)>,
    steps: Seq<EventsSlot>,
) -> bool {
    &&& states.len() == steps.len() + 1
    &&& forall|k: int|
        0 <= k < steps.len() ==> {
            &&& spec_fired_n(
                states[k].0,
                #[trigger] states[k + 1].0,
                steps[k].handler.action,
                states[k].1.spec_queue_len(steps[k].sub),
            )
            &&& states[k].1.spec_drained_to(states[k + 1].1, steps[k].sub)
        }
}

/// Two drain traces that meet in the middle compose end to end.
pub proof fn lemma_trace_append(
    t1: Seq<(StateArena, EventHub)>,
    t2: Seq<(StateArena, EventHub)>,
    s1: Seq<EventsSlot>,
    s2: Seq<EventsSlot>,
)
    requires
        spec_drain_trace(t1, s1),
        spec_drain_trace(t2, s2),
        t1.last() == t2.first(),
    ensures
        spec_drain_trace(t1 + t2.drop_first(), s1 + s2),
{
    let t = t1 + t2.drop_first();
    let s = s1 + s2;
    assert(t.len() == s.len() + 1);
    assert forall|k: int| 0 <= k < s.len() implies spec_fired_n(
        t[k].0,
        #[trigger] t[k + 1].0,
        s[k].handler.action,
        t[k].1.spec_queue_len(s[k].sub),
    ) by {
        lemma_trace_append_index(t1, t2, s1, s2, k);
    }
    assert forall|k: int| 0 <= k < s.len() implies t[k].1.spec_drained_to(
        #[trigger] t[k + 1].1,
        s[k].sub,
    ) by {
        lemma_trace_append_index(t1, t2, s1, s2, k);
    }
}

/// One index of the composed trace obeys the composed steps.
proof fn lemma_trace_append_index(
    t1: Seq<(StateArena, EventHub)>,
    t2: Seq<(StateArena, EventHub)>,
    s1: Seq<EventsSlot>,
    s2: Seq<EventsSlot>,
    k: int,
)
    requires
        spec_drain_trace(t1, s1),
        spec_drain_trace(t2, s2),
        t1.last() == t2.first(),
        0 <= k < (s1 + s2).len(),
    ensures
        spec_fired_n(
            (t1 + t2.drop_first())[k].0,
            (t1 + t2.drop_first())[k + 1].0,
            (s1 + s2)[k].handler.action,
            (t1 + t2.drop_first())[k].1.spec_queue_len((s1 + s2)[k].sub),
        ),
        (t1 + t2.drop_first())[k].1.spec_drained_to((t1 + t2.drop_first())[k + 1].1, (s1 + s2)[k].sub),
{
    let t = t1 + t2.drop_first();
    let s = s1 + s2;
    if k < s1.len() {
        assert(t[k] == t1[k]);
        assert(s[k] == s1[k]);
        if k + 1 < t1.len() {
            assert(t[k + 1] == t1[k + 1]);
        }
    } else {
        assert(s[k] == s2[k - s1.len()]);
        if k == s1.len() {
            assert(t[k] == t1[k]);
            assert(t1[k] == t1.last());
            assert(t1.last() == t2[0]);
        } else {
            assert(t[k] == t2.drop_first()[k - t1.len()]);
            assert(t2.drop_first()[k - t1.len()] == t2[k - s1.len()]);
        }
        assert(t[k + 1] == t2.drop_first()[k + 1 - t1.len()]);
        assert(t2.drop_first()[k + 1 - t1.len()] == t2[k + 1 - s1.len()]);
    }
}

/// One more hook's drain extends a trace by one step.
pub proof fn lemma_trace_push(
    t: Seq<(StateArena, EventHub)>,
    s: Seq<EventsSlot>,
    step: EventsSlot,
    arena2: StateArena,
    hub2: EventHub,
)
    requires
        spec_drain_trace(t, s),
        spec_fired_n(t.last().0, arena2, step.handler.action, t.last().1.spec_queue_len(step.sub)),
        t.last().1.spec_drained_to(hub2, step.sub),
    ensures
        spec_drain_trace(t.push((arena2, hub2)), s.push(step)),
{
    let t2 = seq![t.last(), (arena2, hub2)];
    let s2 = seq![step];
    assert(t2[1] == (arena2, hub2));
    assert(spec_drain_trace(t2, s2));
    lemma_trace_append(t, t2, s, s2);
    assert(t + t2.drop_first() =~= t.push((arena2, hub2)));
    assert(s + s2 =~= s.push(step));
}

/// Drains one subscription: polls the queue empty, firing the handler once
/// per event in arrival order.
fn drain_queue(sub: TerminalEvents, handler: Handler, env: &mut RenderEnv)
    ensures
        sub.index < final(env).hub.subscribers@.len() && final(env).hub.subscribers@[sub.index
            as int].alive ==> final(env).hub.subscribers@[sub.index as int].pending@.len() == 0,
        final(env).hub.subscribers@.len() == old(env).hub.subscribers@.len(),
        forall|i: int|
            0 <= i < old(env).hub.subscribers@.len() && i != sub.index ==> (
            #[trigger] final(env).hub.subscribers@[i]) == old(env).hub.subscribers@[i],
        sub.index < old(env).hub.subscribers@.len() ==> final(env).hub.subscribers@[sub.index
            as int].alive == old(env).hub.subscribers@[sub.index as int].alive
            && final(env).hub.subscribers@[sub.index as int].pending@.len() <= old(env).hub.subscribers@[sub.index
            as int].pending@.len(),
        final(env).hub.received_ctrl_c == old(env).hub.received_ctrl_c,
        arena_handled(old(env).arena, final(env).arena),
        final(env).next_instance_id == old(env).next_instance_id,
        (sub.index >= old(env).hub.subscribers@.len() || !old(env).hub.subscribers@[sub.index
            as int].alive || old(env).hub.subscribers@[sub.index as int].pending@.len() == 0)
            ==> *final(env) == *old(env),
        spec_fired_n(
            old(env).arena,
            final(env).arena,
            handler.action,
            old(env).hub.spec_queue_len(sub),
        ),
        old(env).hub.spec_drained_to(final(env).hub, sub),
{
    let ghost mut fired: nat = 0nat;
    let mut more = true;
    while more
        invariant
            env.hub.subscribers@.len() == old(env).hub.subscribers@.len(),
            forall|i: int|
                0 <= i < old(env).hub.subscribers@.len() && i != sub.index ==> (
                #[trigger] env.hub.subscribers@[i]) == old(env).hub.subscribers@[i],
            sub.index < old(env).hub.subscribers@.len() ==> env.hub.subscribers@[sub.index
                as int].alive == old(env).hub.subscribers@[sub.index as int].alive
                && env.hub.subscribers@[sub.index as int].pending@.len()
                <= old(env).hub.subscribers@[sub.index as int].pending@.len(),
            env.hub.received_ctrl_c == old(env).hub.received_ctrl_c,
            arena_handled(old(env).arena, env.arena),
            env.next_instance_id == old(env).next_instance_id,
            !more ==> (sub.index < env.hub.subscribers@.len() && env.hub.subscribers@[sub.index
                as int].alive ==> env.hub.subscribers@[sub.index as int].pending@.len() == 0),
            (sub.index >= old(env).hub.subscribers@.len() || !old(env).hub.subscribers@[sub.index
                as int].alive || old(env).hub.subscribers@[sub.index as int].pending@.len() == 0)
                ==> *env == *old(env),
            spec_fired_n(old(env).arena, env.arena, handler.action, fired),
            old(env).hub.spec_queue_len(sub) == 0 ==> fired == 0,
            old(env).hub.spec_queue_len(sub) > 0 ==> fired + env.hub.spec_pending(sub).len()
                == old(env).hub.spec_queue_len(sub),
        decreases
            (if sub.index < env.hub.subscribers@.len() {
                env.hub.subscribers@[sub.index as int].pending@.len()
            } else {
                0
            }),
            (if more {
                1int
            } else {
                0int
            }),
    {
        let ghost pre = *env;
        let polled = env.hub.poll_next(sub);
        match polled {
            Some(_) => {
                let ghost mid = env.arena;
                handler.apply(&mut env.arena);
                proof {
                    lemma_fired_n_step(old(env).arena, mid, env.arena, handler.action, fired);
                    fired = fired + 1;
                }
                proof {
                    assert forall|h: State|
                        env.arena.spec_valid(h) == (#[trigger] mid.spec_valid(h)) by {
                        match handler.action {
                            HandlerAction::Inert => {},
                            HandlerAction::AddToState(t, _) => {
                                if h != t && mid.spec_valid(h) {
                                    assert(env.arena.spec_valid(h));
                                }
                            },
                            HandlerAction::SetState(t, _) => {
                                if h != t && mid.spec_valid(h) {
                                    assert(env.arena.spec_valid(h));
                                }
                            },
                        }
                    }
                    assert(arena_handled(mid, env.arena));
                    assert(mid.wake_log@.is_prefix_of(env.arena.wake_log@));
                    assert(arena_handled(old(env).arena, env.arena));
                }
            },
            None => {
                more = false;
            },
        }
    }
}

/// Drains every event subscription in the subtree, depth first: each
/// events hook empties its queue and fires its handler once per buffered
/// event.  Handlers mutate cells through the full mutation path, so the
/// changes they make mark cells changed and deliver wakes; readiness is
/// then observed by the following poll.
#[verifier::rlimit(100)]
pub fn drain_events(inst: &InstantiatedComponent, env: &mut RenderEnv) -> (trace: Ghost<
    Seq<(StateArena, EventHub)>,
>)
    ensures
        spec_drain_trace(trace@, tree_events(*inst)),
        trace@.first() == (old(env).arena, old(env).hub),
        trace@.last() == (final(env).arena, final(env).hub),
        forall|i: usize|
            #[trigger] tree_subs(*inst).contains(i) && i < final(env).hub.subscribers@.len()
                && final(env).hub.subscribers@[i as int].alive
                ==> final(env).hub.subscribers@[i as int].pending@.len() == 0,
        forall|i: usize|
            i < old(env).hub.subscribers@.len() && !(#[trigger] tree_subs(*inst).contains(i))
                ==> final(env).hub.subscribers@[i as int] == old(env).hub.subscribers@[i as int],
        hub_drained(old(env).hub, final(env).hub),
        arena_handled(old(env).arena, final(env).arena),
        final(env).next_instance_id == old(env).next_instance_id,
        (forall|i: usize|
            #[trigger] tree_subs(*inst).contains(i) && i < old(env).hub.subscribers@.len()
                ==> (!old(env).hub.subscribers@[i as int].alive || old(
                env,
            ).hub.subscribers@[i as int].pending@.len() == 0)) ==> *final(env) == *old(env),
    decreases *inst, 0int,
{
    let ghost mut trace: Seq<(StateArena, EventHub)> = seq![(env.arena, env.hub)];
    let n = inst.hooks.len();
    let mut i: usize = 0;
    proof {
        assert(inst.hooks@.take(0) =~= Seq::<HookSlot>::empty());
        assert(own_events(inst.hooks@.take(0)) =~= Seq::<EventsSlot>::empty());
    }
    while i < n
        invariant
            i <= n,
            n == inst.hooks@.len(),
            spec_drain_trace(trace, own_events(inst.hooks@.take(i as int))),
            trace.first() == (old(env).arena, old(env).hub),
            trace.last() == (env.arena, env.hub),
            forall|k: int|
                0 <= k < i && (#[trigger] inst.hooks@[k]) is Events ==> {
                    let t = inst.hooks@[k]->Events_0.sub;
                    t.index < env.hub.subscribers@.len() && env.hub.subscribers@[t.index
                        as int].alive ==> env.hub.subscribers@[t.index as int].pending@.len() == 0
                },
            forall|s2: usize|
                s2 < old(env).hub.subscribers@.len() && !(#[trigger] own_subs(
                    inst.hooks@,
                ).contains(s2)) ==> env.hub.subscribers@[s2 as int] == old(
                    env,
                ).hub.subscribers@[s2 as int],
            hub_drained(old(env).hub, env.hub),
            arena_handled(old(env).arena, env.arena),
            env.next_instance_id == old(env).next_instance_id,
            (forall|s2: usize|
                #[trigger] tree_subs(*inst).contains(s2) && s2 < old(
                    env,
                ).hub.subscribers@.len() ==> (!old(env).hub.subscribers@[s2 as int].alive || old(
                    env,
                ).hub.subscribers@[s2 as int].pending@.len() == 0)) ==> *env == *old(env),
        decreases n - i,
    {
        let ghost pre_step = *env;
        match &inst.hooks[i] {
            HookSlot::Events(es) => {
                proof {
                    let ss = es.sub.index;
                    assert(match inst.hooks@[i as int] {
                        HookSlot::Events(e2) => e2.sub.index == ss,
                        _ => false,
                    });
                    assert(own_subs(inst.hooks@).contains(ss));
                    assert(tree_subs(*inst) == own_subs(inst.hooks@).union(
                        children_subs(inst.children.components.items@),
                    ));
                    assert(tree_subs(*inst).contains(ss));
                }
                let ghost step = inst.hooks@[i as int]->Events_0;
                drain_queue(es.sub, es.handler, env);
                proof {
                    lemma_trace_push(
                        trace,
                        own_events(inst.hooks@.take(i as int)),
                        step,
                        env.arena,
                        env.hub,
                    );
                    trace = trace.push((env.arena, env.hub));
                    assert(inst.hooks@.take(i + 1).drop_last() =~= inst.hooks@.take(i as int));
                    assert(inst.hooks@.take(i + 1).last() == inst.hooks@[i as int]);
                    assert(own_events(inst.hooks@.take(i + 1)) =~= own_events(
                        inst.hooks@.take(i as int),
                    ).push(step));
                }
            },
            _ => {
                proof {
                    assert(inst.hooks@.take(i + 1).drop_last() =~= inst.hooks@.take(i as int));
                    assert(inst.hooks@.take(i + 1).last() == inst.hooks@[i as int]);
                    assert(own_events(inst.hooks@.take(i + 1)) =~= own_events(
                        inst.hooks@.take(i as int),
                    ));
                }
            },
        }
        i = i + 1;
    }
    proof {
        assert(inst.hooks@.take(n as int) =~= inst.hooks@);
    }
    let ghost entries = inst.children.components.items@;
    let m = inst.children.components.items.len();
    let mut c: usize = 0;
    proof {
        assert(entries.take(0) =~= Seq::<(ElementKey, InstantiatedComponent)>::empty());
        assert(children_events(entries.take(0)) =~= Seq::<EventsSlot>::empty());
        assert(own_events(inst.hooks@) + children_events(entries.take(0)) =~= own_events(
            inst.hooks@,
        ));
    }
    while c < m
        invariant
            c <= m,
            m == entries.len(),
            entries == inst.children.components.items@,
            spec_drain_trace(
                trace,
                own_events(inst.hooks@) + children_events(entries.take(c as int)),
            ),
            trace.first() == (old(env).arena, old(env).hub),
            trace.last() == (env.arena, env.hub),
            forall|k: int|
                0 <= k < n && (#[trigger] inst.hooks@[k]) is Events ==> {
                    let t = inst.hooks@[k]->Events_0.sub;
                    t.index < env.hub.subscribers@.len() && env.hub.subscribers@[t.index
                        as int].alive ==> env.hub.subscribers@[t.index as int].pending@.len() == 0
                },
            forall|s2: usize|
                #[trigger] children_subs(entries.take(c as int)).contains(s2) && s2
                    < env.hub.subscribers@.len() && env.hub.subscribers@[s2 as int].alive
                    ==> env.hub.subscribers@[s2 as int].pending@.len() == 0,
            forall|s2: usize|
                s2 < old(env).hub.subscribers@.len() && !(#[trigger] tree_subs(*inst).contains(
                    s2,
                )) ==> env.hub.subscribers@[s2 as int] == old(env).hub.subscribers@[s2 as int],
            hub_drained(old(env).hub, env.hub),
            arena_handled(old(env).arena, env.arena),
            env.next_instance_id == old(env).next_instance_id,
            n == inst.hooks@.len(),
            (forall|s2: usize|
                #[trigger] tree_subs(*inst).contains(s2) && s2 < old(
                    env,
                ).hub.subscribers@.len() ==> (!old(env).hub.subscribers@[s2 as int].alive || old(
                    env,
                ).hub.subscribers@[s2 as int].pending@.len() == 0)) ==> *env == *old(env),
        decreases m - c,
    {
        proof {
            assert(decreases_to!(*inst => inst.children));
            assert(decreases_to!(inst.children => inst.children.components));
            assert(decreases_to!(inst.children.components => inst.children.components.items));
            assert(decreases_to!(inst.children.components.items
                => inst.children.components.items@));
            assert(decreases_to!(inst.children.components.items@
                => inst.children.components.items@[c as int]));
            assert(decreases_to!(inst.children.components.items@[c as int]
                => inst.children.components.items@[c as int].1));
            lemma_children_subs_member(entries, c as int);
            assert(tree_subs(*inst) == own_subs(inst.hooks@).union(children_subs(entries)));
        }
        let ghost envc = *env;
        let child = &inst.children.components.items[c].1;
        let child_trace = drain_events(child, env);
        proof {
            lemma_trace_append(
                trace,
                child_trace@,
                own_events(inst.hooks@) + children_events(entries.take(c as int)),
                tree_events(entries[c as int].1),
            );
            trace = trace + child_trace@.drop_first();
            assert(entries.take(c + 1).drop_last() =~= entries.take(c as int));
            assert(entries.take(c + 1).last() == entries[c as int]);
            assert((own_events(inst.hooks@) + children_events(entries.take(c as int)))
                + tree_events(entries[c as int].1) =~= own_events(inst.hooks@)
                + children_events(entries.take(c + 1)));
            assert(children_subs(entries.take(c + 1)) =~= children_subs(
                entries.take(c as int),
            ).union(tree_subs(entries[c as int].1)));
            if forall|s2: usize|
                #[trigger] tree_subs(*inst).contains(s2) && s2 < old(
                    env,
                ).hub.subscribers@.len() ==> (!old(env).hub.subscribers@[s2 as int].alive || old(
                    env,
                ).hub.subscribers@[s2 as int].pending@.len() == 0) {
                assert(envc == *old(env));
                assert forall|s2: usize|
                    #[trigger] tree_subs(entries[c as int].1).contains(s2) && s2
                        < envc.hub.subscribers@.len() implies (!envc.hub.subscribers@[s2
                    as int].alive || envc.hub.subscribers@[s2 as int].pending@.len() == 0) by {
                    assert(children_subs(entries).contains(s2));
                    assert(tree_subs(*inst).contains(s2));
                }
                assert(*env == envc);
            }
        }
        c = c + 1;
    }
    proof {
        assert(entries.take(m as int) =~= entries);
        assert(tree_events(*inst) == own_events(inst.hooks@) + children_events(entries));
        assert(tree_subs(*inst) == own_subs(inst.hooks@).union(children_subs(entries)));
        assert forall|i2: usize|
            #[trigger] tree_subs(*inst).contains(i2) && i2 < env.hub.subscribers@.len()
                && env.hub.subscribers@[i2 as int].alive implies env.hub.subscribers@[i2
            as int].pending@.len() == 0 by {
            if own_subs(inst.hooks@).contains(i2) {
                let k = choose|k: int|
                    0 <= k < inst.hooks@.len() && match #[trigger] inst.hooks@[k] {
                        HookSlot::Events(s) => s.sub.index == i2,
                        _ => false,
                    };
                assert(inst.hooks@[k] is Events);
            }
        }
    }
    Ghost(trace)
}

} // verus!
