//! Cross-cutting laws of the runtime, stated and proved once.

use crate::component::{
    InstantiatedComponent, RenderEnv, children_ready, env_evolves, hook_ready, hooks_ready,
    own_handles, reconciled_children, slot_ids, spec_ready, spec_reconcile, tree_handles,
};
use crate::context::{Context, TypeTag, ctx_lookup};
use crate::element::{AnyElement, descs_of};
use crate::key::ElementKey;
use crate::state::{State, StateArena};
use vstd::prelude::*;

verus! {

/// Context scoping: an entry pushed for a subtree's evaluation is the one
/// lookups of its type find inside that subtree — the innermost entry wins,
/// even over deeper entries of the same type — while lookups of other
/// types see exactly what they saw before; and dropping the entry restores
/// the stack, so nothing of the push is visible after the subtree returns.
pub proof fn lemma_context_scoping(s: Seq<Context>, entry: Context, t: TypeTag)
    ensures
        entry.spec_value().spec_tag() == t ==> ctx_lookup(s.push(entry), t) == Option::Some(
            s.len() as int,
        ),
        entry.spec_value().spec_tag() != t ==> ctx_lookup(s.push(entry), t) == ctx_lookup(s, t),
        s.push(entry).drop_last() == s,
{
    assert(s.push(entry).last() == entry);
    assert(s.push(entry).drop_last() =~= s);
}

/// Key stability: when a render pass claims a previous instance for a
/// description — same key, and the behavior type unchanged — the new
/// collection holds that very instance at the description's position: the
/// same identity and the same persistent hook slots.  And every cell those
/// hooks own that is still live after the pass holds exactly the value it
/// held before, with its changed mark and waiter registrations untouched:
/// hook state survives the render, reordering of siblings included.
pub proof fn lemma_key_stability(
    pre_entries: Seq<(ElementKey, InstantiatedComponent)>,
    elems: Seq<AnyElement>,
    post_entries: Seq<(ElementKey, InstantiatedComponent)>,
    pre_env: RenderEnv,
    post_env: RenderEnv,
    j: int,
    h: State,
)
    requires
        reconciled_children(pre_entries, elems, post_entries, pre_env, post_env),
        env_evolves(pre_env, post_env),
        0 <= j < elems.len(),
        spec_reconcile(pre_entries, descs_of(elems)).claimed[j] is Some,
    ensures
        ({
            let ci = spec_reconcile(pre_entries, descs_of(elems)).claimed[j]->0;
            &&& post_entries[j].1.id == ci.id
            &&& slot_ids(post_entries[j].1.hooks@) == slot_ids(ci.hooks@)
            &&& post_entries[j].0@ == elems[j].key@
            &&& (own_handles(ci.hooks@).contains(h) && pre_env.arena.spec_valid(h)
                && post_env.arena.spec_valid(h)) ==> {
                &&& post_env.arena.spec_value(h) == pre_env.arena.spec_value(h)
                &&& post_env.arena.spec_changed(h) == pre_env.arena.spec_changed(h)
                &&& post_env.arena.spec_wakers(h) == pre_env.arena.spec_wakers(h)
            }
        }),
{
}

/// Type-change replacement: when a description reuses a key but asks for a
/// different behavior type, no previous instance is claimed for it — type
/// identity is stronger than key identity — and the instance standing at
/// its position is freshly constructed: every state cell its hooks own was
/// created during this pass, never carried over.
pub proof fn lemma_type_change_replacement(
    pre_entries: Seq<(ElementKey, InstantiatedComponent)>,
    elems: Seq<AnyElement>,
    post_entries: Seq<(ElementKey, InstantiatedComponent)>,
    pre_env: RenderEnv,
    post_env: RenderEnv,
    j: int,
)
    requires
        reconciled_children(pre_entries, elems, post_entries, pre_env, post_env),
        0 <= j < elems.len(),
        spec_reconcile(pre_entries, descs_of(elems)).claimed[j] is None,
    ensures
        post_entries[j].0@ == elems[j].key@,
        post_entries[j].1.kind == elems[j].spec_kind(),
        forall|h: State|
            #[trigger] own_handles(post_entries[j].1.hooks@).contains(h) ==> !pre_env.arena.spec_valid(h),
{
    assert forall|h: State|
        #[trigger] own_handles(post_entries[j].1.hooks@).contains(h) implies !pre_env.arena.spec_valid(h) by {
        assert(h.index >= pre_env.arena.slots@.len());
    }
}

/// Unmatched-key teardown: every instance the pass drops — claimed under a
/// key whose behavior changed, or never claimed because its key is gone —
/// has the state cells of its whole subtree released, exactly the cells
/// that were in the arena's range before the pass.  A later read or write
/// through any handle of such a cell fails with a stale-handle error
/// instead of waking a dead listener.
pub proof fn lemma_unmatched_key_teardown(
    pre_entries: Seq<(ElementKey, InstantiatedComponent)>,
    elems: Seq<AnyElement>,
    post_entries: Seq<(ElementKey, InstantiatedComponent)>,
    pre_env: RenderEnv,
    post_env: RenderEnv,
    d: int,
    h: State,
)
    requires
        reconciled_children(pre_entries, elems, post_entries, pre_env, post_env),
        0 <= d < spec_reconcile(pre_entries, descs_of(elems)).dropped.len(),
        tree_handles(spec_reconcile(pre_entries, descs_of(elems)).dropped[d]).contains(h),
        h.index < pre_env.arena.slots@.len(),
    ensures
        !post_env.arena.spec_valid(h),
{
}

/// Idempotent quiescence: when no live cell carries a pending change mark,
/// no instance in the tree is ready — the scheduler reports `Pending`
/// immediately after a no-op render.
pub proof fn lemma_quiescent_pending(inst: InstantiatedComponent, arena: StateArena)
    requires
        forall|h: State| arena.spec_valid(h) ==> !(#[trigger] arena.spec_changed(h)),
    ensures
        !spec_ready(inst, arena),
    decreases inst, 0int,
{
    assert forall|i: int| 0 <= i < inst.hooks@.len() implies !hook_ready(
        #[trigger] inst.hooks@[i],
        arena,
    ) by {}
    assert(!hooks_ready(inst.hooks@, arena));
    lemma_quiescent_children(inst.children.components.items@, arena);
}

pub proof fn lemma_quiescent_children(
    s: Seq<(ElementKey, InstantiatedComponent)>,
    arena: StateArena,
)
    requires
        forall|h: State| arena.spec_valid(h) ==> !(#[trigger] arena.spec_changed(h)),
    ensures
        !children_ready(s, arena),
    decreases s, 1int,
{
    if s.len() > 0 {
        lemma_quiescent_children(s.drop_last(), arena);
        lemma_quiescent_pending(s.last().1, arena);
    }
}

} // verus!
