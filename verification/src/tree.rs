//! The top-level render tree and its cooperative scheduler.
//!
//! One [`Tree`] owns the mounted root instance and the render environment.
//! A cycle of the run loop is: update the tree against a freshly produced
//! element description, draw (outside this core), then wait — drain buffered
//! events through their handlers and poll the whole tree once, depth first,
//! reporting `Ready` when any instance or hook has a pending change and
//! `Pending` when the loop may suspend until an event arrives.

use crate::component::{
    InstantiatedComponent, RenderEnv, env_evolves, inst_wf, new_instance, poll_ready,
    reconciled_children, spec_drain_trace, spec_ready, tree_events, tree_subs, drain_events,
    update_instance,
};
use crate::context::{Context, ContextStack, ContextValue, SystemContext};
use crate::element::AnyElement;
use crate::events::Event;
use crate::handler::{Handler, HandlerAction};
use crate::layout::LayoutStyle;
use crate::state::Value;
use vstd::prelude::*;

verus! {

/// The scheduler's verdict for one suspend point.
#[derive(Clone, Copy, Debug, PartialEq, Eq, Structural)]
pub enum PollStatus {
    /// Something requires a re-render.
    Ready,
    /// Nothing does; the loop may suspend until an event arrives.
    Pending,
}

/// A mounted component tree with its render environment.
pub struct Tree {
    pub root: InstantiatedComponent,
    pub system_context: SystemContext,
    pub env: RenderEnv,
}

impl Tree {
    /// The tree's structural invariant.
    pub open spec fn wf(&self) -> bool {
        inst_wf(self.root)
    }

    /// Mounts a tree for the given root element; the first `render` runs
    /// its first update.
    pub fn new(element: &AnyElement) -> (r: Tree)
        ensures
            r.wf(),
            r.root.kind == element.spec_kind(),
            r.root.first_update,
            r.root.layout_style == LayoutStyle::spec_default(),
            !r.root.has_transparent_layout,
            !r.system_context.should_exit,
            !r.env.hub.received_ctrl_c,
            r.env.arena.slots@.len() == 0,
            r.env.arena.wake_log@.len() == 0,
            r.env.hub.subscribers@.len() == 0,
    {
        let mut env = RenderEnv::new();
        let root = new_instance(element, &mut env);
        Tree { root, system_context: SystemContext::new(), env }
    }

    /// Runs one update pass: the root instance is updated against the
    /// freshly produced element description, reconciling the whole tree.
    pub fn render(&mut self, element: &AnyElement)
        requires
            old(self).wf(),
            element.spec_kind() == old(self).root.kind,
        ensures
            final(self).wf(),
            final(self).root.kind == old(self).root.kind,
            final(self).root.id == old(self).root.id,
            !final(self).root.first_update,
            final(self).root.layout_style == crate::component::spec_layout_of(element.props),
            final(self).root.has_transparent_layout == crate::component::spec_transparent(
                old(self).root.kind,
            ),
            !old(self).root.first_update ==> crate::component::slot_ids(final(self).root.hooks@)
                == crate::component::slot_ids(old(self).root.hooks@),
            reconciled_children(
                old(self).root.children.components.items@,
                element.props.spec_children(),
                final(self).root.children.components.items@,
                old(self).env,
                final(self).env,
            ),
            env_evolves(old(self).env, final(self).env),
            final(self).system_context == old(self).system_context,
            old(self).root.kind is Counter ==> {
                &&& final(self).root.hooks@.len() == 2
                &&& final(self).root.hooks@[0] is State
                &&& final(self).root.hooks@[1] is Events
                &&& final(self).root.hooks@[1]->Events_0.handler == Handler {
                    provided: true,
                    action: HandlerAction::AddToState(
                        final(self).root.hooks@[0]->State_0,
                        element.props.value->Counter_0.step,
                    ),
                }
            },
            old(self).root.kind is Counter && old(self).root.first_update ==> {
                let cell = final(self).root.hooks@[0]->State_0;
                let sub = final(self).root.hooks@[1]->Events_0.sub;
                &&& final(self).env.arena.spec_valid(cell)
                &&& final(self).env.arena.spec_value(cell) == Value::Int(0)
                &&& !final(self).env.arena.spec_changed(cell)
                &&& !final(self).env.arena.spec_borrowed(cell)
                &&& !final(self).env.arena.spec_shared(cell)
                &&& final(self).env.arena.spec_wakers(cell) == Seq::<u64>::empty()
                &&& sub.index == old(self).env.hub.subscribers@.len()
                &&& final(self).env.hub.spec_alive(sub)
                &&& final(self).env.hub.spec_pending(sub) == Seq::<Event>::empty()
            },
            old(self).root.kind is Counter && !old(self).root.first_update && old(
                self,
            ).root.children.components.items@.len() == 0 ==> final(self).env == old(self).env,
    {
        let mut stack = ContextStack::root(self.system_context);
        update_instance(&mut self.root, &element.props, &mut stack, &mut self.env);
        let top = stack.pop();
        match top {
            Some(Context::Mut(ContextValue::System(sc))) => {
                self.system_context = sc;
            },
            _ => {},
        }
    }

    /// Hands one terminal event to the fan-out: the interrupt keystroke
    /// raises the interrupt flag, anything else is buffered for every live
    /// subscription.
    pub fn deliver(&mut self, event: Event)
        ensures
            final(self).root == old(self).root,
            final(self).system_context == old(self).system_context,
            final(self).env.arena == old(self).env.arena,
            final(self).env.next_instance_id == old(self).env.next_instance_id,
            event is CtrlC ==> final(self).env.hub.received_ctrl_c && final(self).env.hub.subscribers@ == old(self).env.hub.subscribers@,
            !(event is CtrlC) ==> {
                &&& final(self).env.hub.received_ctrl_c == old(self).env.hub.received_ctrl_c
                &&& final(self).env.hub.subscribers@.len() == old(self).env.hub.subscribers@.len()
                &&& forall|j: int|
                    0 <= j < old(self).env.hub.subscribers@.len()
                        ==> (#[trigger] final(self).env.hub.subscribers@[j]).alive == old(
                        self,
                    ).env.hub.subscribers@[j].alive
                &&& forall|j: int|
                    0 <= j < old(self).env.hub.subscribers@.len() && old(self).env.hub.subscribers@[j].alive ==> (#[trigger] final(self).env.hub.subscribers@[j]).pending@
                        == old(self).env.hub.subscribers@[j].pending@.push(event)
                &&& forall|j: int|
                    0 <= j < old(self).env.hub.subscribers@.len() && !old(self).env.hub.subscribers@[j].alive ==> (#[trigger] final(self).env.hub.subscribers@[j]).pending@.len()
                        == 0
            },
    {
        self.env.hub.dispatch(event);
    }

    /// One suspend point: drains every buffered event through its handler,
    /// then polls the tree depth first.  `Ready` exactly when some hook's
    /// cell reports a pending change after the drain — the aggregate
    /// readiness of the root, computed freshly, with no caching across
    /// frames.  In particular, when nothing was buffered for this tree,
    /// the verdict is `Ready` exactly when a change was already pending.
    pub fn wait(&mut self) -> (r: (PollStatus, Ghost<
        Seq<(crate::state::StateArena, crate::events::EventHub)>,
    >))
        ensures
            final(self).root == old(self).root,
            final(self).system_context == old(self).system_context,
            final(self).env.next_instance_id == old(self).env.next_instance_id,
            final(self).env.arena.slots@.len() == old(self).env.arena.slots@.len(),
            forall|h: crate::state::State|
                final(self).env.arena.spec_valid(h) == (#[trigger] old(self).env.arena.spec_valid(
                    h,
                )),
            forall|h: crate::state::State|
                old(self).env.arena.spec_valid(h) ==> (
                #[trigger] final(self).env.arena.spec_borrowed(h)) == old(
                    self,
                ).env.arena.spec_borrowed(h),
            forall|h: crate::state::State|
                old(self).env.arena.spec_valid(h) ==> (
                #[trigger] final(self).env.arena.spec_shared(h)) == old(
                    self,
                ).env.arena.spec_shared(h),
            spec_drain_trace(r.1@, tree_events(old(self).root)),
            r.1@.first() == (old(self).env.arena, old(self).env.hub),
            (r.0 is Ready) == spec_ready(old(self).root, r.1@.last().0),
            final(self).env.hub == r.1@.last().1,
            forall|h: crate::state::State|
                final(self).env.arena.spec_valid(h) == (#[trigger] r.1@.last().0.spec_valid(h)),
            forall|h: crate::state::State|
                r.1@.last().0.spec_valid(h) ==> (
                #[trigger] final(self).env.arena.spec_value(h)) == r.1@.last().0.spec_value(h),
            forall|h: crate::state::State|
                #[trigger] crate::component::tree_cells(old(self).root).contains(h)
                    && r.1@.last().0.spec_valid(h) && !r.1@.last().0.spec_borrowed(h)
                    ==> !final(self).env.arena.spec_changed(h),
            final(self).env.arena.wake_log@ == r.1@.last().0.wake_log@,
            (forall|i: usize|
                #[trigger] tree_subs(old(self).root).contains(i) && i < old(self).env.hub.subscribers@.len() ==> (!old(self).env.hub.subscribers@[i as int].alive
                    || old(self).env.hub.subscribers@[i as int].pending@.len() == 0)) ==> ((r.0
                is Ready) == spec_ready(old(self).root, old(self).env.arena)),
            (r.0 is Pending) ==> forall|h: crate::state::State|
                old(self).env.arena.spec_valid(h) ==> final(self).env.arena.spec_valid(h),
            final(self).env.hub.received_ctrl_c == old(self).env.hub.received_ctrl_c,
            final(self).env.hub.subscribers@.len() == old(self).env.hub.subscribers@.len(),
            forall|i: usize|
                #[trigger] tree_subs(old(self).root).contains(i) && i < final(self).env.hub.subscribers@.len() && final(self).env.hub.subscribers@[i as int].alive
                    ==> final(self).env.hub.subscribers@[i as int].pending@.len() == 0,
    {
        let drain_trace = drain_events(&self.root, &mut self.env);
        let ghost mid = (self.env.arena, self.env.hub);
        let ready = poll_ready(&self.root, &mut self.env);
        proof {
            assert(drain_trace@.last() == mid);
            assert(spec_drain_trace(drain_trace@, tree_events(old(self).root)));
            assert(ready == spec_ready(old(self).root, drain_trace@.last().0));
        }
        if ready {
            (PollStatus::Ready, drain_trace)
        } else {
            (PollStatus::Pending, drain_trace)
        }
    }

    pub fn should_exit(&self) -> (r: bool)
        ensures
            r == self.system_context.should_exit,
    {
        self.system_context.should_exit()
    }

    pub fn received_ctrl_c(&self) -> (r: bool)
        ensures
            r == self.env.hub.received_ctrl_c,
    {
        self.env.hub.received_ctrl_c()
    }
}

} // verus!
