use ratatui_kit::component::{ComponentKind, Components, InstantiatedComponent, poll_ready, RenderEnv};
use ratatui_kit::multimap::RemoveOnlyMultimap;
use ratatui_kit::components::{ContextProviderProps, CounterProps, FragmentProps, ViewProps};
use ratatui_kit::context::{Context, ContextValue};
use ratatui_kit::element::{AnyElement, ExtendWithElements, extend_with_elements};
use ratatui_kit::events::Event;
use ratatui_kit::hooks::HookSlot;
use ratatui_kit::key::ElementKey;
use ratatui_kit::layout::LayoutStyle;
use ratatui_kit::props::{AnyProps, PropsValue};
use ratatui_kit::state::{State, StateError, Value};
use ratatui_kit::tree::{PollStatus, Tree};

fn counter(key: u64, step: i64) -> AnyElement {
    AnyElement::new(
        ElementKey::num(key),
        AnyProps::owned(PropsValue::Counter(CounterProps { step })),
    )
}

fn fragment(key: u64, children: Vec<AnyElement>) -> AnyElement {
    AnyElement::new(
        ElementKey::num(key),
        AnyProps::owned(PropsValue::Fragment(FragmentProps { children })),
    )
}

fn view(key: u64, children: Vec<AnyElement>) -> AnyElement {
    AnyElement::new(
        ElementKey::num(key),
        AnyProps::owned(PropsValue::View(ViewProps {
            children,
            layout_style: LayoutStyle::default(),
        })),
    )
}

fn provider(key: u64, value: ContextValue, children: Vec<AnyElement>) -> AnyElement {
    AnyElement::new(
        ElementKey::num(key),
        AnyProps::owned(PropsValue::ContextProvider(ContextProviderProps {
            children,
            value: Some(Context::owned(value)),
        })),
    )
}

fn child<'t>(tree: &'t Tree, i: usize) -> &'t InstantiatedComponent {
    &tree.root.children.components.items[i].1
}

fn child_key(tree: &Tree, i: usize) -> &ElementKey {
    &tree.root.children.components.items[i].0
}

fn counter_cell(inst: &InstantiatedComponent) -> State {
    match &inst.hooks[0] {
        HookSlot::State(h) => *h,
        _ => panic!("expected a state hook in the first slot"),
    }
}

fn counter_value(tree: &Tree, inst: &InstantiatedComponent) -> i64 {
    match tree.env.arena.get(counter_cell(inst)) {
        Value::Int(v) => v,
        _ => panic!("expected an integer cell"),
    }
}

#[test]
fn key_stability_across_reordering() {
    let mut tree = Tree::new(&fragment(0, vec![]));
    tree.render(&fragment(0, vec![counter(1, 1), counter(2, 10)]));
    let id_one = child(&tree, 0).id;
    let id_two = child(&tree, 1).id;
    assert!(tree.wait().0 == PollStatus::Pending);
    tree.deliver(Event::Tick);
    assert!(tree.wait().0 == PollStatus::Ready);
    assert_eq!(counter_value(&tree, child(&tree, 0)), 1);
    assert_eq!(counter_value(&tree, child(&tree, 1)), 10);

    // Reorder the siblings: each key keeps its instance, and with it its
    // hook state.
    tree.render(&fragment(0, vec![counter(2, 10), counter(1, 1)]));
    assert!(child_key(&tree, 0).key_eq(&ElementKey::num(2)));
    assert!(child_key(&tree, 1).key_eq(&ElementKey::num(1)));
    assert_eq!(child(&tree, 0).id, id_two);
    assert_eq!(child(&tree, 1).id, id_one);
    assert_eq!(counter_value(&tree, child(&tree, 0)), 10);
    assert_eq!(counter_value(&tree, child(&tree, 1)), 1);
}

#[test]
fn type_change_replaces_instance_and_state() {
    let mut tree = Tree::new(&fragment(0, vec![]));
    tree.render(&fragment(0, vec![counter(1, 1)]));
    let old_id = child(&tree, 0).id;
    let old_cell = counter_cell(child(&tree, 0));
    tree.deliver(Event::Tick);
    let _ = tree.wait();
    assert_eq!(counter_value(&tree, child(&tree, 0)), 1);

    // The same key now asks for a different behavior: the old instance is
    // dropped, its cell is released exactly once, and a fresh instance
    // takes the key.
    tree.render(&fragment(0, vec![view(1, vec![])]));
    assert!(matches!(child(&tree, 0).kind, ComponentKind::View));
    assert_ne!(child(&tree, 0).id, old_id);
    assert_eq!(tree.env.arena.try_read(old_cell).unwrap_err(), StateError::Released);

    // Going back to a counter under the same key constructs fresh state.
    tree.render(&fragment(0, vec![counter(1, 1)]));
    let new_cell = counter_cell(child(&tree, 0));
    assert_ne!(new_cell, old_cell);
    assert_eq!(counter_value(&tree, child(&tree, 0)), 0);
}

#[test]
fn unmatched_key_teardown_releases_the_subtree() {
    let mut tree = Tree::new(&fragment(0, vec![]));
    tree.render(&fragment(
        0,
        vec![view(1, vec![counter(10, 1)]), counter(2, 1)],
    ));
    let nested = &child(&tree, 0).children.components.items[0].1;
    let nested_cell = counter_cell(nested);
    let kept_cell = counter_cell(child(&tree, 1));
    let subs_before = tree.env.hub.subscribers.len();
    assert!(subs_before >= 2);

    // Dropping key 1 removes its whole subtree: the descendant's cell and
    // subscription die with it; the sibling is untouched.
    tree.render(&fragment(0, vec![counter(2, 1)]));
    assert_eq!(tree.root.children.components.items.len(), 1);
    assert_eq!(
        tree.env.arena.try_write(nested_cell).unwrap_err(),
        StateError::Released
    );
    assert!(tree.env.arena.try_read(kept_cell).is_ok());

    // A mutation through the stale handle fails instead of waking a dead
    // listener.
    let log_before = tree.env.arena.wake_log.len();
    assert_eq!(
        tree.env.arena.set(nested_cell, Value::Int(99)),
        Err(StateError::Released)
    );
    assert_eq!(tree.env.arena.wake_log.len(), log_before);

    // Events delivered after the teardown pile up nowhere dead.
    tree.deliver(Event::Tick);
    let _ = tree.wait();
    assert_eq!(counter_value(&tree, child(&tree, 0)), 1);
}

#[test]
fn end_to_end_counter_three_ticks() {
    let mut tree = Tree::new(&counter(0, 1));
    tree.render(&counter(0, 1));
    assert!(tree.wait().0 == PollStatus::Pending);

    let mut wake_cycles = 0;
    for _ in 0..3 {
        tree.deliver(Event::Tick);
        match tree.wait().0 {
            PollStatus::Ready => {
                wake_cycles += 1;
                tree.render(&counter(0, 1));
            }
            PollStatus::Pending => {}
        }
    }
    assert_eq!(wake_cycles, 3, "one wake cycle per tick");
    match tree.env.arena.get(counter_cell(&tree.root)) {
        Value::Int(v) => assert_eq!(v, 3),
        _ => panic!("expected an integer cell"),
    }
    assert!(tree.wait().0 == PollStatus::Pending, "no further change is pending");
}

#[test]
fn idempotent_noop_render() {
    let mut tree = Tree::new(&view(0, vec![]));
    let describe = || {
        view(
            0,
            vec![fragment(1, vec![]), counter(2, 1), fragment(3, vec![])],
        )
    };
    tree.render(&describe());
    let ids: Vec<u64> = (0..3).map(|i| child(&tree, i).id).collect();
    assert!(tree.wait().0 == PollStatus::Pending);

    // Re-running the update with an unchanged description keeps the key
    // set and order, reuses every instance, and leaves nothing pending.
    tree.render(&describe());
    assert_eq!(tree.root.children.components.items.len(), 3);
    for i in 0..3 {
        assert_eq!(child(&tree, i).id, ids[i]);
    }
    assert!(child_key(&tree, 0).key_eq(&ElementKey::num(1)));
    assert!(child_key(&tree, 1).key_eq(&ElementKey::num(2)));
    assert!(child_key(&tree, 2).key_eq(&ElementKey::num(3)));
    assert!(tree.wait().0 == PollStatus::Pending);
}

#[test]
fn context_provider_scopes_its_subtree() {
    let mut tree = Tree::new(&fragment(0, vec![]));
    // A provider nests inside another provider of the same type; the pass
    // runs to completion and restores the stack each time, so re-rendering
    // with different nesting works from a clean stack.
    tree.render(&fragment(
        0,
        vec![provider(
            1,
            ContextValue::Int(1),
            vec![provider(2, ContextValue::Int(2), vec![counter(3, 1)])],
        )],
    ));
    assert_eq!(tree.root.children.components.items.len(), 1);
    let outer = child(&tree, 0);
    assert!(matches!(outer.kind, ComponentKind::ContextProvider));
    let inner = &outer.children.components.items[0].1;
    assert!(matches!(inner.kind, ComponentKind::ContextProvider));
    let leaf = &inner.children.components.items[0].1;
    assert!(matches!(leaf.kind, ComponentKind::Counter));
    tree.render(&fragment(0, vec![]));
    assert_eq!(tree.root.children.components.items.len(), 0);
}

#[test]
fn interrupt_reaches_the_tree_flag() {
    let mut tree = Tree::new(&counter(0, 1));
    tree.render(&counter(0, 1));
    assert!(!tree.received_ctrl_c());
    tree.deliver(Event::CtrlC);
    assert!(tree.received_ctrl_c());
    assert!(
        tree.wait().0 == PollStatus::Pending,
        "the interrupt is not an ordinary event"
    );
    assert_eq!(counter_value(&tree, &tree.root), 0);
}

#[test]
fn duplicate_keys_reuse_front_first() {
    let mut tree = Tree::new(&fragment(0, vec![]));
    tree.render(&fragment(0, vec![counter(1, 1), counter(1, 1)]));
    let first_id = child(&tree, 0).id;
    let second_id = child(&tree, 1).id;
    assert_ne!(first_id, second_id);
    tree.render(&fragment(0, vec![counter(1, 1), counter(1, 1)]));
    assert_eq!(child(&tree, 0).id, first_id, "the oldest entry is reclaimed first");
    assert_eq!(child(&tree, 1).id, second_id);
}

#[test]
fn extend_with_elements_appends_in_order() {
    let mut dest: Vec<AnyElement> = Vec::new();
    extend_with_elements(&mut dest, counter(1, 1));
    assert_eq!(dest.len(), 1);
    let batch = vec![counter(2, 1), counter(3, 1)];
    extend_with_elements(&mut dest, batch);
    assert_eq!(dest.len(), 3);
    assert!(dest[0].key().key_eq(&ElementKey::num(1)));
    assert!(dest[1].key().key_eq(&ElementKey::num(2)));
    assert!(dest[2].key().key_eq(&ElementKey::num(3)));
    let single = counter(4, 1);
    single.extend_with_elements(&mut dest);
    assert!(dest[3].key().key_eq(&ElementKey::num(4)));
}

#[test]
fn props_cells_track_ownership() {
    let owned = AnyProps::owned(PropsValue::Counter(CounterProps { step: 1 }));
    assert!(owned.owned);
    assert!(matches!(owned.kind(), ComponentKind::Counter));
    let borrowed = AnyProps::borrowed(PropsValue::Fragment(FragmentProps { children: vec![] }));
    assert!(!borrowed.owned);
    assert!(matches!(borrowed.kind(), ComponentKind::Fragment));
}

#[test]
fn shared_store_wakes_each_consumer_once() {
    let mut env = RenderEnv::new();
    let store = env.arena.insert_shared(Value::Int(0));
    let subscriber = |id: u64| InstantiatedComponent {
        key: ElementKey::num(id),
        kind: ComponentKind::Fragment,
        id,
        hooks: vec![HookSlot::Store(store)],
        children: Components {
            components: RemoveOnlyMultimap::default(),
        },
        first_update: false,
        layout_style: LayoutStyle::default(),
        has_transparent_layout: false,
    };
    let a = subscriber(1);
    let b = subscriber(2);

    // Both consumers poll while nothing is pending: each registers itself.
    assert!(!poll_ready(&a, &mut env));
    assert!(!poll_ready(&b, &mut env));
    assert_eq!(env.arena.slots[store.index].wakers, vec![1, 2]);

    // One mutation wakes both registered consumers, once each, and keeps
    // the set until the change is drained by the next poll.
    env.arena.set(store, Value::Int(5));
    assert_eq!(env.arena.wake_log, vec![1, 2]);
    assert!(poll_ready(&a, &mut env), "the first poll consumes the change");
    assert_eq!(
        env.arena.slots[store.index].wakers.len(),
        0,
        "draining the change clears the consumer set"
    );
    assert!(!poll_ready(&b, &mut env), "the change was already drained");
}

#[test]
fn pending_poll_registers_the_polling_instance() {
    let mut tree = Tree::new(&counter(0, 1));
    tree.render(&counter(0, 1));
    let cell = counter_cell(&tree.root);
    assert_eq!(tree.env.arena.slots[cell.index].wakers.len(), 0);

    // A pending poll leaves the instance registered as the cell's single
    // waiter; the next mutation wakes exactly that registration.
    assert!(tree.wait().0 == PollStatus::Pending);
    assert_eq!(tree.env.arena.slots[cell.index].wakers, vec![tree.root.id]);
    tree.deliver(Event::Tick);
    assert!(tree.wait().0 == PollStatus::Ready);
    assert_eq!(tree.env.arena.wake_log, vec![tree.root.id]);
    assert_eq!(
        tree.env.arena.slots[cell.index].wakers.len(),
        0,
        "the wake consumed the registration and a ready poll does not renew it"
    );
    assert!(tree.wait().0 == PollStatus::Pending);
    assert_eq!(
        tree.env.arena.slots[cell.index].wakers,
        vec![tree.root.id],
        "the next pending poll registers afresh"
    );
}
