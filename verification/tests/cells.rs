use ratatui_kit::context::{Context, ContextStack, ContextValue, SystemContext, TypeTag};
use ratatui_kit::events::EventHub;
use ratatui_kit::handler::{Handler, HandlerAction};
use ratatui_kit::hooks::{HookError, HookSlot, Hooks, TaskSlot, hash_deps};
use ratatui_kit::state::{StateArena, StateError, Value};

#[test]
fn state_cell_round_trip() {
    let mut arena = StateArena::new();
    let cell = arena.insert(Value::Int(7));
    assert_eq!(arena.get(cell), Value::Int(7));
    assert_eq!(*arena.read(cell), Value::Int(7));
    assert_eq!(arena.try_read(cell).unwrap(), &Value::Int(7));
    assert_eq!(arena.set(cell, Value::Int(9)), Ok(()));
    assert_eq!(arena.get(cell), Value::Int(9));
}

#[test]
fn state_cell_fails_after_release() {
    let mut arena = StateArena::new();
    let cell = arena.insert(Value::Int(1));
    arena.free(cell);
    assert_eq!(arena.try_read(cell).unwrap_err(), StateError::Released);
    assert_eq!(arena.try_write(cell).unwrap_err(), StateError::Released);
    let before = arena.wake_log.len();
    assert_eq!(
        arena.set(cell, Value::Int(5)),
        Err(StateError::Released),
        "a stale write reports the fault"
    );
    assert_eq!(arena.wake_log.len(), before, "and wakes nobody");
}

#[test]
fn state_cell_second_writer_fails_fast() {
    let mut arena = StateArena::new();
    let cell = arena.insert(Value::Int(0));
    let guard = arena.try_write(cell).unwrap();
    assert_eq!(arena.try_write(cell).unwrap_err(), StateError::Borrowed);
    assert_eq!(arena.try_read(cell).unwrap_err(), StateError::Borrowed);
    assert_eq!(arena.set(cell, Value::Int(9)), Err(StateError::Borrowed));
    arena.release(guard);
    assert!(arena.try_read(cell).is_ok());
}

#[test]
fn write_without_mutation_leaves_no_trace() {
    let mut arena = StateArena::new();
    let cell = arena.insert(Value::Int(3));
    arena.set_waker(cell, 11);
    let guard = arena.write(cell);
    assert_eq!(guard.get(), Value::Int(3));
    arena.release(guard);
    assert!(!arena.take_change(cell), "an unwritten borrow marks nothing");
    assert_eq!(arena.wake_log.len(), 0, "an unwritten borrow wakes nobody");
    assert_eq!(
        arena.slots[cell.index].wakers,
        vec![11],
        "the registration is kept for a later mutation"
    );
}

#[test]
fn mutation_wakes_exactly_the_registered_waiter() {
    let mut arena = StateArena::new();
    let cell = arena.insert(Value::Int(3));
    arena.set_waker(cell, 11);
    arena.set_waker(cell, 12);
    let mut guard = arena.write(cell);
    guard.set(Value::Int(4));
    arena.release(guard);
    assert_eq!(arena.get(cell), Value::Int(4));
    assert_eq!(arena.wake_log, vec![12], "exactly the registered waiter, once");
    assert_eq!(
        arena.slots[cell.index].wakers.len(),
        0,
        "the registration is cleared with the wake"
    );
    assert!(arena.take_change(cell));
    assert!(!arena.take_change(cell), "the mark is consumed");
}

#[test]
fn mutation_through_value_mut_counts() {
    let mut arena = StateArena::new();
    let cell = arena.insert(Value::Int(0));
    let mut guard = arena.write(cell);
    *guard.value_mut() = Value::Int(8);
    arena.release(guard);
    assert_eq!(arena.get(cell), Value::Int(8));
    assert!(arena.take_change(cell));
}

#[test]
fn shared_cell_wakes_every_consumer_and_keeps_the_set() {
    let mut arena = StateArena::new();
    let cell = arena.insert_shared(Value::Int(0));
    arena.add_waker(cell, 1);
    arena.add_waker(cell, 2);
    arena.add_waker(cell, 2);
    assert_eq!(arena.slots[cell.index].wakers, vec![1, 2], "one entry per consumer");
    assert_eq!(arena.set(cell, Value::Int(1)), Ok(()));
    assert_eq!(arena.wake_log, vec![1, 2]);
    assert_eq!(
        arena.slots[cell.index].wakers,
        vec![1, 2],
        "a shared cell keeps its waiter set across the wake"
    );
    assert!(arena.take_change(cell));
    assert_eq!(
        arena.slots[cell.index].wakers.len(),
        0,
        "the set is cleared once the change is drained"
    );
}

#[test]
fn add_to_int_wraps_and_skips_non_integers() {
    let mut arena = StateArena::new();
    let cell = arena.insert(Value::Int(i64::MAX));
    assert_eq!(arena.add_to_int(cell, 1), Ok(()));
    assert_eq!(arena.get(cell), Value::Int(i64::MIN));
    let flag = arena.insert(Value::Flag(false));
    assert_eq!(
        arena.add_to_int(flag, 1),
        Err(StateError::TypeMismatch),
        "a checked downcast reports the shape fault"
    );
    assert_eq!(arena.get(flag), Value::Flag(false));
}

#[test]
fn hooks_first_update_appends_then_reuses() {
    let mut arena = StateArena::new();
    let mut hooks = Hooks::new(Vec::new(), true);
    let cell = hooks.use_state(&mut arena, Value::Int(0)).unwrap();
    assert_eq!(hooks.use_future(), Ok(1));
    let slots = hooks.slots;
    assert_eq!(slots.len(), 2);

    assert_eq!(arena.set(cell, Value::Int(41)), Ok(()));
    let mut again = Hooks::new(slots, false);
    let same = again.use_state(&mut arena, Value::Int(0)).unwrap();
    assert_eq!(same, cell, "the persisted handle comes back");
    assert_eq!(arena.get(same), Value::Int(41), "its value survived the render");
    assert_eq!(again.use_future(), Ok(1));
}

#[test]
fn hooks_kind_mismatch_is_surfaced() {
    let mut hooks = Hooks::new(Vec::new(), true);
    assert_eq!(hooks.use_hook(HookSlot::Task(TaskSlot { done: false })), Ok(0));
    let slots = hooks.slots;
    let mut arena = StateArena::new();
    let mut again = Hooks::new(slots, false);
    assert_eq!(
        again.use_state(&mut arena, Value::Int(0)),
        Err(HookError::TypeMismatch),
        "registering a different hook kind at the same position is a wiring fault"
    );
    let mut third = Hooks::new(again.slots, false);
    let _ = third.use_future();
    assert_eq!(
        third.use_future(),
        Err(HookError::TypeMismatch),
        "running past the registered slots is the same fault"
    );
}

#[test]
fn use_memo_recomputes_only_on_dependency_change() {
    let mut hooks = Hooks::new(Vec::new(), true);
    assert_eq!(hooks.use_memo(10, Value::Int(1)), Ok(Value::Int(1)));
    let mut second = Hooks::new(hooks.slots, false);
    assert_eq!(
        second.use_memo(10, Value::Int(2)),
        Ok(Value::Int(1)),
        "unchanged dependencies return the cached value"
    );
    let mut third = Hooks::new(second.slots, false);
    assert_eq!(
        third.use_memo(11, Value::Int(2)),
        Ok(Value::Int(2)),
        "a changed dependency hash recomputes"
    );
}

#[test]
fn use_effect_fires_on_first_and_changed_deps() {
    let mut hooks = Hooks::new(Vec::new(), true);
    assert_eq!(hooks.use_effect(5), Ok(true));
    let mut second = Hooks::new(hooks.slots, false);
    assert_eq!(second.use_effect(5), Ok(false));
    let mut third = Hooks::new(second.slots, false);
    assert_eq!(third.use_effect(6), Ok(true));
}

#[test]
fn use_events_subscribes_once_and_replaces_handler() {
    let mut arena = StateArena::new();
    let cell = arena.insert(Value::Int(0));
    let mut hub = EventHub::new();
    let mut hooks = Hooks::new(Vec::new(), true);
    let sub = hooks
        .use_events(&mut hub, Handler::from(HandlerAction::AddToState(cell, 1)))
        .unwrap();
    assert_eq!(hub.subscribers.len(), 1);
    let mut second = Hooks::new(hooks.slots, false);
    let sub2 = second
        .use_events(&mut hub, Handler::from(HandlerAction::AddToState(cell, 2)))
        .unwrap();
    assert_eq!(sub, sub2, "the subscription persists");
    assert_eq!(hub.subscribers.len(), 1, "no second queue is opened");
    match &second.slots[0] {
        HookSlot::Events(es) => match es.handler.action {
            HandlerAction::AddToState(_, step) => assert_eq!(step, 2),
            _ => panic!("unexpected handler action"),
        },
        _ => panic!("unexpected slot"),
    }
}

#[test]
fn use_store_binds_on_first_update() {
    let mut arena = StateArena::new();
    let store = arena.insert_shared(Value::Int(100));
    let other = arena.insert_shared(Value::Int(200));
    let mut hooks = Hooks::new(Vec::new(), true);
    assert_eq!(hooks.use_store(store), Ok(store));
    let mut second = Hooks::new(hooks.slots, false);
    assert_eq!(
        second.use_store(other),
        Ok(store),
        "later updates keep the first-bound cell"
    );
}

#[test]
fn hooks_read_context_through_attached_stack() {
    let mut stack = ContextStack::root(SystemContext::new());
    stack.push(Context::owned(ContextValue::Int(5)));
    let hooks = Hooks::new(Vec::new(), true);
    let hooks = hooks.with_context_stack(&stack);
    assert_eq!(hooks.try_use_context(TypeTag::Int), Some(&ContextValue::Int(5)));
    assert_eq!(hooks.use_context(TypeTag::Int), &ContextValue::Int(5));
    assert_eq!(hooks.try_use_context(TypeTag::Flag), None);
}

#[test]
fn hash_deps_is_deterministic_and_sensitive() {
    assert_eq!(hash_deps(&vec![]), 0xcbf29ce484222325);
    assert_eq!(hash_deps(&vec![1, 2]), hash_deps(&vec![1, 2]));
    assert_ne!(hash_deps(&vec![1, 2]), hash_deps(&vec![2, 1]));
    assert_ne!(hash_deps(&vec![1]), hash_deps(&vec![1, 0]));

    let mut hooks = Hooks::new(Vec::new(), true);
    let first = hooks.use_memo(hash_deps(&vec![7, 8]), Value::Int(1)).unwrap();
    assert_eq!(first, Value::Int(1));
    let mut second = Hooks::new(hooks.slots, false);
    assert_eq!(
        second.use_memo(hash_deps(&vec![7, 8]), Value::Int(2)),
        Ok(Value::Int(1)),
        "equal dependency lists hash equal, so the cache holds"
    );
}
