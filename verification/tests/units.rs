use ratatui_kit::component::InstantiatedComponent;
use ratatui_kit::component::{ComponentKind, Components};
use ratatui_kit::context::{Context, ContextStack, ContextValue, SystemContext, TypeTag};
use ratatui_kit::events::{Event, EventHub};
use ratatui_kit::handler::{Handler, HandlerAction};
use ratatui_kit::key::{ElementKey, KeyData};
use ratatui_kit::layout::{Constraint, Direction, LayoutStyle};
use ratatui_kit::multimap::{AppendOnlyMultimap, RemoveOnlyMultimap};
use ratatui_kit::router::{RouteContext, RouterHistory};
use ratatui_kit::state::{StateArena, Value};

fn blank_instance(key: ElementKey, kind: ComponentKind) -> InstantiatedComponent {
    InstantiatedComponent {
        key,
        kind,
        id: 0,
        hooks: Vec::new(),
        children: Components {
            components: RemoveOnlyMultimap::default(),
        },
        first_update: true,
        layout_style: LayoutStyle::default(),
        has_transparent_layout: false,
    }
}

#[test]
fn key_equality_follows_wrapped_value() {
    let a = ElementKey::num(7);
    let b = ElementKey::new(KeyData::Num(7));
    let c = ElementKey::text(String::from("seven"));
    let d = ElementKey::text(String::from("seven"));
    let e = ElementKey::text(String::from("eight"));
    assert!(a.key_eq(&b));
    assert!(c.key_eq(&d));
    assert!(!c.key_eq(&e));
    assert!(!a.key_eq(&c));
    let a2 = a.clone();
    assert!(a2.key_eq(&a));
}

#[test]
fn multimap_pops_oldest_entry_per_key() {
    let mut append: AppendOnlyMultimap = AppendOnlyMultimap::default();
    append.push_back(
        ElementKey::num(1),
        blank_instance(ElementKey::num(1), ComponentKind::Fragment),
    );
    append.push_back(
        ElementKey::num(2),
        blank_instance(ElementKey::num(2), ComponentKind::View),
    );
    append.push_back(
        ElementKey::num(1),
        blank_instance(ElementKey::num(1), ComponentKind::Counter),
    );
    assert_eq!(append.len(), 3);
    let mut map = RemoveOnlyMultimap::from(append);
    assert_eq!(map.len(), 3);
    let first = map.pop_front(&ElementKey::num(1)).unwrap();
    assert!(matches!(first.kind, ComponentKind::Fragment));
    let second = map.pop_front(&ElementKey::num(1)).unwrap();
    assert!(matches!(second.kind, ComponentKind::Counter));
    assert!(map.pop_front(&ElementKey::num(1)).is_none());
    let left = map.iter(0).unwrap();
    assert!(matches!(left.kind, ComponentKind::View));
    assert!(map.iter(1).is_none());
    let key = map.key_at(0).unwrap();
    assert!(key.key_eq(&ElementKey::num(2)));
    let entry = map.pop_front_entry().unwrap();
    assert!(entry.0.key_eq(&ElementKey::num(2)));
    assert_eq!(map.len(), 0);
}

#[test]
fn multimap_iter_mut_updates_in_place() {
    let mut append: AppendOnlyMultimap = AppendOnlyMultimap::default();
    append.push_back(
        ElementKey::num(4),
        blank_instance(ElementKey::num(4), ComponentKind::Fragment),
    );
    let mut map = RemoveOnlyMultimap::from(append);
    {
        let inst = map.iter_mut(0).unwrap();
        inst.id = 42;
    }
    assert_eq!(map.iter(0).unwrap().id, 42);
    assert!(map.iter_mut(9).is_none());
}

#[test]
fn context_downcasts_by_type_tag() {
    let owned = Context::owned(ContextValue::Int(5));
    assert!(matches!(
        owned.downcast_ref(TypeTag::Int),
        Some(ContextValue::Int(5))
    ));
    assert!(owned.downcast_ref(TypeTag::Flag).is_none());

    let value = ContextValue::Flag(true);
    let shared = Context::form_ref(&value);
    assert!(shared.downcast_ref(TypeTag::Flag).is_some());

    let mut shared_mut = shared;
    assert!(
        shared_mut.downcast_mut(TypeTag::Flag).is_none(),
        "read-only entries refuse writable downcasts"
    );

    let mut source = ContextValue::Int(1);
    let mut writable = Context::form_mut(&mut source);
    assert!(writable.downcast_mut(TypeTag::Int).is_some());

    let mut owned_again = Context::owned(ContextValue::Int(9));
    let reborrowed = owned_again.borrow();
    assert!(matches!(reborrowed, Context::Mut(ContextValue::Int(9))));
}

#[test]
fn context_stack_lookup_finds_innermost() {
    let mut stack = ContextStack::root(SystemContext::new());
    stack.push(Context::owned(ContextValue::Int(1)));
    stack.push(Context::owned(ContextValue::Flag(false)));
    stack.push(Context::owned(ContextValue::Int(2)));
    assert!(matches!(
        stack.get_context(TypeTag::Int),
        Some(ContextValue::Int(2))
    ));
    assert!(matches!(
        stack.get_context(TypeTag::Flag),
        Some(ContextValue::Flag(false))
    ));
    assert!(stack.get_context(TypeTag::System).is_some());
    stack.pop();
    assert!(matches!(
        stack.get_context(TypeTag::Int),
        Some(ContextValue::Int(1))
    ));
}

#[test]
fn context_stack_writable_lookup_skips_read_only() {
    let mut stack = ContextStack::root(SystemContext::new());
    stack.push(Context::owned(ContextValue::Int(1)));
    stack.push(Context::form_ref(&ContextValue::Int(2)));
    {
        let found = stack.get_context_mut(TypeTag::Int).unwrap();
        assert_eq!(*found, ContextValue::Int(1));
        *found = ContextValue::Int(3);
    }
    assert!(matches!(
        stack.get_context(TypeTag::Int),
        Some(ContextValue::Int(2))
    ));
    stack.pop();
    assert!(matches!(
        stack.get_context(TypeTag::Int),
        Some(ContextValue::Int(3))
    ));
}

#[test]
fn system_context_exit_flag() {
    let mut sc = SystemContext::new();
    assert!(!sc.should_exit());
    sc.exit();
    assert!(sc.should_exit());
}

#[test]
fn event_hub_fans_out_in_order() {
    let mut hub = EventHub::new();
    let a = hub.events();
    let b = hub.events();
    hub.dispatch(Event::Tick);
    hub.dispatch(Event::Key(13));
    hub.dispatch(Event::Resize(80, 24));
    assert_eq!(hub.poll_next(a), Some(Event::Tick));
    assert_eq!(hub.poll_next(a), Some(Event::Key(13)));
    assert_eq!(hub.poll_next(a), Some(Event::Resize(80, 24)));
    assert_eq!(hub.poll_next(a), None);
    assert_eq!(hub.poll_next(b), Some(Event::Tick));
    assert_eq!(hub.poll_next(b), Some(Event::Key(13)));
    assert_eq!(hub.poll_next(b), Some(Event::Resize(80, 24)));
    assert_eq!(hub.poll_next(b), None);
}

#[test]
fn event_hub_interrupt_only_raises_flag() {
    let mut hub = EventHub::new();
    let a = hub.events();
    assert!(!hub.received_ctrl_c());
    hub.dispatch(Event::CtrlC);
    assert!(hub.received_ctrl_c());
    assert_eq!(hub.poll_next(a), None, "the interrupt is not fanned out");
}

#[test]
fn event_hub_prunes_dead_queues() {
    let mut hub = EventHub::new();
    let a = hub.events();
    let b = hub.events();
    hub.dispatch(Event::Tick);
    hub.unsubscribe(a);
    assert_eq!(hub.poll_next(a), None, "a dead queue yields nothing");
    hub.dispatch(Event::Key(1));
    assert_eq!(hub.subscribers[a.index].pending.len(), 0);
    assert_eq!(hub.poll_next(b), Some(Event::Tick));
    assert_eq!(hub.poll_next(b), Some(Event::Key(1)));
}

#[test]
fn handler_take_resets_to_default() {
    let mut arena = StateArena::new();
    let cell = arena.insert(Value::Int(0));
    let mut handler = Handler::from(HandlerAction::AddToState(cell, 5));
    assert!(!handler.is_default());
    let taken = handler.take();
    assert!(handler.is_default());
    assert!(!taken.is_default());
    taken.apply(&mut arena);
    assert_eq!(arena.get(cell), Value::Int(5));
    handler.apply(&mut arena);
    assert_eq!(arena.get(cell), Value::Int(5), "the default handler does nothing");
    let setter = Handler::from(HandlerAction::SetState(cell, Value::Flag(true)));
    setter.apply(&mut arena);
    assert_eq!(arena.get(cell), Value::Flag(true));
}

fn route(path: &str) -> RouteContext {
    RouteContext {
        path: String::from(path),
        state: None,
    }
}

#[test]
fn router_history_push_and_navigate() {
    let mut history = RouterHistory {
        current: 0,
        history: vec![route("/")],
        max_length: 10,
    };
    history.push(route("/a"));
    history.push(route("/b"));
    assert_eq!(history.current, 2);
    assert_eq!(history.current_context().path, "/b");
    assert!(history.back());
    assert_eq!(history.current_context().path, "/a");
    assert!(history.forward());
    assert_eq!(history.current_context().path, "/b");
    assert!(!history.forward());
    assert!(history.go(-2));
    assert_eq!(history.current_context().path, "/");
    assert!(!history.go(5));
    assert!(!history.back());
}

#[test]
fn router_history_push_drops_forward_entries() {
    let mut history = RouterHistory {
        current: 0,
        history: vec![route("/")],
        max_length: 10,
    };
    history.push(route("/a"));
    history.push(route("/b"));
    assert!(history.back());
    history.push(route("/c"));
    assert_eq!(history.history.len(), 3);
    assert_eq!(history.current_context().path, "/c");
    assert!(!history.forward(), "pushing dropped the old forward entry");
}

#[test]
fn router_history_replace_keeps_cursor() {
    let mut history = RouterHistory {
        current: 1,
        history: vec![route("/"), route("/a"), route("/b")],
        max_length: 10,
    };
    history.replace(route("/z"));
    assert_eq!(history.current, 1);
    assert_eq!(history.history.len(), 2, "entries ahead of the cursor are dropped");
    assert_eq!(history.current_context().path, "/z");
}

#[test]
fn router_history_evicts_oldest_at_bound() {
    let mut history = RouterHistory {
        current: 1,
        history: vec![route("/"), route("/a"), route("/b")],
        max_length: 3,
    };
    history.push(route("/c"));
    assert_eq!(history.history.len(), 3);
    assert_eq!(history.history[0].path, "/a", "the oldest entry was evicted");
    assert_eq!(history.current_context().path, "/c");
}

#[test]
fn layout_style_defaults_and_getters() {
    let style = LayoutStyle::default();
    assert!(matches!(style.flex_direction, Direction::Vertical));
    assert_eq!(style.gap, 0);
    assert!(matches!(style.get_width(), Constraint::Fill));
    assert!(matches!(style.get_height(), Constraint::Fill));
    let fixed = LayoutStyle {
        flex_direction: Direction::Horizontal,
        gap: 2,
        width: Constraint::Length(10),
        height: Constraint::Percentage(50),
    };
    assert!(matches!(fixed.get_width(), Constraint::Length(10)));
    assert!(matches!(fixed.get_height(), Constraint::Percentage(50)));
}
