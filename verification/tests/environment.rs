use xilem_radio::environment::{Environment, EnvironmentItem, LookupError};
use xilem_radio::listeners::ChangeListeners;

fn item(value: &'static str, key: u64) -> EnvironmentItem<&'static str> {
    EnvironmentItem { value, value_type: key, change_listeners: ChangeListeners::new() }
}

#[test]
fn new_types_get_new_slots() {
    let mut env: Environment<&'static str> = Environment::new();
    assert_eq!(env.create_slot_for_type(10), 0);
    assert_eq!(env.create_slot_for_type(20), 1);
    assert_eq!(env.create_slot_for_type(10), 0);
    assert_eq!(env.slots.len(), 2);
    assert_eq!(env.get_slot_for_type(20), Some(1));
    assert_eq!(env.get_slot_for_type(30), None);
}

#[test]
fn last_free_slot_is_reused_first() {
    let mut env: Environment<&'static str> = Environment::new();
    env.create_slot_for_type(1);
    env.create_slot_for_type(2);
    env.create_slot_for_type(3);
    env.types.remove(&1);
    env.types.remove(&3);
    env.free_slots = vec![0, 2];
    assert_eq!(env.create_slot_for_type(9), 2);
    assert_eq!(env.free_slots, vec![0]);
    assert_eq!(env.create_slot_for_type(8), 0);
    assert_eq!(env.create_slot_for_type(7), 3);
}

#[test]
fn provider_lifecycle_frees_its_slot() {
    let mut env: Environment<&'static str> = Environment::new();
    let (slot, shadowed) = env.provide_start(5, item("group", 5));
    assert_eq!(slot, 0);
    assert!(shadowed.is_none());
    assert_eq!(env.slots[0].ref_count, 1);
    assert_eq!(env.slots[0].item.as_ref().map(|i| i.value), Some("group"));
    let mut state = env.provide_finish(5, slot, shadowed);
    assert!(env.slots[0].item.is_none());
    assert_eq!(state.this_state.as_ref().map(|i| i.value), Some("group"));
    env.exchange(5, &mut state);
    assert_eq!(env.slots[0].item.as_ref().map(|i| i.value), Some("group"));
    env.provide_release(5, &mut state);
    assert_eq!(env.slots[0].ref_count, 0);
    assert!(env.slots[0].item.is_none());
    assert_eq!(env.free_slots, vec![0]);
    assert_eq!(env.get_slot_for_type(5), None);
    assert_eq!(state.this_state.as_ref().map(|i| i.value), Some("group"));
}

#[test]
fn nested_provider_shadows_and_restores() {
    let mut env: Environment<&'static str> = Environment::new();
    let (slot, shadowed) = env.provide_start(5, item("outer", 5));
    // While the outer provider walks its subtree, an inner one of the same type starts.
    let (inner_slot, inner_shadowed) = env.provide_start(5, item("inner", 5));
    assert_eq!(inner_slot, slot);
    assert_eq!(inner_shadowed.as_ref().map(|i| i.value), Some("outer"));
    assert_eq!(env.slots[0].ref_count, 2);
    let mut inner = env.provide_finish(5, inner_slot, inner_shadowed);
    assert_eq!(env.slots[0].item.as_ref().map(|i| i.value), Some("outer"));
    let mut outer = env.provide_finish(5, slot, shadowed);
    assert!(env.slots[0].item.is_none());
    assert_eq!(outer.this_state.as_ref().map(|i| i.value), Some("outer"));
    // Teardown: the outer provider enters, then the inner one is torn down.
    env.exchange(5, &mut outer);
    env.exchange(5, &mut inner);
    assert_eq!(env.slots[0].item.as_ref().map(|i| i.value), Some("inner"));
    env.provide_release(5, &mut inner);
    assert_eq!(env.slots[0].ref_count, 1);
    assert_eq!(env.slots[0].item.as_ref().map(|i| i.value), Some("outer"));
    assert_eq!(env.get_slot_for_type(5), Some(0));
    env.provide_release(5, &mut outer);
    assert_eq!(env.slots[0].ref_count, 0);
    assert_eq!(env.free_slots, vec![0]);
    assert_eq!(env.get_slot_for_type(5), None);
}

#[test]
fn exchange_twice_restores() {
    let mut env: Environment<&'static str> = Environment::new();
    let (slot, shadowed) = env.provide_start(3, item("a", 3));
    let mut state = env.provide_finish(3, slot, shadowed);
    env.exchange(3, &mut state);
    assert_eq!(env.slots[0].item.as_ref().map(|i| i.value), Some("a"));
    assert!(state.this_state.is_none());
    env.exchange(3, &mut state);
    assert!(env.slots[0].item.is_none());
    assert_eq!(state.this_state.as_ref().map(|i| i.value), Some("a"));
}

#[test]
fn lookup_reports_why_no_value_is_reachable() {
    let mut env: Environment<&'static str> = Environment::new();
    assert!(matches!(env.lookup(4), Err(LookupError::NotProvided)));
    let (slot, shadowed) = env.provide_start(4, item("x", 4));
    assert!(matches!(env.lookup(4), Ok(0)));
    let _state = env.provide_finish(4, slot, shadowed);
    assert!(matches!(env.lookup(4), Err(LookupError::NoValue)));
}

#[test]
fn attach_registers_the_reader_once() {
    let mut env: Environment<&'static str> = Environment::new();
    assert!(matches!(env.attach(4, vec![1]), Err(LookupError::NotProvided)));
    let (_slot, _shadowed) = env.provide_start(4, item("x", 4));
    assert!(matches!(env.attach(4, vec![1, 2]), Ok((0, Some(0)))));
    assert!(matches!(env.attach(4, vec![1, 3]), Ok((0, Some(1)))));
    assert!(matches!(env.attach(4, vec![1, 2]), Ok((0, None))));
    let listeners = &env.slots[0].item.as_ref().unwrap().change_listeners;
    assert_eq!(listeners.entries, vec![Some(vec![1, 2]), Some(vec![1, 3])]);
    assert_eq!(env.provided(0), Some(&"x"));
}

#[test]
fn runtime_checks_match_the_preconditions() {
    let mut env: Environment<&'static str> = Environment::new();
    assert!(env.can_provide(1));
    let (slot, shadowed) = env.provide_start(1, item("a", 1));
    assert!(env.can_finish(1, slot, &shadowed));
    assert!(!env.can_finish(2, slot, &shadowed));
    assert!(env.can_exchange(1, slot, &Some(item("b", 1))));
    assert!(!env.can_exchange(1, slot, &Some(item("b", 2))));
    let mut state = env.provide_finish(1, slot, shadowed);
    assert!(!env.can_finish(1, slot, &None));
    // Outside the subtree the provider keeps its own value: it cannot be released
    // as the last provider before it has put its value back in the slot.
    assert!(!env.can_release(1, &state));
    env.exchange(1, &mut state);
    assert!(env.can_release(1, &state));
    env.slots[0].ref_count = 0;
    assert!(!env.can_release(1, &state));
    env.slots[0].ref_count = u32::MAX;
    assert!(!env.can_provide(1));
}

#[test]
fn provider_lifecycle_around_a_reading_child() {
    let mut env: Environment<&'static str> = Environment::new();
    // Another type owns slot 0 and stays.
    let (other, other_shadowed) = env.provide_start(1, item("other", 1));
    let _other_state = env.provide_finish(1, other, other_shadowed);
    let free_before = env.free_slots.clone();
    // Build: the child registers a reader of the provided value.
    let (slot, shadowed) = env.provide_start(2, item("group", 2));
    assert!(matches!(env.attach(2, vec![0, 7]), Ok((1, Some(0)))));
    let mut state = env.provide_finish(2, slot, shadowed);
    assert!(env.slots[1].item.is_none());
    assert_eq!(
        state.this_state.as_ref().unwrap().change_listeners.entries,
        vec![Some(vec![0, 7])]
    );
    // A message pass whose child registers the same reader again.
    env.exchange(2, &mut state);
    assert!(matches!(env.attach(2, vec![0, 7]), Ok((1, None))));
    env.exchange(2, &mut state);
    assert!(state.this_state.is_some());
    assert_eq!(state.environment_slot, 1);
    assert!(env.slots[1].item.is_none());
    // Teardown.
    env.exchange(2, &mut state);
    env.provide_release(2, &mut state);
    assert_eq!(env.slots[1].ref_count, 0);
    assert!(env.slots[1].item.is_none());
    assert_eq!(env.get_slot_for_type(2), None);
    assert_eq!(env.get_slot_for_type(1), Some(0));
    let mut expected_free = free_before;
    expected_free.push(1);
    assert_eq!(env.free_slots, expected_free);
    // The freed slot is reused by the next provider.
    let (again, _) = env.provide_start(3, item("next", 3));
    assert_eq!(again, 1);
    assert!(env.free_slots.is_empty());
}
