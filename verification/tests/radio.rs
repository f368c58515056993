use xilem_radio::environment::Environment;
use xilem_radio::radio::{radio_button, radio_group, ButtonResponse, RadioGroup, RadioGroupState};

#[derive(PartialEq, Clone, Debug)]
enum Fruit {
    Banana,
    Apple,
    Lime,
}

struct State {
    fruit: Fruit,
    other: Fruit,
}

fn fruit(state: &mut State) -> &mut Fruit {
    &mut state.fruit
}

fn other(state: &mut State) -> &mut Fruit {
    &mut state.other
}

type Access = fn(&mut State) -> &mut Fruit;

#[test]
fn new_button_is_enabled() {
    let b = radio_button("Banana".to_string(), Fruit::Banana);
    assert_eq!(b.label(), "Banana");
    assert_eq!(b.value(), &Fruit::Banana);
    assert!(!b.is_disabled());
    let b = b.disabled(true);
    assert!(b.is_disabled());
    assert_eq!(b.label(), "Banana");
    let b = b.disabled(false);
    assert!(!b.is_disabled());
}

#[test]
fn button_is_checked_when_its_value_is_selected() {
    let apple = radio_button("Apple".to_string(), Fruit::Apple);
    let lime = radio_button("Lime".to_string(), Fruit::Lime);
    assert!(apple.is_checked(&Fruit::Apple));
    assert!(!lime.is_checked(&Fruit::Apple));
    assert!(!apple.is_checked(&Fruit::Banana));
}

#[test]
fn built_widget_shows_label_state_and_check() {
    let b = radio_button("Lime".to_string(), Fruit::Lime).disabled(true);
    let w = b.build_widget(&Fruit::Lime);
    assert!(w.checked);
    assert_eq!(w.label, "Lime");
    assert!(w.disabled);
    let w = b.build_widget(&Fruit::Apple);
    assert!(!w.checked);
}

#[test]
fn rebuild_changes_only_what_differs() {
    let prev = radio_button("Apple".to_string(), 1u64);
    let same = radio_button("Apple".to_string(), 1u64);
    let u = same.rebuild_update(&prev, &1);
    assert_eq!(u.disabled, None);
    assert_eq!(u.label, None);
    assert!(u.checked);

    let next = radio_button("Pear".to_string(), 1u64).disabled(true);
    let u = next.rebuild_update(&prev, &2);
    assert_eq!(u.disabled, Some(true));
    assert_eq!(u.label, Some("Pear".to_string()));
    assert!(!u.checked);
}

#[test]
fn toggle_selects_an_unchecked_button() {
    let apple = radio_button("Apple".to_string(), Fruit::Apple);
    let mut selected = Fruit::Banana;
    assert!(matches!(apple.on_message(true, &mut selected), ButtonResponse::RequestRebuild));
    assert_eq!(selected, Fruit::Apple);
    assert!(apple.is_checked(&selected));
    // A second toggle finds the button checked and does nothing.
    assert!(matches!(apple.on_message(true, &mut selected), ButtonResponse::Nop));
    assert_eq!(selected, Fruit::Apple);
}

#[test]
fn other_messages_are_stale() {
    let apple = radio_button("Apple".to_string(), Fruit::Apple);
    let mut selected = Fruit::Banana;
    assert!(matches!(apple.on_message(false, &mut selected), ButtonResponse::Stale));
    assert_eq!(selected, Fruit::Banana);
}

#[test]
fn only_the_selected_button_is_checked() {
    let buttons = [
        radio_button("Banana".to_string(), Fruit::Banana),
        radio_button("Apple".to_string(), Fruit::Apple),
        radio_button("Lime".to_string(), Fruit::Lime),
    ];
    let mut selected = Fruit::Banana;
    buttons[2].on_message(true, &mut selected);
    let checked: Vec<bool> = buttons.iter().map(|b| b.is_checked(&selected)).collect();
    assert_eq!(checked, vec![false, false, true]);
}

#[test]
fn group_keeps_accessor_and_child() {
    let g: RadioGroup<State, (), u32, Fruit, Access> = radio_group(fruit as Access, 7u32);
    assert_eq!(*g.child(), 7);
    let mut state = State { fruit: Fruit::Lime, other: Fruit::Apple };
    assert_eq!(*(g.access_value())(&mut state), Fruit::Lime);
}

#[test]
fn group_notices_a_changed_accessor() {
    let a: RadioGroup<State, (), (), Fruit, Access> = radio_group(fruit as Access, ());
    let b: RadioGroup<State, (), (), Fruit, Access> = radio_group(fruit as Access, ());
    let c: RadioGroup<State, (), (), Fruit, Access> = radio_group(other as Access, ());
    assert!(!b.accessor_changed(&a));
    assert!(c.accessor_changed(&a));
}

#[test]
fn group_provides_its_accessor_to_buttons() {
    let g: RadioGroup<State, (), (), Fruit, Access> = radio_group(fruit as Access, ());
    let mut env: Environment<RadioGroupState<Access>> = Environment::new();
    let (slot, shadowed) = g.build_start(&mut env, 11);
    assert_eq!(slot, 0);
    assert!(shadowed.is_none());
    // A button below the group finds the accessor and listens to it.
    let (found, listener) = match env.attach(11, vec![0, 1]) {
        Ok(r) => r,
        Err(_) => panic!("the group provides a value"),
    };
    assert_eq!(found, 0);
    assert_eq!(listener, Some(0));
    let access = env.provided(found).unwrap().access_value;
    let mut state = State { fruit: Fruit::Apple, other: Fruit::Lime };
    let apple = radio_button("Apple".to_string(), Fruit::Apple);
    assert!(apple.is_checked(access(&mut state)));
    let state_kept = env.provide_finish(11, slot, shadowed);
    assert!(env.slots[0].item.is_none());
    assert_eq!(state_kept.this_state.unwrap().change_listeners.entries, vec![Some(vec![0, 1])]);
}

#[test]
fn provided_item_has_no_listeners() {
    let g: RadioGroup<State, (), (), Fruit, Access> = radio_group(fruit as Access, ());
    let item = g.provided_item(3);
    assert_eq!(item.value_type, 3);
    assert_eq!(item.change_listeners.len(), 0);
}

/// A value whose `==` ignores case: an equivalence that is not equality.
#[derive(Clone, Debug)]
struct Name(String);

impl PartialEq for Name {
    fn eq(&self, other: &Self) -> bool {
        self.0.to_lowercase() == other.0.to_lowercase()
    }
}

#[test]
fn buttons_whose_values_compare_equal_are_checked_together() {
    let upper = radio_button("Upper".to_string(), Name("A".to_string()));
    let lower = radio_button("Lower".to_string(), Name("a".to_string()));
    let other = radio_button("Other".to_string(), Name("b".to_string()));
    let mut selected = Name("b".to_string());
    assert!(matches!(upper.on_message(true, &mut selected), ButtonResponse::RequestRebuild));
    assert!(upper.is_checked(&selected));
    assert!(lower.is_checked(&selected));
    assert!(!other.is_checked(&selected));
    assert!(matches!(lower.on_message(true, &mut selected), ButtonResponse::Nop));
    assert_eq!(selected.0, "A");
}
