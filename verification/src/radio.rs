//! Radio buttons and the radio group that holds them.
//!
//! A radio group provides, to the buttons below it, the accessor through which
//! they reach the selected value in the application's state. A button shows
//! itself checked when the selected value equals its own value, and a click on
//! an unchecked button makes its value the selected one.

use vstd::prelude::*;
use std::marker::PhantomData;
use vstd::std_specs::cmp::PartialEqSpec;

use crate::environment::{Environment, EnvironmentItem, EnvModel};
use crate::listeners::ChangeListeners;

verus! {

/// An element which can be in checked and unchecked state: it is checked when the
/// value selected in its radio group equals its own value.
#[must_use]
pub struct RadioButton<Value> {
    label: String,
    value: Value,
    disabled: bool,
}

/// Creates a radio button with a label and the value it stands for; it is enabled.
pub fn radio_button<Value: PartialEq + Clone>(label: String, value: Value) -> (r: RadioButton<Value>)
    ensures
        r.spec_label() == label@,
        r.spec_value() == value,
        !r.spec_disabled(),
{
    RadioButton { label, value, disabled: false }
}

/// What a rebuild changes on the button's widget: its disabled state and its text
/// when they differ from the previous button's, and its checked state always.
pub struct ButtonUpdate {
    pub disabled: Option<bool>,
    pub label: Option<String>,
    pub checked: bool,
}

/// How a button answers a message: it asks for a rebuild after it has changed the
/// selected value (its caller then shows the widget checked), it does nothing
/// when it was checked already, and it reports a message of the wrong kind as
/// stale.
pub enum ButtonResponse {
    RequestRebuild,
    Nop,
    Stale,
}

/// A button with value `value` is checked when the selected value is `selected`.
pub open spec fn checked_by<Value: PartialEq>(selected: Value, value: Value) -> bool {
    selected.eq_spec(&value)
}

/// How a button with value `value` answers a message when `selected` is the
/// selected value and `toggled` tells whether the message is its toggle.
pub open spec fn answer<Value: PartialEq>(toggled: bool, selected: Value, value: Value) -> ButtonResponse {
    if !toggled {
        ButtonResponse::Stale
    } else if checked_by(selected, value) {
        ButtonResponse::Nop
    } else {
        ButtonResponse::RequestRebuild
    }
}

/// The widget of a newly built button: checked or not, its text, and whether it
/// is disabled.
pub struct ButtonWidget {
    pub checked: bool,
    pub label: String,
    pub disabled: bool,
}

impl<Value> RadioButton<Value> {
    /// The button's label.
    pub closed spec fn spec_label(&self) -> Seq<char> {
        self.label@
    }

    /// The value the button stands for.
    pub closed spec fn spec_value(&self) -> Value {
        self.value
    }

    /// Whether the button is disabled.
    pub closed spec fn spec_disabled(&self) -> bool {
        self.disabled
    }

    /// Set the disabled state of the widget.
    pub fn disabled(self, disabled: bool) -> (r: Self)
        ensures
            r.spec_label() == self.spec_label(),
            r.spec_value() == self.spec_value(),
            r.spec_disabled() == disabled,
    {
        let mut this = self;
        this.disabled = disabled;
        this
    }

    /// The button's label.
    pub fn label(&self) -> (r: &String)
        ensures
            r@ == self.spec_label(),
    {
        &self.label
    }

    /// The value the button stands for.
    pub fn value(&self) -> (r: &Value)
        ensures
            *r == self.spec_value(),
    {
        &self.value
    }

    /// Whether the button is disabled.
    pub fn is_disabled(&self) -> (r: bool)
        ensures
            r == self.spec_disabled(),
    {
        self.disabled
    }
}

impl<Value: PartialEq + Clone> RadioButton<Value> {
    /// Whether the button is checked when `selected` is the selected value: when
    /// the selected value equals the button's value.
    pub fn is_checked(&self, selected: &Value) -> (r: bool)
        ensures
            Value::obeys_eq_spec() ==> r == checked_by(*selected, self.spec_value()),
    {
        *selected == self.value
    }

    /// The widget that building this button creates, when `selected` is the
    /// selected value.
    pub fn build_widget(&self, selected: &Value) -> (r: ButtonWidget)
        ensures
            Value::obeys_eq_spec() ==> r.checked == checked_by(*selected, self.spec_value()),
            r.label@ == self.spec_label(),
            r.disabled == self.spec_disabled(),
    {
        ButtonWidget { checked: self.is_checked(selected), label: self.label.clone(), disabled: self.disabled }
    }

    /// What rebuilding the widget of `prev` into this button changes, when
    /// `selected` is the selected value.
    pub fn rebuild_update(&self, prev: &Self, selected: &Value) -> (r: ButtonUpdate)
        ensures
            r.disabled == (if prev.spec_disabled() != self.spec_disabled() {
                Some(self.spec_disabled())
            } else {
                None::<bool>
            }),
            match r.label {
                Some(l) => prev.spec_label() != self.spec_label() && l@ == self.spec_label(),
                None => prev.spec_label() == self.spec_label(),
            },
            Value::obeys_eq_spec() ==> r.checked == checked_by(*selected, self.spec_value()),
    {
        let disabled = if prev.disabled != self.disabled {
            Some(self.disabled)
        } else {
            None
        };
        let label = if !(prev.label == self.label) {
            Some(self.label.clone())
        } else {
            None
        };
        ButtonUpdate { disabled, label, checked: self.is_checked(selected) }
    }

    /// Answers a message to the button: `toggled` tells whether it is the
    /// button's toggle message. On a toggle of an unchecked button the button's
    /// value becomes the selected value.
    pub fn on_message(&self, toggled: bool, selected: &mut Value) -> (r: ButtonResponse)
        ensures
            !toggled ==> r is Stale && *final(selected) == *old(selected),
            toggled ==> !(r is Stale),
            r is Nop ==> *final(selected) == *old(selected),
            r is RequestRebuild ==> cloned(self.spec_value(), *final(selected)),
            Value::obeys_eq_spec() ==> r == answer(toggled, *old(selected), self.spec_value()),
    {
        if !toggled {
            return ButtonResponse::Stale;
        }
        let was_checked = self.is_checked(selected);
        if !was_checked {
            *selected = self.value.clone();
            ButtonResponse::RequestRebuild
        } else {
            ButtonResponse::Nop
        }
    }
}

/// What a radio group provides to its buttons: the accessor of the selected value.
pub struct RadioGroupState<A> {
    pub access_value: A,
}

/// An element which holds radio buttons: its child view, and the accessor of the
/// selected value in the application's state.
#[must_use]
pub struct RadioGroup<State, Action, V, Value, A> {
    child: V,
    access_value: A,
    phantom: PhantomData<(State, Action, Value)>,
}

/// Creates a radio group from the accessor of the selected value and the child
/// view that holds the buttons.
pub fn radio_group<State, Action, V, Value, A>(access_value: A, child: V) -> (r: RadioGroup<State, Action, V, Value, A>)
    ensures
        r.spec_child() == child,
        r.spec_access_value() == access_value,
{
    RadioGroup { child, access_value, phantom: PhantomData }
}

impl<State, Action, V, Value, A> RadioGroup<State, Action, V, Value, A> {
    /// The child view.
    pub closed spec fn spec_child(&self) -> V {
        self.child
    }

    /// The accessor of the selected value.
    pub closed spec fn spec_access_value(&self) -> A {
        self.access_value
    }

    /// The child view.
    pub fn child(&self) -> (r: &V)
        ensures
            *r == self.spec_child(),
    {
        &self.child
    }

    /// The accessor of the selected value.
    pub fn access_value(&self) -> (r: &A)
        ensures
            *r == self.spec_access_value(),
    {
        &self.access_value
    }
}

impl<State, Action, V, Value, A: Copy> RadioGroup<State, Action, V, Value, A> {
    /// The value the group provides, as the value of type `key`: its accessor,
    /// with no listeners yet.
    pub fn provided_item(&self, key: u64) -> (r: EnvironmentItem<RadioGroupState<A>>)
        ensures
            r.value.access_value == self.spec_access_value(),
            r.value_type == key,
            r.change_listeners@ == Seq::<Option<Seq<u64>>>::empty(),
    {
        EnvironmentItem {
            value: RadioGroupState { access_value: self.access_value },
            value_type: key,
            change_listeners: ChangeListeners::new(),
        }
    }

    /// Starts building the group: provides its accessor as the value of type
    /// `key` for the walk over the child. Returns the slot and the value that the
    /// group shadows until the child is built.
    pub fn build_start(&self, env: &mut Environment<RadioGroupState<A>>, key: u64) -> (r: (u32, Option<EnvironmentItem<RadioGroupState<A>>>))
        requires
            old(env).wf(),
            old(env)@.can_provide(key),
        ensures
            final(env).wf(),
            ({
                let (m, i, shadowed) = old(env)@.provide_start(key, final(env)@.slots[r.0 as int].item->Some_0);
                &&& final(env)@ == m
                &&& r.0 == i
                &&& r.1 == shadowed
            }),
            final(env)@.slots[r.0 as int].item matches Some(it) && {
                &&& it.value.access_value == self.spec_access_value()
                &&& it.value_type == key
                &&& it.change_listeners@ == Seq::<Option<Seq<u64>>>::empty()
            },
    {
        let item = self.provided_item(key);
        env.provide_start(key, item)
    }
}

impl<State, Action, V, Value, A: PartialEq> RadioGroup<State, Action, V, Value, A> {
    /// Whether the group's accessor differs from the one of the group `prev` it
    /// replaces; if so, the selected value is carried over from where `prev`'s
    /// accessor reaches it to where this group's accessor reaches it.
    pub fn accessor_changed(&self, prev: &Self) -> (r: bool)
        ensures
            A::obeys_eq_spec() ==> r == !prev.spec_access_value().eq_spec(&self.spec_access_value()),
    {
        !(prev.access_value == self.access_value)
    }
}

} // verus!
