//! The store of values that a view provides to the views below it.
//!
//! Each provided type owns one slot while some view provides it. A slot counts the
//! views that provide into it, and holds the value that is visible at the current
//! point of the tree walk. A slot that nobody provides into any more goes to the
//! free list and is reused by the next type that needs one.

use vstd::prelude::*;
use std::collections::HashMap;

use crate::listeners::{ChangeListeners, ViewPath, register_spec};

verus! {

broadcast use vstd::std_specs::hash::group_hash_axioms;

/// A provided value, tagged with the key of its type, with the views that listen
/// to it.
pub struct EnvironmentItem<T> {
    pub value: T,
    pub value_type: u64,
    pub change_listeners: ChangeListeners,
}

/// One slot of the environment.
pub struct Slot<T> {
    pub item: Option<EnvironmentItem<T>>,
    pub ref_count: u32,
}

/// The environment: its slots, the slots free for reuse (the last one is reused
/// first), and the slot of each provided type, keyed by the type's key.
pub struct Environment<T> {
    pub slots: Vec<Slot<T>>,
    pub free_slots: Vec<u32>,
    pub types: HashMap<u64, u32>,
}

/// What a view that provides into a slot keeps between its passes: the slot, and
/// the value that is not in the slot at the moment (its own while it is outside
/// its subtree, the one it shadows while it is inside).
pub struct ProvidedSlot<T> {
    pub this_state: Option<EnvironmentItem<T>>,
    pub environment_slot: u32,
}

/// Why a view below a provider cannot reach the provided value.
pub enum LookupError {
    /// No view provides a value of this type.
    NotProvided,
    /// The type has a slot, but nothing is in it at this point of the walk.
    NoValue,
}

/// The abstract environment: the slots, the free list and the slot of each type.
#[verifier::ext_equal]
pub ghost struct EnvModel<T> {
    pub slots: Seq<Slot<T>>,
    pub free: Seq<u32>,
    pub types: Map<u64, u32>,
}

impl<T> View for Environment<T> {
    type V = EnvModel<T>;

    open spec fn view(&self) -> EnvModel<T> {
        EnvModel { slots: self.slots@, free: self.free_slots@, types: self.types@ }
    }
}

/// A slot's item, if any, is a value of type `key`.
pub open spec fn holds_type<T>(item: Option<EnvironmentItem<T>>, key: u64) -> bool {
    item matches Some(it) ==> it.value_type == key
}

/// A fresh slot holds nothing and is provided by nobody.
pub open spec fn empty_slot<T>() -> Slot<T> {
    Slot { item: None, ref_count: 0 }
}

/// Slot `i` of `m` with its item replaced by `item`.
pub open spec fn with_item<T>(m: EnvModel<T>, i: int, item: Option<EnvironmentItem<T>>) -> EnvModel<T> {
    EnvModel {
        slots: m.slots.update(i, Slot { item: item, ref_count: m.slots[i].ref_count }),
        ..m
    }
}

/// Slot `i` of `m` with its count of providers set to `c`.
pub open spec fn with_count<T>(m: EnvModel<T>, i: int, c: u32) -> EnvModel<T> {
    EnvModel { slots: m.slots.update(i, Slot { item: m.slots[i].item, ref_count: c }), ..m }
}

impl<T> EnvModel<T> {
    /// Well formed: every slot index fits in a `u32`; each type has its own slot,
    /// which holds nothing but values of that type; a free slot is listed once,
    /// holds nothing, is provided by nobody and belongs to no type.
    pub open spec fn wf(self) -> bool {
        let n = self.slots.len();
        &&& n <= u32::MAX + 1
        &&& forall|k: u64| #[trigger] self.types.contains_key(k) ==> self.types[k] < n && holds_type(
            self.slots[self.types[k] as int].item,
            k,
        )
        &&& forall|k1: u64, k2: u64|
            #[trigger] self.types.contains_key(k1) && #[trigger] self.types.contains_key(k2) && k1
                != k2 ==> self.types[k1] != self.types[k2]
        &&& forall|i: int|
            0 <= i < self.free.len() ==> {
                &&& #[trigger] self.free[i] < n
                &&& self.slots[self.free[i] as int].ref_count == 0
                &&& self.slots[self.free[i] as int].item is None
            }
        &&& forall|i: int, j: int|
            0 <= i < self.free.len() && 0 <= j < self.free.len() && #[trigger] self.free[i]
                == #[trigger] self.free[j] ==> i == j
        &&& forall|i: int, k: u64|
            0 <= i < self.free.len() && #[trigger] self.types.contains_key(k) ==> #[trigger] self.free[i]
                != self.types[k]
    }

    /// The slot that type `key` gets: its own when it has one, else the last free
    /// slot, else a new one at the end.
    pub open spec fn slot_for_type(self, key: u64) -> u32 {
        if self.types.contains_key(key) {
            self.types[key]
        } else if self.free.len() > 0 {
            self.free.last()
        } else {
            self.slots.len() as u32
        }
    }

    /// `key` can get a slot: it has one, or one is free, or one more fits.
    pub open spec fn can_get_slot(self, key: u64) -> bool {
        !self.types.contains_key(key) && self.free.len() == 0 ==> self.slots.len() <= u32::MAX
    }

    /// The environment after type `key` has got its slot.
    pub open spec fn with_slot(self, key: u64) -> EnvModel<T> {
        if self.types.contains_key(key) {
            self
        } else if self.free.len() > 0 {
            EnvModel {
                slots: self.slots,
                free: self.free.drop_last(),
                types: self.types.insert(key, self.free.last()),
            }
        } else {
            EnvModel {
                slots: self.slots.push(empty_slot()),
                free: self.free,
                types: self.types.insert(key, self.slots.len() as u32),
            }
        }
    }

    /// The provider of `key` can start: the type can get a slot, and one more
    /// provider can be counted in it.
    pub open spec fn can_provide(self, key: u64) -> bool {
        &&& self.can_get_slot(key)
        &&& self.types.contains_key(key) ==> self.slots[self.types[key] as int].ref_count < u32::MAX
    }

    /// Starting to provide `item` as the value of type `key`: the type gets its
    /// slot, the slot counts one more provider and holds `item`. Also gives the
    /// slot, and the value that was there before and is now shadowed.
    pub open spec fn provide_start(self, key: u64, item: EnvironmentItem<T>) -> (EnvModel<T>, u32, Option<EnvironmentItem<T>>) {
        let m = self.with_slot(key);
        let i = self.slot_for_type(key);
        let s = m.slots[i as int];
        (EnvModel { slots: m.slots.update(i as int, Slot { item: Some(item), ref_count: (s.ref_count + 1) as u32 }), ..m }, i, s.item)
    }

    /// What looking up the value of type `key` finds: the type's slot when it has
    /// one and something is in it.
    pub open spec fn lookup(self, key: u64) -> Result<u32, LookupError> {
        if !self.types.contains_key(key) {
            Err(LookupError::NotProvided)
        } else if self.slots[self.types[key] as int].item is None {
            Err(LookupError::NoValue)
        } else {
            Ok(self.types[key])
        }
    }

    /// `after` is this environment with `path` registered as a listener of the
    /// item in slot `i`, which reported `index`.
    pub open spec fn listened(self, after: EnvModel<T>, i: u32, path: Seq<u64>, index: Option<usize>) -> bool {
        let it = self.slots[i as int].item->Some_0;
        let (ls, ri) = register_spec(it.change_listeners@, path);
        &&& after.free == self.free
        &&& after.types == self.types
        &&& after.slots.len() == self.slots.len()
        &&& forall|j: int| 0 <= j < self.slots.len() && j != i ==> #[trigger] after.slots[j] == self.slots[j]
        &&& after.slots[i as int].ref_count == self.slots[i as int].ref_count
        &&& after.slots[i as int].item matches Some(it2) && {
            &&& it2.value == it.value
            &&& it2.value_type == it.value_type
            &&& it2.change_listeners@ == ls
        }
        &&& match index {
            Some(k) => ri == Some(k as int),
            None => ri is None,
        }
    }

    /// Exchanging the item of slot `i` with `this`: the environment afterwards,
    /// and the item taken out of the slot.
    pub open spec fn exchange(self, i: u32, this: Option<EnvironmentItem<T>>) -> (EnvModel<T>, Option<EnvironmentItem<T>>) {
        (with_item(self, i as int, this), self.slots[i as int].item)
    }

    /// Ending a provider's last pass over its subtree: the shadowed value `this`
    /// goes back into slot `i`, the slot counts one provider less, and when none is
    /// left the slot becomes free and type `key` loses it. Also gives the
    /// provider's own value, taken out of the slot.
    pub open spec fn release(self, key: u64, i: u32, this: Option<EnvironmentItem<T>>) -> (EnvModel<T>, Option<EnvironmentItem<T>>) {
        let c = (self.slots[i as int].ref_count - 1) as u32;
        let m = with_count(with_item(self, i as int, this), i as int, c);
        let m2 = if c == 0 {
            EnvModel { free: m.free.push(i), types: m.types.remove(key), ..m }
        } else {
            m
        };
        (m2, self.slots[i as int].item)
    }
}

impl<T> Environment<T> {
    /// The environment is well formed (see `EnvModel::wf`).
    pub open spec fn wf(&self) -> bool {
        self@.wf()
    }

    /// An environment with no slots.
    pub fn new() -> (r: Self)
        ensures
            r.wf(),
            r@.slots.len() == 0,
            r@.free.len() == 0,
            r@.types == Map::<u64, u32>::empty(),
    {
        Environment { slots: Vec::new(), free_slots: Vec::new(), types: HashMap::new() }
    }

    /// The slot of type `key`, if the type has one.
    pub fn get_slot_for_type(&self, key: u64) -> (r: Option<u32>)
        ensures
            r == self@.types.get(key),
    {
        match self.types.get(&key) {
            Some(s) => Some(*s),
            None => None,
        }
    }

    /// Gives type `key` a slot: its own if it has one, else the last free slot,
    /// else a new empty slot at the end.
    pub fn create_slot_for_type(&mut self, key: u64) -> (r: u32)
        requires
            old(self).wf(),
            old(self)@.can_get_slot(key),
        ensures
            final(self).wf(),
            r == old(self)@.slot_for_type(key),
            final(self)@ == old(self)@.with_slot(key),
            final(self)@.types.get(key) == Some(r),
            r < final(self)@.slots.len(),
    {
        match self.types.get(&key) {
            Some(s) => {
                assert(self@ =~= old(self)@.with_slot(key));
                *s
            },
            None => {
                match self.free_slots.pop() {
                    Some(slot) => {
                        self.types.insert(key, slot);
                        proof {
                            let old_free = old(self).free_slots@;
                            let last = old_free.len() - 1;
                            assert(old_free[last] == slot);
                            assert forall|i: int| 0 <= i < self.free_slots@.len() implies #[trigger] self.free_slots@[i] != slot by {
                                assert(old_free[i] == self.free_slots@[i]);
                            }
                            assert forall|i: int| 0 <= i < self.free_slots@.len() implies {
                                &&& #[trigger] self.free_slots@[i] < self.slots@.len()
                                &&& self.slots@[self.free_slots@[i] as int].ref_count == 0
                                &&& self.slots@[self.free_slots@[i] as int].item is None
                            } by {
                                assert(old_free[i] == self.free_slots@[i]);
                            }
                            assert forall|i: int, j: int| 0 <= i < self.free_slots@.len() && 0 <= j < self.free_slots@.len() && #[trigger] self.free_slots@[i] == #[trigger] self.free_slots@[j] implies i == j by {
                                assert(old_free[i] == self.free_slots@[i]);
                                assert(old_free[j] == self.free_slots@[j]);
                            }
                            assert forall|i: int, k: u64| 0 <= i < self.free_slots@.len() && #[trigger] self.types@.contains_key(k) implies #[trigger] self.free_slots@[i] != self.types@[k] by {
                                assert(old_free[i] == self.free_slots@[i]);
                            }
                            assert(self@ =~= old(self)@.with_slot(key));
                        }
                        slot
                    },
                    None => {
                        let slot = self.slots.len() as u32;
                        self.slots.push(Slot { item: None, ref_count: 0 });
                        self.types.insert(key, slot);
                        proof {
                            assert forall|k: u64| #[trigger] self.types@.contains_key(k) implies self.types@[k] < self.slots@.len() && holds_type(
                                self.slots@[self.types@[k] as int].item,
                                k,
                            ) by {
                                if k != key {
                                    assert(self.slots@[self.types@[k] as int] == old(self).slots@[self.types@[k] as int]);
                                }
                            }
                            assert(self@ =~= old(self)@.with_slot(key));
                        }
                        slot
                    },
                }
            },
        }
    }

    /// Whether the provider of type `key` can start (see `EnvModel::can_provide`).
    pub fn can_provide(&self, key: u64) -> (r: bool)
        requires
            self.wf(),
        ensures
            r == self@.can_provide(key),
    {
        match self.types.get(&key) {
            Some(s) => self.slots[*s as usize].ref_count < u32::MAX,
            None => self.free_slots.len() > 0 || self.slots.len() <= u32::MAX as usize,
        }
    }

    /// Whether `this` may go into slot `i`, the slot of type `key`, in place of
    /// what is there.
    pub fn can_exchange(&self, key: u64, i: u32, this: &Option<EnvironmentItem<T>>) -> (r: bool)
        requires
            self.wf(),
        ensures
            r == (self@.types.get(key) == Some(i) && holds_type(*this, key)),
    {
        let owned = match self.types.get(&key) {
            Some(s) => *s == i,
            None => false,
        };
        owned && match this {
            Some(it) => it.value_type == key,
            None => true,
        }
    }

    /// Whether a provider of type `key` can finish its walk over its subtree in
    /// slot `i`, putting back `shadowed`: the subtree left a value in the slot.
    pub fn can_finish(&self, key: u64, i: u32, shadowed: &Option<EnvironmentItem<T>>) -> (r: bool)
        requires
            self.wf(),
        ensures
            r == (self@.types.get(key) == Some(i) && holds_type(*shadowed, key) && self@.slots[i as int].item is Some),
    {
        self.can_exchange(key, i, shadowed) && self.slots[i as usize].item.is_some()
    }

    /// Whether the provider of type `key` with state `state` can be released: it
    /// is counted in its slot, and when it is the last one, it shadows nothing.
    pub fn can_release(&self, key: u64, state: &ProvidedSlot<T>) -> (r: bool)
        requires
            self.wf(),
        ensures
            r == ({
                &&& self@.types.get(key) == Some(state.environment_slot)
                &&& holds_type(state.this_state, key)
                &&& self@.slots[state.environment_slot as int].ref_count >= 1
                &&& self@.slots[state.environment_slot as int].ref_count == 1 ==> state.this_state is None
            }),
    {
        if !self.can_exchange(key, state.environment_slot, &state.this_state) {
            return false;
        }
        let c = self.slots[state.environment_slot as usize].ref_count;
        c >= 1 && (c != 1 || state.this_state.is_none())
    }

    /// Finds the slot of type `key` and checks that a value is in it.
    pub fn lookup(&self, key: u64) -> (r: Result<u32, LookupError>)
        requires
            self.wf(),
        ensures
            r == self@.lookup(key),
    {
        match self.types.get(&key) {
            None => Err(LookupError::NotProvided),
            Some(s) => {
                let i = *s as usize;
                if self.slots[i].item.is_none() {
                    Err(LookupError::NoValue)
                } else {
                    Ok(*s)
                }
            },
        }
    }

    /// The value in slot `i`, if there is one.
    pub fn provided(&self, i: u32) -> (r: Option<&T>)
        requires
            i < self@.slots.len(),
        ensures
            match self@.slots[i as int].item {
                Some(it) => r == Some(&it.value),
                None => r is None,
            },
    {
        match &self.slots[i as usize].item {
            Some(it) => Some(&it.value),
            None => None,
        }
    }

    /// Registers `path` as a listener of the value in slot `i`, unless it listens
    /// already, and reports the listener slot it was written to.
    pub fn listen(&mut self, i: u32, path: ViewPath) -> (r: Option<usize>)
        requires
            old(self).wf(),
            i < old(self)@.slots.len(),
            old(self)@.slots[i as int].item is Some,
        ensures
            final(self).wf(),
            old(self)@.listened(final(self)@, i, path@, r),
    {
        let k = i as usize;
        match &mut self.slots[k].item {
            Some(it) => it.change_listeners.register(path),
            None => None,
        }
    }

    /// Connects a view that reads the value of type `key` to it, as a view below a
    /// provider does when it is built: finds the type's slot, checks that a value
    /// is in it, and registers the view's path as a listener of that value.
    pub fn attach(&mut self, key: u64, path: ViewPath) -> (r: Result<(u32, Option<usize>), LookupError>)
        requires
            old(self).wf(),
        ensures
            final(self).wf(),
            match r {
                Ok((i, index)) => old(self)@.lookup(key) == Ok::<u32, LookupError>(i) && old(self)@.listened(final(self)@, i, path@, index),
                Err(e) => old(self)@.lookup(key) == Err::<u32, LookupError>(e) && final(self)@ == old(self)@,
            },
    {
        match self.lookup(key) {
            Ok(i) => {
                let index = self.listen(i, path);
                Ok((i, index))
            },
            Err(e) => Err(e),
        }
    }

    /// Exchanges the item in the slot of `state` with the item that `state` keeps
    /// outside the slot: on the way into a subtree this makes the provider's own
    /// value visible, on the way out it puts back the value that it shadowed.
    pub fn exchange(&mut self, key: u64, state: &mut ProvidedSlot<T>)
        requires
            old(self).wf(),
            old(self)@.types.get(key) == Some(old(state).environment_slot),
            holds_type(old(state).this_state, key),
        ensures
            final(self).wf(),
            (final(self)@, final(state).this_state) == old(self)@.exchange(old(state).environment_slot, old(state).this_state),
            final(state).environment_slot == old(state).environment_slot,
    {
        let i = state.environment_slot as usize;
        core::mem::swap(&mut self.slots[i].item, &mut state.this_state);
        assert(self@ =~= with_item(old(self)@, i as int, old(state).this_state));
    }

    /// Starts providing `item` as the value of type `key`: gives the type its slot,
    /// counts one more provider in it and puts `item` there. Returns the slot and
    /// the value that was there before, which the provider shadows until
    /// `provide_finish`.
    pub fn provide_start(&mut self, key: u64, item: EnvironmentItem<T>) -> (r: (u32, Option<EnvironmentItem<T>>))
        requires
            old(self).wf(),
            item.value_type == key,
            old(self)@.can_provide(key),
        ensures
            final(self).wf(),
            (final(self)@, r.0, r.1) == old(self)@.provide_start(key, item),
    {
        let ghost item0 = item;
        let pos = self.create_slot_for_type(key);
        let i = pos as usize;
        self.slots[i].ref_count = self.slots[i].ref_count + 1;
        let mut old_value = Some(item);
        core::mem::swap(&mut self.slots[i].item, &mut old_value);
        proof {
            let m = old(self)@.with_slot(key);
            assert(self@ =~= EnvModel { slots: m.slots.update(pos as int, Slot { item: Some(item0), ref_count: (m.slots[pos as int].ref_count + 1) as u32 }), ..m });
        }
        (pos, old_value)
    }

    /// Stops providing into the slot of type `key` after the subtree has been
    /// walked: puts back the value `shadowed` that was there before and returns
    /// the provider's own value, as the subtree left it.
    pub fn provide_finish(&mut self, key: u64, slot: u32, shadowed: Option<EnvironmentItem<T>>) -> (state: ProvidedSlot<T>)
        requires
            old(self).wf(),
            old(self)@.types.get(key) == Some(slot),
            holds_type(shadowed, key),
            old(self)@.slots[slot as int].item is Some,
        ensures
            final(self).wf(),
            (final(self)@, state.this_state) == old(self)@.exchange(slot, shadowed),
            state.environment_slot == slot,
    {
        let mut state = ProvidedSlot { this_state: shadowed, environment_slot: slot };
        self.exchange(key, &mut state);
        state
    }

    /// Ends a provider's last pass over its subtree: puts back the value it
    /// shadowed, counts one provider less, and when none is left gives the slot
    /// to the free list and forgets the type's slot.
    pub fn provide_release(&mut self, key: u64, state: &mut ProvidedSlot<T>)
        requires
            old(self).wf(),
            old(self)@.types.get(key) == Some(old(state).environment_slot),
            holds_type(old(state).this_state, key),
            old(self)@.slots[old(state).environment_slot as int].ref_count >= 1,
            old(self)@.slots[old(state).environment_slot as int].ref_count == 1 ==> old(state).this_state is None,
        ensures
            final(self).wf(),
            (final(self)@, final(state).this_state) == old(self)@.release(key, old(state).environment_slot, old(state).this_state),
            final(state).environment_slot == old(state).environment_slot,
    {
        let ghost this0 = state.this_state;
        self.exchange(key, state);
        let i = state.environment_slot as usize;
        self.slots[i].ref_count = self.slots[i].ref_count - 1;
        if self.slots[i].ref_count == 0 {
            self.free_slots.push(state.environment_slot);
            self.types.remove(&key);
            proof {
                let slot = state.environment_slot;
                let n = old(self).free_slots@.len();
                assert forall|j: int| 0 <= j < n implies #[trigger] old(self).free_slots@[j] != slot by {}
                assert forall|a: int, b: int| 0 <= a < self.free_slots@.len() && 0 <= b < self.free_slots@.len() && #[trigger] self.free_slots@[a] == #[trigger] self.free_slots@[b] implies a == b by {
                    if a < n && b < n {
                        assert(self.free_slots@[a] == old(self).free_slots@[a]);
                        assert(self.free_slots@[b] == old(self).free_slots@[b]);
                    } else if a < n {
                        assert(self.free_slots@[a] == old(self).free_slots@[a]);
                    } else if b < n {
                        assert(self.free_slots@[b] == old(self).free_slots@[b]);
                    }
                }
                assert forall|j: int| 0 <= j < self.free_slots@.len() implies {
                    &&& #[trigger] self.free_slots@[j] < self.slots@.len()
                    &&& self.slots@[self.free_slots@[j] as int].ref_count == 0
                    &&& self.slots@[self.free_slots@[j] as int].item is None
                } by {
                    if j < n {
                        assert(self.free_slots@[j] == old(self).free_slots@[j]);
                    }
                }
                assert forall|j: int, k: u64| 0 <= j < self.free_slots@.len() && #[trigger] self.types@.contains_key(k) implies #[trigger] self.free_slots@[j] != self.types@[k] by {
                    if j < n {
                        assert(self.free_slots@[j] == old(self).free_slots@[j]);
                    }
                }
            }
        }
        proof {
            let r = old(self)@.release(key, old(state).environment_slot, this0);
            assert(self@ =~= r.0);
        }
    }
}

} // verus!
