//! Properties that hold across the operations of the library.

use vstd::prelude::*;
use vstd::laws_eq::{obeys_concrete_eq, obeys_eq_spec_properties};
use vstd::std_specs::cmp::PartialEqSpec;

use crate::environment::{EnvModel, EnvironmentItem, LookupError, empty_slot, with_item, with_count};
use crate::listeners::{register_spec, is_listed, is_first_free, lemma_first_free_exists};
use crate::radio::{answer, checked_by};

verus! {

/// After registering a path, the path is listed.
pub proof fn law_registered_path_is_listed(s: Seq<Option<Seq<u64>>>, path: Seq<u64>)
    ensures
        is_listed(register_spec(s, path).0, path),
{
    let (s1, i) = register_spec(s, path);
    if is_listed(s, path) {
    } else if crate::listeners::has_free(s) {
        lemma_first_free_exists(s);
        let k = choose|k: int| is_first_free(s, k);
        assert(s1[k] == Some(path));
    } else {
        assert(s1[s.len() as int] == Some(path));
    }
}

/// The reported slot holds the registered path.
pub proof fn law_reported_slot_holds_path(s: Seq<Option<Seq<u64>>>, path: Seq<u64>)
    ensures
        register_spec(s, path).1 matches Some(i) ==> 0 <= i < register_spec(s, path).0.len()
            && register_spec(s, path).0[i] == Some(path),
{
    if !is_listed(s, path) && crate::listeners::has_free(s) {
        lemma_first_free_exists(s);
    }
}

/// Registering a path that is listed already changes nothing and reports no slot;
/// so registering the same path twice is the same as registering it once.
pub proof fn law_register_idempotent(s: Seq<Option<Seq<u64>>>, path: Seq<u64>)
    ensures
        register_spec(register_spec(s, path).0, path) == (register_spec(s, path).0, None::<int>),
{
    law_registered_path_is_listed(s, path);
}

/// Registering never drops a listener: every path listed before is listed after,
/// at the same slot, and the list grows by at most one slot.
pub proof fn law_register_keeps_listeners(s: Seq<Option<Seq<u64>>>, path: Seq<u64>, j: int)
    requires
        0 <= j < s.len(),
        s[j] is Some,
    ensures
        register_spec(s, path).0[j] == s[j],
        s.len() <= register_spec(s, path).0.len() <= s.len() + 1,
{
    if !is_listed(s, path) && crate::listeners::has_free(s) {
        lemma_first_free_exists(s);
    }
}

/// Exchanging twice with the same slot puts everything back: the environment and
/// the value kept outside the slot are as they were.
pub proof fn law_exchange_twice<T>(m: EnvModel<T>, i: u32, this: Option<EnvironmentItem<T>>)
    requires
        i < m.slots.len(),
    ensures
        ({
            let (m1, t1) = m.exchange(i, this);
            m1.exchange(i, t1) == (m, this)
        }),
{
    let (m1, t1) = m.exchange(i, this);
    assert(m1.exchange(i, t1).0 =~= m);
}

/// A provider's walk over its subtree: it starts providing `item`, the subtree
/// leaves `x` in the slot, and the provider finishes. Afterwards the slot holds
/// the value it held before the provider started, with one more provider counted,
/// and the provider keeps `x`.
pub proof fn law_provide_restores_slot<T>(m: EnvModel<T>, key: u64, item: EnvironmentItem<T>, x: EnvironmentItem<T>)
    requires
        m.wf(),
        m.can_provide(key),
        item.value_type == key,
    ensures
        ({
            let (m1, i, shadowed) = m.provide_start(key, item);
            let m2 = with_item(m1, i as int, Some(x));
            let (m3, mine) = m2.exchange(i, shadowed);
            let before = m.with_slot(key);
            &&& m3 == with_count(before, i as int, (before.slots[i as int].ref_count + 1) as u32)
            &&& mine == Some(x)
        }),
{
    let (m1, i, shadowed) = m.provide_start(key, item);
    let m2 = with_item(m1, i as int, Some(x));
    let (m3, mine) = m2.exchange(i, shadowed);
    let before = m.with_slot(key);
    if !m.types.contains_key(key) && m.free.len() > 0 {
        assert(m.free[m.free.len() - 1] == m.free.last());
    }
    assert(m3 =~= with_count(before, i as int, (before.slots[i as int].ref_count + 1) as u32));
}

/// A provider's whole life: it is built (start and finish), enters its subtree
/// once more to be torn down, and is released. If its type had a slot with
/// providers in it already, or a free slot was reused, the environment is as it
/// was before; if a new slot had to be made, that slot stays behind, empty and
/// free.
pub proof fn law_provider_lifecycle<T>(m: EnvModel<T>, key: u64, item: EnvironmentItem<T>)
    requires
        m.wf(),
        m.can_provide(key),
        item.value_type == key,
        m.types.contains_key(key) ==> m.slots[m.types[key] as int].ref_count >= 1,
    ensures
        ({
            let (m1, i, shadowed) = m.provide_start(key, item);
            let (m2, mine) = m1.exchange(i, shadowed);
            let (m3, outer) = m2.exchange(i, mine);
            let (m4, own) = m3.release(key, i, outer);
            &&& own == Some(item)
            &&& (m.types.contains_key(key) || m.free.len() > 0) ==> m4 == m
            &&& (!m.types.contains_key(key) && m.free.len() == 0) ==> m4 == EnvModel {
                slots: m.slots.push(empty_slot()),
                free: m.free.push(m.slots.len() as u32),
                types: m.types,
            }
        }),
{
    let (m1, i, shadowed) = m.provide_start(key, item);
    let (m2, mine) = m1.exchange(i, shadowed);
    let (m3, outer) = m2.exchange(i, mine);
    let (m4, own) = m3.release(key, i, outer);
    if m.types.contains_key(key) {
        assert(m4.slots =~= m.slots);
        assert(m4 =~= m);
    } else if m.free.len() > 0 {
        let last = m.free.len() - 1;
        assert(m.free[last] == i);
        assert(m.slots[i as int].item is None);
        assert(m4.slots =~= m.slots);
        assert(m4.free =~= m.free);
        assert(m4.types =~= m.types);
        assert(m4 =~= m);
    } else {
        assert(m4.slots =~= m.slots.push(empty_slot()));
        assert(m4.types =~= m.types);
    }
}

/// A walk over the subtree of the provider in slot `i` that is balanced: the
/// views below take back whatever they provided and release whatever they
/// took, so the slots, the free list and the type map are as they were, slot
/// `i` counts the same providers, and it holds a value after the walk exactly
/// when it held one before. What is inside the values (the listeners that views
/// below register) may change.
pub open spec fn balanced_walk<T>(before: EnvModel<T>, after: EnvModel<T>, i: u32) -> bool {
    &&& after.wf()
    &&& after.types == before.types
    &&& after.free == before.free
    &&& after.slots.len() == before.slots.len()
    &&& after.slots[i as int].ref_count == before.slots[i as int].ref_count
    &&& (after.slots[i as int].item is Some) == (before.slots[i as int].item is Some)
}

/// A rebuild or message pass of a provider in slot `i` over a balanced walk of
/// its subtree: it exchanges its own value `this` in, the subtree is walked, and
/// it exchanges back. Afterwards the provider holds a value again (what the
/// subtree left of its own), and the slot holds what it held before the pass,
/// with the same count, the same free list and the same type map.
pub proof fn law_walk_keeps_value<T>(m: EnvModel<T>, key: u64, i: u32, this: Option<EnvironmentItem<T>>, c: EnvModel<T>)
    requires
        m.wf(),
        m.types.get(key) == Some(i),
        this is Some,
        crate::environment::holds_type(this, key),
        balanced_walk(m.exchange(i, this).0, c, i),
    ensures
        ({
            let (m1, outer) = m.exchange(i, this);
            let (m2, back) = c.exchange(i, outer);
            &&& back is Some
            &&& crate::environment::holds_type(back, key)
            &&& back == c.slots[i as int].item
            &&& m2.slots[i as int] == m.slots[i as int]
            &&& m2.types == m.types
            &&& m2.free == m.free
            &&& m2.wf()
        }),
{
    let (m1, outer) = m.exchange(i, this);
    let (m2, back) = c.exchange(i, outer);
    assert(c.types.contains_key(key));
    assert(m2.wf()) by {
        assert forall|k: u64| #[trigger] m2.types.contains_key(k) implies m2.types[k] < m2.slots.len()
            && crate::environment::holds_type(m2.slots[m2.types[k] as int].item, k) by {
            if k != key {
                assert(m2.types[k] != i);
            }
        }
    }
}

/// A provider's whole life around balanced walks of its subtree: it is built
/// (start, a balanced walk `c1` of the child's build, finish), and later torn
/// down (it exchanges its value in, a balanced walk `c3` of the child's
/// teardown, release). Afterwards its slot counts the providers it counted
/// before the provider started (none for a fresh or free slot) and holds the
/// value it held then; when that count is zero the slot is free again and the
/// type has no slot (a reused free slot goes back where it came from), otherwise
/// the free list and the type map are as before.
pub proof fn law_provider_lifecycle_balanced<T>(
    m: EnvModel<T>,
    key: u64,
    item: EnvironmentItem<T>,
    c1: EnvModel<T>,
    c3: EnvModel<T>,
)
    requires
        m.wf(),
        m.can_provide(key),
        item.value_type == key,
        m.types.contains_key(key) && m.slots[m.types[key] as int].ref_count == 0 ==> m.slots[m.types[key] as int].item is None,
        ({
            let (m1, i, shadowed) = m.provide_start(key, item);
            balanced_walk(m1, c1, i)
        }),
        ({
            let (m1, i, shadowed) = m.provide_start(key, item);
            let (m2, own) = c1.exchange(i, shadowed);
            let (m3, outer) = m2.exchange(i, own);
            balanced_walk(m3, c3, i)
        }),
    ensures
        ({
            let b = m.with_slot(key);
            let (m1, i, shadowed) = m.provide_start(key, item);
            let (m2, own) = c1.exchange(i, shadowed);
            let (m3, outer) = m2.exchange(i, own);
            let (m4, mine) = c3.release(key, i, outer);
            let r = b.slots[i as int].ref_count;
            &&& i == m.slot_for_type(key)
            &&& own is Some
            &&& outer == shadowed
            &&& shadowed == b.slots[i as int].item
            &&& m.types.contains_key(key) ==> shadowed == m.slots[i as int].item
            &&& !m.types.contains_key(key) ==> r == 0 && shadowed is None
            &&& m4.wf()
            &&& m4.slots.len() == b.slots.len()
            &&& m4.slots[i as int].ref_count == r
            &&& m4.slots[i as int].item == shadowed
            &&& mine == c3.slots[i as int].item
            &&& r == 0 ==> {
                &&& m4.types == m.types.remove(key)
                &&& !m4.types.contains_key(key)
                &&& m4.free.contains(i)
                &&& (!m.types.contains_key(key) && m.free.len() > 0) ==> m4.free == m.free
                &&& (m.types.contains_key(key) || m.free.len() == 0) ==> m4.free == m.free.push(i)
            }
            &&& r > 0 ==> m4.types == m.types && m4.free == m.free
        }),
{
    let b = m.with_slot(key);
    let (m1, i, shadowed) = m.provide_start(key, item);
    let (m2, own) = c1.exchange(i, shadowed);
    let (m3, outer) = m2.exchange(i, own);
    let (m4, mine) = c3.release(key, i, outer);
    let r = b.slots[i as int].ref_count;
    if !m.types.contains_key(key) && m.free.len() > 0 {
        let last = m.free.len() - 1;
        assert(m.free[last] == i);
    }
    assert(b.types.contains_key(key) && b.types[key] == i);
    assert(c3.types[key] == i);
    // Release's conditions hold in `c3`.
    assert(c3.slots[i as int].ref_count == r + 1);
    assert(crate::environment::holds_type(shadowed, key));
    let mm = with_count(with_item(c3, i as int, outer), i as int, (r + 1 - 1) as u32);
    assert(m4.wf()) by {
        if r == 0 {
            assert(shadowed is None);
            assert forall|a: int| 0 <= a < m4.free.len() implies {
                &&& #[trigger] m4.free[a] < m4.slots.len()
                &&& m4.slots[m4.free[a] as int].ref_count == 0
                &&& m4.slots[m4.free[a] as int].item is None
            } by {
                if a < c3.free.len() {
                    assert(m4.free[a] == c3.free[a]);
                }
            }
            assert forall|a: int, bb: int| 0 <= a < m4.free.len() && 0 <= bb < m4.free.len() && #[trigger] m4.free[a] == #[trigger] m4.free[bb] implies a == bb by {
                let n = c3.free.len() as int;
                if a < n {
                    assert(m4.free[a] == c3.free[a]);
                    assert(c3.free[a] != i);
                }
                if bb < n {
                    assert(m4.free[bb] == c3.free[bb]);
                    assert(c3.free[bb] != i);
                }
            }
            assert forall|a: int, k: u64| 0 <= a < m4.free.len() && #[trigger] m4.types.contains_key(k) implies #[trigger] m4.free[a] != m4.types[k] by {
                if a < c3.free.len() {
                    assert(m4.free[a] == c3.free[a]);
                } else {
                    assert(k != key);
                    assert(c3.types[k] != c3.types[key]);
                }
            }
            assert forall|k: u64| #[trigger] m4.types.contains_key(k) implies m4.types[k] < m4.slots.len()
                && crate::environment::holds_type(m4.slots[m4.types[k] as int].item, k) by {
                assert(c3.types[k] != c3.types[key]);
            }
        } else {
            assert forall|k: u64| #[trigger] m4.types.contains_key(k) implies m4.types[k] < m4.slots.len()
                && crate::environment::holds_type(m4.slots[m4.types[k] as int].item, k) by {
                if k != key {
                    assert(c3.types[k] != c3.types[key]);
                }
            }
            assert forall|a: int| 0 <= a < m4.free.len() implies {
                &&& #[trigger] m4.free[a] < m4.slots.len()
                &&& m4.slots[m4.free[a] as int].ref_count == 0
                &&& m4.slots[m4.free[a] as int].item is None
            } by {
                assert(c3.free[a] != c3.types[key]);
            }
        }
    }
    if r == 0 {
        assert(m4.types =~= m.types.remove(key));
        assert(m4.free[m4.free.len() - 1] == i);
        if m.types.contains_key(key) {
            assert(m4.free =~= m.free.push(i));
        } else if m.free.len() > 0 {
            assert(m4.free =~= m.free);
        } else {
            assert(m4.free =~= m.free.push(i));
        }
    } else {
        assert(m.types.contains_key(key));
        assert(m4.types =~= m.types);
    }
}

/// A provider can start exactly when its type can get a slot and one more
/// provider can be counted there: a type that has a slot can always take one
/// more provider while the slot counts fewer than `u32::MAX`, however many
/// (sibling or nested) providers it counts already; a type without a slot needs
/// a free slot or room for a new one.
pub proof fn law_can_provide_exactly<T>(m: EnvModel<T>, key: u64)
    requires
        m.wf(),
    ensures
        m.types.contains_key(key) ==> (m.can_provide(key) <==> m.slots[m.types[key] as int].ref_count < u32::MAX),
        !m.types.contains_key(key) ==> (m.can_provide(key) <==> (m.free.len() > 0 || m.slots.len() <= u32::MAX)),
{
}

/// Once a provider of a type has started, another provider of the same type
/// (a sibling or a nested group) can start as well while the count allows it;
/// it gets the same slot, and the slot counts one more provider.
pub proof fn law_second_provider_shares_slot<T>(m: EnvModel<T>, key: u64, item: EnvironmentItem<T>, item2: EnvironmentItem<T>)
    requires
        m.wf(),
        m.can_provide(key),
        item.value_type == key,
        item2.value_type == key,
        ({
            let (m1, i, sh) = m.provide_start(key, item);
            m1.slots[i as int].ref_count < u32::MAX
        }),
    ensures
        ({
            let (m1, i, sh) = m.provide_start(key, item);
            let (m2, j, sh2) = m1.provide_start(key, item2);
            &&& m1.slots[i as int].ref_count >= 1
            &&& m1.can_provide(key)
            &&& j == i
            &&& m2.slots[i as int].ref_count == m1.slots[i as int].ref_count + 1
            &&& m2.slots[i as int].item == Some(item2)
            &&& sh2 == Some(item)
        }),
{
    let (m1, i, sh) = m.provide_start(key, item);
    if !m.types.contains_key(key) && m.free.len() > 0 {
        let last = m.free.len() - 1;
        assert(m.free[last] == i);
    }
    assert(m1.types.contains_key(key));
    assert(m1.types[key] == i);
}

/// A view below a provider finds the provided value exactly when the type has a
/// slot and something is in it, however many providers the slot counts; no slot
/// means the value is not provided, an empty slot means nothing is provided at
/// this point of the walk.
pub proof fn law_lookup_exactly<T>(m: EnvModel<T>, key: u64)
    requires
        m.wf(),
    ensures
        m.types.contains_key(key) && m.slots[m.types[key] as int].item is Some
            ==> m.lookup(key) == Ok::<u32, LookupError>(m.types[key]),
        !m.types.contains_key(key) ==> m.lookup(key) == Err::<u32, LookupError>(LookupError::NotProvided),
        m.types.contains_key(key) && m.slots[m.types[key] as int].item is None
            ==> m.lookup(key) == Err::<u32, LookupError>(LookupError::NoValue),
{
}

/// While a provider walks its subtree, a view below it finds the provided value
/// in the provider's slot, also when other providers of the same type are around.
pub proof fn law_lookup_finds_provider<T>(m: EnvModel<T>, key: u64, item: EnvironmentItem<T>)
    requires
        m.wf(),
        m.can_provide(key),
        item.value_type == key,
    ensures
        ({
            let (m1, i, sh) = m.provide_start(key, item);
            &&& m1.lookup(key) == Ok::<u32, LookupError>(i)
            &&& m1.slots[i as int].item == Some(item)
        }),
{
    let (m1, i, sh) = m.provide_start(key, item);
    if !m.types.contains_key(key) && m.free.len() > 0 {
        let last = m.free.len() - 1;
        assert(m.free[last] == i);
    }
    assert(m1.types.contains_key(key));
}

/// A type's slot: one it has already is kept, otherwise the last free slot is
/// taken, otherwise a new slot is added at the end. Asking again gives the same
/// slot and changes nothing, and the slot belongs to the type alone.
pub proof fn law_slot_for_type<T>(m: EnvModel<T>, key: u64, other: u64)
    requires
        m.wf(),
        m.can_get_slot(key),
    ensures
        m.types.contains_key(key) ==> m.slot_for_type(key) == m.types[key] && m.with_slot(key) == m,
        !m.types.contains_key(key) && m.free.len() > 0 ==> {
            &&& m.slot_for_type(key) == m.free[m.free.len() - 1]
            &&& m.with_slot(key).free.len() == m.free.len() - 1
            &&& m.with_slot(key).slots == m.slots
        },
        !m.types.contains_key(key) && m.free.len() == 0 ==> {
            &&& m.slot_for_type(key) == m.slots.len()
            &&& m.with_slot(key).slots.len() == m.slots.len() + 1
            &&& m.with_slot(key).slots[m.slots.len() as int].item is None
            &&& m.with_slot(key).slots[m.slots.len() as int].ref_count == 0
        },
        m.with_slot(key).types.contains_key(key),
        m.with_slot(key).types[key] == m.slot_for_type(key),
        m.slot_for_type(key) < m.with_slot(key).slots.len(),
        m.with_slot(key).with_slot(key) == m.with_slot(key),
        m.with_slot(key).slot_for_type(key) == m.slot_for_type(key),
        other != key && m.types.contains_key(other) ==> m.types[other] != m.slot_for_type(key)
            && m.with_slot(key).types[other] == m.types[other],
        forall|j: int| 0 <= j < m.with_slot(key).free.len() ==> #[trigger] m.with_slot(key).free[j] != m.slot_for_type(key),
{
    let n = m.free.len();
    if !m.types.contains_key(key) && n > 0 {
        assert(m.free[n - 1] == m.free.last());
        assert forall|j: int| 0 <= j < m.with_slot(key).free.len() implies #[trigger] m.with_slot(key).free[j] != m.slot_for_type(key) by {
            assert(m.with_slot(key).free[j] == m.free[j]);
        }
    }
    if other != key && m.types.contains_key(other) && !m.types.contains_key(key) && n > 0 {
        assert(m.free[n - 1] != m.types[other]);
    }
    assert(m.with_slot(key).types.insert(key, m.slot_for_type(key)) =~= m.with_slot(key).types);
}

/// When the path is not listed and a listener slot is free, registering fills
/// the first free slot: the list keeps its length, and every slot before the
/// reported one is taken.
pub proof fn law_register_fills_first_free(s: Seq<Option<Seq<u64>>>, path: Seq<u64>, j: int)
    requires
        !is_listed(s, path),
        0 <= j < s.len(),
        s[j] is None,
    ensures
        register_spec(s, path).0.len() == s.len(),
        register_spec(s, path).1 matches Some(i) && 0 <= i <= j && s[i] is None
            && (forall|k: int| 0 <= k < i ==> s[k] is Some),
{
    lemma_first_free_exists(s);
}

/// When the path is not listed and no listener slot is free, registering adds it
/// at the end and reports the new slot.
pub proof fn law_register_appends_when_full(s: Seq<Option<Seq<u64>>>, path: Seq<u64>)
    requires
        !is_listed(s, path),
        forall|k: int| 0 <= k < s.len() ==> s[k] is Some,
    ensures
        register_spec(s, path).0 == s.push(Some(path)),
        register_spec(s, path).1 == Some(s.len() as int),
{
}

/// A button answers a message that is not its toggle as stale; it answers its
/// toggle with nothing when it is checked, and with a rebuild request when not.
pub proof fn law_answer<Value: PartialEq>(toggled: bool, selected: Value, value: Value)
    ensures
        !toggled ==> answer(toggled, selected, value) is Stale,
        toggled && selected.eq_spec(&value) ==> answer(toggled, selected, value) is Nop,
        toggled && !selected.eq_spec(&value) ==> answer(toggled, selected, value) is RequestRebuild,
        checked_by(selected, value) == selected.eq_spec(&value),
{
}

/// Exchanging with slot `i` puts `this` into the slot and gives back what was
/// there; the slot's count, the other slots, the free list and the type map
/// stay as they are.
pub proof fn law_exchange_swaps<T>(m: EnvModel<T>, i: u32, this: Option<EnvironmentItem<T>>)
    requires
        i < m.slots.len(),
    ensures
        ({
            let (m1, out) = m.exchange(i, this);
            &&& out == m.slots[i as int].item
            &&& m1.slots[i as int].item == this
            &&& m1.slots[i as int].ref_count == m.slots[i as int].ref_count
            &&& m1.slots.len() == m.slots.len()
            &&& forall|j: int| 0 <= j < m.slots.len() && j != i ==> #[trigger] m1.slots[j] == m.slots[j]
            &&& m1.free == m.free
            &&& m1.types == m.types
        }),
{
}

/// A view that listens to the value in slot `i` is listed among the value's
/// listeners afterwards, at the slot it was told; the value itself, the slot's
/// count, the other slots, the free list and the type map stay as they are; and
/// listening again with the same path changes nothing and reports no slot.
pub proof fn law_listen_lists_path<T>(m: EnvModel<T>, after: EnvModel<T>, i: u32, path: Seq<u64>, index: Option<usize>)
    requires
        i < m.slots.len(),
        m.slots[i as int].item is Some,
        m.listened(after, i, path, index),
    ensures
        ({
            let before_it = m.slots[i as int].item->Some_0;
            let it = after.slots[i as int].item->Some_0;
            &&& after.slots[i as int].item is Some
            &&& is_listed(it.change_listeners@, path)
            &&& it.value == before_it.value
            &&& it.value_type == before_it.value_type
            &&& after.slots[i as int].ref_count == m.slots[i as int].ref_count
            &&& forall|j: int| 0 <= j < m.slots.len() && j != i ==> #[trigger] after.slots[j] == m.slots[j]
            &&& after.free == m.free
            &&& after.types == m.types
            &&& (index matches Some(k) ==> 0 <= k < it.change_listeners@.len() && it.change_listeners@[k as int] == Some(path))
            &&& (is_listed(before_it.change_listeners@, path) ==> index is None && it.change_listeners@ == before_it.change_listeners@)
            &&& (!is_listed(before_it.change_listeners@, path) ==> index is Some)
        }),
{
    let before_it = m.slots[i as int].item->Some_0;
    law_registered_path_is_listed(before_it.change_listeners@, path);
    law_reported_slot_holds_path(before_it.change_listeners@, path);
    if !is_listed(before_it.change_listeners@, path) && crate::listeners::has_free(before_it.change_listeners@) {
        lemma_first_free_exists(before_it.change_listeners@);
    }
}

/// The clones of a value compare equal to it.
pub open spec fn clones_compare_equal<Value: PartialEq + Clone>() -> bool {
    forall|a: Value, b: Value| #[trigger] cloned(a, b) ==> b.eq_spec(&a)
}

/// For a value type whose `==` is equality, a button is checked exactly when the
/// selected value is its value.
pub proof fn law_checked_iff_selected<Value: PartialEq>(selected: Value, value: Value)
    requires
        obeys_concrete_eq::<Value>(),
    ensures
        checked_by(selected, value) <==> selected == value,
{
    reveal(obeys_concrete_eq);
}

/// For a value type whose `==` is symmetric and transitive, two buttons that are
/// both checked stand for values that compare equal: selecting one button
/// unchecks every button whose value differs from it. Where `==` is equality
/// the two values are the same.
pub proof fn law_at_most_one_checked<Value: PartialEq>(selected: Value, v1: Value, v2: Value)
    requires
        obeys_eq_spec_properties::<Value>(),
        checked_by(selected, v1),
        checked_by(selected, v2),
    ensures
        v1.eq_spec(&v2),
        obeys_concrete_eq::<Value>() ==> v1 == v2,
{
    reveal(obeys_eq_spec_properties);
    reveal(obeys_concrete_eq);
    assert(v1.eq_spec(&selected));
}

/// Toggling an unchecked button selects its value: for a value type whose clones
/// compare equal to the original, the button is checked afterwards, and toggling
/// it again does nothing.
pub proof fn law_toggle_selects<Value: PartialEq + Clone>(value: Value, before: Value, after: Value)
    requires
        clones_compare_equal::<Value>(),
        answer(true, before, value) is RequestRebuild,
        cloned(value, after),
    ensures
        checked_by(after, value),
        answer(true, after, value) is Nop,
{
}

} // verus!
