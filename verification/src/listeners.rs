//! The list of view paths that listen to a provided value.

use vstd::prelude::*;

verus! {

/// A view path: the ids of the views from the root down to one view.
pub type ViewPath = Vec<u64>;

/// The slots of change listeners of one provided value. A slot holds the path of a
/// listening view, or nothing when it is free for reuse.
pub struct ChangeListeners {
    pub entries: Vec<Option<ViewPath>>,
}

/// The abstract content of one listener slot.
pub open spec fn entry_view(e: Option<ViewPath>) -> Option<Seq<u64>> {
    match e {
        Some(p) => Some(p@),
        None => None,
    }
}

impl View for ChangeListeners {
    type V = Seq<Option<Seq<u64>>>;

    open spec fn view(&self) -> Seq<Option<Seq<u64>>> {
        self.entries@.map_values(|e: Option<ViewPath>| entry_view(e))
    }
}

/// `i` is the first free slot of `s`.
pub open spec fn is_first_free(s: Seq<Option<Seq<u64>>>, i: int) -> bool {
    &&& 0 <= i < s.len()
    &&& s[i] is None
    &&& forall|j: int| 0 <= j < i ==> s[j] is Some
}

/// `s` has a free slot.
pub open spec fn has_free(s: Seq<Option<Seq<u64>>>) -> bool {
    exists|i: int| 0 <= i < s.len() && s[i] is None
}

/// `path` is listed in `s`.
pub open spec fn is_listed(s: Seq<Option<Seq<u64>>>, path: Seq<u64>) -> bool {
    s.contains(Some(path))
}

/// What registering `path` makes of the listener list `s`, and the slot index it
/// reports: nothing changes when the path is listed already; otherwise the path
/// goes to the first free slot, or to a new slot at the end when none is free.
pub open spec fn register_spec(s: Seq<Option<Seq<u64>>>, path: Seq<u64>) -> (Seq<Option<Seq<u64>>>, Option<int>) {
    if is_listed(s, path) {
        (s, None)
    } else if has_free(s) {
        let i = choose|i: int| is_first_free(s, i);
        (s.update(i, Some(path)), Some(i))
    } else {
        (s.push(Some(path)), Some(s.len() as int))
    }
}

/// A free slot has a first one.
pub proof fn lemma_first_free_exists(s: Seq<Option<Seq<u64>>>)
    requires
        has_free(s),
    ensures
        exists|i: int| is_first_free(s, i),
    decreases s.len(),
{
    let k = choose|k: int| 0 <= k < s.len() && s[k] is None;
    if forall|j: int| 0 <= j < k ==> s[j] is Some {
        assert(is_first_free(s, k));
    } else {
        let t = s.take(k);
        assert(has_free(t)) by {
            let j = choose|j: int| 0 <= j < k && !(s[j] is Some);
            assert(t[j] is None);
        }
        lemma_first_free_exists(t);
        let i = choose|i: int| is_first_free(t, i);
        assert(s[i] == t[i]);
        assert forall|j: int| 0 <= j < i implies s[j] is Some by {
            assert(t[j] == s[j]);
        }
        assert(is_first_free(s, i));
    }
}

/// The first free slot is unique.
pub proof fn lemma_first_free_unique(s: Seq<Option<Seq<u64>>>, i: int, j: int)
    requires
        is_first_free(s, i),
        is_first_free(s, j),
    ensures
        i == j,
{
}

impl ChangeListeners {
    /// An empty listener list.
    pub fn new() -> (r: Self)
        ensures
            r@ == Seq::<Option<Seq<u64>>>::empty(),
    {
        ChangeListeners { entries: Vec::new() }
    }

    /// The number of slots, free or not.
    pub fn len(&self) -> (r: usize)
        ensures
            r == self@.len(),
    {
        self.entries.len()
    }

    /// Records `path` as a listener, unless it is listed already, and reports the
    /// slot it was written to.
    pub fn register(&mut self, path: ViewPath) -> (r: Option<usize>)
        ensures
            ({
                let (s, i) = register_spec(old(self)@, path@);
                &&& final(self)@ == s
                &&& match r {
                    Some(k) => i == Some(k as int),
                    None => i is None,
                }
            }),
    {
        broadcast use vstd::std_specs::vec::group_vec_axioms;
        let ghost s0 = self@;
        let n = self.entries.len();
        let mut first_free: Option<usize> = None;
        let mut needs_storing = true;
        let mut idx: usize = 0;
        while idx < n && needs_storing
            invariant
                n == self.entries.len(),
                self@ == s0,
                idx <= n,
                needs_storing ==> forall|j: int| 0 <= j < idx ==> s0[j] != Some(path@),
                !needs_storing ==> is_listed(s0, path@),
                needs_storing ==> match first_free {
                    Some(f) => is_first_free(s0, f as int) && f < idx,
                    None => forall|j: int| 0 <= j < idx ==> s0[j] is Some,
                },
            decreases n - idx,
        {
            match &self.entries[idx] {
                Some(item) => {
                    if paths_equal(item, &path) {
                        assert(s0[idx as int] == Some(path@));
                        needs_storing = false;
                    }
                },
                None => {
                    if first_free.is_none() {
                        first_free = Some(idx);
                    }
                },
            }
            idx = idx + 1;
        }
        if needs_storing {
            assert(!is_listed(s0, path@)) by {
                if is_listed(s0, path@) {
                    let j = choose|j: int| 0 <= j < s0.len() && s0[j] == Some(path@);
                }
            }
            match first_free {
                Some(f) => {
                    proof {
                        lemma_first_free_exists(s0);
                        let i = choose|i: int| is_first_free(s0, i);
                        lemma_first_free_unique(s0, i, f as int);
                    }
                    self.entries.set(f, Some(path));
                    assert(self@ =~= s0.update(f as int, Some(path@)));
                    Some(f)
                },
                None => {
                    assert(!has_free(s0));
                    self.entries.push(Some(path));
                    assert(self@ =~= s0.push(Some(path@)));
                    Some(n)
                },
            }
        } else {
            None
        }
    }
}

/// Compares two view paths id by id.
pub fn paths_equal(a: &ViewPath, b: &ViewPath) -> (r: bool)
    ensures
        r == (a@ == b@),
{
    if a.len() != b.len() {
        return false;
    }
    let mut i: usize = 0;
    while i < a.len()
        invariant
            a.len() == b.len(),
            i <= a.len(),
            forall|j: int| 0 <= j < i ==> a@[j] == b@[j],
        decreases a.len() - i,
    {
        if a[i] != b[i] {
            return false;
        }
        i = i + 1;
    }
    assert(a@ =~= b@);
    true
}

} // verus!
