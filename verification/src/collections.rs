//! Ordered collections keyed by text: a set of field names, and counts per group.
use vstd::prelude::*;

use crate::order::{compare_list, compare_text, Rel};
use crate::order::{list_lt, list_lt_asymmetric, list_lt_transitive};
use crate::order::{text_lt, text_lt_asymmetric, text_lt_transitive};
use crate::text::{copy_strings, views};

verus! {

// ── Sets of names ────────────────────────────────────────────────────────────

/// Whether the texts stand in strictly ascending order.
pub open spec fn ascending(s: Seq<Seq<char>>) -> bool {
    forall|a: int, b: int| 0 <= a < b < s.len() ==> text_lt(#[trigger] s[a], #[trigger] s[b])
}

/// There is at most one ascending list of a set.
pub proof fn ascending_is_unique(a: Seq<Seq<char>>, b: Seq<Seq<char>>)
    requires
        ascending(a),
        ascending(b),
        a.to_set() == b.to_set(),
    ensures
        a == b,
{
    lemma_ascending_front(a, b, a.len() as int);
    lemma_ascending_front(b, a, b.len() as int);
    assert(a =~= b);
}

proof fn lemma_ascending_front(a: Seq<Seq<char>>, b: Seq<Seq<char>>, k: int)
    requires
        ascending(a),
        ascending(b),
        a.to_set() == b.to_set(),
        0 <= k <= a.len(),
    ensures
        k <= b.len(),
        forall|i: int| 0 <= i < k ==> a[i] == b[i],
    decreases k,
{
    if k > 0 {
        lemma_ascending_front(a, b, k - 1);
        let x = a[k - 1];
        assert(a.to_set().contains(x));
        assert(b.contains(x));
        let i = choose|i: int| 0 <= i < b.len() && b[i] == x;
        if i < k - 1 {
            text_lt_asymmetric(a[i], a[k - 1]);
        } else if i > k - 1 {
            let y = b[k - 1];
            assert(b.to_set().contains(y));
            assert(a.contains(y));
            let j = choose|j: int| 0 <= j < a.len() && a[j] == y;
            text_lt_asymmetric(y, x);
            if j < k - 1 {
                text_lt_asymmetric(b[j], b[k - 1]);
            }
        }
    }
}

/// The members of a set in ascending order.
pub open spec fn ascending_list(s: Set<Seq<char>>) -> Seq<Seq<char>> {
    choose|l: Seq<Seq<char>>| ascending(l) && #[trigger] l.to_set() == s
}

/// A set of field names, held in ascending order.
pub struct FieldSet {
    pub items: Vec<String>,
}

impl View for FieldSet {
    type V = Set<Seq<char>>;

    open spec fn view(&self) -> Set<Seq<char>> {
        views(self.items@).to_set()
    }
}

impl FieldSet {
    /// The names stand in ascending order, so each stands once.
    pub open spec fn wf(&self) -> bool {
        ascending(views(self.items@))
    }

    /// The names are the set's members in ascending order.
    pub proof fn items_in_order(&self)
        requires
            self.wf(),
        ensures
            views(self.items@) == ascending_list(self@),
    {
        let v = views(self.items@);
        assert(ascending(v) && v.to_set() == self@);
        ascending_is_unique(v, ascending_list(self@));
    }

    /// The empty set.
    pub fn new() -> (r: FieldSet)
        ensures
            r.wf(),
            r@ == Set::<Seq<char>>::empty(),
    {
        let r = FieldSet { items: Vec::new() };
        assert(r@ =~= Set::<Seq<char>>::empty());
        r
    }

    /// Where `name` stands, or where it would be inserted.
    fn position(&self, name: &str) -> (r: (bool, usize))
        requires
            self.wf(),
        ensures
            r.1 <= self.items@.len(),
            forall|a: int| 0 <= a < r.1 ==> text_lt(#[trigger] views(self.items@)[a], name@),
            r.0 ==> r.1 < self.items@.len() && views(self.items@)[r.1 as int] == name@,
            !r.0 ==> forall|a: int|
                r.1 <= a < self.items@.len() ==> text_lt(name@, #[trigger] views(self.items@)[a]),
    {
        let ghost v = views(self.items@);
        let mut lo: usize = 0;
        let mut hi: usize = self.items.len();
        while lo < hi
            invariant
                lo <= hi <= self.items@.len(),
                v == views(self.items@),
                ascending(v),
                forall|a: int| 0 <= a < lo ==> text_lt(#[trigger] v[a], name@),
                forall|a: int| hi <= a < v.len() ==> text_lt(name@, #[trigger] v[a]),
            decreases hi - lo,
        {
            let mid: usize = lo + (hi - lo) / 2;
            match compare_text(self.items[mid].as_str(), name) {
                Rel::Less => {
                    assert forall|a: int| 0 <= a < mid + 1 implies text_lt(
                        #[trigger] v[a],
                        name@,
                    ) by {
                        if a < mid {
                            text_lt_transitive(v[a], v[mid as int], name@);
                        }
                    }
                    lo = mid + 1;
                },
                Rel::Greater => {
                    assert forall|a: int| mid <= a < v.len() implies text_lt(
                        name@,
                        #[trigger] v[a],
                    ) by {
                        if a > mid {
                            text_lt_transitive(name@, v[mid as int], v[a]);
                        }
                    }
                    hi = mid;
                },
                Rel::Same => {
                    assert(v[mid as int] == name@);
                    return (true, mid);
                },
            }
        }
        (false, lo)
    }

    /// Whether `name` is in the set.
    pub fn contains(&self, name: &str) -> (r: bool)
        requires
            self.wf(),
        ensures
            r == self@.contains(name@),
    {
        let (found, at) = self.position(name);
        proof {
            let v = views(self.items@);
            if !found && v.contains(name@) {
                let a = choose|a: int| 0 <= a < v.len() && v[a] == name@;
                text_lt_asymmetric(v[a], name@);
            }
        }
        found
    }

    /// Adds `name` to the set.
    pub fn insert(&mut self, name: &str)
        requires
            old(self).wf(),
        ensures
            final(self).wf(),
            final(self)@ == old(self)@.insert(name@),
    {
        let (found, at) = self.position(name);
        let ghost before = views(self.items@);
        if !found {
            self.items.insert(at, name.to_owned());
            proof {
                let after = views(self.items@);
                assert(after =~= before.insert(at as int, name@));
                assert forall|a: int, b: int| 0 <= a < b < after.len() implies text_lt(
                    #[trigger] after[a],
                    #[trigger] after[b],
                ) by {
                    if a == at {
                        assert(after[b] == before[b - 1]);
                    } else if b == at {
                        assert(after[a] == before[a]);
                    } else {
                        assert(after[a] == before[if a < at { a } else { a - 1 }]);
                        assert(after[b] == before[if b < at { b } else { b - 1 }]);
                    }
                }
                assert forall|x: Seq<char>| after.to_set().contains(x) <==> before.to_set().insert(
                    name@,
                ).contains(x) by {
                    if after.contains(x) {
                        let a = choose|a: int| 0 <= a < after.len() && after[a] == x;
                        if a < at {
                            assert(before[a] == x);
                        } else if a > at {
                            assert(before[a - 1] == x);
                        }
                    }
                    if before.contains(x) {
                        let a = choose|a: int| 0 <= a < before.len() && before[a] == x;
                        if a < at {
                            assert(after[a] == x);
                        } else {
                            assert(after[a + 1] == x);
                        }
                    }
                    assert(after[at as int] == name@);
                }
                assert(self@ =~= old(self)@.insert(name@));
            }
        } else {
            proof {
                assert(before.contains(name@));
                assert(self@ =~= old(self)@.insert(name@));
            }
        }
    }
}

/// Adds every name of a list to a set.
pub fn insert_all(set: &mut FieldSet, names: &Vec<String>)
    requires
        old(set).wf(),
    ensures
        final(set).wf(),
        final(set)@ == old(set)@.union(views(names@).to_set()),
{
    let ghost before = set@;
    let ghost nv = views(names@);
    let mut i: usize = 0;
    assert(before.union(nv.take(0).to_set()) =~= before);
    while i < names.len()
        invariant
            i <= names@.len(),
            nv == views(names@),
            set.wf(),
            set@ == before.union(nv.take(i as int).to_set()),
        decreases names@.len() - i,
    {
        set.insert(names[i].as_str());
        i = i + 1;
        proof {
            let t = nv.take(i as int);
            let u = nv.take(i - 1);
            assert forall|x: Seq<char>| t.to_set().contains(x) <==> u.to_set().insert(
                nv[i - 1],
            ).contains(x) by {
                if t.contains(x) {
                    let k = choose|k: int| 0 <= k < t.len() && t[k] == x;
                    if k < i - 1 {
                        assert(u[k] == x);
                    }
                }
                if u.contains(x) {
                    let k = choose|k: int| 0 <= k < u.len() && u[k] == x;
                    assert(t[k] == x);
                }
                assert(t[i - 1] == nv[i - 1]);
            }
            assert(set@ =~= before.union(t.to_set()));
        }
    }
    assert(nv.take(i as int) =~= nv);
}

// ── Counts per group ─────────────────────────────────────────────────────────

/// The texts of a list of keys.
pub open spec fn key_texts(v: Seq<Vec<String>>) -> Seq<Seq<Seq<char>>> {
    v.map_values(|k: Vec<String>| views(k@))
}

/// Whether the keys stand in strictly ascending order.
pub open spec fn ascending_keys(s: Seq<Seq<Seq<char>>>) -> bool {
    forall|a: int, b: int| 0 <= a < b < s.len() ==> list_lt(#[trigger] s[a], #[trigger] s[b])
}

/// Counts per group, in ascending order of the groups. A group is a list of
/// field values.
pub struct GroupCounts {
    pub keys: Vec<Vec<String>>,
    pub counts: Vec<u64>,
}

impl View for GroupCounts {
    type V = Map<Seq<Seq<char>>, u64>;

    open spec fn view(&self) -> Map<Seq<Seq<char>>, u64> {
        let k = key_texts(self.keys@);
        Map::new(|g: Seq<Seq<char>>| k.contains(g), |g: Seq<Seq<char>>| self.counts@[k.index_of(g)])
    }
}

impl GroupCounts {
    /// One count per key, and the keys in ascending order.
    pub open spec fn wf(&self) -> bool {
        &&& self.keys@.len() == self.counts@.len()
        &&& ascending_keys(key_texts(self.keys@))
    }

    /// The count of a group; zero for a group that was never counted.
    pub open spec fn count_of(&self, g: Seq<Seq<char>>) -> int {
        if self@.dom().contains(g) {
            self@[g] as int
        } else {
            0
        }
    }

    /// No groups.
    pub fn new() -> (r: GroupCounts)
        ensures
            r.wf(),
            r@ == Map::<Seq<Seq<char>>, u64>::empty(),
            r.keys@.len() == 0,
    {
        let r = GroupCounts { keys: Vec::new(), counts: Vec::new() };
        assert(r@ =~= Map::<Seq<Seq<char>>, u64>::empty());
        r
    }

    /// The number of groups.
    pub fn len(&self) -> (r: usize)
        ensures
            r == self.keys@.len(),
    {
        self.keys.len()
    }

    proof fn lemma_distinct(&self, a: int, b: int)
        requires
            self.wf(),
            0 <= a < self.keys@.len(),
            0 <= b < self.keys@.len(),
            key_texts(self.keys@)[a] == key_texts(self.keys@)[b],
        ensures
            a == b,
    {
        let k = key_texts(self.keys@);
        if a < b {
            list_lt_asymmetric(k[a], k[b]);
        } else if b < a {
            list_lt_asymmetric(k[b], k[a]);
        }
    }

    /// A group stands at one position only.
    pub proof fn positions_are_unique(&self, a: int)
        requires
            self.wf(),
            0 <= a < self.keys@.len(),
        ensures
            key_texts(self.keys@).index_of(key_texts(self.keys@)[a]) == a,
    {
        let k = key_texts(self.keys@);
        assert(k.contains(k[a]));
        self.lemma_distinct(a, k.index_of(k[a]));
    }

    /// The entry at position `a` is what the map holds for its key.
    pub proof fn entry_at(&self, a: int)
        requires
            self.wf(),
            0 <= a < self.keys@.len(),
        ensures
            self@.dom().contains(key_texts(self.keys@)[a]),
            self@[key_texts(self.keys@)[a]] == self.counts@[a],
    {
        let k = key_texts(self.keys@);
        assert(k.contains(k[a]));
        self.lemma_distinct(a, k.index_of(k[a]));
    }

    /// Where the group stands, or where it would be inserted.
    fn position(&self, key: &Vec<String>) -> (r: (bool, usize))
        requires
            self.wf(),
        ensures
            r.1 <= self.keys@.len(),
            forall|a: int| 0 <= a < r.1 ==> list_lt(#[trigger] key_texts(self.keys@)[a], views(key@)),
            r.0 ==> r.1 < self.keys@.len() && key_texts(self.keys@)[r.1 as int] == views(key@),
            !r.0 ==> forall|a: int|
                r.1 <= a < self.keys@.len() ==> list_lt(
                    views(key@),
                    #[trigger] key_texts(self.keys@)[a],
                ),
    {
        let ghost v = key_texts(self.keys@);
        let ghost g = views(key@);
        let mut lo: usize = 0;
        let mut hi: usize = self.keys.len();
        while lo < hi
            invariant
                lo <= hi <= self.keys@.len(),
                v == key_texts(self.keys@),
                g == views(key@),
                ascending_keys(v),
                forall|a: int| 0 <= a < lo ==> list_lt(#[trigger] v[a], g),
                forall|a: int| hi <= a < v.len() ==> list_lt(g, #[trigger] v[a]),
            decreases hi - lo,
        {
            let mid: usize = lo + (hi - lo) / 2;
            match compare_list(&self.keys[mid], key) {
                Rel::Less => {
                    assert forall|a: int| 0 <= a < mid + 1 implies list_lt(#[trigger] v[a], g) by {
                        if a < mid {
                            list_lt_transitive(v[a], v[mid as int], g);
                        }
                    }
                    lo = mid + 1;
                },
                Rel::Greater => {
                    assert forall|a: int| mid <= a < v.len() implies list_lt(
                        g,
                        #[trigger] v[a],
                    ) by {
                        if a > mid {
                            list_lt_transitive(g, v[mid as int], v[a]);
                        }
                    }
                    hi = mid;
                },
                Rel::Same => {
                    assert(v[mid as int] == g);
                    return (true, mid);
                },
            }
        }
        (false, lo)
    }

    proof fn lemma_absent(&self, at: int, g: Seq<Seq<char>>)
        requires
            self.wf(),
            0 <= at <= self.keys@.len(),
            forall|a: int| 0 <= a < at ==> list_lt(#[trigger] key_texts(self.keys@)[a], g),
            forall|a: int|
                at <= a < self.keys@.len() ==> list_lt(g, #[trigger] key_texts(self.keys@)[a]),
        ensures
            !self@.dom().contains(g),
    {
        let k = key_texts(self.keys@);
        if k.contains(g) {
            let a = choose|a: int| 0 <= a < k.len() && k[a] == g;
            list_lt_asymmetric(k[a], g);
        }
    }

    /// The count of a group, if it was counted.
    pub fn get(&self, key: &Vec<String>) -> (r: Option<u64>)
        requires
            self.wf(),
        ensures
            match r {
                Some(c) => self@.dom().contains(views(key@)) && self@[views(key@)] == c,
                None => !self@.dom().contains(views(key@)),
            },
    {
        let (found, at) = self.position(key);
        if found {
            proof {
                self.entry_at(at as int);
            }
            Some(self.counts[at])
        } else {
            proof {
                self.lemma_absent(at as int, views(key@));
            }
            None
        }
    }

    /// Adds `count` to the count of a group.
    pub fn add_count(&mut self, key: &Vec<String>, count: u64)
        requires
            old(self).wf(),
            old(self).count_of(views(key@)) + count <= u64::MAX,
        ensures
            final(self).wf(),
            final(self)@ == old(self)@.insert(
                views(key@),
                (old(self).count_of(views(key@)) + count) as u64,
            ),
            1 <= final(self).keys@.len() <= old(self).keys@.len() + 1,
    {
        let before: u64 = match self.get(key) {
            Some(c) => c,
            None => 0,
        };
        self.set_count(key, before + count);
    }

    /// Sets the count of a group.
    pub fn set_count(&mut self, key: &Vec<String>, count: u64)
        requires
            old(self).wf(),
        ensures
            final(self).wf(),
            final(self)@ == old(self)@.insert(views(key@), count),
            1 <= final(self).keys@.len() <= old(self).keys@.len() + 1,
    {
        let ghost g = views(key@);
        let ghost old_k = key_texts(self.keys@);
        let ghost old_c = self.counts@;
        let (found, at) = self.position(key);
        if found {
            proof {
                self.entry_at(at as int);
            }
            self.counts.set(at, count);
            proof {
                let target = old(self)@.insert(g, count);
                assert(self.wf());
                assert forall|h: Seq<Seq<char>>| #[trigger]
                    target.dom().contains(h) <==> self@.dom().contains(h) by {}
                assert forall|h: Seq<Seq<char>>| self@.dom().contains(h) implies #[trigger] self@[h]
                    == target[h] by {
                    let a = old_k.index_of(h);
                    if a == at {
                        assert(h == g);
                    } else if h == g {
                        old(self).lemma_distinct(a, at as int);
                    }
                }
                assert(self@ =~= target);
            }
        } else {
            proof {
                self.lemma_absent(at as int, g);
            }
            self.keys.insert(at, copy_strings(key));
            self.counts.insert(at, count);
            proof {
                let k = key_texts(self.keys@);
                assert(k =~= old_k.insert(at as int, g));
                assert(self.counts@ =~= old_c.insert(at as int, count));
                assert forall|a: int, b: int| 0 <= a < b < k.len() implies list_lt(
                    #[trigger] k[a],
                    #[trigger] k[b],
                ) by {
                    if a == at {
                        assert(k[b] == old_k[b - 1]);
                    } else if b == at {
                        assert(k[a] == old_k[a]);
                    } else {
                        assert(k[a] == old_k[if a < at { a } else { a - 1 }]);
                        assert(k[b] == old_k[if b < at { b } else { b - 1 }]);
                    }
                }
                assert(self.wf());
                let target = old(self)@.insert(g, count);
                assert forall|h: Seq<Seq<char>>| #[trigger]
                    target.dom().contains(h) <==> self@.dom().contains(h) by {
                    if k.contains(h) {
                        let a = k.index_of(h);
                        if a < at {
                            assert(old_k[a] == h);
                        } else if a > at {
                            assert(old_k[a - 1] == h);
                        }
                    }
                    if old_k.contains(h) {
                        let a = old_k.index_of(h);
                        assert(k[if a < at { a } else { a + 1 }] == h);
                    }
                    assert(k[at as int] == g);
                }
                assert forall|h: Seq<Seq<char>>| self@.dom().contains(h) implies #[trigger] self@[h]
                    == target[h] by {
                    if h == g {
                        self.entry_at(at as int);
                    } else {
                        let a = old_k.index_of(h);
                        assert(old_k.contains(h));
                        old(self).entry_at(a);
                        let b = if a < at {
                            a
                        } else {
                            a + 1
                        };
                        assert(k[b] == h);
                        self.entry_at(b);
                    }
                }
                assert(self@ =~= target);
            }
        }
    }
}

} // verus!
