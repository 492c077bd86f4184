//! Orders: text by code point, lists of texts, and stable sorting by a key.
use vstd::prelude::*;

use crate::text::{to_chars, views};

verus! {

/// How one value stands to another.
#[derive(Clone, Copy, Debug, PartialEq, Eq, Structural)]
pub enum Rel {
    Less,
    Same,
    Greater,
}

// ── Texts ────────────────────────────────────────────────────────────────────

/// Text order: the first difference decides by code point; a proper prefix comes first.
pub open spec fn text_lt(a: Seq<char>, b: Seq<char>) -> bool
    decreases a.len(),
{
    if b.len() == 0 {
        false
    } else if a.len() == 0 {
        true
    } else if a[0] != b[0] {
        a[0] < b[0]
    } else {
        text_lt(a.skip(1), b.skip(1))
    }
}

/// Text order is total: of two different texts one comes first.
pub proof fn text_lt_total(a: Seq<char>, b: Seq<char>)
    ensures
        a == b || text_lt(a, b) || text_lt(b, a),
    decreases a.len(),
{
    if a.len() > 0 && b.len() > 0 && a[0] == b[0] {
        text_lt_total(a.skip(1), b.skip(1));
        if a.skip(1) == b.skip(1) {
            assert(a =~= seq![a[0]] + a.skip(1));
            assert(b =~= seq![b[0]] + b.skip(1));
        }
    } else if a.len() == 0 && b.len() == 0 {
        assert(a =~= b);
    }
}

/// Text order is strict: of two texts at most one comes before the other.
pub proof fn text_lt_asymmetric(a: Seq<char>, b: Seq<char>)
    ensures
        !(text_lt(a, b) && text_lt(b, a)),
    decreases a.len(),
{
    if a.len() > 0 && b.len() > 0 && a[0] == b[0] {
        text_lt_asymmetric(a.skip(1), b.skip(1));
    }
}

/// Text order is transitive.
pub proof fn text_lt_transitive(a: Seq<char>, b: Seq<char>, c: Seq<char>)
    requires
        text_lt(a, b),
        text_lt(b, c),
    ensures
        text_lt(a, c),
    decreases a.len(),
{
    if a.len() > 0 && b.len() > 0 && c.len() > 0 && a[0] == b[0] && b[0] == c[0] {
        text_lt_transitive(a.skip(1), b.skip(1), c.skip(1));
    }
}

/// How `a` stands to `b` in text order.
pub fn compare_text(a: &str, b: &str) -> (r: Rel)
    ensures
        r is Less <==> text_lt(a@, b@),
        r is Greater <==> text_lt(b@, a@),
        r is Same <==> a@ == b@,
{
    let x = to_chars(a);
    let y = to_chars(b);
    let n: usize = x.len();
    let m: usize = y.len();
    let mut i: usize = 0;
    proof {
        assert(a@.skip(0) =~= a@);
        assert(b@.skip(0) =~= b@);
        text_lt_asymmetric(a@, b@);
        text_lt_asymmetric(a@, a@);
        text_lt_total(a@, b@);
    }
    while i < n && i < m && x[i] == y[i]
        invariant
            x@ == a@,
            y@ == b@,
            n == x@.len(),
            m == y@.len(),
            i <= n,
            i <= m,
            text_lt(a@, b@) == text_lt(a@.skip(i as int), b@.skip(i as int)),
            text_lt(b@, a@) == text_lt(b@.skip(i as int), a@.skip(i as int)),
        decreases n - i,
    {
        assert(a@.skip(i as int).skip(1) =~= a@.skip(i + 1));
        assert(b@.skip(i as int).skip(1) =~= b@.skip(i + 1));
        i = i + 1;
    }
    if i == m {
        if i == n {
            Rel::Same
        } else {
            Rel::Greater
        }
    } else if i == n {
        Rel::Less
    } else if x[i] < y[i] {
        Rel::Less
    } else {
        Rel::Greater
    }
}

// ── Lists of texts ───────────────────────────────────────────────────────────

/// Order of lists of texts: the first difference decides; a proper prefix comes first.
pub open spec fn list_lt(a: Seq<Seq<char>>, b: Seq<Seq<char>>) -> bool
    decreases a.len(),
{
    if b.len() == 0 {
        false
    } else if a.len() == 0 {
        true
    } else if a[0] != b[0] {
        text_lt(a[0], b[0])
    } else {
        list_lt(a.skip(1), b.skip(1))
    }
}

/// The order of lists is total.
pub proof fn list_lt_total(a: Seq<Seq<char>>, b: Seq<Seq<char>>)
    ensures
        a == b || list_lt(a, b) || list_lt(b, a),
    decreases a.len(),
{
    if a.len() > 0 && b.len() > 0 {
        text_lt_total(a[0], b[0]);
        if a[0] == b[0] {
            list_lt_total(a.skip(1), b.skip(1));
            if a.skip(1) == b.skip(1) {
                assert(a =~= seq![a[0]] + a.skip(1));
                assert(b =~= seq![b[0]] + b.skip(1));
            }
        }
    } else if a.len() == 0 && b.len() == 0 {
        assert(a =~= b);
    }
}

/// The order of lists is strict.
pub proof fn list_lt_asymmetric(a: Seq<Seq<char>>, b: Seq<Seq<char>>)
    ensures
        !(list_lt(a, b) && list_lt(b, a)),
    decreases a.len(),
{
    if a.len() > 0 && b.len() > 0 {
        text_lt_asymmetric(a[0], b[0]);
        if a[0] == b[0] {
            list_lt_asymmetric(a.skip(1), b.skip(1));
        }
    }
}

/// The order of lists is transitive.
pub proof fn list_lt_transitive(a: Seq<Seq<char>>, b: Seq<Seq<char>>, c: Seq<Seq<char>>)
    requires
        list_lt(a, b),
        list_lt(b, c),
    ensures
        list_lt(a, c),
    decreases a.len(),
{
    if a.len() > 0 && b.len() > 0 && c.len() > 0 {
        if a[0] == b[0] && b[0] == c[0] {
            list_lt_transitive(a.skip(1), b.skip(1), c.skip(1));
        } else if a[0] != b[0] && b[0] != c[0] {
            text_lt_transitive(a[0], b[0], c[0]);
            text_lt_asymmetric(a[0], b[0]);
        }
    }
}

/// How `a` stands to `b` in the order of lists.
pub fn compare_list(a: &Vec<String>, b: &Vec<String>) -> (r: Rel)
    ensures
        r is Less <==> list_lt(views(a@), views(b@)),
        r is Greater <==> list_lt(views(b@), views(a@)),
        r is Same <==> views(a@) == views(b@),
{
    let n: usize = a.len();
    let m: usize = b.len();
    let ghost x = views(a@);
    let ghost y = views(b@);
    let mut i: usize = 0;
    proof {
        assert(x.skip(0) =~= x);
        assert(y.skip(0) =~= y);
        list_lt_asymmetric(x, y);
        list_lt_asymmetric(x, x);
        list_lt_total(x, y);
    }
    while i < n && i < m
        invariant
            x == views(a@),
            y == views(b@),
            n == a@.len(),
            m == b@.len(),
            i <= n,
            i <= m,
            !(list_lt(x, y) && list_lt(y, x)),
            !list_lt(x, x),
            list_lt(x, y) == list_lt(x.skip(i as int), y.skip(i as int)),
            list_lt(y, x) == list_lt(y.skip(i as int), x.skip(i as int)),
        decreases n - i,
    {
        let c = compare_text(a[i].as_str(), b[i].as_str());
        assert(x.skip(i as int)[0] == a@[i as int]@);
        assert(y.skip(i as int)[0] == b@[i as int]@);
        match c {
            Rel::Less => {
                return Rel::Less;
            },
            Rel::Greater => {
                return Rel::Greater;
            },
            Rel::Same => {
                assert(x.skip(i as int).skip(1) =~= x.skip(i + 1));
                assert(y.skip(i as int).skip(1) =~= y.skip(i + 1));
                i = i + 1;
            },
        }
    }
    if i == m {
        if i == n {
            Rel::Same
        } else {
            Rel::Greater
        }
    } else {
        Rel::Less
    }
}

// ── Stable sorting ───────────────────────────────────────────────────────────

/// What a row is sorted by: a number first, a text second.
pub struct SortKey {
    pub num: i128,
    pub text: String,
}

/// A sort key as a pair.
pub open spec fn key_view(k: SortKey) -> (int, Seq<char>) {
    (k.num as int, k.text@)
}

/// The sort keys as pairs.
pub open spec fn key_views(v: Seq<SortKey>) -> Seq<(int, Seq<char>)> {
    v.map_values(|k: SortKey| key_view(k))
}

/// Order of sort keys: by number, then by text.
pub open spec fn key_lt(a: (int, Seq<char>), b: (int, Seq<char>)) -> bool {
    a.0 < b.0 || (a.0 == b.0 && text_lt(a.1, b.1))
}

/// Whether row `i` comes before row `j` in a stable sort by key.
pub open spec fn row_before(keys: Seq<(int, Seq<char>)>, i: int, j: int) -> bool {
    key_lt(keys[i], keys[j]) || (keys[i] == keys[j] && i < j)
}

/// Whether `r` lists the rows `0..keys.len()`, each once, in the order of a
/// stable ascending sort by key. At most one list is that.
pub open spec fn is_stable_order(keys: Seq<(int, Seq<char>)>, r: Seq<int>) -> bool {
    &&& r.len() == keys.len()
    &&& forall|a: int| 0 <= a < r.len() ==> 0 <= #[trigger] r[a] < keys.len()
    &&& forall|a: int, b: int|
        0 <= a < b < r.len() ==> row_before(keys, #[trigger] r[a], #[trigger] r[b])
}

/// The order of a stable ascending sort by key.
pub open spec fn stable_order_of(keys: Seq<(int, Seq<char>)>) -> Seq<int> {
    choose|r: Seq<int>| is_stable_order(keys, r)
}

proof fn lemma_row_before_asymmetric(keys: Seq<(int, Seq<char>)>, i: int, j: int)
    ensures
        !(row_before(keys, i, j) && row_before(keys, j, i)),
{
    text_lt_asymmetric(keys[i].1, keys[j].1);
}

proof fn lemma_row_before_transitive(keys: Seq<(int, Seq<char>)>, i: int, j: int, k: int)
    requires
        row_before(keys, i, j),
        row_before(keys, j, k),
    ensures
        row_before(keys, i, k),
{
    if keys[i] != keys[j] && keys[j] != keys[k] && keys[i].0 == keys[j].0 && keys[j].0
        == keys[k].0 {
        text_lt_transitive(keys[i].1, keys[j].1, keys[k].1);
    }
}

proof fn lemma_row_before_total(keys: Seq<(int, Seq<char>)>, i: int, j: int)
    requires
        i != j,
    ensures
        row_before(keys, i, j) || row_before(keys, j, i),
{
    text_lt_total(keys[i].1, keys[j].1);
}

/// A stable order holds every row.
pub proof fn stable_order_holds_every_row(keys: Seq<(int, Seq<char>)>, r: Seq<int>, x: int)
    requires
        is_stable_order(keys, r),
        0 <= x < keys.len(),
    ensures
        exists|a: int| 0 <= a < r.len() && #[trigger] r[a] == x,
{
    let n = keys.len() as int;
    assert(r.no_duplicates()) by {
        assert forall|a: int, b: int| 0 <= a < r.len() && 0 <= b < r.len() && a != b implies r[a]
            != r[b] by {
            if a < b {
                assert(row_before(keys, r[a], r[b]));
                lemma_row_before_asymmetric(keys, r[a], r[b]);
            } else {
                assert(row_before(keys, r[b], r[a]));
                lemma_row_before_asymmetric(keys, r[b], r[a]);
            }
        }
    }
    r.unique_seq_to_set();
    vstd::set_lib::lemma_int_range(0, n);
    let range = vstd::set_lib::set_int_range(0, n);
    assert(r.to_set().subset_of(range)) by {
        assert forall|y: int| r.to_set().contains(y) implies range.contains(y) by {
            let a = choose|a: int| 0 <= a < r.len() && r[a] == y;
            assert(0 <= r[a] < n);
        }
    }
    vstd::set_lib::lemma_subset_equality(r.to_set(), range);
    assert(r.to_set().contains(x));
}

/// There is at most one stable order.
pub proof fn stable_order_unique(keys: Seq<(int, Seq<char>)>, r: Seq<int>, s: Seq<int>)
    requires
        is_stable_order(keys, r),
        is_stable_order(keys, s),
    ensures
        r == s,
{
    assert forall|a: int| 0 <= a < r.len() implies r[a] == s[a] by {
        lemma_same_prefix(keys, r, s, a + 1);
    }
    assert(r =~= s);
}

proof fn lemma_same_prefix(keys: Seq<(int, Seq<char>)>, r: Seq<int>, s: Seq<int>, k: int)
    requires
        is_stable_order(keys, r),
        is_stable_order(keys, s),
        0 <= k <= r.len(),
    ensures
        forall|a: int| 0 <= a < k ==> r[a] == s[a],
    decreases k,
{
    if k > 0 {
        lemma_same_prefix(keys, r, s, k - 1);
        let a = k - 1;
        if r[a] != s[a] {
            stable_order_holds_every_row(keys, s, r[a]);
            let b = choose|b: int| 0 <= b < s.len() && #[trigger] s[b] == r[a];
            if b < a {
                assert(row_before(keys, r[b], r[a]));
                lemma_row_before_asymmetric(keys, r[b], r[a]);
            }
            assert(row_before(keys, s[a], s[b]));
            stable_order_holds_every_row(keys, r, s[a]);
            let c = choose|c: int| 0 <= c < r.len() && #[trigger] r[c] == s[a];
            if c < a {
                assert(row_before(keys, s[c], s[a]));
                lemma_row_before_asymmetric(keys, s[c], s[a]);
            }
            assert(row_before(keys, r[a], r[c]));
            lemma_row_before_asymmetric(keys, s[a], r[a]);
        }
    }
}

/// The rows with `x` put in its place from behind.
spec fn placed(keys: Seq<(int, Seq<char>)>, r: Seq<int>, x: int) -> Seq<int>
    decreases r.len(),
{
    if r.len() == 0 || row_before(keys, r.last(), x) {
        r.push(x)
    } else {
        placed(keys, r.drop_last(), x).push(r.last())
    }
}

/// The first `n` rows, put in their places one after another.
spec fn all_placed(keys: Seq<(int, Seq<char>)>, n: int) -> Seq<int>
    decreases n,
{
    if n <= 0 {
        Seq::empty()
    } else {
        placed(keys, all_placed(keys, n - 1), n - 1)
    }
}

proof fn lemma_placed(keys: Seq<(int, Seq<char>)>, r: Seq<int>, x: int)
    requires
        forall|a: int| 0 <= a < r.len() ==> 0 <= #[trigger] r[a] < x,
        forall|a: int, b: int|
            0 <= a < b < r.len() ==> row_before(keys, #[trigger] r[a], #[trigger] r[b]),
    ensures
        placed(keys, r, x).len() == r.len() + 1,
        forall|a: int| 0 <= a < r.len() + 1 ==> 0 <= #[trigger] placed(keys, r, x)[a] <= x || x < 0,
        forall|a: int|
            0 <= a < r.len() + 1 ==> #[trigger] placed(keys, r, x)[a] == x || r.contains(
                placed(keys, r, x)[a],
            ),
        forall|a: int, b: int|
            0 <= a < b < r.len() + 1 ==> row_before(
                keys,
                #[trigger] placed(keys, r, x)[a],
                #[trigger] placed(keys, r, x)[b],
            ),
    decreases r.len(),
{
    let s = placed(keys, r, x);
    if r.len() == 0 || row_before(keys, r.last(), x) {
        assert forall|a: int, b: int| 0 <= a < b < s.len() implies row_before(
            keys,
            #[trigger] s[a],
            #[trigger] s[b],
        ) by {
            if b == r.len() && a < r.len() - 1 {
                assert(row_before(keys, r[a], r.last()));
                lemma_row_before_transitive(keys, r[a], r.last(), x);
            }
        }
        assert forall|a: int| 0 <= a < s.len() implies #[trigger] s[a] == x || r.contains(s[a]) by {
            if a < r.len() {
                assert(r[a] == s[a]);
            }
        }
    } else {
        let front = r.drop_last();
        let t = placed(keys, front, x);
        lemma_placed(keys, front, x);
        assert(s == t.push(r.last()));
        lemma_row_before_total(keys, r.last(), x);
        assert forall|a: int| 0 <= a < s.len() implies #[trigger] s[a] == x || r.contains(s[a]) by {
            if a < t.len() {
                assert(s[a] == t[a]);
                if t[a] != x {
                    let k = choose|k: int| 0 <= k < front.len() && front[k] == t[a];
                    assert(r[k] == s[a]);
                }
            } else {
                assert(r[r.len() - 1] == s[a]);
            }
        }
        assert forall|a: int, b: int| 0 <= a < b < s.len() implies row_before(
            keys,
            #[trigger] s[a],
            #[trigger] s[b],
        ) by {
            if b < t.len() {
                assert(row_before(keys, t[a], t[b]));
            } else {
                assert(s[a] == t[a]);
                if t[a] != x {
                    let k = choose|k: int| 0 <= k < front.len() && front[k] == t[a];
                    assert(row_before(keys, r[k], r[r.len() - 1]));
                }
            }
        }
    }
}

proof fn lemma_all_placed(keys: Seq<(int, Seq<char>)>, n: int)
    requires
        0 <= n,
    ensures
        all_placed(keys, n).len() == n,
        forall|a: int| 0 <= a < n ==> 0 <= #[trigger] all_placed(keys, n)[a] < n,
        forall|a: int, b: int|
            0 <= a < b < n ==> row_before(
                keys,
                #[trigger] all_placed(keys, n)[a],
                #[trigger] all_placed(keys, n)[b],
            ),
    decreases n,
{
    if n > 0 {
        lemma_all_placed(keys, n - 1);
        lemma_placed(keys, all_placed(keys, n - 1), n - 1);
    }
}

/// Every list of keys has a stable order.
pub proof fn stable_order_exists(keys: Seq<(int, Seq<char>)>)
    ensures
        is_stable_order(keys, stable_order_of(keys)),
{
    lemma_all_placed(keys, keys.len() as int);
    assert(is_stable_order(keys, all_placed(keys, keys.len() as int)));
}

/// A stable order holds no row twice.
pub proof fn stable_order_holds_rows_once(keys: Seq<(int, Seq<char>)>, r: Seq<int>, a: int, b: int)
    requires
        is_stable_order(keys, r),
        0 <= a < b < r.len(),
    ensures
        r[a] != r[b],
{
    assert(row_before(keys, r[a], r[b]));
    lemma_row_before_asymmetric(keys, r[a], r[b]);
}

fn key_less(a: &SortKey, b: &SortKey) -> (r: bool)
    ensures
        r == key_lt(key_view(*a), key_view(*b)),
{
    if a.num < b.num {
        true
    } else if a.num == b.num {
        match compare_text(a.text.as_str(), b.text.as_str()) {
            Rel::Less => true,
            _ => false,
        }
    } else {
        false
    }
}

/// Row numbers as integers.
pub open spec fn row_numbers(v: Seq<usize>) -> Seq<int> {
    v.map_values(|i: usize| i as int)
}

/// The rows in the order of a stable ascending sort by key.
pub fn stable_order(keys: &Vec<SortKey>) -> (r: Vec<usize>)
    ensures
        is_stable_order(key_views(keys@), row_numbers(r@)),
        row_numbers(r@) == stable_order_of(key_views(keys@)),
{
    let ghost kv = key_views(keys@);
    let n: usize = keys.len();
    let mut r: Vec<usize> = Vec::new();
    let mut i: usize = 0;
    while i < n
        invariant
            n == keys@.len(),
            kv == key_views(keys@),
            i <= n,
            r@.len() == i,
            forall|a: int| 0 <= a < r@.len() ==> 0 <= #[trigger] r@[a] < i,
            forall|a: int, b: int|
                0 <= a < b < r@.len() ==> row_before(
                    kv,
                    #[trigger] r@[a] as int,
                    #[trigger] r@[b] as int,
                ),
        decreases n - i,
    {
        let mut p: usize = i;
        while p > 0 && key_less(&keys[i], &keys[r[p - 1]])
            invariant
                n == keys@.len(),
                kv == key_views(keys@),
                p <= i < n,
                r@.len() == i,
                forall|a: int| 0 <= a < r@.len() ==> 0 <= #[trigger] r@[a] < i,
                forall|a: int| p <= a < i ==> row_before(kv, i as int, #[trigger] r@[a] as int),
            decreases p,
        {
            p = p - 1;
        }
        let ghost before = r@;
        r.insert(p, i);
        proof {
            assert(r@ =~= before.insert(p as int, i));
            if p > 0 {
                lemma_row_before_total(kv, before[p - 1] as int, i as int);
                text_lt_total(kv[i as int].1, kv[before[p - 1] as int].1);
                assert(row_before(kv, before[p - 1] as int, i as int));
            }
            assert forall|a: int, b: int| 0 <= a < b < r@.len() implies row_before(
                kv,
                #[trigger] r@[a] as int,
                #[trigger] r@[b] as int,
            ) by {
                let oa = if a < p {
                    a
                } else {
                    a - 1
                };
                let ob = if b < p {
                    b
                } else {
                    b - 1
                };
                if a == p {
                    assert(r@[b] == before[b - 1]);
                } else if b == p {
                    assert(r@[a] == before[a]);
                    if a < p - 1 {
                        lemma_row_before_transitive(
                            kv,
                            before[a] as int,
                            before[p - 1] as int,
                            i as int,
                        );
                    }
                } else {
                    assert(r@[a] == before[oa]);
                    assert(r@[b] == before[ob]);
                }
            }
            assert forall|a: int| 0 <= a < r@.len() implies 0 <= #[trigger] r@[a] < i + 1 by {
                if a < p {
                    assert(r@[a] == before[a]);
                } else if a > p {
                    assert(r@[a] == before[a - 1]);
                }
            }
        }
        i = i + 1;
    }
    proof {
        let ri = row_numbers(r@);
        assert(is_stable_order(kv, ri));
        stable_order_unique(kv, ri, stable_order_of(kv));
    }
    r
}

// ── Sorted texts ─────────────────────────────────────────────────────────────

/// The keys by which texts are sorted.
pub open spec fn text_keys(s: Seq<Seq<char>>) -> Seq<(int, Seq<char>)> {
    s.map_values(|t: Seq<char>| (0int, t))
}

/// The texts in ascending order.
pub open spec fn sorted_texts(s: Seq<Seq<char>>) -> Seq<Seq<char>> {
    stable_order_of(text_keys(s)).map_values(|i: int| s[i])
}

/// The texts in ascending order.
pub fn sort_texts(v: &Vec<String>) -> (r: Vec<String>)
    ensures
        views(r@) == sorted_texts(views(v@)),
        r@.len() == v@.len(),
{
    let ghost texts = views(v@);
    let mut keys: Vec<SortKey> = Vec::new();
    let n: usize = v.len();
    let mut i: usize = 0;
    while i < n
        invariant
            n == v@.len(),
            texts == views(v@),
            i <= n,
            keys@.len() == i,
            forall|k: int|
                0 <= k < i ==> (#[trigger] keys@[k]).num == 0 && keys@[k].text@ == texts[k],
        decreases n - i,
    {
        keys.push(SortKey { num: 0, text: v[i].clone() });
        i = i + 1;
    }
    let order = stable_order(&keys);
    let ghost kv = key_views(keys@);
    let ghost rn = row_numbers(order@);
    assert(kv =~= text_keys(texts));
    assert(rn.len() == order@.len());
    let mut r: Vec<String> = Vec::new();
    let mut i: usize = 0;
    while i < order.len()
        invariant
            texts == views(v@),
            rn == row_numbers(order@),
            is_stable_order(kv, rn),
            kv.len() == v@.len(),
            i <= order@.len(),
            r@.len() == i,
            forall|k: int| 0 <= k < i ==> (#[trigger] r@[k])@ == texts[rn[k]],
        decreases order@.len() - i,
    {
        assert(rn[i as int] == order@[i as int]);
        assert(0 <= rn[i as int] < kv.len());
        let at: usize = order[i];
        r.push(v[at].clone());
        i = i + 1;
    }
    assert(views(r@) =~= sorted_texts(texts));
    r
}

} // verus!
