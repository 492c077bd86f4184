//! Groups in the order in which they are shown: by count, largest first, then
//! by their values.
use vstd::prelude::*;

use crate::collections::{key_texts, GroupCounts};
use crate::order::{is_stable_order, key_views, list_lt, list_lt_asymmetric, row_before};
use crate::order::{row_numbers, stable_order};
use crate::order::{stable_order_holds_every_row, text_lt_asymmetric, SortKey};
use crate::render::{after_record, done, record_view, Record, RecordV, Renderer, RendererV, Val, ValV};
use crate::text::views;

verus! {

/// The values of a group.
pub type Group = Seq<Seq<char>>;

/// Whether `gs` lists every group of `m` once with its count, the largest count
/// first and groups of equal count in ascending order. At most one list is that.
pub open spec fn groups_in_order(gs: Seq<(Group, u64)>, m: Map<Group, u64>) -> bool {
    &&& forall|i: int|
        0 <= i < gs.len() ==> m.dom().contains((#[trigger] gs[i]).0) && m[gs[i].0] == gs[i].1
    &&& forall|g: Group| #[trigger]
        m.dom().contains(g) ==> exists|i: int| 0 <= i < gs.len() && (#[trigger] gs[i]).0 == g
    &&& forall|i: int, j: int|
        0 <= i < j < gs.len() ==> {
            ||| (#[trigger] gs[i]).1 > (#[trigger] gs[j]).1
            ||| gs[i].1 == gs[j].1 && list_lt(gs[i].0, gs[j].0)
        }
}

/// The groups of `m` in the order in which they are shown.
pub open spec fn ordered_groups(m: Map<Group, u64>) -> Seq<(Group, u64)> {
    choose|gs: Seq<(Group, u64)>| groups_in_order(gs, m)
}

/// The groups of `m` stand in at most one order.
pub proof fn order_is_unique(a: Seq<(Group, u64)>, b: Seq<(Group, u64)>, m: Map<Group, u64>)
    requires
        groups_in_order(a, m),
        groups_in_order(b, m),
    ensures
        a == b,
{
    lemma_same_front(a, b, m, a.len() as int);
    lemma_same_front(b, a, m, b.len() as int);
    assert(a =~= b);
}

proof fn lemma_same_front(a: Seq<(Group, u64)>, b: Seq<(Group, u64)>, m: Map<Group, u64>, k: int)
    requires
        groups_in_order(a, m),
        groups_in_order(b, m),
        0 <= k <= a.len(),
    ensures
        k <= b.len(),
        forall|i: int| 0 <= i < k ==> a[i] == b[i],
    decreases k,
{
    if k > 0 {
        lemma_same_front(a, b, m, k - 1);
        let x = a[k - 1];
        assert(m.dom().contains(x.0));
        let i = choose|i: int| 0 <= i < b.len() && (#[trigger] b[i]).0 == x.0;
        if i < k - 1 {
            assert(a[i] == b[i]);
            list_lt_asymmetric(a[i].0, a[k - 1].0);
        } else if i > k - 1 {
            let y = b[k - 1];
            assert(m.dom().contains(y.0));
            let j = choose|j: int| 0 <= j < a.len() && (#[trigger] a[j]).0 == y.0;
            list_lt_asymmetric(x.0, y.0);
            if j < k - 1 {
                assert(a[j] == b[j]);
                list_lt_asymmetric(b[j].0, b[k - 1].0);
            }
        }
    }
}

/// Groups have an order.
pub proof fn order_exists(acc: GroupCounts)
    requires
        acc.wf(),
    ensures
        groups_in_order(ordered_groups(acc@), acc@),
        ordered_groups(acc@).len() == acc.keys@.len(),
{
    let kv = count_keys(acc.counts@);
    crate::order::stable_order_exists(kv);
    let rn = crate::order::stable_order_of(kv);
    lemma_ordered(acc, kv, rn);
    let gs = rn.map_values(|i: int| (key_texts(acc.keys@)[i], acc.counts@[i]));
    order_is_unique(gs, ordered_groups(acc@), acc@);
}

/// The keys by which groups are put in order.
spec fn count_keys(counts: Seq<u64>) -> Seq<(int, Seq<char>)> {
    counts.map_values(|c: u64| (-(c as int), Seq::<char>::empty()))
}

proof fn lemma_ordered(acc: GroupCounts, kv: Seq<(int, Seq<char>)>, rn: Seq<int>)
    requires
        acc.wf(),
        kv == count_keys(acc.counts@),
        is_stable_order(kv, rn),
    ensures
        groups_in_order(
            rn.map_values(|i: int| (key_texts(acc.keys@)[i], acc.counts@[i])),
            acc@,
        ),
{
    let kt = key_texts(acc.keys@);
    let gs = rn.map_values(|i: int| (key_texts(acc.keys@)[i], acc.counts@[i]));
    assert forall|a: int| 0 <= a < gs.len() implies acc@.dom().contains((#[trigger] gs[a]).0)
        && acc@[gs[a].0] == gs[a].1 by {
        assert(0 <= rn[a] < kv.len());
        acc.entry_at(rn[a]);
    }
    assert forall|g: Group| #[trigger] acc@.dom().contains(g) implies exists|a: int|
        0 <= a < gs.len() && (#[trigger] gs[a]).0 == g by {
        let x = kt.index_of(g);
        assert(kt.contains(g));
        stable_order_holds_every_row(kv, rn, x);
        let a = choose|a: int| 0 <= a < rn.len() && #[trigger] rn[a] == x;
        assert(gs[a].0 == g);
    }
    assert forall|a: int, b: int| 0 <= a < b < gs.len() implies {
        ||| (#[trigger] gs[a]).1 > (#[trigger] gs[b]).1
        ||| gs[a].1 == gs[b].1 && list_lt(gs[a].0, gs[b].0)
    } by {
        assert(row_before(kv, rn[a], rn[b]));
        assert(0 <= rn[a] < kv.len());
        assert(0 <= rn[b] < kv.len());
        text_lt_asymmetric(Seq::empty(), Seq::empty());
        if gs[a].1 == gs[b].1 {
            assert(rn[a] < rn[b]);
            assert(list_lt(kt[rn[a]], kt[rn[b]]));
        }
    }
}

/// The groups that the rows `r` of `acc` are.
pub open spec fn groups_at(acc: GroupCounts, r: Seq<usize>) -> Seq<(Group, u64)> {
    r.map_values(|i: usize| (key_texts(acc.keys@)[i as int], acc.counts@[i as int]))
}

/// The rows of the groups, by count, largest first, then by their values.
pub fn groups_by_count(acc: &GroupCounts) -> (r: Vec<usize>)
    requires
        acc.wf(),
    ensures
        r@.len() == acc.keys@.len(),
        forall|i: int| 0 <= i < r@.len() ==> (#[trigger] r@[i]) < acc.keys@.len(),
        groups_in_order(groups_at(*acc, r@), acc@),
        groups_at(*acc, r@) == ordered_groups(acc@),
{
    let mut keys: Vec<SortKey> = Vec::new();
    let n: usize = acc.counts.len();
    let mut i: usize = 0;
    while i < n
        invariant
            n == acc.counts@.len(),
            i <= n,
            keys@.len() == i,
            forall|k: int|
                0 <= k < i ==> (#[trigger] keys@[k]).num == -(acc.counts@[k] as int)
                    && keys@[k].text@.len() == 0,
        decreases n - i,
    {
        keys.push(SortKey { num: -(acc.counts[i] as i128), text: String::new() });
        i = i + 1;
    }
    let r = stable_order(&keys);
    proof {
        let kv = key_views(keys@);
        let rn = row_numbers(r@);
        let gs = groups_at(*acc, r@);
        assert(kv =~= count_keys(acc.counts@)) by {
            assert forall|a: int| 0 <= a < kv.len() implies kv[a] == count_keys(acc.counts@)[a] by {
                assert(keys@[a].text@ =~= Seq::<char>::empty());
            }
        }
        lemma_ordered(*acc, kv, rn);
        assert(gs =~= rn.map_values(|i: int| (key_texts(acc.keys@)[i], acc.counts@[i])));
        assert forall|a: int| 0 <= a < r@.len() implies (#[trigger] r@[a]) < acc.keys@.len() by {
            assert(rn[a] == r@[a]);
            assert(0 <= rn[a] < kv.len());
        }
        order_is_unique(gs, ordered_groups(acc@), acc@);
    }
    r
}

/// The record of a group: its fields with their values, then its count.
pub open spec fn group_record(fields: Seq<Seq<char>>, g: Group, count: int) -> RecordV {
    let n = if fields.len() < g.len() {
        fields.len()
    } else {
        g.len()
    };
    Seq::new(n, |i: int| (fields[i], ValV::Str(g[i]))).push(("count"@, ValV::Int(count)))
}

/// The renderer after the first `n` groups.
pub open spec fn groups_after(
    s: RendererV,
    fields: Seq<Seq<char>>,
    gs: Seq<(Group, u64)>,
    n: int,
) -> RendererV
    decreases n,
{
    if n <= 0 {
        s
    } else {
        after_record(
            groups_after(s, fields, gs, n - 1),
            group_record(fields, gs[n - 1].0, gs[n - 1].1 as int),
        )
    }
}

/// Whether the renderer `t` is `s` after the groups of `m`, in order.
pub open spec fn shows_groups(
    s: RendererV,
    t: RendererV,
    fields: Seq<Seq<char>>,
    m: Map<Group, u64>,
) -> bool {
    exists|gs: Seq<(Group, u64)>|
        groups_in_order(gs, m) && t == #[trigger] groups_after(s, fields, gs, gs.len() as int)
}

proof fn lemma_done_stays(s: RendererV, fields: Seq<Seq<char>>, gs: Seq<(Group, u64)>, m: int, n: int)
    requires
        0 <= m <= n,
        done(groups_after(s, fields, gs, m)),
    ensures
        groups_after(s, fields, gs, n) == groups_after(s, fields, gs, m),
    decreases n - m,
{
    if m < n {
        lemma_done_stays(s, fields, gs, m, n - 1);
    }
}

fn record_of_group(fields: &Vec<String>, key: &Vec<String>, count: u64) -> (r: Record)
    requires
        count <= i64::MAX,
    ensures
        record_view(r@) == group_record(views(fields@), views(key@), count as int),
{
    let ghost target = group_record(views(fields@), views(key@), count as int);
    let mut rec: Record = Vec::new();
    let mut i: usize = 0;
    while i < fields.len() && i < key.len()
        invariant
            i <= fields@.len(),
            i <= key@.len(),
            rec@.len() == i,
            target == group_record(views(fields@), views(key@), count as int),
            forall|k: int| 0 <= k < i ==> ((#[trigger] rec@[k]).0@, rec@[k].1@) == target[k],
        decreases fields@.len() - i,
    {
        rec.push((fields[i].clone(), Val::Str(key[i].clone())));
        i = i + 1;
    }
    rec.push(("count".to_owned(), Val::Int(count as i64)));
    assert(record_view(rec@) =~= target);
    rec
}

/// Writes the groups in order, as far as the limit allows. The result is the
/// exit code: 0, or 1 when there are no groups.
pub fn emit_groups(acc: &GroupCounts, fields: &Vec<String>, renderer: &mut Renderer) -> (r: i32)
    requires
        acc.wf(),
        forall|i: int| 0 <= i < acc.counts@.len() ==> (#[trigger] acc.counts@[i]) <= i64::MAX,
        old(renderer).emitted + acc.keys@.len() <= usize::MAX,
    ensures
        acc.keys@.len() == 0 ==> r == 1 && final(renderer)@ == old(renderer)@,
        acc.keys@.len() > 0 ==> r == 0 && shows_groups(
            old(renderer)@,
            final(renderer)@,
            views(fields@),
            acc@,
        ),
{
    if acc.len() == 0 {
        return 1;
    }
    let order = groups_by_count(acc);
    let ghost gs = groups_at(*acc, order@);
    let ghost fv = views(fields@);
    let n: usize = order.len();
    let mut i: usize = 0;
    while i < n
        invariant
            n == order@.len(),
            n == acc.keys@.len(),
            acc.wf(),
            forall|k: int| 0 <= k < acc.counts@.len() ==> (#[trigger] acc.counts@[k]) <= i64::MAX,
            forall|k: int| 0 <= k < order@.len() ==> (#[trigger] order@[k]) < acc.keys@.len(),
            gs == groups_at(*acc, order@),
            groups_in_order(gs, acc@),
            fv == views(fields@),
            i <= n,
            renderer@ == groups_after(old(renderer)@, fv, gs, i as int),
            renderer.emitted <= old(renderer).emitted + i,
            old(renderer).emitted + n <= usize::MAX,
        decreases n - i,
    {
        if renderer.is_done() {
            proof {
                lemma_done_stays(old(renderer)@, fv, gs, i as int, n as int);
            }
            return 0;
        }
        let at: usize = order[i];
        let rec = record_of_group(fields, &acc.keys[at], acc.counts[at]);
        renderer.emit_record(&rec);
        i = i + 1;
    }
    0
}

} // verus!
