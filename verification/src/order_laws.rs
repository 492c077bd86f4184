//! What the orders of texts, groups and rows put first.
use vstd::prelude::*;

use crate::collections::GroupCounts;
use crate::groups::{order_exists, ordered_groups, Group};
use crate::order::{
    list_lt, list_lt_asymmetric, row_before, sorted_texts, stable_order_exists,
    stable_order_holds_every_row, stable_order_of, text_keys, text_lt, text_lt_asymmetric,
};

verus! {

/// A text comes before what it begins, and of two that part at a character the
/// one with the smaller comes first.
pub proof fn texts_are_in_dictionary_order(
    front: Seq<char>,
    c: char,
    d: char,
    x: Seq<char>,
    y: Seq<char>,
)
    ensures
        text_lt(front, front + seq![c] + x),
        c < d ==> text_lt(front + seq![c] + x, front + seq![d] + y),
        !text_lt(front, front),
    decreases front.len(),
{
    let a = front + seq![c] + x;
    let b = front + seq![d] + y;
    if front.len() > 0 {
        texts_are_in_dictionary_order(front.skip(1), c, d, x, y);
        assert(a.skip(1) =~= front.skip(1) + seq![c] + x);
        assert(b.skip(1) =~= front.skip(1) + seq![d] + y);
        assert(a[0] == front[0] && b[0] == front[0]);
    } else {
        assert(a[0] == c && b[0] == d);
    }
}

/// Lists go by their first elements that differ, and a list comes before what it
/// begins.
pub proof fn lists_are_in_dictionary_order(
    front: Seq<Seq<char>>,
    c: Seq<char>,
    d: Seq<char>,
    x: Seq<Seq<char>>,
    y: Seq<Seq<char>>,
)
    ensures
        list_lt(front, front + seq![c] + x),
        text_lt(c, d) ==> list_lt(front + seq![c] + x, front + seq![d] + y),
        !list_lt(front, front),
    decreases front.len(),
{
    let a = front + seq![c] + x;
    let b = front + seq![d] + y;
    if front.len() > 0 {
        lists_are_in_dictionary_order(front.skip(1), c, d, x, y);
        assert(a.skip(1) =~= front.skip(1) + seq![c] + x);
        assert(b.skip(1) =~= front.skip(1) + seq![d] + y);
        assert(a[0] == front[0] && b[0] == front[0]);
    } else {
        assert(a[0] == c && b[0] == d);
        text_lt_asymmetric(c, d);
    }
}

/// Groups are shown by their counts, the largest first, and those with one count
/// by their values, each group once.
pub proof fn groups_are_shown_by_count(acc: GroupCounts, i: int, j: int)
    requires
        acc.wf(),
        0 <= i < j < ordered_groups(acc@).len(),
    ensures
        ({
            let gs = ordered_groups(acc@);
            &&& gs[i].1 >= gs[j].1
            &&& gs[i].1 == gs[j].1 ==> list_lt(gs[i].0, gs[j].0)
            &&& gs[i].0 != gs[j].0
            &&& acc@.dom().contains(gs[i].0) && acc@[gs[i].0] == gs[i].1
        }),
{
    order_exists(acc);
    let gs = ordered_groups(acc@);
    if gs[i].0 == gs[j].0 {
        assert(acc@[gs[i].0] == gs[i].1 && acc@[gs[j].0] == gs[j].1);
        list_lt_asymmetric(gs[i].0, gs[j].0);
    }
}

/// Every group is shown.
pub proof fn every_group_is_shown(acc: GroupCounts, g: Group)
    requires
        acc.wf(),
        acc@.dom().contains(g),
    ensures
        ordered_groups(acc@).contains((g, acc@[g])),
        ordered_groups(acc@).len() == acc.keys@.len(),
{
    order_exists(acc);
    let gs = ordered_groups(acc@);
    let k = choose|k: int| 0 <= k < gs.len() && (#[trigger] gs[k]).0 == g;
    assert(gs[k] == (g, acc@[g]));
}

/// Sorted texts stand in ascending order, and are those that were there.
pub proof fn sorted_texts_ascend(s: Seq<Seq<char>>, i: int, j: int)
    requires
        0 <= i < j < s.len(),
    ensures
        sorted_texts(s).len() == s.len(),
        sorted_texts(s)[i] == sorted_texts(s)[j] || text_lt(
            sorted_texts(s)[i],
            sorted_texts(s)[j],
        ),
        s.contains(sorted_texts(s)[i]),
        sorted_texts(s).contains(s[i]),
{
    let keys = text_keys(s);
    stable_order_exists(keys);
    let r = stable_order_of(keys);
    assert(row_before(keys, r[i], r[j]));
    assert(sorted_texts(s)[i] == s[r[i]]);
    assert(sorted_texts(s)[j] == s[r[j]]);
    assert(keys[r[i]].1 == s[r[i]] && keys[r[j]].1 == s[r[j]]);
    assert(keys[r[i]].0 == keys[r[j]].0);
    stable_order_holds_every_row(keys, r, i);
    let a = choose|a: int| 0 <= a < r.len() && #[trigger] r[a] == i;
    assert(sorted_texts(s)[a] == s[i]);
}

} // verus!
