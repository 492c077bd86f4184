//! What the operations on texts keep and undo.
use vstd::prelude::*;

use crate::text::{
    char_from, char_from_is_first, has, is_space, joined, occurs_at, split, split_front,
    split_whole, trimmed, trimmed_end, trimmed_start,
};

verus! {

/// A text holds its parts.
pub proof fn texts_hold_their_parts(a: Seq<char>, p: Seq<char>, b: Seq<char>)
    ensures
        has(a + p + b, p),
        has(p, p),
{
    let s = a + p + b;
    let i = a.len() as int;
    assert(s.subrange(i, i + p.len()) =~= p);
    assert(occurs_at(s, p, i));
    assert(p.subrange(0, p.len() as int) =~= p);
    assert(occurs_at(p, p, 0));
}

/// What a text holds, a longer one holds as well.
pub proof fn longer_texts_hold_more(a: Seq<char>, s: Seq<char>, b: Seq<char>, p: Seq<char>)
    requires
        has(s, p),
    ensures
        has(a + s + b, p),
        has(a + s, p),
        has(s + b, p),
{
    let i = choose|i: int| #[trigger] occurs_at(s, p, i);
    let n = a.len() as int;
    assert((a + s + b).subrange(n + i, n + i + p.len()) =~= s.subrange(i, i + p.len()));
    assert(occurs_at(a + s + b, p, n + i));
    assert((a + s).subrange(n + i, n + i + p.len()) =~= s.subrange(i, i + p.len()));
    assert(occurs_at(a + s, p, n + i));
    assert((s + b).subrange(i, i + p.len()) =~= s.subrange(i, i + p.len()));
    assert(occurs_at(s + b, p, i));
}

/// A list holds each of its texts.
pub proof fn lists_hold_their_texts(v: Seq<Seq<char>>, sep: Seq<char>, i: int)
    requires
        0 <= i < v.len(),
    ensures
        has(joined(v, sep), v[i]),
    decreases v.len(),
{
    let e = Seq::<char>::empty();
    if v.len() == 1 {
        texts_hold_their_parts(e, v[0], e);
    } else if i == v.len() - 1 {
        texts_hold_their_parts(joined(v.drop_last(), sep) + sep, v[i], e);
        assert(joined(v.drop_last(), sep) + sep + v[i] + e =~= joined(v, sep));
    } else {
        lists_hold_their_texts(v.drop_last(), sep, i);
        assert(v.drop_last()[i] == v[i]);
        let f = joined(v.drop_last(), sep);
        longer_texts_hold_more(e, f, sep + v.last(), v[i]);
        assert(f + (sep + v.last()) =~= joined(v, sep));
    }
}

proof fn lemma_joined_front(p: Seq<char>, v: Seq<Seq<char>>, sep: Seq<char>)
    requires
        v.len() > 0,
    ensures
        joined(seq![p] + v, sep) == p + sep + joined(v, sep),
    decreases v.len(),
{
    let w = seq![p] + v;
    if v.len() == 1 {
        assert(w.drop_last() =~= seq![p]);
        assert(joined(seq![p], sep) == p);
        assert(w.last() == v[0]);
    } else {
        assert(w.drop_last() =~= seq![p] + v.drop_last());
        assert(w.last() == v.last());
        lemma_joined_front(p, v.drop_last(), sep);
        assert(p + sep + joined(v.drop_last(), sep) + sep + v.last() =~= p + sep + (joined(
            v.drop_last(),
            sep,
        ) + sep + v.last()));
    }
}

/// Joining what was split gives the text back, and no piece holds the mark.
pub proof fn split_texts_join_again(s: Seq<char>, c: char)
    ensures
        split(s, c).len() > 0,
        joined(split(s, c), seq![c]) == s,
        forall|i: int| 0 <= i < split(s, c).len() ==> !(#[trigger] split(s, c)[i]).contains(c),
    decreases s.len(),
{
    char_from_is_first(s, c, 0);
    match char_from(s, c, 0) {
        Some(i) => {
            let p = s.take(i);
            let rest = s.skip(i + 1);
            split_texts_join_again(rest, c);
            assert(!p.contains(c)) by {
                if p.contains(c) {
                    let k = choose|k: int| 0 <= k < p.len() && p[k] == c;
                    assert(s[k] == c);
                }
            }
            lemma_joined_front(p, split(rest, c), seq![c]);
            assert(p + seq![c] + rest =~= s);
            let v = split(s, c);
            assert(v == seq![p] + split(rest, c));
            assert forall|k: int| 0 <= k < v.len() implies !(#[trigger] v[k]).contains(c) by {
                if k > 0 {
                    assert(v[k] == split(rest, c)[k - 1]);
                }
            }
        },
        None => {
            assert(split(s, c) =~= seq![s]);
            assert(!s.contains(c));
        },
    }
}

/// Trimming takes white space from both ends, and only that: what is left has
/// none at its ends and is what stood between.
pub proof fn trimming_takes_white_space(s: Seq<char>)
    ensures
        trimmed(s).len() > 0 ==> !is_space(trimmed(s)[0]) && !is_space(trimmed(s).last()),
        trimmed(trimmed(s)) == trimmed(s),
        has(s, trimmed(s)),
{
    let t = trimmed_start(s);
    let u = trimmed_end(t);
    lemma_trimmed_start(s);
    lemma_trimmed_end(t);
    assert(u.len() > 0 ==> u[0] == t[0]);
    lemma_nothing_to_trim(u);
    lemma_between(s, t, u);
}

proof fn lemma_between(s: Seq<char>, t: Seq<char>, u: Seq<char>)
    requires
        t.len() <= s.len(),
        t == s.skip(s.len() - t.len()),
        u.len() <= t.len(),
        u == t.take(u.len() as int),
    ensures
        has(s, u),
{
    let a = s.take(s.len() - t.len());
    let b = t.skip(u.len() as int);
    texts_hold_their_parts(a, u, b);
    assert(a + u + b =~= s);
}

proof fn lemma_nothing_to_trim(u: Seq<char>)
    requires
        u.len() > 0 ==> !is_space(u[0]) && !is_space(u.last()),
    ensures
        trimmed(u) == u,
{
}

proof fn lemma_trimmed_start(s: Seq<char>)
    ensures
        trimmed_start(s).len() <= s.len(),
        trimmed_start(s) == s.skip(s.len() - trimmed_start(s).len()),
        trimmed_start(s).len() > 0 ==> !is_space(trimmed_start(s)[0]),
    decreases s.len(),
{
    if s.len() > 0 && is_space(s[0]) {
        lemma_trimmed_start(s.skip(1));
        let t = trimmed_start(s);
        assert(s.skip(1).skip(s.len() - 1 - t.len()) =~= s.skip(s.len() - t.len()));
    } else {
        assert(s.skip(0) =~= s);
    }
}

proof fn lemma_trimmed_end(s: Seq<char>)
    ensures
        trimmed_end(s).len() <= s.len(),
        trimmed_end(s) == s.take(trimmed_end(s).len() as int),
        trimmed_end(s).len() > 0 ==> !is_space(trimmed_end(s).last()),
    decreases s.len(),
{
    if s.len() > 0 && is_space(s.last()) {
        lemma_trimmed_end(s.drop_last());
        let t = trimmed_end(s);
        assert(s.drop_last().take(t.len() as int) =~= s.take(t.len() as int));
    } else {
        assert(s.take(s.len() as int) =~= s);
    }
}

/// Splitting what was joined gives the texts back, if none of them holds the mark.
pub proof fn joined_texts_split_again(v: Seq<Seq<char>>, c: char)
    requires
        v.len() > 0,
        forall|i: int| 0 <= i < v.len() ==> !(#[trigger] v[i]).contains(c),
    ensures
        split(joined(v, seq![c]), c) == v,
    decreases v.len(),
{
    assert(!v[0].contains(c));
    if v.len() == 1 {
        split_whole(v[0], c);
        assert(v =~= seq![v[0]]);
    } else {
        let rest = v.skip(1);
        assert forall|i: int| 0 <= i < rest.len() implies !(#[trigger] rest[i]).contains(c) by {
            assert(rest[i] == v[i + 1]);
        }
        joined_texts_split_again(rest, c);
        lemma_joined_front(v[0], rest, seq![c]);
        assert(seq![v[0]] + rest =~= v);
        split_front(v[0], c, joined(rest, seq![c]));
        assert(v[0] + seq![c] + joined(rest, seq![c]) =~= v[0] + (seq![c] + joined(
            rest,
            seq![c],
        )));
    }
}

/// What a text holds, one that begins with it holds as well.
pub proof fn texts_hold_what_they_begin_with(s: Seq<char>, t: Seq<char>, p: Seq<char>)
    requires
        s.is_prefix_of(t),
        has(s, p),
    ensures
        has(t, p),
{
    let rest = t.skip(s.len() as int);
    assert(t =~= s + rest);
    longer_texts_hold_more(Seq::empty(), s, rest, p);
}

/// Taking white space from the front loses no word.
pub proof fn trimming_loses_no_word(s: Seq<char>, word: Seq<char>)
    requires
        has(s, word),
        word.len() > 0,
        !is_space(word[0]),
    ensures
        has(trimmed_start(s), word),
    decreases s.len(),
{
    if s.len() > 0 && is_space(s[0]) {
        skipping_spaces_loses_no_word(s, 1, word);
        trimming_loses_no_word(s.skip(1), word);
    }
}

/// Nor does leaving out white space at the front.
pub proof fn skipping_spaces_loses_no_word(s: Seq<char>, k: int, word: Seq<char>)
    requires
        has(s, word),
        word.len() > 0,
        !is_space(word[0]),
        0 <= k <= s.len(),
        forall|i: int| 0 <= i < k ==> is_space(#[trigger] s[i]),
    ensures
        has(s.skip(k), word),
{
    let i = choose|i: int| #[trigger] occurs_at(s, word, i);
    assert(s.subrange(i, i + word.len())[0] == word[0]);
    assert(s[i] == word[0]);
    assert(i >= k);
    assert(s.skip(k).subrange(i - k, i - k + word.len()) =~= s.subrange(i, i + word.len()));
    assert(occurs_at(s.skip(k), word, i - k));
}

} // verus!
