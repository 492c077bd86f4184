//! The names of raw files: `raw/YYYY/MM/DD/HH/MM/SS/<source>.jsonl`. They are
//! zero-padded, so their text order is the order of time.
use vstd::prelude::*;

use crate::calendar::{fields_order_seconds, Civil};
use crate::number::{all_digits, dec, digit_char, digits_value, lemma_dec_digits};
use crate::number::{read_dec, zero_pad, zero_padded};
use crate::order::text_lt;
use crate::paths::joined_path;
use crate::text::{fill, is_digit, is_prefix, piece, pieces};
use crate::text::{split, split_front, split_on, split_whole, to_chars};
use crate::time::{hour_dir, hour_in_path, path_parts, read_i32, read_u32, HourBucket};
use crate::window::{civil_from, civil_of, parse_i32, parse_u32};
use crate::window::{Instant, Window, NANOS};

verus! {

/// The name prefix of the files of a second.
pub open spec fn bound_of(c: Civil) -> Seq<char> {
    "raw/"@ + zero_padded(c.year as int, 4) + "/"@ + zero_padded(c.month as int, 2) + "/"@
        + zero_padded(c.day as int, 2) + "/"@ + zero_padded(c.hour as int, 2) + "/"@ + zero_padded(
        c.minute as int,
        2,
    ) + "/"@ + zero_padded(c.second as int, 2)
}

/// The name prefix of the files of the second that a moment lies in.
pub fn raw_file_bound(t: Instant) -> (r: String)
    requires
        t.in_range(),
    ensures
        r@ == bound_of(t.civil()),
{
    let c = t.fields();
    let mut r = "raw/".to_owned();
    r.append(zero_pad(c.year as i64, 4).as_str());
    r.append("/");
    r.append(zero_pad(c.month as i64, 2).as_str());
    r.append("/");
    r.append(zero_pad(c.day as i64, 2).as_str());
    r.append("/");
    r.append(zero_pad(c.hour as i64, 2).as_str());
    r.append("/");
    r.append(zero_pad(c.minute as i64, 2).as_str());
    r.append("/");
    r.append(zero_pad(c.second as i64, 2).as_str());
    r
}

/// The bounds `[lo, hi)` of a window's file names, for a predicate
/// `raw_file >= lo AND raw_file < hi`.
pub fn raw_file_range(win: &Window) -> (r: (String, String))
    requires
        win.in_range(),
    ensures
        r.0@ == bound_of(win.start.civil()),
        r.1@ == bound_of(win.end.civil()),
{
    (raw_file_bound(win.start), raw_file_bound(win.end))
}

/// The second that a raw file's name holds. A name without a file behind its
/// second holds none.
pub open spec fn second_in_name(s: Seq<char>) -> Option<Civil> {
    if !is_prefix("raw/"@, s) {
        None
    } else {
        let p = split(s.subrange(4, s.len() as int), '/');
        if p.len() < 7 || p[6].len() == 0 {
            None
        } else {
            civil_of(
                read_i32(p[0]),
                read_u32(p[1]),
                read_u32(p[2]),
                read_u32(p[3]),
                read_u32(p[4]),
                read_u32(p[5]),
            )
        }
    }
}

/// The time of a raw file by its name; nothing for a name of another shape.
pub fn parse_raw_file_time(raw_file: &str) -> (r: Option<Instant>)
    ensures
        match second_in_name(raw_file@) {
            Some(c) => r matches Some(t) && t.nanos == c.seconds() * NANOS && t.in_range(),
            None => r is None,
        },
{
    if !crate::text::starts_with(raw_file, "raw/") {
        return None;
    }
    proof {
        reveal_strlit("raw/");
    }
    let v = to_chars(raw_file);
    let p = split_on(&piece(&v, 4, v.len()), '/');
    assert(pieces(p@).len() == p@.len());
    if p.len() < 7 {
        return None;
    }
    assert(pieces(p@)[6] == p@[6]@);
    if p[6].len() == 0 {
        return None;
    }
    assert(pieces(p@)[0] == p@[0]@ && pieces(p@)[1] == p@[1]@ && pieces(p@)[2] == p@[2]@ && pieces(
        p@,
    )[3] == p@[3]@ && pieces(p@)[4] == p@[4]@ && pieces(p@)[5] == p@[5]@);
    civil_from(
        parse_i32(&p[0]),
        parse_u32(&p[1]),
        parse_u32(&p[2]),
        parse_u32(&p[3]),
        parse_u32(&p[4]),
        parse_u32(&p[5]),
    )
}

// ── A name holds its time ────────────────────────────────────────────────────

proof fn lemma_zeros_value(k: int)
    ensures
        digits_value(fill('0', k)) == 0,
    decreases k,
{
    if k > 0 {
        lemma_zeros_value(k - 1);
        assert(fill('0', k).drop_last() =~= fill('0', k - 1));
    }
}

proof fn lemma_padded_value(k: int, s: Seq<char>)
    ensures
        digits_value(fill('0', k) + s) == digits_value(s),
    decreases s.len(),
{
    if s.len() == 0 {
        assert(fill('0', k) + s =~= fill('0', k));
        lemma_zeros_value(k);
    } else {
        lemma_padded_value(k, s.drop_last());
        assert((fill('0', k) + s).drop_last() =~= fill('0', k) + s.drop_last());
        assert((fill('0', k) + s).last() == s.last());
    }
}

/// A zero-padded numeral reads as its number.
pub proof fn padded_reads_back(i: int, width: int)
    ensures
        i32::MIN <= i <= i32::MAX ==> read_i32(zero_padded(i, width)) == Some(i),
        0 <= i <= u32::MAX ==> read_u32(zero_padded(i, width)) == Some(i),
        forall|k: int|
            0 <= k < zero_padded(i, width).len() ==> #[trigger] zero_padded(i, width)[k] != '/',
        i >= 0 ==> all_digits(zero_padded(i, width)),
{
    let s = zero_padded(i, width);
    let n = if i < 0 {
        (-i) as nat
    } else {
        i as nat
    };
    read_dec(n);
    lemma_dec_digits(n);
    let room = if i < 0 {
        width - 1 - dec(n).len()
    } else {
        width - dec(n).len()
    };
    let body = fill('0', room) + dec(n);
    lemma_padded_value(room, dec(n));
    assert(all_digits(body)) by {
        assert forall|k: int| 0 <= k < body.len() implies is_digit(#[trigger] body[k]) by {
            if k >= fill('0', room).len() {
                assert(body[k] == dec(n)[k - fill('0', room).len()]);
            }
        }
    }
    assert(is_digit(body[0]));
    if i < 0 {
        assert(s =~= seq!['-'] + body);
        assert(s.skip(1) =~= body);
        assert forall|k: int| 0 <= k < s.len() implies #[trigger] s[k] != '/' by {
            if k > 0 {
                assert(is_digit(body[k - 1]));
            }
        }
    } else {
        assert(s =~= body);
        assert forall|k: int| 0 <= k < s.len() implies #[trigger] s[k] != '/' by {
            assert(is_digit(body[k]));
        }
    }
}

/// The piece before the first slash comes first.
proof fn lemma_split_front(p: Seq<char>, rest: Seq<char>)
    requires
        forall|k: int| 0 <= k < p.len() ==> #[trigger] p[k] != '/',
    ensures
        split(p + ("/"@ + rest), '/') == seq![p] + split(rest, '/'),
{
    reveal_strlit("/");
    assert("/"@ =~= seq!['/']);
    split_front(p, '/', rest);
}

/// A file's name, from a second and what stands behind it.
pub open spec fn name_of(c: Civil, source: Seq<char>) -> Seq<char> {
    bound_of(c) + "/"@ + source
}

/// A raw file's name holds the second it was written for.
pub proof fn name_holds_its_second(c: Civil, source: Seq<char>)
    requires
        c.valid(),
        split(source, '/')[0].len() > 0,
    ensures
        second_in_name(name_of(c, source)) == Some(c),
{
    let s = name_of(c, source);
    let x = "/"@ + source;
    assert(s =~= bound_of(c) + x);
    lemma_reassociate(c, x);
    let s5 = zero_padded(c.second as int, 2) + x;
    let s4 = zero_padded(c.minute as int, 2) + ("/"@ + s5);
    let s3 = zero_padded(c.hour as int, 2) + ("/"@ + s4);
    let s2 = zero_padded(c.day as int, 2) + ("/"@ + s3);
    let s1 = zero_padded(c.month as int, 2) + ("/"@ + s2);
    let s0 = zero_padded(c.year as int, 4) + ("/"@ + s1);
    assert(s == "raw/"@ + s0);
    assert(is_prefix("raw/"@, s) && s.subrange(4, s.len() as int) == s0) by {
        reveal_strlit("raw/");
        assert(s.subrange(0, 4) =~= "raw/"@);
        assert(s.subrange(4, s.len() as int) =~= s0);
    }
    padded_reads_back(c.year as int, 4);
    padded_reads_back(c.month as int, 2);
    padded_reads_back(c.day as int, 2);
    padded_reads_back(c.hour as int, 2);
    padded_reads_back(c.minute as int, 2);
    padded_reads_back(c.second as int, 2);
    lemma_split_front(zero_padded(c.second as int, 2), source);
    lemma_split_front(zero_padded(c.minute as int, 2), s5);
    lemma_split_front(zero_padded(c.hour as int, 2), s4);
    lemma_split_front(zero_padded(c.day as int, 2), s3);
    lemma_split_front(zero_padded(c.month as int, 2), s2);
    lemma_split_front(zero_padded(c.year as int, 4), s1);
    lemma_six_pieces(
        zero_padded(c.year as int, 4),
        zero_padded(c.month as int, 2),
        zero_padded(c.day as int, 2),
        zero_padded(c.hour as int, 2),
        zero_padded(c.minute as int, 2),
        zero_padded(c.second as int, 2),
        split(source, '/'),
    );
}

proof fn lemma_six_pieces(
    a: Seq<char>,
    b: Seq<char>,
    c: Seq<char>,
    d: Seq<char>,
    e: Seq<char>,
    f: Seq<char>,
    rest: Seq<Seq<char>>,
)
    ensures
        ({
            let p = seq![a] + (seq![b] + (seq![c] + (seq![d] + (seq![e] + (seq![f] + rest)))));
            &&& p.len() == 6 + rest.len()
            &&& p[0] == a && p[1] == b && p[2] == c && p[3] == d && p[4] == e && p[5] == f
            &&& rest.len() > 0 ==> p[6] == rest[0]
        }),
{
}

proof fn lemma_joined_numeral(base: Seq<char>, i: int, width: int)
    requires
        base.len() > 0,
        base.last() != '/',
    ensures
        joined_path(base, zero_padded(i, width)) == base + ("/"@ + zero_padded(i, width)),
        joined_path(base, zero_padded(i, width)).last() != '/',
        joined_path(base, zero_padded(i, width)).len() > 0,
{
    reveal_strlit("/");
    let p = zero_padded(i, width);
    padded_reads_back(i, width);
    lemma_numeral_is_some(i, width);
    assert(p[0] != '/');
    assert(p[p.len() - 1] != '/');
    assert(base.push('/') + p =~= base + ("/"@ + p));
}

proof fn lemma_numeral_is_some(i: int, width: int)
    ensures
        zero_padded(i, width).len() > 0,
{
    lemma_dec_digits(if i < 0 {
        (-i) as nat
    } else {
        i as nat
    });
}

proof fn lemma_regroup(a: Seq<char>, b: Seq<char>, c: Seq<char>, d: Seq<char>)
    ensures
        a + (b + c) + d == a + (b + (c + d)),
{
    lemma_assoc(a, b + c, d);
    lemma_assoc(b, c, d);
}

/// A path of four parts and what stands behind them.
spec fn path_of(p: Seq<Seq<char>>, rest: Seq<char>) -> Seq<char> {
    p[0] + ("/"@ + (p[1] + ("/"@ + (p[2] + ("/"@ + (p[3] + ("/"@ + rest)))))))
}

proof fn lemma_hour_path(b: HourBucket, name: Seq<char>)
    requires
        name.len() > 0 ==> name[0] != '/',
    ensures
        joined_path(hour_dir(b, Seq::empty()), name) == path_of(path_parts(b), name),
{
    let parts = path_parts(b);
    let (y, m, d, h) = (parts[0], parts[1], parts[2], parts[3]);
    let none = Seq::<char>::empty();
    padded_reads_back(b.year as int, 4);
    lemma_numeral_is_some(b.year as int, 4);
    assert(y[0] != '/' && y[y.len() - 1] != '/');
    assert(joined_path(none, y) =~= y);
    lemma_joined_numeral(y, b.month as int, 2);
    let ym = joined_path(y, m);
    lemma_joined_numeral(ym, b.day as int, 2);
    let ymd = joined_path(ym, d);
    lemma_joined_numeral(ymd, b.hour as int, 2);
    let dir = joined_path(ymd, h);
    assert(dir == hour_dir(b, none));
    let slash = "/"@;
    assert(dir.push('/') + name =~= dir + (slash + name)) by {
        reveal_strlit("/");
    }
    lemma_regroup(ymd, slash, h, slash + name);
    let sh = slash + (h + (slash + name));
    lemma_regroup(ym, slash, d, sh);
    let sd = slash + (d + sh);
    lemma_regroup(y, slash, m, sd);
}

proof fn lemma_four_pieces(p: Seq<Seq<char>>, rest: Seq<char>)
    requires
        p.len() == 4,
        forall|k: int| 0 <= k < 4 ==> !(#[trigger] p[k]).contains('/'),
    ensures
        split(path_of(p, rest), '/') == p + split(rest, '/'),
{
    let s3 = p[3] + ("/"@ + rest);
    let s2 = p[2] + ("/"@ + s3);
    let s1 = p[1] + ("/"@ + s2);
    lemma_split_front(p[3], rest);
    lemma_split_front(p[2], s3);
    lemma_split_front(p[1], s2);
    lemma_split_front(p[0], s1);
    let t = split(rest, '/');
    assert(seq![p[0]] + (seq![p[1]] + (seq![p[2]] + (seq![p[3]] + t))) =~= p + t);
}

/// The path of a file in an hour's directory, below the tree, names that hour.
pub proof fn path_names_its_hour(b: HourBucket, name: Seq<char>)
    requires
        b.in_bounds(),
        name.len() > 0 ==> name[0] != '/',
    ensures
        hour_in_path(joined_path(hour_dir(b, Seq::empty()), name)) == Some(b),
{
    let parts = path_parts(b);
    padded_reads_back(b.year as int, 4);
    padded_reads_back(b.month as int, 2);
    padded_reads_back(b.day as int, 2);
    padded_reads_back(b.hour as int, 2);
    assert forall|k: int| 0 <= k < 4 implies !(#[trigger] parts[k]).contains('/') by {
        if k == 0 {
        } else if k == 1 {
        } else if k == 2 {
        }
    }
    lemma_hour_path(b, name);
    lemma_four_pieces(parts, name);
    let p = parts + split(name, '/');
    assert(split(name, '/').len() > 0);
    assert(p.take(4) =~= parts);
    assert(p[0] == parts[0] && p[1] == parts[1] && p[2] == parts[2] && p[3] == parts[3]);
}

// ── Text order is the order of time ──────────────────────────────────────────

/// The last `w` digits of `n`.
spec fn fixed(n: int, w: int) -> Seq<char>
    decreases w,
{
    if w <= 0 {
        Seq::empty()
    } else {
        fixed(n / 10, w - 1).push(digit_char(n % 10))
    }
}

/// Ten to the power `w`.
spec fn ten_to(w: int) -> int
    decreases w,
{
    if w <= 0 {
        1
    } else {
        ten_to(w - 1) * 10
    }
}

proof fn lemma_fixed_zero(w: int)
    ensures
        fixed(0, w) == fill('0', w),
    decreases w,
{
    if w > 0 {
        lemma_fixed_zero(w - 1);
        assert(digit_char(0) == '0');
        assert(fill('0', w) =~= fill('0', w - 1).push('0'));
    } else {
        assert(fixed(0, w) =~= fill('0', w));
    }
}

proof fn lemma_padded_is_fixed(n: int, w: int)
    requires
        0 <= n < ten_to(w),
        w >= 1,
    ensures
        zero_padded(n, w) == fixed(n, w),
        dec(n as nat).len() <= w,
    decreases w,
{
    if n < 10 {
        lemma_fixed_zero(w - 1);
        assert(zero_padded(n, w) =~= fixed(n, w));
    } else {
        if w == 1 {
            assert(ten_to(1) == ten_to(0) * 10);
        }
        assert(ten_to(w) == ten_to(w - 1) * 10);
        lemma_padded_is_fixed(n / 10, w - 1);
        assert(zero_padded(n, w) =~= zero_padded(n / 10, w - 1).push(digit_char(n % 10)));
    }
}

proof fn lemma_first_char(a: char, x: Seq<char>, b: char, y: Seq<char>)
    ensures
        text_lt(seq![a] + x, seq![b] + y) <==> a < b || (a == b && text_lt(x, y)),
{
    assert((seq![a] + x).skip(1) =~= x);
    assert((seq![b] + y).skip(1) =~= y);
}

proof fn lemma_fixed_order(a: int, b: int, w: int, x: Seq<char>, y: Seq<char>)
    requires
        0 <= a < ten_to(w),
        0 <= b < ten_to(w),
    ensures
        text_lt(fixed(a, w) + x, fixed(b, w) + y) <==> a < b || (a == b && text_lt(x, y)),
    decreases w,
{
    if w <= 0 {
        assert(fixed(a, w) + x =~= x);
        assert(fixed(b, w) + y =~= y);
    } else {
        let (da, db) = (digit_char(a % 10), digit_char(b % 10));
        assert(ten_to(w) == ten_to(w - 1) * 10);
        lemma_fixed_order(a / 10, b / 10, w - 1, seq![da] + x, seq![db] + y);
        assert(fixed(a, w) + x =~= fixed(a / 10, w - 1) + (seq![da] + x));
        assert(fixed(b, w) + y =~= fixed(b / 10, w - 1) + (seq![db] + y));
        lemma_first_char(da, x, db, y);
        assert(da < db <==> a % 10 < b % 10);
        assert(da == db <==> a % 10 == b % 10);
    }
}

proof fn lemma_common_front(p: Seq<char>, x: Seq<char>, y: Seq<char>)
    ensures
        text_lt(p + x, p + y) <==> text_lt(x, y),
    decreases p.len(),
{
    if p.len() == 0 {
        assert(p + x =~= x);
        assert(p + y =~= y);
    } else {
        lemma_common_front(p.skip(1), x, y);
        assert((p + x).skip(1) =~= p.skip(1) + x);
        assert((p + y).skip(1) =~= p.skip(1) + y);
    }
}

/// One field of a name: it decides, or what stands behind it does.
proof fn lemma_field_order(a: int, b: int, w: int, x: Seq<char>, y: Seq<char>)
    requires
        w == 2 || w == 4,
        0 <= a < 100 || (w == 4 && 0 <= a < 10000),
        0 <= b < 100 || (w == 4 && 0 <= b < 10000),
    ensures
        text_lt(zero_padded(a, w) + x, zero_padded(b, w) + y) <==> a < b || (a == b && text_lt(
            x,
            y,
        )),
{
    reveal_with_fuel(ten_to, 5);
    assert(ten_to(2) == 100);
    assert(ten_to(4) == 10000);
    lemma_padded_is_fixed(a, w);
    lemma_padded_is_fixed(b, w);
    lemma_fixed_order(a, b, w, x, y);
}

/// Names sort as their seconds do, and within one second by what stands behind
/// it, for years that fill four digits at most.
pub proof fn names_sort_by_time(a: Civil, x: Seq<char>, b: Civil, y: Seq<char>)
    requires
        a.valid(),
        b.valid(),
        0 <= a.year <= 9999,
        0 <= b.year <= 9999,
    ensures
        text_lt(bound_of(a) + x, bound_of(b) + y) <==> a.seconds() < b.seconds() || (a == b
            && text_lt(x, y)),
{
    reveal_strlit("/");
    let slash = "/"@;
    fields_order_seconds(a, b);
    let a5 = zero_padded(a.second as int, 2) + x;
    let a4 = zero_padded(a.minute as int, 2) + (slash + a5);
    let a3 = zero_padded(a.hour as int, 2) + (slash + a4);
    let a2 = zero_padded(a.day as int, 2) + (slash + a3);
    let a1 = zero_padded(a.month as int, 2) + (slash + a2);
    let a0 = zero_padded(a.year as int, 4) + (slash + a1);
    let b5 = zero_padded(b.second as int, 2) + y;
    let b4 = zero_padded(b.minute as int, 2) + (slash + b5);
    let b3 = zero_padded(b.hour as int, 2) + (slash + b4);
    let b2 = zero_padded(b.day as int, 2) + (slash + b3);
    let b1 = zero_padded(b.month as int, 2) + (slash + b2);
    let b0 = zero_padded(b.year as int, 4) + (slash + b1);
    lemma_reassociate(a, x);
    lemma_reassociate(b, y);
    lemma_common_front("raw/"@, a0, b0);
    lemma_field_order(a.year as int, b.year as int, 4, slash + a1, slash + b1);
    lemma_common_front(slash, a1, b1);
    lemma_field_order(a.month as int, b.month as int, 2, slash + a2, slash + b2);
    lemma_common_front(slash, a2, b2);
    lemma_field_order(a.day as int, b.day as int, 2, slash + a3, slash + b3);
    lemma_common_front(slash, a3, b3);
    lemma_field_order(a.hour as int, b.hour as int, 2, slash + a4, slash + b4);
    lemma_common_front(slash, a4, b4);
    lemma_field_order(a.minute as int, b.minute as int, 2, slash + a5, slash + b5);
    lemma_common_front(slash, a5, b5);
    lemma_field_order(a.second as int, b.second as int, 2, x, y);
}

/// A name prefix and what stands behind it, joined from the back.
spec fn from_back(c: Civil, x: Seq<char>) -> Seq<char> {
    let s5 = zero_padded(c.second as int, 2) + x;
    let s4 = zero_padded(c.minute as int, 2) + ("/"@ + s5);
    let s3 = zero_padded(c.hour as int, 2) + ("/"@ + s4);
    let s2 = zero_padded(c.day as int, 2) + ("/"@ + s3);
    let s1 = zero_padded(c.month as int, 2) + ("/"@ + s2);
    let s0 = zero_padded(c.year as int, 4) + ("/"@ + s1);
    "raw/"@ + s0
}

proof fn lemma_assoc(a: Seq<char>, b: Seq<char>, c: Seq<char>)
    ensures
        a + b + c == a + (b + c),
{
    assert(a + b + c =~= a + (b + c));
}

proof fn lemma_reassociate(c: Civil, x: Seq<char>)
    ensures
        bound_of(c) + x == from_back(c, x),
{
    let p0 = "raw/"@;
    let p1 = p0 + zero_padded(c.year as int, 4);
    let p2 = p1 + "/"@;
    let p3 = p2 + zero_padded(c.month as int, 2);
    let p4 = p3 + "/"@;
    let p5 = p4 + zero_padded(c.day as int, 2);
    let p6 = p5 + "/"@;
    let p7 = p6 + zero_padded(c.hour as int, 2);
    let p8 = p7 + "/"@;
    let p9 = p8 + zero_padded(c.minute as int, 2);
    let p10 = p9 + "/"@;
    let s5 = zero_padded(c.second as int, 2) + x;
    let s4 = zero_padded(c.minute as int, 2) + ("/"@ + s5);
    let s3 = zero_padded(c.hour as int, 2) + ("/"@ + s4);
    let s2 = zero_padded(c.day as int, 2) + ("/"@ + s3);
    let s1 = zero_padded(c.month as int, 2) + ("/"@ + s2);
    lemma_assoc(p10, zero_padded(c.second as int, 2), x);
    lemma_assoc(p9, "/"@, s5);
    lemma_assoc(p8, zero_padded(c.minute as int, 2), "/"@ + s5);
    lemma_assoc(p7, "/"@, s4);
    lemma_assoc(p6, zero_padded(c.hour as int, 2), "/"@ + s4);
    lemma_assoc(p5, "/"@, s3);
    lemma_assoc(p4, zero_padded(c.day as int, 2), "/"@ + s3);
    lemma_assoc(p3, "/"@, s2);
    lemma_assoc(p2, zero_padded(c.month as int, 2), "/"@ + s2);
    lemma_assoc(p1, "/"@, s1);
    lemma_assoc(p0, zero_padded(c.year as int, 4), "/"@ + s1);
}

/// A file lies between a window's bounds exactly when its second lies in the
/// window: one at the start's second is in, one at the end's second is not.
pub proof fn bounds_select_the_window(lo: Civil, hi: Civil, c: Civil, source: Seq<char>)
    requires
        lo.valid(),
        hi.valid(),
        c.valid(),
        0 <= lo.year <= 9999,
        0 <= hi.year <= 9999,
        0 <= c.year <= 9999,
    ensures
        !text_lt(name_of(c, source), bound_of(lo)) && text_lt(name_of(c, source), bound_of(hi))
            <==> lo.seconds() <= c.seconds() < hi.seconds(),
{
    reveal_strlit("/");
    let x = "/"@ + source;
    assert(name_of(c, source) =~= bound_of(c) + x);
    let none = Seq::<char>::empty();
    assert(bound_of(lo) =~= bound_of(lo) + none);
    assert(bound_of(hi) =~= bound_of(hi) + none);
    names_sort_by_time(c, x, lo, none);
    names_sort_by_time(c, x, hi, none);
    fields_order_seconds(c, lo);
    fields_order_seconds(c, hi);
}

// ── Minutes ──────────────────────────────────────────────────────────────────

/// The minute that a prefix `raw/YYYY/MM/DD/HH/MM` names, by its first second.
pub open spec fn minute_in_prefix(s: Seq<char>) -> Option<Civil> {
    if !is_prefix("raw/"@, s) {
        None
    } else {
        let p = split(s.subrange(4, s.len() as int), '/');
        if p.len() != 5 {
            None
        } else {
            civil_of(
                read_i32(p[0]),
                read_u32(p[1]),
                read_u32(p[2]),
                read_u32(p[3]),
                read_u32(p[4]),
                Some(0),
            )
        }
    }
}

/// The time of a prefix `raw/YYYY/MM/DD/HH/MM`; nothing for another text.
pub(crate) fn parse_minute_prefix(s: &str) -> (r: Option<Instant>)
    ensures
        match minute_in_prefix(s@) {
            Some(c) => r matches Some(t) && t.nanos == c.seconds() * NANOS && t.in_range(),
            None => r is None,
        },
{
    if !crate::text::starts_with(s, "raw/") {
        return None;
    }
    proof {
        reveal_strlit("raw/");
    }
    let v = to_chars(s);
    let p = split_on(&piece(&v, 4, v.len()), '/');
    assert(pieces(p@).len() == p@.len());
    if p.len() != 5 {
        return None;
    }
    assert(pieces(p@)[0] == p@[0]@ && pieces(p@)[1] == p@[1]@ && pieces(p@)[2] == p@[2]@ && pieces(
        p@,
    )[3] == p@[3]@ && pieces(p@)[4] == p@[4]@);
    civil_from(
        parse_i32(&p[0]),
        parse_u32(&p[1]),
        parse_u32(&p[2]),
        parse_u32(&p[3]),
        parse_u32(&p[4]),
        Some(0),
    )
}

/// The prefix of the names of a minute, joined from the back.
spec fn minute_prefix(c: Civil) -> Seq<char> {
    let s4 = zero_padded(c.minute as int, 2);
    let s3 = zero_padded(c.hour as int, 2) + ("/"@ + s4);
    let s2 = zero_padded(c.day as int, 2) + ("/"@ + s3);
    let s1 = zero_padded(c.month as int, 2) + ("/"@ + s2);
    let s0 = zero_padded(c.year as int, 4) + ("/"@ + s1);
    "raw/"@ + s0
}

/// The width of a zero-padded field.
pub proof fn padded_width(a: int, w: int)
    requires
        w == 2 || w == 4,
        0 <= a < 100 || (w == 4 && 0 <= a < 10000),
    ensures
        zero_padded(a, w).len() == w,
{
    reveal_with_fuel(ten_to, 5);
    assert(ten_to(2) == 100);
    assert(ten_to(4) == 10000);
    lemma_padded_is_fixed(a, w);
    lemma_fixed_width(a, w);
}

proof fn lemma_fixed_width(n: int, w: int)
    requires
        w >= 0,
    ensures
        fixed(n, w).len() == w,
    decreases w,
{
    if w > 0 {
        lemma_fixed_width(n / 10, w - 1);
    }
}

proof fn lemma_minute_front(c: Civil, x: Seq<char>)
    requires
        c.valid(),
        0 <= c.year <= 9999,
    ensures
        (bound_of(c) + x).take(20) == minute_prefix(c),
{
    lemma_reassociate(c, x);
    padded_width(c.year as int, 4);
    padded_width(c.month as int, 2);
    padded_width(c.day as int, 2);
    padded_width(c.hour as int, 2);
    padded_width(c.minute as int, 2);
    reveal_strlit("raw/");
    reveal_strlit("/");
    let y = "/"@ + (zero_padded(c.second as int, 2) + x);
    let f4 = zero_padded(c.minute as int, 2);
    let f3 = zero_padded(c.hour as int, 2);
    let f2 = zero_padded(c.day as int, 2);
    let f1 = zero_padded(c.month as int, 2);
    let f0 = zero_padded(c.year as int, 4);
    let s4 = f4;
    let s3 = f3 + ("/"@ + s4);
    let s2 = f2 + ("/"@ + s3);
    let s1 = f1 + ("/"@ + s2);
    let s0 = f0 + ("/"@ + s1);
    let t3 = f3 + ("/"@ + (f4 + y));
    let t2 = f2 + ("/"@ + t3);
    let t1 = f1 + ("/"@ + t2);
    let t0 = f0 + ("/"@ + t1);
    assert(t3 =~= s3 + y);
    assert(t2 =~= s2 + y);
    assert(t1 =~= s1 + y);
    assert(t0 =~= s0 + y);
    assert("raw/"@ + t0 =~= ("raw/"@ + s0) + y);
    assert(minute_prefix(c).len() == 20);
    assert((minute_prefix(c) + y).take(20) =~= minute_prefix(c));
}

/// The fields between the slashes of a minute's prefix.
proof fn lemma_minute_split(c: Civil)
    requires
        c.valid(),
        0 <= c.year <= 9999,
    ensures
        split(minute_prefix(c).subrange(4, minute_prefix(c).len() as int), '/') == seq![
            zero_padded(c.year as int, 4),
            zero_padded(c.month as int, 2),
            zero_padded(c.day as int, 2),
            zero_padded(c.hour as int, 2),
            zero_padded(c.minute as int, 2),
        ],
{
    let f0 = zero_padded(c.year as int, 4);
    let f1 = zero_padded(c.month as int, 2);
    let f2 = zero_padded(c.day as int, 2);
    let f3 = zero_padded(c.hour as int, 2);
    let f4 = zero_padded(c.minute as int, 2);
    let s3 = f3 + ("/"@ + f4);
    let s2 = f2 + ("/"@ + s3);
    let s1 = f1 + ("/"@ + s2);
    let s0 = f0 + ("/"@ + s1);
    let s = minute_prefix(c);
    assert(s.subrange(4, s.len() as int) == s0) by {
        reveal_strlit("raw/");
        assert(s.subrange(4, s.len() as int) =~= s0);
    }
    assert(split(f4, '/') == seq![f4]) by {
        padded_reads_back(c.minute as int, 2);
        split_whole(f4, '/');
    }
    assert(split(s3, '/') =~= seq![f3, f4]) by {
        padded_reads_back(c.hour as int, 2);
        lemma_split_front(f3, f4);
    }
    assert(split(s2, '/') =~= seq![f2, f3, f4]) by {
        padded_reads_back(c.day as int, 2);
        lemma_split_front(f2, s3);
    }
    assert(split(s1, '/') =~= seq![f1, f2, f3, f4]) by {
        padded_reads_back(c.month as int, 2);
        lemma_split_front(f1, s2);
    }
    assert(split(s0, '/') =~= seq![f0, f1, f2, f3, f4]) by {
        padded_reads_back(c.year as int, 4);
        lemma_split_front(f0, s1);
    }
}

/// The first twenty characters of a name hold its minute, for years that fill
/// four digits at most.
pub proof fn front_holds_the_minute(c: Civil, x: Seq<char>)
    requires
        c.valid(),
        0 <= c.year <= 9999,
    ensures
        minute_in_prefix((bound_of(c) + x).take(20)) == Some(Civil { second: 0, ..c }),
{
    lemma_minute_front(c, x);
    let s = minute_prefix(c);
    assert(is_prefix("raw/"@, s)) by {
        reveal_strlit("raw/");
        assert(s.subrange(0, 4) =~= "raw/"@);
    }
    lemma_minute_split(c);
    padded_reads_back(c.year as int, 4);
    padded_reads_back(c.month as int, 2);
    padded_reads_back(c.day as int, 2);
    padded_reads_back(c.hour as int, 2);
    padded_reads_back(c.minute as int, 2);
}

} // verus!
