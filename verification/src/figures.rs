//! Numbers as they are shown: sizes, and counts with separators.
use vstd::prelude::*;

use crate::number::{dec, dec_u64};
use crate::text::{string_from, to_chars};

verus! {

/// The integer nearest to `a / b`, the even one of two that are equally near.
pub open spec fn nearest(a: int, b: int) -> int {
    let q = a / b;
    let r = a % b;
    if 2 * r < b {
        q
    } else if 2 * r > b {
        q + 1
    } else {
        q + q % 2
    }
}

/// The spacing of double-precision numbers around `n`: the first power of two
/// from `p` on at which `n` has at most 53 digits.
pub open spec fn spacing(n: int, p: int) -> int
    decreases n - p,
{
    if p <= 0 || n < 0x20_0000_0000_0000 * p {
        p
    } else {
        spacing(n, 2 * p)
    }
}

/// `n` as double precision holds it.
pub open spec fn as_double(n: int) -> int {
    nearest(n, spacing(n, 1)) * spacing(n, 1)
}

/// The index of the largest unit, from `i` on, of which `m` holds one at least;
/// unit `i` is `d` bytes.
pub open spec fn unit_index(m: int, i: int, d: int) -> int
    decreases 6 - i,
{
    if i < 6 && m >= 1024 * d {
        unit_index(m, i + 1, 1024 * d)
    } else {
        i
    }
}

/// The size of a unit in bytes.
pub open spec fn unit_size(i: int) -> int
    decreases i,
{
    if i <= 0 {
        1
    } else {
        1024 * unit_size(i - 1)
    }
}

/// The name of a unit.
pub open spec fn unit_name(i: int) -> Seq<char> {
    if i == 1 {
        "KB"@
    } else if i == 2 {
        "MB"@
    } else if i == 3 {
        "GB"@
    } else if i == 4 {
        "TB"@
    } else if i == 5 {
        "PB"@
    } else {
        "EB"@
    }
}

/// A size: whole bytes below one KB, otherwise with one decimal in the largest
/// unit of which there is one at least.
pub open spec fn size_text(n: int) -> Seq<char> {
    let m = as_double(n);
    let i = unit_index(m, 0, 1);
    if i == 0 {
        dec(n as nat) + " B"@
    } else {
        let t = nearest(10 * m, unit_size(i));
        dec((t / 10) as nat) + "."@ + dec((t % 10) as nat) + " "@ + unit_name(i)
    }
}

fn round_nearest(a: u128, b: u128) -> (r: u128)
    requires
        0 < b <= 0x1000_0000_0000_0000_0000,
        a <= 0x1000_0000_0000_0000_0000_0000,
    ensures
        r == nearest(a as int, b as int),
        r <= a / b + 1,
{
    let q: u128 = a / b;
    let rem: u128 = a % b;
    if 2 * rem < b {
        q
    } else if 2 * rem > b {
        assert(q <= a) by (nonlinear_arith)
            requires
                q == a / b,
                b > 0,
        ;
        q + 1
    } else {
        assert(q <= a) by (nonlinear_arith)
            requires
                q == a / b,
                b > 0,
        ;
        q + q % 2
    }
}

fn double_of(n: u64) -> (r: u128)
    ensures
        r == as_double(n as int),
        r <= 0x1_0000_0000_0000_2000,
{
    let w: u128 = n as u128;
    let mut p: u128 = 1;
    while w >= 0x20_0000_0000_0000 * p
        invariant
            w == n,
            1 <= p <= 0x1000,
            spacing(n as int, 1) == spacing(n as int, p as int),
        decreases 0x1000 - p,
    {
        p = 2 * p;
    }
    let q: u128 = round_nearest(w, p);
    assert(q * p <= w + p) by (nonlinear_arith)
        requires
            q <= w / p + 1,
            p >= 1,
    ;
    q * p
}

/// A size: `512 B`, `2.0 KB`, `7.0 TB`.
pub fn human_bytes(n: u64) -> (r: String)
    ensures
        r@ == size_text(n as int),
{
    let m: u128 = double_of(n);
    let mut i: u32 = 0;
    let mut d: u128 = 1;
    while i < 6 && m >= 1024 * d
        invariant
            m <= 0x1_0000_0000_0000_2000,
            i <= 6,
            d == unit_size(i as int),
            1 <= d <= 0x1_0000_0000_0000_2000,
            i > 0 ==> d >= 1024,
            unit_index(m as int, 0, 1) == unit_index(m as int, i as int, d as int),
        decreases 6 - i,
    {
        d = 1024 * d;
        i = i + 1;
    }
    if i == 0 {
        let mut r = dec_u64(n);
        r.append(" B");
        return r;
    }
    let t: u128 = round_nearest(10 * m, d);
    assert((10 * m) / (d as int) <= 0x1000_0000_0000_0000) by (nonlinear_arith)
        requires
            d >= 1024,
            m <= 0x1_0000_0000_0000_2000,
    ;
    let t: u64 = t as u64;
    let mut r = dec_u64(t / 10);
    r.append(".");
    r.append(dec_u64(t % 10).as_str());
    r.append(" ");
    r.append(
        if i == 1 {
            "KB"
        } else if i == 2 {
            "MB"
        } else if i == 3 {
            "GB"
        } else if i == 4 {
            "TB"
        } else if i == 5 {
            "PB"
        } else {
            "EB"
        },
    );
    r
}

/// Digits with a comma before every third one from the end.
pub open spec fn grouped(s: Seq<char>) -> Seq<char>
    decreases s.len(),
{
    if s.len() <= 3 {
        s
    } else {
        grouped(s.take(s.len() - 3)) + ","@ + s.skip(s.len() - 3)
    }
}

fn group_digits(v: &Vec<char>, end: usize) -> (r: String)
    requires
        end <= v@.len(),
    ensures
        r@ == grouped(v@.take(end as int)),
    decreases end,
{
    if end <= 3 {
        let r = string_from(v, 0, end);
        assert(r@ =~= v@.take(end as int));
        r
    } else {
        let mut r = group_digits(v, end - 3);
        r.append(",");
        r.append(string_from(v, end - 3, end).as_str());
        assert(v@.take(end as int).take(end - 3) =~= v@.take(end - 3));
        assert(v@.take(end as int).skip(end - 3) =~= v@.subrange(end - 3, end as int));
        r
    }
}

/// A count with comma separators: `1,234,567`.
pub fn fmt_n(n: u64) -> (r: String)
    ensures
        r@ == grouped(dec(n as nat)),
{
    let v = to_chars(dec_u64(n).as_str());
    assert(v@.take(v@.len() as int) =~= v@);
    group_digits(&v, v.len())
}

} // verus!
