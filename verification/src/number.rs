//! Decimal numerals: how integers are written and read.
use vstd::prelude::*;

use crate::text::fill;
use crate::text::repeat;
use crate::text::{digit, is_digit};

verus! {

/// The digit character for `d < 10`.
pub open spec fn digit_char(d: int) -> char {
    (48 + d) as u8 as char
}

/// The decimal numeral of a natural number, without leading zeros.
pub open spec fn dec(n: nat) -> Seq<char>
    decreases n,
{
    if n < 10 {
        seq![digit_char(n as int)]
    } else {
        dec(n / 10).push(digit_char((n % 10) as int))
    }
}

/// The decimal numeral of an integer.
pub open spec fn dec_int(i: int) -> Seq<char> {
    if i < 0 {
        seq!['-'] + dec((-i) as nat)
    } else {
        dec(i as nat)
    }
}

/// The numeral padded with zeros between its sign and its digits, `width` characters at least.
pub open spec fn zero_padded(i: int, width: int) -> Seq<char> {
    if i < 0 {
        seq!['-'] + (fill('0', width - 1 - dec((-i) as nat).len()) + dec((-i) as nat))
    } else {
        fill('0', width - dec(i as nat).len()) + dec(i as nat)
    }
}

/// The decimal numeral of `n`.
pub fn dec_u64(n: u64) -> (r: String)
    ensures
        r@ == dec(n as nat),
    decreases n,
{
    let mut r = if n < 10 {
        String::new()
    } else {
        dec_u64(n / 10)
    };
    let d: u8 = (n % 10) as u8;
    r.push((48 + d) as char);
    assert(r@ =~= dec(n as nat));
    r
}

/// The decimal numeral of `i`.
pub fn dec_i64(i: i64) -> (r: String)
    ensures
        r@ == dec_int(i as int),
{
    if i < 0 {
        let m: u64 = (-(i as i128)) as u64;
        let mut r = String::new();
        r.push('-');
        let d = dec_u64(m);
        r.append(d.as_str());
        assert(r@ =~= seq!['-'] + dec(m as nat));
        r
    } else {
        dec_u64(i as u64)
    }
}

/// The numeral of `i`, zero padded to `width` characters.
pub fn zero_pad(i: i64, width: usize) -> (r: String)
    ensures
        r@ == zero_padded(i as int, width as int),
{
    let neg = i < 0;
    let m: u64 = if neg {
        (-(i as i128)) as u64
    } else {
        i as u64
    };
    let d = dec_u64(m);
    let room: usize = if neg && width > 0 {
        width - 1
    } else {
        width
    };
    let n: usize = crate::text::char_count(d.as_str());
    let z = repeat(
        '0',
        if n < room {
            room - n
        } else {
            0
        },
    );
    proof {
        lemma_dec_nonempty(m as nat);
    }
    let mut r = String::new();
    if neg {
        r.push('-');
    }
    r.append(z.as_str());
    r.append(d.as_str());
    assert(r@ =~= zero_padded(i as int, width as int));
    r
}

/// A numeral has at least one character.
pub proof fn lemma_dec_nonempty(n: nat)
    ensures
        dec(n).len() >= 1,
{
}

/// Every character of a numeral is a digit.
pub proof fn lemma_dec_digits(n: nat)
    ensures
        forall|i: int| 0 <= i < dec(n).len() ==> is_digit(#[trigger] dec(n)[i]),
    decreases n,
{
    if n >= 10 {
        lemma_dec_digits(n / 10);
        assert forall|i: int| 0 <= i < dec(n).len() implies is_digit(#[trigger] dec(n)[i]) by {
            if i < dec(n / 10).len() {
                assert(dec(n)[i] == dec(n / 10)[i]);
            }
        }
    }
}

// ── Reading ──────────────────────────────────────────────────────────────────

/// Whether `s` is one digit or more and nothing else.
pub open spec fn all_digits(s: Seq<char>) -> bool {
    s.len() > 0 && forall|i: int| 0 <= i < s.len() ==> is_digit(#[trigger] s[i])
}

/// The number that a string of digits stands for.
pub open spec fn digits_value(s: Seq<char>) -> nat
    decreases s.len(),
{
    if s.len() == 0 {
        0
    } else {
        digits_value(s.drop_last()) * 10 + (s.last() as nat - 48) as nat
    }
}

/// The digits behind an optional plus sign.
pub open spec fn unsigned_part(s: Seq<char>) -> Seq<char> {
    if s.len() > 0 && s[0] == '+' {
        s.skip(1)
    } else {
        s
    }
}

/// The value of an unsigned numeral, if it is one and lies in `0..=max`.
pub open spec fn read_unsigned(s: Seq<char>, max: int) -> Option<int> {
    let d = unsigned_part(s);
    if all_digits(d) && digits_value(d) <= max {
        Some(digits_value(d) as int)
    } else {
        None
    }
}

/// The value of a signed numeral, if it is one and lies in `min..=max`.
pub open spec fn read_signed(s: Seq<char>, min: int, max: int) -> Option<int> {
    if s.len() > 0 && s[0] == '-' {
        let d = s.skip(1);
        if all_digits(d) && -(digits_value(d) as int) >= min {
            Some(-(digits_value(d) as int))
        } else {
            None
        }
    } else {
        read_unsigned(s, max)
    }
}

proof fn lemma_digits_value_grows(s: Seq<char>, k: int)
    requires
        0 <= k <= s.len(),
    ensures
        digits_value(s.take(k)) <= digits_value(s),
    decreases s.len() - k,
{
    if k < s.len() {
        lemma_digits_value_grows(s, k + 1);
        assert(s.take(k + 1).drop_last() =~= s.take(k));
    } else {
        assert(s.take(k) =~= s);
    }
}

/// The value of the digits `s[from..]`, if they are digits, one at least, and not above `max`.
fn read_digits(s: &Vec<char>, from: usize, max: u64) -> (r: Option<u64>)
    requires
        from <= s@.len(),
    ensures
        match r {
            Some(v) => all_digits(s@.skip(from as int)) && digits_value(s@.skip(from as int)) == v
                && v <= max,
            None => !(all_digits(s@.skip(from as int)) && digits_value(s@.skip(from as int))
                <= max),
        },
{
    let ghost d = s@.skip(from as int);
    let n: usize = s.len();
    if from == n {
        return None;
    }
    let mut v: u64 = 0;
    let mut i: usize = from;
    assert(d.take(0) =~= Seq::<char>::empty());
    while i < n
        invariant
            n == s@.len(),
            from <= i <= n,
            d == s@.skip(from as int),
            v == digits_value(d.take(i - from)),
            v <= max,
            forall|k: int| 0 <= k < i - from ==> is_digit(#[trigger] d[k]),
        decreases n - i,
    {
        let c = s[i];
        if !digit(c) {
            assert(!is_digit(d[i - from]));
            return None;
        }
        let x: u64 = (c as u32 - 48) as u64;
        let w: u128 = v as u128 * 10 + x as u128;
        assert(d.take(i - from + 1).drop_last() =~= d.take(i - from));
        assert(d.take(i - from + 1).last() == c);
        assert(digits_value(d.take(i - from + 1)) == w);
        if w > max as u128 {
            proof {
                lemma_digits_value_grows(d, i - from + 1);
            }
            return None;
        }
        v = w as u64;
        i = i + 1;
    }
    assert(d.take(n - from) =~= d);
    Some(v)
}

/// The value of the unsigned numeral `s`, if it is one and at most `max`.
pub fn parse_unsigned(s: &Vec<char>, max: u64) -> (r: Option<u64>)
    ensures
        match r {
            Some(v) => read_unsigned(s@, max as int) == Some(v as int),
            None => read_unsigned(s@, max as int) is None,
        },
{
    if s.len() > 0 && s[0] == '+' {
        read_digits(s, 1, max)
    } else {
        assert(s@.skip(0) =~= s@);
        read_digits(s, 0, max)
    }
}

/// The value of the signed numeral `s`, if it is one and lies in `min..=max`.
pub fn parse_signed(s: &Vec<char>, min: i64, max: i64) -> (r: Option<i64>)
    requires
        min <= 0 <= max,
    ensures
        match r {
            Some(v) => read_signed(s@, min as int, max as int) == Some(v as int),
            None => read_signed(s@, min as int, max as int) is None,
        },
{
    if s.len() > 0 && s[0] == '-' {
        let m: u64 = (-(min as i128)) as u64;
        match read_digits(s, 1, m) {
            Some(v) => Some((-(v as i128)) as i64),
            None => None,
        }
    } else {
        match parse_unsigned(s, max as u64) {
            Some(v) => Some(v as i64),
            None => None,
        }
    }
}

/// Reading what was written gives the number back.
pub proof fn read_dec(n: nat)
    ensures
        all_digits(dec(n)),
        digits_value(dec(n)) == n,
        dec(n)[0] != '+',
        dec(n)[0] != '-',
    decreases n,
{
    lemma_dec_digits(n);
    lemma_dec_nonempty(n);
    if n < 10 {
        assert(dec(n).drop_last() =~= Seq::<char>::empty());
        assert(digits_value(Seq::<char>::empty()) == 0);
    } else {
        read_dec(n / 10);
        assert(dec(n).drop_last() =~= dec(n / 10));
    }
    assert(is_digit(dec(n)[0]));
}

} // verus!
