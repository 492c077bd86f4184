//! Characters and text: the small vocabulary that the rest of the library is
//! written in. Text is modelled as `Seq<char>`; executable code works on
//! `Vec<char>` and turns the result back into a `String`.
use vstd::prelude::*;

verus! {

/// `String::push` appends the given character to the end of the string.
pub assume_specification[ String::push ](s: &mut String, c: char)
    ensures
        final(s)@ == old(s)@.push(c),
;

/// The characters of a list of strings.
pub open spec fn views(v: Seq<String>) -> Seq<Seq<char>> {
    v.map_values(|s: String| s@)
}

/// The characters of an optional string.
pub open spec fn opt_view(o: Option<String>) -> Option<Seq<char>> {
    match o {
        Some(s) => Some(s@),
        None => None,
    }
}

/// The characters of an optional list of strings.
pub open spec fn opt_views(o: Option<Vec<String>>) -> Option<Seq<Seq<char>>> {
    match o {
        Some(v) => Some(views(v@)),
        None => None,
    }
}

// ── Conversions ──────────────────────────────────────────────────────────────

/// The characters of `s`, in order.
pub fn to_chars(s: &str) -> (r: Vec<char>)
    ensures
        r@ == s@,
{
    let mut r: Vec<char> = Vec::new();
    for c in it: s.chars()
        invariant
            it.seq() == s@,
            r@ == s@.take(it.index()),
    {
        r.push(c);
    }
    assert(s@.take(s@.len() as int) =~= s@);
    r
}

/// The string made of the characters `v[i..j]`.
pub fn string_from(v: &Vec<char>, i: usize, j: usize) -> (r: String)
    requires
        i <= j <= v@.len(),
    ensures
        r@ == v@.subrange(i as int, j as int),
{
    let mut r = String::new();
    let mut k: usize = i;
    while k < j
        invariant
            i <= k <= j <= v@.len(),
            r@ == v@.subrange(i as int, k as int),
        decreases j - k,
    {
        r.push(v[k]);
        k = k + 1;
        assert(v@.subrange(i as int, k as int) =~= v@.subrange(i as int, k - 1).push(v@[k - 1]));
    }
    r
}

/// The string made of all of `v`.
pub fn string_of(v: &Vec<char>) -> (r: String)
    ensures
        r@ == v@,
{
    let r = string_from(v, 0, v.len());
    assert(v@.subrange(0, v@.len() as int) =~= v@);
    r
}

/// The characters `v[i..j]`.
pub fn piece(v: &Vec<char>, i: usize, j: usize) -> (r: Vec<char>)
    requires
        i <= j <= v@.len(),
    ensures
        r@ == v@.subrange(i as int, j as int),
{
    let mut r: Vec<char> = Vec::new();
    let mut k: usize = i;
    while k < j
        invariant
            i <= k <= j <= v@.len(),
            r@ == v@.subrange(i as int, k as int),
        decreases j - k,
    {
        r.push(v[k]);
        k = k + 1;
        assert(v@.subrange(i as int, k as int) =~= v@.subrange(i as int, k - 1).push(v@[k - 1]));
    }
    r
}

/// Whether two texts are the same, character for character.
pub fn same(a: &str, b: &str) -> (r: bool)
    ensures
        r == (a@ == b@),
{
    a.to_owned() == b.to_owned()
}

/// A copy of a list of strings.
pub fn copy_strings(v: &Vec<String>) -> (r: Vec<String>)
    ensures
        views(r@) == views(v@),
        r@.len() == v@.len(),
{
    let mut r: Vec<String> = Vec::new();
    let mut i: usize = 0;
    while i < v.len()
        invariant
            i <= v@.len(),
            r@.len() == i,
            forall|k: int| 0 <= k < i ==> (#[trigger] r@[k])@ == v@[k]@,
        decreases v@.len() - i,
    {
        r.push(v[i].clone());
        i = i + 1;
    }
    assert(views(r@) =~= views(v@));
    r
}

// ── Character classes ────────────────────────────────────────────────────────

/// The characters with Unicode's `White_Space` property.
pub open spec fn is_space(c: char) -> bool {
    ||| '\u{9}' <= c <= '\u{d}'
    ||| c == ' '
    ||| c == '\u{85}'
    ||| c == '\u{a0}'
    ||| c == '\u{1680}'
    ||| '\u{2000}' <= c <= '\u{200a}'
    ||| c == '\u{2028}'
    ||| c == '\u{2029}'
    ||| c == '\u{202f}'
    ||| c == '\u{205f}'
    ||| c == '\u{3000}'
}

/// Whether `c` is white space.
pub fn space(c: char) -> (r: bool)
    ensures
        r == is_space(c),
{
    ('\u{9}' <= c && c <= '\u{d}') || c == ' ' || c == '\u{85}' || c == '\u{a0}' || c == '\u{1680}'
        || ('\u{2000}' <= c && c <= '\u{200a}') || c == '\u{2028}' || c == '\u{2029}' || c
        == '\u{202f}' || c == '\u{205f}' || c == '\u{3000}'
}

/// ASCII digits.
pub open spec fn is_digit(c: char) -> bool {
    '0' <= c <= '9'
}

/// Whether `c` is an ASCII digit.
pub fn digit(c: char) -> (r: bool)
    ensures
        r == is_digit(c),
{
    '0' <= c && c <= '9'
}

/// ASCII letters.
pub open spec fn is_alpha(c: char) -> bool {
    'a' <= c <= 'z' || 'A' <= c <= 'Z'
}

/// Whether `c` is an ASCII letter.
pub fn alpha(c: char) -> (r: bool)
    ensures
        r == is_alpha(c),
{
    ('a' <= c && c <= 'z') || ('A' <= c && c <= 'Z')
}

/// ASCII upper case of one character; any other character is itself.
pub open spec fn upper_char(c: char) -> char {
    if 'a' <= c <= 'z' {
        ((c as u32 - 32) as u32) as char
    } else {
        c
    }
}

/// ASCII upper case.
pub open spec fn upper(s: Seq<char>) -> Seq<char> {
    s.map_values(|c: char| upper_char(c))
}

/// ASCII lower case of one character; any other character is itself.
pub open spec fn lower_char(c: char) -> char {
    if 'A' <= c <= 'Z' {
        ((c as u32 + 32) as u32) as char
    } else {
        c
    }
}

/// ASCII lower case.
pub open spec fn lower(s: Seq<char>) -> Seq<char> {
    s.map_values(|c: char| lower_char(c))
}

fn upper_one(c: char) -> (r: char)
    ensures
        r == upper_char(c),
{
    if 'a' <= c && c <= 'z' {
        ((c as u8) - 32) as char
    } else {
        c
    }
}

fn lower_one(c: char) -> (r: char)
    ensures
        r == lower_char(c),
{
    if 'A' <= c && c <= 'Z' {
        ((c as u8) + 32) as char
    } else {
        c
    }
}

/// ASCII upper case of a text.
pub fn to_upper(s: &str) -> (r: String)
    ensures
        r@ == upper(s@),
{
    let v = to_chars(s);
    let mut r = String::new();
    let mut i: usize = 0;
    while i < v.len()
        invariant
            i <= v@.len(),
            v@ == s@,
            r@ == upper(s@.take(i as int)),
        decreases v@.len() - i,
    {
        r.push(upper_one(v[i]));
        i = i + 1;
        assert(upper(s@.take(i as int)) =~= upper(s@.take(i - 1)).push(upper_char(s@[i - 1])));
    }
    assert(s@.take(s@.len() as int) =~= s@);
    r
}

/// ASCII lower case of a text.
pub fn to_lower(s: &str) -> (r: String)
    ensures
        r@ == lower(s@),
{
    let v = to_chars(s);
    let mut r = String::new();
    let mut i: usize = 0;
    while i < v.len()
        invariant
            i <= v@.len(),
            v@ == s@,
            r@ == lower(s@.take(i as int)),
        decreases v@.len() - i,
    {
        r.push(lower_one(v[i]));
        i = i + 1;
        assert(lower(s@.take(i as int)) =~= lower(s@.take(i - 1)).push(lower_char(s@[i - 1])));
    }
    assert(s@.take(s@.len() as int) =~= s@);
    r
}

// ── Searching ────────────────────────────────────────────────────────────────

/// Whether `pat` stands in `s` at position `i`.
pub open spec fn occurs_at(s: Seq<char>, pat: Seq<char>, i: int) -> bool {
    0 <= i && i + pat.len() <= s.len() && s.subrange(i, i + pat.len()) == pat
}

/// Whether `pat` occurs in `s`.
pub open spec fn has(s: Seq<char>, pat: Seq<char>) -> bool {
    exists|i: int| #[trigger] occurs_at(s, pat, i)
}

/// The first position at or after `from` at which `pat` stands in `s`.
pub open spec fn find_from(s: Seq<char>, pat: Seq<char>, from: int) -> Option<int>
    decreases s.len() - from + 1,
{
    if from < 0 || from + pat.len() > s.len() {
        None
    } else if occurs_at(s, pat, from) {
        Some(from)
    } else {
        find_from(s, pat, from + 1)
    }
}

/// `find_from` gives the first occurrence, and `None` exactly when there is none.
pub proof fn find_from_is_first(s: Seq<char>, pat: Seq<char>, from: int)
    requires
        0 <= from,
    ensures
        match find_from(s, pat, from) {
            Some(i) => from <= i && occurs_at(s, pat, i) && forall|j: int|
                from <= j < i ==> !#[trigger] occurs_at(s, pat, j),
            None => forall|j: int| from <= j ==> !#[trigger] occurs_at(s, pat, j),
        },
    decreases s.len() - from + 1,
{
    if from + pat.len() > s.len() {
    } else if occurs_at(s, pat, from) {
    } else {
        find_from_is_first(s, pat, from + 1);
    }
}

/// Whether `pat` stands in `s` at position `i`.
pub fn matches_at(s: &Vec<char>, pat: &Vec<char>, i: usize) -> (r: bool)
    ensures
        r == occurs_at(s@, pat@, i as int),
{
    if pat.len() > s.len() || i > s.len() - pat.len() {
        return false;
    }
    let n: usize = s.len();
    let mut k: usize = 0;
    while k < pat.len()
        invariant
            n == s@.len(),
            k <= pat@.len(),
            i + pat@.len() <= s@.len(),
            forall|m: int| 0 <= m < k ==> s@[i + m] == #[trigger] pat@[m],
        decreases pat@.len() - k,
    {
        if s[i + k] != pat[k] {
            assert(s@.subrange(i as int, i + pat@.len())[k as int] != pat@[k as int]);
            return false;
        }
        k = k + 1;
    }
    assert(s@.subrange(i as int, i + pat@.len()) =~= pat@);
    true
}

/// The first position at or after `from` at which `pat` stands in `s`.
pub fn find(s: &Vec<char>, pat: &Vec<char>, from: usize) -> (r: Option<usize>)
    ensures
        match r {
            Some(i) => find_from(s@, pat@, from as int) == Some(i as int),
            None => find_from(s@, pat@, from as int) is None,
        },
{
    if pat.len() > s.len() {
        return None;
    }
    let last: usize = s.len() - pat.len();
    let mut i: usize = from;
    while i <= last
        invariant
            last == s@.len() - pat@.len(),
            from <= i,
            find_from(s@, pat@, from as int) == find_from(s@, pat@, i as int),
        decreases last + 1 - i,
    {
        if matches_at(s, pat, i) {
            return Some(i);
        }
        if i == last {
            assert(find_from(s@, pat@, i as int + 1) is None);
            return None;
        }
        i = i + 1;
    }
    None
}

/// Whether `pat` occurs in `s`.
pub fn contains(s: &str, pat: &str) -> (r: bool)
    ensures
        r == has(s@, pat@),
{
    let sv = to_chars(s);
    let pv = to_chars(pat);
    proof {
        find_from_is_first(s@, pat@, 0);
    }
    match find(&sv, &pv, 0) {
        Some(_) => true,
        None => false,
    }
}

/// Whether `s` begins with `pat`.
pub open spec fn is_prefix(pat: Seq<char>, s: Seq<char>) -> bool {
    occurs_at(s, pat, 0)
}

/// Whether `s` ends with `pat`.
pub open spec fn is_suffix(pat: Seq<char>, s: Seq<char>) -> bool {
    occurs_at(s, pat, s.len() - pat.len())
}

/// Whether `s` begins with `pat`.
pub fn starts_with(s: &str, pat: &str) -> (r: bool)
    ensures
        r == is_prefix(pat@, s@),
{
    matches_at(&to_chars(s), &to_chars(pat), 0)
}

/// Whether `s` ends with `pat`.
pub fn ends_with(s: &str, pat: &str) -> (r: bool)
    ensures
        r == is_suffix(pat@, s@),
{
    let sv = to_chars(s);
    let pv = to_chars(pat);
    if pv.len() > sv.len() {
        return false;
    }
    matches_at(&sv, &pv, sv.len() - pv.len())
}

/// The first position at or after `from` that holds `c`.
pub open spec fn char_from(s: Seq<char>, c: char, from: int) -> Option<int>
    decreases s.len() - from,
{
    if from < 0 || from >= s.len() {
        None
    } else if s[from] == c {
        Some(from)
    } else {
        char_from(s, c, from + 1)
    }
}

/// `char_from` gives the first position, and `None` exactly when there is none.
pub proof fn char_from_is_first(s: Seq<char>, c: char, from: int)
    requires
        0 <= from,
    ensures
        match char_from(s, c, from) {
            Some(i) => from <= i < s.len() && s[i] == c && forall|j: int|
                from <= j < i ==> #[trigger] s[j] != c,
            None => forall|j: int| from <= j < s.len() ==> #[trigger] s[j] != c,
        },
    decreases s.len() - from,
{
    if from < s.len() && s[from] != c {
        char_from_is_first(s, c, from + 1);
    }
}

/// The first position at or after `from` that holds `c`.
pub fn find_char(s: &Vec<char>, c: char, from: usize) -> (r: Option<usize>)
    ensures
        match r {
            Some(i) => char_from(s@, c, from as int) == Some(i as int) && from <= i < s@.len()
                && s@[i as int] == c,
            None => char_from(s@, c, from as int) is None,
        },
{
    let mut i: usize = from;
    while i < s.len()
        invariant
            from <= i,
            char_from(s@, c, from as int) == char_from(s@, c, i as int),
        decreases s@.len() - i,
    {
        if s[i] == c {
            return Some(i);
        }
        i = i + 1;
    }
    None
}

/// The pieces of `s` between the occurrences of `c`: at least one piece.
pub open spec fn split(s: Seq<char>, c: char) -> Seq<Seq<char>>
    decreases s.len(),
{
    match char_from(s, c, 0) {
        Some(i) => if 0 <= i < s.len() {
            seq![s.take(i)] + split(s.skip(i + 1), c)
        } else {
            seq![s]
        },
        None => seq![s],
    }
}

/// The piece before the first `c` comes first.
pub proof fn split_front(p: Seq<char>, c: char, rest: Seq<char>)
    requires
        !p.contains(c),
    ensures
        split(p + (seq![c] + rest), c) == seq![p] + split(rest, c),
{
    let s = p + (seq![c] + rest);
    char_from_is_first(s, c, 0);
    assert(s[p.len() as int] == c);
    let i = char_from(s, c, 0)->0;
    assert(i == p.len()) by {
        if i < p.len() {
            assert(s[i] == p[i]);
        }
    }
    assert(s.take(i) =~= p);
    assert(s.skip(i + 1) =~= rest);
}

/// A text without `c` is one piece.
pub proof fn split_whole(p: Seq<char>, c: char)
    requires
        !p.contains(c),
    ensures
        split(p, c) == seq![p],
{
    char_from_is_first(p, c, 0);
}

/// The views of a list of character vectors.
pub open spec fn pieces(v: Seq<Vec<char>>) -> Seq<Seq<char>> {
    v.map_values(|x: Vec<char>| x@)
}

/// The pieces of `s` between the occurrences of `c`.
pub fn split_on(s: &Vec<char>, c: char) -> (r: Vec<Vec<char>>)
    ensures
        pieces(r@) == split(s@, c),
        r@.len() >= 1,
{
    let mut r: Vec<Vec<char>> = Vec::new();
    let n: usize = s.len();
    let mut start: usize = 0;
    assert(s@.skip(0) =~= s@);
    assert(pieces(r@) + split(s@.skip(start as int), c) =~= split(s@, c));
    loop
        invariant
            n == s@.len(),
            start <= n,
            split(s@, c) == pieces(r@) + split(s@.skip(start as int), c),
        decreases s@.len() - start,
    {
        let ghost rest = s@.skip(start as int);
        proof {
            lemma_char_from_skip(s@, c, start as int, 0);
        }
        match find_char(s, c, start) {
            Some(i) => {
                assert(rest.take(i - start) =~= s@.subrange(start as int, i as int));
                assert(rest.skip(i - start + 1) =~= s@.skip(i as int + 1));
                let ghost before = pieces(r@);
                r.push(piece(s, start, i));
                assert(pieces(r@) =~= before.push(s@.subrange(start as int, i as int)));
                assert(before + (seq![rest.take(i - start)] + split(s@.skip(i as int + 1), c))
                    =~= pieces(r@) + split(s@.skip(i as int + 1), c));
                start = i + 1;
            },
            None => {
                assert(rest =~= s@.subrange(start as int, s@.len() as int));
                let ghost before = pieces(r@);
                r.push(piece(s, start, s.len()));
                assert(pieces(r@) =~= before + seq![rest]);
                return r;
            },
        }
    }
}

proof fn lemma_char_from_skip(s: Seq<char>, c: char, start: int, from: int)
    requires
        0 <= start <= s.len(),
        0 <= from,
    ensures
        char_from(s.skip(start), c, from) == match char_from(s, c, start + from) {
            Some(i) => Some(i - start),
            None => None,
        },
    decreases s.len() - start - from,
{
    if from < s.skip(start).len() && s.skip(start)[from] != c {
        lemma_char_from_skip(s, c, start, from + 1);
    }
}

// ── Trimming, lines, joining, padding ────────────────────────────────────────

/// `s` without the white space at its front.
pub open spec fn trimmed_start(s: Seq<char>) -> Seq<char>
    decreases s.len(),
{
    if s.len() > 0 && is_space(s[0]) {
        trimmed_start(s.skip(1))
    } else {
        s
    }
}

/// `s` without the white space at its end.
pub open spec fn trimmed_end(s: Seq<char>) -> Seq<char>
    decreases s.len(),
{
    if s.len() > 0 && is_space(s.last()) {
        trimmed_end(s.drop_last())
    } else {
        s
    }
}

/// `s` without the white space at both ends.
pub open spec fn trimmed(s: Seq<char>) -> Seq<char> {
    trimmed_end(trimmed_start(s))
}

/// `v` without the white space at its end.
pub fn trim_end(v: &Vec<char>) -> (r: Vec<char>)
    ensures
        r@ == trimmed_end(v@),
{
    let mut j: usize = v.len();
    assert(v@.take(j as int) =~= v@);
    while j > 0 && space(v[j - 1])
        invariant
            j <= v@.len(),
            trimmed_end(v@) == trimmed_end(v@.take(j as int)),
        decreases j,
    {
        assert(v@.take(j as int).drop_last() =~= v@.take(j - 1));
        j = j - 1;
    }
    let r = piece(v, 0, j);
    assert(r@ =~= v@.take(j as int));
    r
}

/// `v` without the white space at its front.
pub fn trim_start(v: &Vec<char>) -> (r: Vec<char>)
    ensures
        r@ == trimmed_start(v@),
{
    let n: usize = v.len();
    let mut i: usize = 0;
    assert(v@.skip(0) =~= v@);
    while i < n && space(v[i])
        invariant
            n == v@.len(),
            i <= n,
            trimmed_start(v@) == trimmed_start(v@.skip(i as int)),
        decreases n - i,
    {
        assert(v@.skip(i as int).skip(1) =~= v@.skip(i + 1));
        i = i + 1;
    }
    let r = piece(v, i, n);
    assert(r@ =~= v@.skip(i as int));
    r
}

/// `v` without the white space at both ends.
pub fn trim(v: &Vec<char>) -> (r: Vec<char>)
    ensures
        r@ == trimmed(v@),
{
    trim_end(&trim_start(v))
}

/// `s` without the white space at both ends.
pub fn trim_str(s: &str) -> (r: String)
    ensures
        r@ == trimmed(s@),
{
    string_of(&trim(&to_chars(s)))
}

/// `s` without the characters `c` at its front.
pub open spec fn stripped_start(s: Seq<char>, c: char) -> Seq<char>
    decreases s.len(),
{
    if s.len() > 0 && s[0] == c {
        stripped_start(s.skip(1), c)
    } else {
        s
    }
}

/// `s` without the characters `c` at its end.
pub open spec fn stripped_end(s: Seq<char>, c: char) -> Seq<char>
    decreases s.len(),
{
    if s.len() > 0 && s.last() == c {
        stripped_end(s.drop_last(), c)
    } else {
        s
    }
}

/// `s` without the characters `c` at both ends.
pub open spec fn stripped(s: Seq<char>, c: char) -> Seq<char> {
    stripped_end(stripped_start(s, c), c)
}

/// `v` without the characters `c` at its end.
pub fn strip_end(v: &Vec<char>, c: char) -> (r: Vec<char>)
    ensures
        r@ == stripped_end(v@, c),
{
    let mut j: usize = v.len();
    assert(v@.take(j as int) =~= v@);
    while j > 0 && v[j - 1] == c
        invariant
            j <= v@.len(),
            stripped_end(v@, c) == stripped_end(v@.take(j as int), c),
        decreases j,
    {
        assert(v@.take(j as int).drop_last() =~= v@.take(j - 1));
        j = j - 1;
    }
    let r = piece(v, 0, j);
    assert(r@ =~= v@.take(j as int));
    r
}

/// `v` without the characters `c` at both ends.
pub fn strip_both(v: &Vec<char>, c: char) -> (r: Vec<char>)
    ensures
        r@ == stripped(v@, c),
{
    let n: usize = v.len();
    let mut i: usize = 0;
    assert(v@.skip(0) =~= v@);
    while i < n && v[i] == c
        invariant
            n == v@.len(),
            i <= n,
            stripped_start(v@, c) == stripped_start(v@.skip(i as int), c),
        decreases n - i,
    {
        assert(v@.skip(i as int).skip(1) =~= v@.skip(i + 1));
        i = i + 1;
    }
    let r = piece(v, i, n);
    assert(r@ =~= v@.skip(i as int));
    strip_end(&r, c)
}

/// The last position before `to` that holds `c`.
pub open spec fn last_char(s: Seq<char>, c: char, to: int) -> Option<int>
    decreases to,
{
    if to <= 0 || to > s.len() {
        None
    } else if s[to - 1] == c {
        Some(to - 1)
    } else {
        last_char(s, c, to - 1)
    }
}

/// The last position that holds `c`.
pub fn rfind_char(s: &Vec<char>, c: char) -> (r: Option<usize>)
    ensures
        match r {
            Some(i) => last_char(s@, c, s@.len() as int) == Some(i as int) && i < s@.len(),
            None => last_char(s@, c, s@.len() as int) is None,
        },
{
    let mut j: usize = s.len();
    while j > 0
        invariant
            j <= s@.len(),
            last_char(s@, c, s@.len() as int) == last_char(s@, c, j as int),
        decreases j,
    {
        if s[j - 1] == c {
            return Some(j - 1);
        }
        j = j - 1;
    }
    None
}

/// A line's text without the carriage return before its line feed.
pub open spec fn without_cr(s: Seq<char>) -> Seq<char> {
    if s.len() > 0 && s.last() == '\r' {
        s.drop_last()
    } else {
        s
    }
}

/// The lines of a text: each ends at `\n` or `\r\n`, the last one also at the end.
pub open spec fn line_seq(s: Seq<char>) -> Seq<Seq<char>>
    decreases s.len(),
{
    if s.len() == 0 {
        Seq::empty()
    } else {
        match char_from(s, '\n', 0) {
            Some(i) => if 0 <= i < s.len() {
                seq![without_cr(s.take(i))] + line_seq(s.skip(i + 1))
            } else {
                seq![s]
            },
            None => seq![s],
        }
    }
}

/// The lines of a text.
pub fn lines(s: &Vec<char>) -> (r: Vec<Vec<char>>)
    ensures
        pieces(r@) == line_seq(s@),
{
    let mut r: Vec<Vec<char>> = Vec::new();
    let n: usize = s.len();
    let mut start: usize = 0;
    assert(s@.skip(0) =~= s@);
    assert(pieces(r@) + line_seq(s@.skip(start as int)) =~= line_seq(s@));
    while start < n
        invariant
            n == s@.len(),
            start <= n,
            line_seq(s@) == pieces(r@) + line_seq(s@.skip(start as int)),
        decreases n - start,
    {
        let ghost rest = s@.skip(start as int);
        let ghost before = pieces(r@);
        proof {
            lemma_char_from_skip(s@, '\n', start as int, 0);
        }
        match find_char(s, '\n', start) {
            Some(i) => {
                assert(rest.take(i - start) =~= s@.subrange(start as int, i as int));
                assert(rest.skip(i - start + 1) =~= s@.skip(i as int + 1));
                let end: usize = if i > start && s[i - 1] == '\r' {
                    i - 1
                } else {
                    i
                };
                assert(without_cr(rest.take(i - start)) =~= s@.subrange(start as int, end as int));
                r.push(piece(s, start, end));
                assert(pieces(r@) =~= before.push(s@.subrange(start as int, end as int)));
                assert(before + (seq![without_cr(rest.take(i - start))] + line_seq(
                    s@.skip(i as int + 1),
                )) =~= pieces(r@) + line_seq(s@.skip(i as int + 1)));
                start = i + 1;
            },
            None => {
                assert(rest =~= s@.subrange(start as int, s@.len() as int));
                r.push(piece(s, start, n));
                assert(pieces(r@) =~= before + seq![rest]);
                assert(s@.skip(n as int) =~= Seq::<char>::empty());
                assert(pieces(r@) + line_seq(s@.skip(n as int)) =~= pieces(r@));
                start = n;
            },
        }
    }
    assert(pieces(r@) + line_seq(s@.skip(n as int)) =~= pieces(r@));
    r
}

/// The texts one after another with `sep` between neighbours.
pub open spec fn joined(v: Seq<Seq<char>>, sep: Seq<char>) -> Seq<char>
    decreases v.len(),
{
    if v.len() == 0 {
        Seq::empty()
    } else if v.len() == 1 {
        v[0]
    } else {
        joined(v.drop_last(), sep) + sep + v.last()
    }
}

/// The texts one after another with `sep` between neighbours.
pub fn join(v: &Vec<String>, sep: &str) -> (r: String)
    ensures
        r@ == joined(views(v@), sep@),
{
    let mut r = String::new();
    let mut i: usize = 0;
    while i < v.len()
        invariant
            i <= v@.len(),
            r@ == joined(views(v@).take(i as int), sep@),
        decreases v@.len() - i,
    {
        let ghost prefix = views(v@).take(i + 1);
        assert(prefix.drop_last() =~= views(v@).take(i as int));
        assert(prefix.last() == v@[i as int]@);
        if i == 0 {
            r = v[i].clone();
        } else {
            r.append(sep);
            r.append(v[i].as_str());
        }
        i = i + 1;
    }
    assert(views(v@).take(i as int) =~= views(v@));
    r
}

/// `n` copies of `c`.
pub open spec fn fill(c: char, n: int) -> Seq<char> {
    if n <= 0 {
        Seq::empty()
    } else {
        Seq::new(n as nat, |i: int| c)
    }
}

/// `s` followed by as many spaces as make it `width` characters wide.
pub open spec fn left_aligned(s: Seq<char>, width: int) -> Seq<char> {
    s + fill(' ', width - s.len())
}

/// `s` preceded by as many spaces as make it `width` characters wide.
pub open spec fn right_aligned(s: Seq<char>, width: int) -> Seq<char> {
    fill(' ', width - s.len()) + s
}

/// `n` copies of `c`.
pub fn repeat(c: char, n: usize) -> (r: String)
    ensures
        r@ == fill(c, n as int),
{
    let mut r = String::new();
    let mut i: usize = 0;
    while i < n
        invariant
            i <= n,
            r@ == fill(c, i as int),
        decreases n - i,
    {
        r.push(c);
        i = i + 1;
        assert(fill(c, i as int) =~= fill(c, i - 1).push(c));
    }
    r
}

/// The number of characters of `s`.
pub fn char_count(s: &str) -> (r: usize)
    ensures
        r == s@.len(),
{
    to_chars(s).len()
}

/// `s` followed by as many spaces as make it `width` characters wide.
pub fn pad_right(s: &str, width: usize) -> (r: String)
    ensures
        r@ == left_aligned(s@, width as int),
{
    let n: usize = char_count(s);
    let mut r = s.to_owned();
    if n < width {
        let f = repeat(' ', width - n);
        r.append(f.as_str());
    } else {
        assert(s@ + fill(' ', width - s@.len()) =~= s@);
    }
    r
}

/// `s` preceded by as many spaces as make it `width` characters wide.
pub fn pad_left(s: &str, width: usize) -> (r: String)
    ensures
        r@ == right_aligned(s@, width as int),
{
    let n: usize = char_count(s);
    if n < width {
        let mut r = repeat(' ', width - n);
        r.append(s);
        r
    } else {
        assert(fill(' ', width - s@.len()) + s@ =~= s@);
        s.to_owned()
    }
}

/// A list of one text.
pub fn list_of_one(a: &str) -> (r: Vec<String>)
    ensures
        views(r@) == seq![a@],
{
    let mut r: Vec<String> = Vec::new();
    r.push(a.to_owned());
    assert(views(r@) =~= seq![a@]);
    r
}

/// A list of two texts.
pub fn list_of_two(a: &str, b: &str) -> (r: Vec<String>)
    ensures
        views(r@) == seq![a@, b@],
{
    let mut r = list_of_one(a);
    let ghost before = views(r@);
    r.push(b.to_owned());
    assert(views(r@) =~= before.push(b@));
    assert(views(r@) =~= seq![a@, b@]);
    r
}

/// A list of three texts.
pub fn list_of_three(a: &str, b: &str, c: &str) -> (r: Vec<String>)
    ensures
        views(r@) == seq![a@, b@, c@],
{
    let mut r = list_of_two(a, b);
    let ghost before = views(r@);
    r.push(c.to_owned());
    assert(views(r@) =~= before.push(c@));
    assert(views(r@) =~= seq![a@, b@, c@]);
    r
}

/// A list of four texts.
pub fn list_of_four(a: &str, b: &str, c: &str, d: &str) -> (r: Vec<String>)
    ensures
        views(r@) == seq![a@, b@, c@, d@],
{
    let mut r = list_of_three(a, b, c);
    let ghost before = views(r@);
    r.push(d.to_owned());
    assert(views(r@) =~= before.push(d@));
    assert(views(r@) =~= seq![a@, b@, c@, d@]);
    r
}

} // verus!
