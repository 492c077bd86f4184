//! What holds of every search: its SQL never holds a value, its names are
//! always valid, every tree can be written down, and quotes and redundant
//! parentheses leave no trace.
use vstd::prelude::*;

use crate::db::{cidr_answer, MatchMode};
use crate::number::dec;
use crate::query::{cond_params, cond_sql, expr_params, expr_sql};
use crate::query::{query_sql, CondV, ExprV, QueryV};
use crate::query_lexer::{token_at, tokens_from, word_char, word_end, word_start, word_token, TokV};
use crate::query_parser::{and_from, and_rest, args_from, call_cond};
use crate::query_parser::{field_error, group_from, limit_from, meaning, name_from, names_from};
use crate::query_parser::{not_from, or_from, or_rest, predicate_from, primary_from, query_of};
use crate::query_parser::{select_from, sql_ident, text_at, tok_at, Parsed};
use crate::text::{char_from, char_from_is_first, is_space, lower, upper};

verus! {

// ── Values are bound, never written into the SQL ─────────────────────────────

/// Whether two trees differ at most in their values: same operators, fields
/// and comparison modes.
pub open spec fn same_shape(a: ExprV, b: ExprV) -> bool
    decreases a,
{
    match (a, b) {
        (ExprV::And(x, y), ExprV::And(z, w)) => same_shape(*x, *z) && same_shape(*y, *w),
        (ExprV::Or(x, y), ExprV::Or(z, w)) => same_shape(*x, *z) && same_shape(*y, *w),
        (ExprV::Not(x), ExprV::Not(z)) => same_shape(*x, *z),
        (ExprV::Cond(c), ExprV::Cond(d)) => match (c, d) {
            (
                CondV::Field { field, value, mode },
                CondV::Field { field: f2, value: v2, mode: m2 },
            ) => field == f2 && mode == m2,
            (CondV::Text { needle }, CondV::Text { needle: n2 }) => true,
            _ => false,
        },
        _ => false,
    }
}

/// Values never reach the SQL text: trees that differ only in their values
/// have the same SQL.
pub proof fn values_are_never_inline(a: ExprV, b: ExprV)
    requires
        same_shape(a, b),
    ensures
        expr_sql(a) == expr_sql(b),
    decreases a,
{
    match (a, b) {
        (ExprV::And(x, y), ExprV::And(z, w)) => {
            values_are_never_inline(*x, *z);
            values_are_never_inline(*y, *w);
        },
        (ExprV::Or(x, y), ExprV::Or(z, w)) => {
            values_are_never_inline(*x, *z);
            values_are_never_inline(*y, *w);
        },
        (ExprV::Not(x), ExprV::Not(z)) => {
            values_are_never_inline(*x, *z);
        },
        _ => {},
    }
}

/// How often `c` stands in the first `n` characters of `s`.
pub open spec fn count_in(s: Seq<char>, c: char, n: int) -> int
    decreases n,
{
    if n <= 0 {
        0
    } else {
        count_in(s, c, n - 1) + if s[n - 1] == c {
            1int
        } else {
            0int
        }
    }
}

/// How often `c` stands in `s`.
pub open spec fn count(s: Seq<char>, c: char) -> int {
    count_in(s, c, s.len() as int)
}

proof fn lemma_count_in_prefix(a: Seq<char>, b: Seq<char>, c: char, n: int)
    requires
        0 <= n <= a.len(),
    ensures
        count_in(a + b, c, n) == count_in(a, c, n),
    decreases n,
{
    if n > 0 {
        lemma_count_in_prefix(a, b, c, n - 1);
    }
}

proof fn lemma_count_in_suffix(a: Seq<char>, b: Seq<char>, c: char, n: int)
    requires
        0 <= n <= b.len(),
    ensures
        count_in(a + b, c, a.len() + n) == count(a, c) + count_in(b, c, n),
    decreases n,
{
    if n > 0 {
        lemma_count_in_suffix(a, b, c, n - 1);
        assert((a + b)[a.len() + n - 1] == b[n - 1]);
    } else {
        lemma_count_in_prefix(a, b, c, a.len() as int);
    }
}

/// Occurrences add up over concatenation.
proof fn lemma_count_concat(a: Seq<char>, b: Seq<char>, c: char)
    ensures
        count(a + b, c) == count(a, c) + count(b, c),
{
    lemma_count_in_suffix(a, b, c, b.len() as int);
}

proof fn lemma_count_none(s: Seq<char>, c: char, n: int)
    requires
        n <= s.len(),
        forall|i: int| 0 <= i < s.len() ==> #[trigger] s[i] != c,
    ensures
        count_in(s, c, n) == 0,
    decreases n,
{
    if n > 0 {
        lemma_count_none(s, c, n - 1);
    }
}

/// Whether every field of a tree is a bare SQL identifier.
pub open spec fn fields_are_idents(e: ExprV) -> bool
    decreases e,
{
    match e {
        ExprV::And(a, b) => fields_are_idents(*a) && fields_are_idents(*b),
        ExprV::Or(a, b) => fields_are_idents(*a) && fields_are_idents(*b),
        ExprV::Not(a) => fields_are_idents(*a),
        ExprV::Cond(CondV::Field { field, value, mode }) => sql_ident(field),
        ExprV::Cond(CondV::Text { needle }) => true,
    }
}

proof fn lemma_cond_placeholders(c: CondV)
    requires
        c matches CondV::Field { field, value, mode } ==> sql_ident(field),
    ensures
        count(cond_sql(c), '?') == cond_params(c).len(),
{
    reveal_with_fuel(count_in, 40);
    match c {
        CondV::Field { field, value, mode } => {
            lemma_count_none(field, '?', field.len() as int);
            match mode {
                MatchMode::Exact => {
                    reveal_strlit(" = ?");
                    lemma_count_concat(field, " = ?"@, '?');
                },
                MatchMode::NotExact => {
                    reveal_strlit(" != ?");
                    lemma_count_concat(field, " != ?"@, '?');
                },
                MatchMode::StartsWith => {
                    reveal_strlit(" LIKE ?");
                    lemma_count_concat(field, " LIKE ?"@, '?');
                },
                MatchMode::EndsWith => {
                    reveal_strlit(" LIKE ?");
                    lemma_count_concat(field, " LIKE ?"@, '?');
                },
                MatchMode::Contains => {
                    reveal_strlit(" LIKE ? COLLATE NOCASE");
                    lemma_count_concat(field, " LIKE ? COLLATE NOCASE"@, '?');
                },
                MatchMode::Cidr => {
                    reveal_strlit("cidr_match(");
                    reveal_strlit(", ?)");
                    lemma_count_concat("cidr_match("@, field, '?');
                    lemma_count_concat("cidr_match("@ + field, ", ?)"@, '?');
                },
                MatchMode::Any => {
                    reveal_strlit(" != ''");
                    lemma_count_concat(field, " != ''"@, '?');
                },
            }
        },
        CondV::Text { needle } => {
            reveal_strlit("raw_contains(raw_file, byte_offset, ?)");
        },
    }
}

/// A tree's SQL has one placeholder for each bound value.
pub proof fn one_placeholder_per_value(e: ExprV)
    requires
        fields_are_idents(e),
    ensures
        count(expr_sql(e), '?') == expr_params(e).len(),
    decreases e,
{
    match e {
        ExprV::And(a, b) => {
            one_placeholder_per_value(*a);
            one_placeholder_per_value(*b);
            lemma_binary_count(expr_sql(*a), " AND "@, expr_sql(*b));
            assert(count(" AND "@, '?') == 0) by {
                reveal_strlit(" AND ");
                reveal_with_fuel(count_in, 8);
            }
        },
        ExprV::Or(a, b) => {
            one_placeholder_per_value(*a);
            one_placeholder_per_value(*b);
            lemma_binary_count(expr_sql(*a), " OR "@, expr_sql(*b));
            assert(count(" OR "@, '?') == 0) by {
                reveal_strlit(" OR ");
                reveal_with_fuel(count_in, 8);
            }
        },
        ExprV::Not(a) => {
            one_placeholder_per_value(*a);
            lemma_count_concat("(NOT "@, expr_sql(*a), '?');
            lemma_count_concat("(NOT "@ + expr_sql(*a), ")"@, '?');
            assert(count("(NOT "@, '?') == 0 && count(")"@, '?') == 0) by {
                reveal_strlit("(NOT ");
                reveal_strlit(")");
                reveal_with_fuel(count_in, 8);
            }
        },
        ExprV::Cond(c) => {
            lemma_cond_placeholders(c);
        },
    }
}

proof fn lemma_binary_count(a: Seq<char>, op: Seq<char>, b: Seq<char>)
    ensures
        count("("@ + a + op + b + ")"@, '?') == count(a, '?') + count(op, '?') + count(b, '?'),
{
    lemma_count_concat("("@, a, '?');
    lemma_count_concat("("@ + a, op, '?');
    lemma_count_concat("("@ + a + op, b, '?');
    lemma_count_concat("("@ + a + op + b, ")"@, '?');
    assert(count("("@, '?') == 0 && count(")"@, '?') == 0) by {
        reveal_strlit("(");
        reveal_strlit(")");
        reveal_with_fuel(count_in, 8);
    }
}

// ── A parsed search names only valid fields ──────────────────────────────────

/// Whether every field of a tree is a bare identifier and, when any fields are
/// known, one of them.
pub open spec fn fields_are_valid(e: ExprV, valid: Seq<Seq<char>>) -> bool
    decreases e,
{
    match e {
        ExprV::And(a, b) => fields_are_valid(*a, valid) && fields_are_valid(*b, valid),
        ExprV::Or(a, b) => fields_are_valid(*a, valid) && fields_are_valid(*b, valid),
        ExprV::Not(a) => fields_are_valid(*a, valid),
        ExprV::Cond(CondV::Field { field, value, mode }) => field_error(field, valid) is None,
        ExprV::Cond(CondV::Text { needle }) => true,
    }
}

proof fn lemma_primary_valid(ts: Seq<TokV>, i: int, valid: Seq<Seq<char>>)
    ensures
        primary_from(ts, i, valid) matches Ok((e, j)) ==> fields_are_valid(e, valid),
    decreases ts.len() - i, 0int,
{
    if tok_at(ts, i) == Some(TokV::LParen) {
        lemma_or_valid(ts, i + 1, valid);
    }
}

proof fn lemma_not_valid(ts: Seq<TokV>, i: int, valid: Seq<Seq<char>>)
    ensures
        not_from(ts, i, valid) matches Ok((e, j)) ==> fields_are_valid(e, valid),
    decreases ts.len() - i, 1int,
{
    if tok_at(ts, i) == Some(TokV::Not) {
        lemma_primary_valid(ts, i + 1, valid);
    } else {
        lemma_primary_valid(ts, i, valid);
    }
}

proof fn lemma_and_rest_valid(ts: Seq<TokV>, i: int, left: ExprV, valid: Seq<Seq<char>>)
    requires
        fields_are_valid(left, valid),
    ensures
        and_rest(ts, i, left, valid) matches Ok((e, j)) ==> fields_are_valid(e, valid),
    decreases ts.len() - i, 2int,
{
    if tok_at(ts, i) == Some(TokV::And) {
        lemma_not_valid(ts, i + 1, valid);
        if let Ok((right, j)) = not_from(ts, i + 1, valid) {
            if i < j <= ts.len() {
                lemma_and_rest_valid(ts, j, ExprV::And(Box::new(left), Box::new(right)), valid);
            }
        }
    }
}

proof fn lemma_and_valid(ts: Seq<TokV>, i: int, valid: Seq<Seq<char>>)
    ensures
        and_from(ts, i, valid) matches Ok((e, j)) ==> fields_are_valid(e, valid),
    decreases ts.len() - i, 3int,
{
    lemma_not_valid(ts, i, valid);
    if let Ok((left, j)) = not_from(ts, i, valid) {
        if i < j <= ts.len() {
            lemma_and_rest_valid(ts, j, left, valid);
        }
    }
}

proof fn lemma_or_rest_valid(ts: Seq<TokV>, i: int, left: ExprV, valid: Seq<Seq<char>>)
    requires
        fields_are_valid(left, valid),
    ensures
        or_rest(ts, i, left, valid) matches Ok((e, j)) ==> fields_are_valid(e, valid),
    decreases ts.len() - i, 4int,
{
    if tok_at(ts, i) == Some(TokV::Or) {
        lemma_and_valid(ts, i + 1, valid);
        if let Ok((right, j)) = and_from(ts, i + 1, valid) {
            if i < j <= ts.len() {
                lemma_or_rest_valid(ts, j, ExprV::Or(Box::new(left), Box::new(right)), valid);
            }
        }
    }
}

proof fn lemma_or_valid(ts: Seq<TokV>, i: int, valid: Seq<Seq<char>>)
    ensures
        or_from(ts, i, valid) matches Ok((e, j)) ==> fields_are_valid(e, valid),
    decreases ts.len() - i, 5int,
{
    lemma_and_valid(ts, i, valid);
    if let Ok((left, j)) = and_from(ts, i, valid) {
        if i < j <= ts.len() {
            lemma_or_rest_valid(ts, j, left, valid);
        }
    }
}

proof fn lemma_names_valid(
    ts: Seq<TokV>,
    i: int,
    acc: Seq<Seq<char>>,
    valid: Seq<Seq<char>>,
)
    requires
        forall|k: int| 0 <= k < acc.len() ==> field_error(#[trigger] acc[k], valid) is None,
    ensures
        names_from(ts, i, acc, valid, false) matches Ok((v, j)) ==> forall|k: int|
            0 <= k < v.len() ==> field_error(#[trigger] v[k], valid) is None,
    decreases ts.len() - i,
{
    if let Ok((name, j)) = name_from(ts, i, valid, false) {
        if tok_at(ts, i + 1) == Some(TokV::Comma) {
            lemma_names_valid(ts, i + 2, acc.push(name), valid);
        }
    }
}

/// A search that parses names only valid fields, in its predicate and in its
/// grouping: what is written into SQL is a bare identifier.
pub proof fn parsed_fields_are_valid(ts: Seq<TokV>, valid: Seq<Seq<char>>, q: QueryV)
    requires
        query_of(ts, valid) == Ok::<QueryV, Seq<char>>(q),
    ensures
        q.expr matches Some(e) ==> fields_are_valid(e, valid) && fields_are_idents(e),
        q.group_by matches Some(v) ==> forall|k: int|
            0 <= k < v.len() ==> field_error(#[trigger] v[k], valid) is None && sql_ident(v[k]),
{
    let (select, i0) = select_from(ts, 0, valid)->Ok_0;
    let i1 = if tok_at(ts, i0) == Some(TokV::Where) {
        i0 + 1
    } else {
        i0
    };
    lemma_or_valid(ts, i1, valid);
    let (expr, i2) = predicate_from(ts, i1, valid)->Ok_0;
    assert(q.expr == expr);
    if let Some(e) = expr {
        lemma_valid_are_idents(e, valid);
    }
    lemma_names_valid(ts, i2 + 2, Seq::empty(), valid);
}

proof fn lemma_valid_are_idents(e: ExprV, valid: Seq<Seq<char>>)
    requires
        fields_are_valid(e, valid),
    ensures
        fields_are_idents(e),
    decreases e,
{
    match e {
        ExprV::And(a, b) => {
            lemma_valid_are_idents(*a, valid);
            lemma_valid_are_idents(*b, valid);
        },
        ExprV::Or(a, b) => {
            lemma_valid_are_idents(*a, valid);
            lemma_valid_are_idents(*b, valid);
        },
        ExprV::Not(a) => {
            lemma_valid_are_idents(*a, valid);
        },
        ExprV::Cond(_) => {},
    }
}

/// A limit is part of the SQL only of a search that does not group.
pub proof fn grouped_sql_has_no_limit(q: QueryV, limit: Option<int>)
    requires
        q.group_by is Some,
    ensures
        query_sql(q) == query_sql((QueryV { limit, ..q })),
{
}

// ── Precedence, keywords ─────────────────────────────────────────────────────

/// `AND` binds tighter than `OR`: an `OR` between two conjunctions takes each
/// conjunction whole.
pub proof fn and_binds_tighter_than_or(
    ts: Seq<TokV>,
    i: int,
    valid: Seq<Seq<char>>,
    left: ExprV,
    j: int,
    right: ExprV,
    k: int,
)
    requires
        and_from(ts, i, valid) == Ok::<(ExprV, int), Seq<char>>((left, j)),
        i < j <= ts.len(),
        tok_at(ts, j) == Some(TokV::Or),
        and_from(ts, j + 1, valid) == Ok::<(ExprV, int), Seq<char>>((right, k)),
        j < k <= ts.len(),
        tok_at(ts, k) != Some(TokV::Or),
    ensures
        or_from(ts, i, valid) == Ok::<(ExprV, int), Seq<char>>(
            (ExprV::Or(Box::new(left), Box::new(right)), k),
        ),
{
    reveal_with_fuel(or_rest, 3);
}

/// Keywords are case-insensitive: words with the same upper-case spelling are
/// the same keyword, or both are plain words.
pub proof fn keywords_ignore_case(a: Seq<char>, b: Seq<char>)
    requires
        upper(a) == upper(b),
    ensures
        word_token(a) == word_token(b) || (word_token(a) == TokV::Word(a) && word_token(b)
            == TokV::Word(b)),
{
}

// ── Every tree can be written ────────────────────────────────────────────────

/// Whether a tree is one that a query text can mean.
pub open spec fn writable(e: ExprV, valid: Seq<Seq<char>>) -> bool
    decreases e,
{
    match e {
        ExprV::And(a, b) => writable(*a, valid) && writable(*b, valid),
        ExprV::Or(a, b) => writable(*a, valid) && writable(*b, valid),
        ExprV::Not(a) => writable(*a, valid),
        ExprV::Cond(CondV::Field { field, value, mode }) => {
            &&& field_error(field, valid) is None
            &&& mode == MatchMode::Any ==> value.len() == 0
            &&& mode == MatchMode::Cidr ==> cidr_answer(value, "0.0.0.0"@) is Ok
        },
        ExprV::Cond(CondV::Text { needle }) => true,
    }
}

/// The tokens of a call with a field and a value.
pub open spec fn call_tokens(name: Seq<char>, field: Seq<char>, value: Seq<char>) -> Seq<TokV> {
    seq![
        TokV::Word(name),
        TokV::LParen,
        TokV::Word(field),
        TokV::Comma,
        TokV::Str(value),
        TokV::RParen,
    ]
}

/// The tokens of a leaf.
pub open spec fn cond_tokens(c: CondV) -> Seq<TokV> {
    match c {
        CondV::Field { field, value, mode } => match mode {
            MatchMode::Exact => seq![TokV::Word(field), TokV::Eq, TokV::Str(value)],
            MatchMode::NotExact => seq![TokV::Word(field), TokV::Ne, TokV::Str(value)],
            MatchMode::StartsWith => call_tokens("startswith"@, field, value),
            MatchMode::EndsWith => call_tokens("endswith"@, field, value),
            MatchMode::Contains => call_tokens("contains"@, field, value),
            MatchMode::Cidr => call_tokens("cidr_match"@, field, value),
            MatchMode::Any => seq![
                TokV::Word("any"@),
                TokV::LParen,
                TokV::Word(field),
                TokV::RParen,
            ],
        },
        CondV::Text { needle } => seq![
            TokV::Word("raw_contains"@),
            TokV::LParen,
            TokV::Str(needle),
            TokV::RParen,
        ],
    }
}

/// The tokens of a tree, every operand but a leaf in parentheses.
pub open spec fn expr_tokens(e: ExprV) -> Seq<TokV>
    decreases e, 0int,
{
    match e {
        ExprV::And(a, b) => operand_tokens(*a) + seq![TokV::And] + operand_tokens(*b),
        ExprV::Or(a, b) => operand_tokens(*a) + seq![TokV::Or] + operand_tokens(*b),
        ExprV::Not(a) => seq![TokV::Not] + operand_tokens(*a),
        ExprV::Cond(c) => cond_tokens(c),
    }
}

/// The tokens of an operand.
pub open spec fn operand_tokens(e: ExprV) -> Seq<TokV>
    decreases e, 1int,
{
    match e {
        ExprV::Cond(c) => cond_tokens(c),
        _ => seq![TokV::LParen] + expr_tokens(e) + seq![TokV::RParen],
    }
}

/// Whether the tokens `w` stand in `ts` at position `i`.
pub open spec fn stand_at(ts: Seq<TokV>, i: int, w: Seq<TokV>) -> bool {
    0 <= i && i + w.len() <= ts.len() && forall|k: int|
        0 <= k < w.len() ==> #[trigger] ts[i + k] == w[k]
}

proof fn lemma_function_names()
    ensures
        lower("startswith"@) == "startswith"@,
        lower("endswith"@) == "endswith"@,
        lower("contains"@) == "contains"@,
        lower("cidr_match"@) == "cidr_match"@,
        lower("any"@) == "any"@,
        lower("raw_contains"@) == "raw_contains"@,
        "endswith"@ != "startswith"@,
        "contains"@ != "startswith"@,
        "contains"@ != "endswith"@,
        "cidr_match"@ != "startswith"@,
        "cidr_match"@ != "endswith"@,
        "cidr_match"@ != "contains"@,
        "any"@.len() == 3,
        "startswith"@.len() == 10,
        "endswith"@.len() == 8,
        "contains"@.len() == 8,
        "cidr_match"@.len() == 10,
        "raw_contains"@.len() == 12,
{
    reveal_strlit("startswith");
    reveal_strlit("endswith");
    reveal_strlit("contains");
    reveal_strlit("cidr_match");
    reveal_strlit("any");
    reveal_strlit("raw_contains");
    assert(lower("startswith"@) =~= "startswith"@);
    assert(lower("endswith"@) =~= "endswith"@);
    assert(lower("contains"@) =~= "contains"@);
    assert(lower("cidr_match"@) =~= "cidr_match"@);
    assert(lower("any"@) =~= "any"@);
    assert(lower("raw_contains"@) =~= "raw_contains"@);
    assert("contains"@[0] != "endswith"@[0]);
    assert("cidr_match"@[0] != "startswith"@[0]);
}

proof fn lemma_cond_reads_back(ts: Seq<TokV>, i: int, valid: Seq<Seq<char>>, c: CondV)
    requires
        stand_at(ts, i, cond_tokens(c)),
        writable(ExprV::Cond(c), valid),
    ensures
        primary_from(ts, i, valid) == Ok::<(ExprV, int), Seq<char>>(
            (ExprV::Cond(c), i + cond_tokens(c).len()),
        ),
{
    let w = cond_tokens(c);
    lemma_function_names();
    reveal_with_fuel(args_from, 3);
    assert(ts[i + 0] == w[0] && ts[i + 1] == w[1] && ts[i + 2] == w[2]);
    match c {
        CondV::Field { field, value, mode } => match mode {
            MatchMode::Exact => {},
            MatchMode::NotExact => {},
            MatchMode::Any => {
                assert(ts[i + 3] == w[3]);
                let args = Seq::<Seq<char>>::empty().push(field);
                assert(args_from(ts, i + 2, Seq::empty()) == Ok::<
                    (Seq<Seq<char>>, int),
                    Seq<char>,
                >((args, i + 3)));
                assert(value =~= Seq::empty());
                assert(call_cond("any"@, args, valid) == Ok::<CondV, Seq<char>>(c));
            },
            _ => {
                assert(ts[i + 3] == w[3] && ts[i + 4] == w[4] && ts[i + 5] == w[5]);
                let args = Seq::<Seq<char>>::empty().push(field).push(value);
                assert(args_from(ts, i + 2, Seq::empty()) == Ok::<
                    (Seq<Seq<char>>, int),
                    Seq<char>,
                >((args, i + 5)));
                assert(args[0] == field && args[1] == value);
            },
        },
        CondV::Text { needle } => {
            assert(ts[i + 3] == w[3]);
            let args = Seq::<Seq<char>>::empty().push(needle);
            assert(args_from(ts, i + 2, Seq::empty()) == Ok::<(Seq<Seq<char>>, int), Seq<char>>(
                (args, i + 3),
            ));
        },
    }
}

proof fn lemma_operand_reads_back(ts: Seq<TokV>, i: int, valid: Seq<Seq<char>>, e: ExprV)
    requires
        stand_at(ts, i, operand_tokens(e)),
        writable(e, valid),
    ensures
        primary_from(ts, i, valid) == Ok::<(ExprV, int), Seq<char>>(
            (e, i + operand_tokens(e).len()),
        ),
        tok_at(ts, i) != Some(TokV::Not),
        operand_tokens(e).len() > 0,
    decreases e, 2int,
{
    let w = operand_tokens(e);
    match e {
        ExprV::Cond(c) => {
            lemma_cond_reads_back(ts, i, valid, c);
            assert(ts[i + 0] == w[0]);
        },
        _ => {
            let inner = expr_tokens(e);
            assert(w.len() == inner.len() + 2);
            assert(ts[i + 0] == w[0]);
            assert(ts[i + (inner.len() + 1)] == w[inner.len() as int + 1]);
            assert forall|k: int| 0 <= k < inner.len() implies #[trigger] ts[i + 1 + k]
                == inner[k] by {
                assert(ts[i + (1 + k)] == w[1 + k]);
            }
            lemma_expr_reads_back(ts, i + 1, valid, e);
        },
    }
}

proof fn lemma_expr_reads_back(ts: Seq<TokV>, i: int, valid: Seq<Seq<char>>, e: ExprV)
    requires
        stand_at(ts, i, expr_tokens(e)),
        writable(e, valid),
        tok_at(ts, i + expr_tokens(e).len()) != Some(TokV::And),
        tok_at(ts, i + expr_tokens(e).len()) != Some(TokV::Or),
    ensures
        or_from(ts, i, valid) == Ok::<(ExprV, int), Seq<char>>((e, i + expr_tokens(e).len())),
    decreases e, 1int,
{
    match e {
        ExprV::And(a, b) => {
            lemma_and_reads_back(ts, i, valid, e);
        },
        ExprV::Or(a, b) => {
            lemma_or_reads_back(ts, i, valid, e);
        },
        ExprV::Not(a) => {
            lemma_not_reads_back(ts, i, valid, e);
        },
        ExprV::Cond(c) => {
            lemma_cond_reads_back(ts, i, valid, c);
            assert(ts[i + 0] == expr_tokens(e)[0]);
            lemma_operand_alone(ts, i, valid, e, i + expr_tokens(e).len());
            lemma_single_conjunction(ts, i, valid, e, i + expr_tokens(e).len());
        },
    }
}

proof fn lemma_and_reads_back(ts: Seq<TokV>, i: int, valid: Seq<Seq<char>>, e: ExprV)
    requires
        e is And,
        stand_at(ts, i, expr_tokens(e)),
        writable(e, valid),
        tok_at(ts, i + expr_tokens(e).len()) != Some(TokV::And),
        tok_at(ts, i + expr_tokens(e).len()) != Some(TokV::Or),
    ensures
        or_from(ts, i, valid) == Ok::<(ExprV, int), Seq<char>>((e, i + expr_tokens(e).len())),
    decreases e, 0int,
{
    let w = expr_tokens(e);
    let n = i + w.len();
    let (a, b) = (*e->And_0, *e->And_1);
    lemma_split_operands(ts, i, a, TokV::And, b);
    lemma_operand_reads_back(ts, i, valid, a);
    let m = i + operand_tokens(a).len();
    lemma_operand_reads_back(ts, m + 1, valid, b);
    lemma_conjunction_steps(ts, i, valid, a, m, b, n);
    lemma_single_conjunction(ts, i, valid, e, n);
}

proof fn lemma_or_reads_back(ts: Seq<TokV>, i: int, valid: Seq<Seq<char>>, e: ExprV)
    requires
        e is Or,
        stand_at(ts, i, expr_tokens(e)),
        writable(e, valid),
        tok_at(ts, i + expr_tokens(e).len()) != Some(TokV::And),
        tok_at(ts, i + expr_tokens(e).len()) != Some(TokV::Or),
    ensures
        or_from(ts, i, valid) == Ok::<(ExprV, int), Seq<char>>((e, i + expr_tokens(e).len())),
    decreases e, 0int,
{
    let w = expr_tokens(e);
    let n = i + w.len();
    let (a, b) = (*e->Or_0, *e->Or_1);
    lemma_split_operands(ts, i, a, TokV::Or, b);
    lemma_operand_reads_back(ts, i, valid, a);
    let m = i + operand_tokens(a).len();
    lemma_operand_reads_back(ts, m + 1, valid, b);
    lemma_operand_alone(ts, i, valid, a, m);
    lemma_operand_alone(ts, m + 1, valid, b, n);
    and_binds_tighter_than_or(ts, i, valid, a, m, b, n);
}

proof fn lemma_not_reads_back(ts: Seq<TokV>, i: int, valid: Seq<Seq<char>>, e: ExprV)
    requires
        e is Not,
        stand_at(ts, i, expr_tokens(e)),
        writable(e, valid),
        tok_at(ts, i + expr_tokens(e).len()) != Some(TokV::And),
        tok_at(ts, i + expr_tokens(e).len()) != Some(TokV::Or),
    ensures
        or_from(ts, i, valid) == Ok::<(ExprV, int), Seq<char>>((e, i + expr_tokens(e).len())),
    decreases e, 0int,
{
    let w = expr_tokens(e);
    let n = i + w.len();
    let a = *e->Not_0;
    let inner = operand_tokens(a);
    assert(ts[i + 0] == w[0]);
    assert forall|k: int| 0 <= k < inner.len() implies #[trigger] ts[i + 1 + k] == inner[k] by {
        assert(ts[i + (1 + k)] == w[1 + k]);
    }
    lemma_operand_reads_back(ts, i + 1, valid, a);
    lemma_negation_steps(ts, i, valid, a, n);
    lemma_single_conjunction(ts, i, valid, e, n);
}

proof fn lemma_operand_alone(ts: Seq<TokV>, i: int, valid: Seq<Seq<char>>, e: ExprV, n: int)
    requires
        i < n <= ts.len(),
        tok_at(ts, i) != Some(TokV::Not),
        primary_from(ts, i, valid) == Ok::<(ExprV, int), Seq<char>>((e, n)),
        tok_at(ts, n) != Some(TokV::And),
    ensures
        and_from(ts, i, valid) == Ok::<(ExprV, int), Seq<char>>((e, n)),
{
    assert(not_from(ts, i, valid) == Ok::<(ExprV, int), Seq<char>>((e, n)));
    assert(and_rest(ts, n, e, valid) == Ok::<(ExprV, int), Seq<char>>((e, n)));
}

proof fn lemma_negation_steps(ts: Seq<TokV>, i: int, valid: Seq<Seq<char>>, e: ExprV, n: int)
    requires
        i + 1 < n <= ts.len(),
        tok_at(ts, i) == Some(TokV::Not),
        primary_from(ts, i + 1, valid) == Ok::<(ExprV, int), Seq<char>>((e, n)),
        tok_at(ts, n) != Some(TokV::And),
    ensures
        and_from(ts, i, valid) == Ok::<(ExprV, int), Seq<char>>((ExprV::Not(Box::new(e)), n)),
{
    let ne = ExprV::Not(Box::new(e));
    assert(not_from(ts, i, valid) == Ok::<(ExprV, int), Seq<char>>((ne, n)));
    assert(and_rest(ts, n, ne, valid) == Ok::<(ExprV, int), Seq<char>>((ne, n)));
}

proof fn lemma_conjunction_steps(
    ts: Seq<TokV>,
    i: int,
    valid: Seq<Seq<char>>,
    a: ExprV,
    m: int,
    b: ExprV,
    n: int,
)
    requires
        i < m < m + 1 < n <= ts.len(),
        tok_at(ts, i) != Some(TokV::Not),
        primary_from(ts, i, valid) == Ok::<(ExprV, int), Seq<char>>((a, m)),
        tok_at(ts, m) == Some(TokV::And),
        tok_at(ts, m + 1) != Some(TokV::Not),
        primary_from(ts, m + 1, valid) == Ok::<(ExprV, int), Seq<char>>((b, n)),
        tok_at(ts, n) != Some(TokV::And),
    ensures
        and_from(ts, i, valid) == Ok::<(ExprV, int), Seq<char>>(
            (ExprV::And(Box::new(a), Box::new(b)), n),
        ),
{
    let e = ExprV::And(Box::new(a), Box::new(b));
    assert(not_from(ts, i, valid) == Ok::<(ExprV, int), Seq<char>>((a, m)));
    assert(not_from(ts, m + 1, valid) == Ok::<(ExprV, int), Seq<char>>((b, n)));
    assert(and_rest(ts, n, e, valid) == Ok::<(ExprV, int), Seq<char>>((e, n)));
    assert(and_rest(ts, m, a, valid) == and_rest(ts, n, e, valid));
}

proof fn lemma_single_conjunction(
    ts: Seq<TokV>,
    i: int,
    valid: Seq<Seq<char>>,
    e: ExprV,
    n: int,
)
    requires
        i < n <= ts.len(),
        and_from(ts, i, valid) == Ok::<(ExprV, int), Seq<char>>((e, n)),
        tok_at(ts, n) != Some(TokV::Or),
    ensures
        or_from(ts, i, valid) == Ok::<(ExprV, int), Seq<char>>((e, n)),
{
    assert(or_rest(ts, n, e, valid) == Ok::<(ExprV, int), Seq<char>>((e, n)));
}

proof fn lemma_split_operands(ts: Seq<TokV>, i: int, a: ExprV, op: TokV, b: ExprV)
    requires
        stand_at(ts, i, operand_tokens(a) + seq![op] + operand_tokens(b)),
    ensures
        stand_at(ts, i, operand_tokens(a)),
        tok_at(ts, i + operand_tokens(a).len()) == Some(op),
        stand_at(ts, i + operand_tokens(a).len() + 1, operand_tokens(b)),
{
    let wa = operand_tokens(a);
    let wb = operand_tokens(b);
    let w = wa + seq![op] + wb;
    assert forall|k: int| 0 <= k < wa.len() implies #[trigger] ts[i + k] == wa[k] by {
        assert(ts[i + k] == w[k]);
    }
    assert(ts[i + wa.len()] == w[wa.len() as int]);
    assert forall|k: int| 0 <= k < wb.len() implies #[trigger] ts[i + wa.len() + 1 + k]
        == wb[k] by {
        assert(ts[i + (wa.len() + 1 + k)] == w[wa.len() + 1 + k]);
    }
}

/// Every tree that a query can mean has tokens, and they parse to that tree:
/// nothing of the predicate is lost or regrouped.
pub proof fn written_tree_reads_back(e: ExprV, valid: Seq<Seq<char>>)
    requires
        writable(e, valid),
    ensures
        query_of(expr_tokens(e), valid) == Ok::<QueryV, Seq<char>>(
            QueryV { select: None, expr: Some(e), group_by: None, limit: None },
        ),
{
    let ts = expr_tokens(e);
    assert(stand_at(ts, 0, ts));
    lemma_expr_reads_back(ts, 0, valid, e);
    lemma_first_token(e);
}

proof fn lemma_first_token(e: ExprV)
    ensures
        expr_tokens(e).len() > 0,
        expr_tokens(e)[0] is Word || expr_tokens(e)[0] is LParen || expr_tokens(e)[0] is Not,
        operand_tokens(e).len() > 0,
        operand_tokens(e)[0] is Word || operand_tokens(e)[0] is LParen,
    decreases e,
{
    match e {
        ExprV::And(a, b) => {
            lemma_first_token(*a);
        },
        ExprV::Or(a, b) => {
            lemma_first_token(*a);
        },
        ExprV::Not(a) => {},
        ExprV::Cond(c) => {},
    }
}

// ── Whole queries ────────────────────────────────────────────────────────────

/// The tokens of a list of names.
pub open spec fn names_tokens(v: Seq<Seq<char>>) -> Seq<TokV>
    decreases v.len(),
{
    if v.len() == 0 {
        Seq::empty()
    } else if v.len() == 1 {
        seq![TokV::Word(v[0])]
    } else {
        seq![TokV::Word(v[0]), TokV::Comma] + names_tokens(v.skip(1))
    }
}

/// The tokens of a `SELECT` list, if there is one.
pub open spec fn select_tokens(v: Option<Seq<Seq<char>>>) -> Seq<TokV> {
    match v {
        Some(x) => seq![TokV::Select] + names_tokens(x),
        None => seq![],
    }
}

/// The tokens of a predicate, if there is one.
pub open spec fn where_tokens(e: Option<ExprV>) -> Seq<TokV> {
    match e {
        Some(x) => seq![TokV::Where] + expr_tokens(x),
        None => seq![],
    }
}

/// The tokens of a `GROUP BY` list, if there is one.
pub open spec fn group_tokens(v: Option<Seq<Seq<char>>>) -> Seq<TokV> {
    match v {
        Some(x) => seq![TokV::Group, TokV::By] + names_tokens(x),
        None => seq![],
    }
}

/// The tokens of a `LIMIT`, if there is one.
pub open spec fn limit_tokens(n: Option<int>) -> Seq<TokV> {
    match n {
        Some(x) => seq![TokV::Limit, TokV::Word(dec(x as nat))],
        None => seq![],
    }
}

/// The tokens of a query: its parts, in their order.
pub open spec fn query_tokens(q: QueryV) -> Seq<TokV> {
    select_tokens(q.select) + where_tokens(q.expr) + group_tokens(q.group_by) + limit_tokens(
        q.limit,
    )
}

/// Whether a list has names and only valid ones; `count` counts as one where it
/// may stand.
pub open spec fn names_ok(v: Seq<Seq<char>>, valid: Seq<Seq<char>>, count: bool) -> bool {
    v.len() > 0 && forall|k: int|
        0 <= k < v.len() ==> field_error(#[trigger] v[k], valid) is None || (count && v[k]
            == "count"@)
}

proof fn lemma_names_read_back(
    ts: Seq<TokV>,
    i: int,
    v: Seq<Seq<char>>,
    acc: Seq<Seq<char>>,
    valid: Seq<Seq<char>>,
    count: bool,
)
    requires
        stand_at(ts, i, names_tokens(v)),
        names_ok(v, valid, count),
        tok_at(ts, i + names_tokens(v).len()) != Some(TokV::Comma),
    ensures
        names_from(ts, i, acc, valid, count) == Ok::<(Seq<Seq<char>>, int), Seq<char>>(
            (acc + v, i + names_tokens(v).len()),
        ),
    decreases v.len(),
{
    let w = names_tokens(v);
    assert(ts[i + 0] == w[0]);
    assert(w[0] == TokV::Word(v[0]));
    assert(field_error(v[0], valid) is None || (count && v[0] == "count"@));
    assert(name_from(ts, i, valid, count) == Ok::<(Seq<char>, int), Seq<char>>((v[0], i + 1)));
    if v.len() == 1 {
        assert(acc.push(v[0]) =~= acc + v);
    } else {
        let rest = v.skip(1);
        assert(ts[i + 1] == w[1]);
        assert(w[1] == TokV::Comma);
        assert forall|k: int| 0 <= k < names_tokens(rest).len() implies #[trigger] ts[i + 2 + k]
            == names_tokens(rest)[k] by {
            assert(ts[i + (2 + k)] == w[2 + k]);
        }
        assert forall|k: int| 0 <= k < rest.len() implies field_error(#[trigger] rest[k], valid)
            is None || (count && rest[k] == "count"@) by {
            assert(rest[k] == v[k + 1]);
        }
        lemma_names_read_back(ts, i + 2, rest, acc.push(v[0]), valid, count);
        assert(acc.push(v[0]) + rest =~= acc + v);
    }
}

proof fn lemma_select_part(ts: Seq<TokV>, v: Option<Seq<Seq<char>>>, valid: Seq<Seq<char>>)
    requires
        stand_at(ts, 0, select_tokens(v)),
        v matches Some(x) ==> names_ok(x, valid, true),
        tok_at(ts, select_tokens(v).len() as int) != Some(TokV::Comma),
        v is None ==> tok_at(ts, 0) != Some(TokV::Select),
    ensures
        select_from(ts, 0, valid) == Ok::<(Option<Seq<Seq<char>>>, int), Seq<char>>(
            (v, select_tokens(v).len() as int),
        ),
{
    if let Some(x) = v {
        let a = select_tokens(v);
        assert(ts[0int + 0] == a[0]);
        assert forall|k: int| 0 <= k < names_tokens(x).len() implies #[trigger] ts[1 + k]
            == names_tokens(x)[k] by {
            assert(ts[0int + (1 + k)] == a[1 + k]);
        }
        lemma_names_read_back(ts, 1, x, Seq::empty(), valid, true);
        assert(Seq::<Seq<char>>::empty() + x =~= x);
    }
}

proof fn lemma_predicate_part(ts: Seq<TokV>, i: int, e: Option<ExprV>, valid: Seq<Seq<char>>)
    requires
        stand_at(ts, i, where_tokens(e)),
        e matches Some(x) ==> writable(x, valid),
        ({
            let next = tok_at(ts, i + where_tokens(e).len());
            next is None || next == Some(TokV::Group) || next == Some(TokV::Limit)
        }),
    ensures
        e is Some ==> tok_at(ts, i) == Some(TokV::Where),
        e is None ==> tok_at(ts, i) != Some(TokV::Where),
        predicate_from(
            ts,
            if e is Some {
                i + 1
            } else {
                i
            },
            valid,
        ) == Ok::<(Option<ExprV>, int), Seq<char>>((e, i + where_tokens(e).len())),
{
    if let Some(x) = e {
        let b = where_tokens(e);
        assert(ts[i + 0] == b[0]);
        lemma_first_token(x);
        assert forall|k: int| 0 <= k < expr_tokens(x).len() implies #[trigger] ts[i + 1 + k]
            == expr_tokens(x)[k] by {
            assert(ts[i + (1 + k)] == b[1 + k]);
        }
        assert(ts[i + 1 + 0] == expr_tokens(x)[0]);
        lemma_expr_reads_back(ts, i + 1, valid, x);
    }
}

proof fn lemma_group_part(
    ts: Seq<TokV>,
    i: int,
    v: Option<Seq<Seq<char>>>,
    valid: Seq<Seq<char>>,
)
    requires
        stand_at(ts, i, group_tokens(v)),
        v matches Some(x) ==> names_ok(x, valid, false),
        ({
            let next = tok_at(ts, i + group_tokens(v).len());
            next is None || next == Some(TokV::Limit)
        }),
    ensures
        group_from(ts, i, valid) == Ok::<(Option<Seq<Seq<char>>>, int), Seq<char>>(
            (v, i + group_tokens(v).len()),
        ),
{
    if let Some(x) = v {
        let c = group_tokens(v);
        assert(ts[i + 0] == c[0] && ts[i + 1] == c[1]);
        assert forall|k: int| 0 <= k < names_tokens(x).len() implies #[trigger] ts[i + 2 + k]
            == names_tokens(x)[k] by {
            assert(ts[i + (2 + k)] == c[2 + k]);
        }
        lemma_names_read_back(ts, i + 2, x, Seq::empty(), valid, false);
        assert(Seq::<Seq<char>>::empty() + x =~= x);
    }
}

proof fn lemma_four_parts(a: Seq<TokV>, b: Seq<TokV>, c: Seq<TokV>, d: Seq<TokV>)
    ensures
        ({
            let ts = a + b + c + d;
            let i = a.len() as int;
            let j = i + b.len();
            let k = j + c.len();
            &&& stand_at(ts, 0, a)
            &&& stand_at(ts, i, b)
            &&& stand_at(ts, j, c)
            &&& stand_at(ts, k, d)
            &&& ts.len() == k + d.len()
            &&& tok_at(ts, k) == tok_at(d, 0)
            &&& tok_at(ts, k + 1) == tok_at(d, 1)
            &&& tok_at(ts, j) == if c.len() > 0 {
                tok_at(c, 0)
            } else {
                tok_at(d, 0)
            }
            &&& tok_at(ts, i) == if b.len() > 0 {
                tok_at(b, 0)
            } else if c.len() > 0 {
                tok_at(c, 0)
            } else {
                tok_at(d, 0)
            }
        }),
{
}

proof fn lemma_parts_make_query(
    ts: Seq<TokV>,
    valid: Seq<Seq<char>>,
    q: QueryV,
    i: int,
    j: int,
    k: int,
)
    requires
        select_from(ts, 0, valid) == Ok::<(Option<Seq<Seq<char>>>, int), Seq<char>>((q.select, i)),
        (tok_at(ts, i) == Some(TokV::Where)) == (q.expr is Some),
        predicate_from(
            ts,
            if q.expr is Some {
                i + 1
            } else {
                i
            },
            valid,
        ) == Ok::<(Option<ExprV>, int), Seq<char>>((q.expr, j)),
        group_from(ts, j, valid) == Ok::<(Option<Seq<Seq<char>>>, int), Seq<char>>((q.group_by, k)),
        limit_from(ts, k) == Ok::<(Option<int>, int), Seq<char>>((q.limit, ts.len() as int)),
    ensures
        query_of(ts, valid) == Ok::<QueryV, Seq<char>>(q),
{
}

proof fn lemma_limit_part(ts: Seq<TokV>, k: int, n: Option<int>)
    requires
        n matches Some(x) ==> 0 <= x <= usize::MAX,
        tok_at(ts, k) == tok_at(limit_tokens(n), 0),
        tok_at(ts, k + 1) == tok_at(limit_tokens(n), 1),
    ensures
        limit_from(ts, k) == Ok::<(Option<int>, int), Seq<char>>((n, k + limit_tokens(n).len())),
{
    if let Some(x) = n {
        crate::number::read_dec(x as nat);
        assert(text_at(ts, k + 1) == Some(dec(x as nat)));
    }
}

/// Every query has tokens, and they parse to that query: its fields, predicate,
/// groups and limit come out as they were written.
pub proof fn written_query_reads_back(q: QueryV, valid: Seq<Seq<char>>)
    requires
        q.select matches Some(v) ==> names_ok(v, valid, true),
        q.expr matches Some(e) ==> writable(e, valid),
        q.group_by matches Some(v) ==> names_ok(v, valid, false),
        q.limit matches Some(n) ==> 0 <= n <= usize::MAX,
    ensures
        query_of(query_tokens(q), valid) == Ok::<QueryV, Seq<char>>(q),
{
    let a = select_tokens(q.select);
    let b = where_tokens(q.expr);
    let c = group_tokens(q.group_by);
    let d = limit_tokens(q.limit);
    let ts = query_tokens(q);
    let i = a.len() as int;
    let j = i + b.len();
    let k = j + c.len();
    lemma_four_parts(a, b, c, d);
    assert(tok_at(d, 0) is None || tok_at(d, 0) == Some(TokV::Limit));
    assert(c.len() > 0 ==> tok_at(c, 0) == Some(TokV::Group));
    assert(b.len() > 0 ==> tok_at(b, 0) == Some(TokV::Where));
    lemma_select_part(ts, q.select, valid);
    lemma_predicate_part(ts, i, q.expr, valid);
    lemma_group_part(ts, j, q.group_by, valid);
    lemma_limit_part(ts, k, q.limit);
    lemma_parts_make_query(ts, valid, q, i, j, k);
}

// ── WHERE, quotes and parentheses are optional ───────────────────────────────

/// The text of a word or string.
pub open spec fn text_of(t: Option<TokV>) -> Option<Seq<char>> {
    match t {
        Some(TokV::Word(w)) => Some(w),
        Some(TokV::Str(s)) => Some(s),
        _ => None,
    }
}

/// Whether two tokens are the same, or the same text with and without quotes; a
/// closing parenthesis may stand where `a` has ended.
pub open spec fn alike(a: Option<TokV>, b: Option<TokV>) -> bool {
    ||| a == b
    ||| text_of(a) is Some && text_of(a) == text_of(b)
    ||| a is None && b == Some(TokV::RParen)
}

/// Whether from position `lo` on the tokens of `a` are those of `b`, `d`
/// positions further, up to quotes and to a parenthesis behind them.
pub open spec fn alike_from(a: Seq<TokV>, b: Seq<TokV>, d: int, lo: int) -> bool {
    b.len() >= a.len()
        + d && forall|k: int| lo <= k ==> alike(#[trigger] tok_at(a, k), tok_at(b, k + d))
}

/// What is read in `b` when `p` is read in `a`.
pub open spec fn moved<T>(p: Parsed<T>, q: Parsed<T>, d: int) -> bool {
    p matches Ok((x, j)) ==> q == Ok::<(T, int), Seq<char>>((x, j + d))
}

proof fn lemma_args_move(a: Seq<TokV>, b: Seq<TokV>, d: int, lo: int, i: int, acc: Seq<Seq<char>>)
    requires
        0 <= lo <= i,
        0 <= lo + d,
        alike_from(a, b, d, lo),
    ensures
        moved(args_from(a, i, acc), args_from(b, i + d, acc), d),
        args_from(a, i, acc) matches Ok((x, j)) ==> i <= j,
    decreases a.len() - i,
{
    assert(alike(tok_at(a, i), tok_at(b, i + d)));
    assert(alike(tok_at(a, i + 1), tok_at(b, i + 1 + d)));
    if let Some(t) = text_at(a, i) {
        if tok_at(a, i + 1) == Some(TokV::Comma) {
            lemma_args_move(a, b, d, lo, i + 2, acc.push(t));
        }
    }
}

proof fn lemma_names_move(
    a: Seq<TokV>,
    b: Seq<TokV>,
    d: int,
    lo: int,
    i: int,
    acc: Seq<Seq<char>>,
    valid: Seq<Seq<char>>,
    count: bool,
)
    requires
        0 <= lo <= i,
        0 <= lo + d,
        alike_from(a, b, d, lo),
    ensures
        moved(names_from(a, i, acc, valid, count), names_from(b, i + d, acc, valid, count), d),
        names_from(a, i, acc, valid, count) matches Ok((x, j)) ==> i <= j,
    decreases a.len() - i,
{
    assert(alike(tok_at(a, i), tok_at(b, i + d)));
    assert(alike(tok_at(a, i + 1), tok_at(b, i + 1 + d)));
    if let Ok((name, j)) = name_from(a, i, valid, count) {
        if tok_at(a, i + 1) == Some(TokV::Comma) {
            lemma_names_move(a, b, d, lo, i + 2, acc.push(name), valid, count);
        }
    }
}

proof fn lemma_primary_moves(
    a: Seq<TokV>,
    b: Seq<TokV>,
    d: int,
    lo: int,
    i: int,
    valid: Seq<Seq<char>>,
)
    requires
        0 <= lo <= i,
        0 <= lo + d,
        alike_from(a, b, d, lo),
    ensures
        moved(primary_from(a, i, valid), primary_from(b, i + d, valid), d),
        primary_from(a, i, valid) matches Ok((x, j)) ==> i <= j,
    decreases a.len() - i, 0int,
{
    assert(alike(tok_at(a, i), tok_at(b, i + d)));
    assert(alike(tok_at(a, i + 1), tok_at(b, i + 1 + d)));
    assert(alike(tok_at(a, i + 2), tok_at(b, i + 2 + d)));
    if tok_at(a, i) == Some(TokV::LParen) {
        lemma_or_moves(a, b, d, lo, i + 1, valid);
        if let Ok((e, j)) = or_from(a, i + 1, valid) {
            assert(alike(tok_at(a, j), tok_at(b, j + d)));
        }
    } else if let Some(name) = text_at(a, i) {
        lemma_args_move(a, b, d, lo, i + 2, Seq::empty());
    }
}

proof fn lemma_not_moves(a: Seq<TokV>, b: Seq<TokV>, d: int, lo: int, i: int, valid: Seq<Seq<char>>)
    requires
        0 <= lo <= i,
        0 <= lo + d,
        alike_from(a, b, d, lo),
    ensures
        moved(not_from(a, i, valid), not_from(b, i + d, valid), d),
        not_from(a, i, valid) matches Ok((x, j)) ==> i <= j,
    decreases a.len() - i, 1int,
{
    assert(alike(tok_at(a, i), tok_at(b, i + d)));
    if tok_at(a, i) == Some(TokV::Not) {
        lemma_primary_moves(a, b, d, lo, i + 1, valid);
    } else {
        lemma_primary_moves(a, b, d, lo, i, valid);
    }
}

proof fn lemma_and_rest_moves(
    a: Seq<TokV>,
    b: Seq<TokV>,
    d: int,
    lo: int,
    i: int,
    left: ExprV,
    valid: Seq<Seq<char>>,
)
    requires
        0 <= lo <= i,
        0 <= lo + d,
        alike_from(a, b, d, lo),
    ensures
        moved(and_rest(a, i, left, valid), and_rest(b, i + d, left, valid), d),
        and_rest(a, i, left, valid) matches Ok((x, j)) ==> i <= j,
    decreases a.len() - i, 2int,
{
    assert(alike(tok_at(a, i), tok_at(b, i + d)));
    if tok_at(a, i) == Some(TokV::And) {
        lemma_not_moves(a, b, d, lo, i + 1, valid);
        if let Ok((right, j)) = not_from(a, i + 1, valid) {
            if i < j <= a.len() {
                lemma_and_rest_moves(a, b, d, lo, j, ExprV::And(Box::new(left), Box::new(right)), valid);
            }
        }
    }
}

proof fn lemma_and_moves(a: Seq<TokV>, b: Seq<TokV>, d: int, lo: int, i: int, valid: Seq<Seq<char>>)
    requires
        0 <= lo <= i,
        0 <= lo + d,
        alike_from(a, b, d, lo),
    ensures
        moved(and_from(a, i, valid), and_from(b, i + d, valid), d),
        and_from(a, i, valid) matches Ok((x, j)) ==> i <= j,
    decreases a.len() - i, 3int,
{
    lemma_not_moves(a, b, d, lo, i, valid);
    if let Ok((left, j)) = not_from(a, i, valid) {
        if i < j <= a.len() {
            lemma_and_rest_moves(a, b, d, lo, j, left, valid);
        }
    }
}

proof fn lemma_or_rest_moves(
    a: Seq<TokV>,
    b: Seq<TokV>,
    d: int,
    lo: int,
    i: int,
    left: ExprV,
    valid: Seq<Seq<char>>,
)
    requires
        0 <= lo <= i,
        0 <= lo + d,
        alike_from(a, b, d, lo),
    ensures
        moved(or_rest(a, i, left, valid), or_rest(b, i + d, left, valid), d),
        or_rest(a, i, left, valid) matches Ok((x, j)) ==> i <= j,
    decreases a.len() - i, 4int,
{
    assert(alike(tok_at(a, i), tok_at(b, i + d)));
    if tok_at(a, i) == Some(TokV::Or) {
        lemma_and_moves(a, b, d, lo, i + 1, valid);
        if let Ok((right, j)) = and_from(a, i + 1, valid) {
            if i < j <= a.len() {
                lemma_or_rest_moves(a, b, d, lo, j, ExprV::Or(Box::new(left), Box::new(right)), valid);
            }
        }
    }
}

proof fn lemma_or_moves(a: Seq<TokV>, b: Seq<TokV>, d: int, lo: int, i: int, valid: Seq<Seq<char>>)
    requires
        0 <= lo <= i,
        0 <= lo + d,
        alike_from(a, b, d, lo),
    ensures
        moved(or_from(a, i, valid), or_from(b, i + d, valid), d),
        or_from(a, i, valid) matches Ok((x, j)) ==> i <= j,
    decreases a.len() - i, 5int,
{
    lemma_and_moves(a, b, d, lo, i, valid);
    if let Ok((left, j)) = and_from(a, i, valid) {
        if i < j <= a.len() {
            lemma_or_rest_moves(a, b, d, lo, j, left, valid);
        }
    }
}

/// The parts of a search behind its projection and its `WHERE`.
pub open spec fn tail_of(ts: Seq<TokV>, i: int, valid: Seq<Seq<char>>) -> Result<
    (Option<ExprV>, Option<Seq<Seq<char>>>, Option<int>),
    Seq<char>,
> {
    match predicate_from(ts, i, valid) {
        Err(m) => Err(m),
        Ok((expr, i)) => match group_from(ts, i, valid) {
            Err(m) => Err(m),
            Ok((group_by, i)) => match limit_from(ts, i) {
                Err(m) => Err(m),
                Ok((limit, i)) => if i != ts.len() {
                    Err(Seq::empty())
                } else {
                    Ok((expr, group_by, limit))
                },
            },
        },
    }
}

proof fn lemma_tail_moves(
    a: Seq<TokV>,
    b: Seq<TokV>,
    d: int,
    lo: int,
    i: int,
    valid: Seq<Seq<char>>,
)
    requires
        0 <= lo <= i,
        0 <= lo + d,
        alike_from(a, b, d, lo),
        b.len() == a.len() + d,
    ensures
        tail_of(a, i, valid) is Ok ==> tail_of(b, i + d, valid) == tail_of(a, i, valid),
{
    assert(alike(tok_at(a, i), tok_at(b, i + d)));
    lemma_or_moves(a, b, d, lo, i, valid);
    if let Ok((expr, j)) = predicate_from(a, i, valid) {
        assert(predicate_from(b, i + d, valid) == Ok::<(Option<ExprV>, int), Seq<char>>(
            (expr, j + d),
        ));
        assert(alike(tok_at(a, j), tok_at(b, j + d)));
        assert(alike(tok_at(a, j + 1), tok_at(b, j + 1 + d)));
        lemma_names_move(a, b, d, lo, j + 2, Seq::empty(), valid, false);
        if let Ok((group_by, k)) = group_from(a, j, valid) {
            assert(group_from(b, j + d, valid) == Ok::<
                (Option<Seq<Seq<char>>>, int),
                Seq<char>,
            >((group_by, k + d)));
            assert(alike(tok_at(a, k), tok_at(b, k + d)));
            assert(alike(tok_at(a, k + 1), tok_at(b, k + 1 + d)));
        }
    }
}

/// `WHERE` is optional: before a search without projection it changes nothing
/// of what a query that parses means.
pub proof fn where_is_optional(ts: Seq<TokV>, valid: Seq<Seq<char>>, q: QueryV)
    requires
        tok_at(ts, 0) != Some(TokV::Select),
        tok_at(ts, 0) != Some(TokV::Where),
    ensures
        query_of(ts, valid) == Ok::<QueryV, Seq<char>>(q) <==> query_of(
            seq![TokV::Where] + ts,
            valid,
        ) == Ok::<QueryV, Seq<char>>(q),
{
    let w = seq![TokV::Where] + ts;
    assert forall|k: int| 0 <= k implies alike(#[trigger] tok_at(ts, k), tok_at(w, k + 1)) by {
        if k < ts.len() {
            assert(w[k + 1] == ts[k]);
        }
    }
    lemma_tail_moves(ts, w, 1, 0, 0, valid);
    assert forall|k: int| 1 <= k implies alike(#[trigger] tok_at(w, k), tok_at(ts, k + (-1))) by {
        if k < w.len() {
            assert(w[k] == ts[k - 1]);
        }
    }
    lemma_tail_moves(w, ts, -1, 1, 1, valid);
    assert(w[0] == TokV::Where);
    assert(query_of(ts, valid) is Ok <==> tail_of(ts, 0, valid) is Ok);
    assert(query_of(w, valid) is Ok <==> tail_of(w, 1, valid) is Ok);
}

/// The tokens with every string taken for a word.
pub open spec fn unquoted(ts: Seq<TokV>) -> Seq<TokV> {
    ts.map_values(
        |t: TokV|
            match t {
                TokV::Str(s) => TokV::Word(s),
                other => other,
            },
    )
}

/// Quotes are optional everywhere: a query parses with them exactly if it does
/// without, and means the same.
pub proof fn quotes_are_optional(ts: Seq<TokV>, valid: Seq<Seq<char>>, q: QueryV)
    ensures
        query_of(ts, valid) == Ok::<QueryV, Seq<char>>(q) <==> query_of(unquoted(ts), valid) == Ok::<
            QueryV,
            Seq<char>,
        >(q),
{
    let u = unquoted(ts);
    assert forall|k: int| 0 <= k implies alike(#[trigger] tok_at(ts, k), tok_at(u, k + 0)) by {
        if k < ts.len() {
            assert(tok_at(u, k) == Some(u[k]));
        }
    }
    assert forall|k: int| 0 <= k implies alike(#[trigger] tok_at(u, k), tok_at(ts, k + 0)) by {
        assert(alike(tok_at(ts, k), tok_at(u, k + 0)));
    }
    if query_of(ts, valid) == Ok::<QueryV, Seq<char>>(q) {
        lemma_query_alike(ts, u, valid, q);
    }
    if query_of(u, valid) == Ok::<QueryV, Seq<char>>(q) {
        lemma_query_alike(u, ts, valid, q);
    }
}

proof fn lemma_query_alike(ts: Seq<TokV>, u: Seq<TokV>, valid: Seq<Seq<char>>, q: QueryV)
    requires
        query_of(ts, valid) == Ok::<QueryV, Seq<char>>(q),
        alike_from(ts, u, 0, 0),
        u.len() == ts.len(),
    ensures
        query_of(u, valid) == Ok::<QueryV, Seq<char>>(q),
{
    assert(alike(tok_at(ts, 0), tok_at(u, 0)));
    lemma_names_move(ts, u, 0, 0, 1, Seq::empty(), valid, true);
    let (select, i) = select_from(ts, 0, valid)->Ok_0;
    assert(select_from(u, 0, valid) == Ok::<(Option<Seq<Seq<char>>>, int), Seq<char>>((select, i)));
    assert(alike(tok_at(ts, i), tok_at(u, i + 0)));
    let j = if tok_at(ts, i) == Some(TokV::Where) {
        i + 1
    } else {
        i
    };
    lemma_tail_moves(ts, u, 0, 0, j, valid);
}

// ── Parentheses ──────────────────────────────────────────────────────────────

/// The meaning of a predicate alone.
pub open spec fn only(e: ExprV) -> QueryV {
    QueryV { select: None, expr: Some(e), group_by: None, limit: None }
}

proof fn lemma_predicate_alone(ts: Seq<TokV>, valid: Seq<Seq<char>>, e: ExprV)
    requires
        query_of(ts, valid) == Ok::<QueryV, Seq<char>>(only(e)),
        tok_at(ts, 0) != Some(TokV::Where),
    ensures
        or_from(ts, 0, valid) == Ok::<(ExprV, int), Seq<char>>((e, ts.len() as int)),
{
}

proof fn lemma_parenthesised(
    front: Seq<TokV>,
    ts: Seq<TokV>,
    valid: Seq<Seq<char>>,
    e: ExprV,
)
    requires
        query_of(ts, valid) == Ok::<QueryV, Seq<char>>(only(e)),
        tok_at(ts, 0) != Some(TokV::Where),
    ensures
        ({
            let all = front + seq![TokV::LParen] + ts + seq![TokV::RParen];
            primary_from(all, front.len() as int, valid) == Ok::<(ExprV, int), Seq<char>>(
                (e, all.len() as int),
            )
        }),
{
    let all = front + seq![TokV::LParen] + ts + seq![TokV::RParen];
    let d: int = front.len() as int + 1;
    lemma_predicate_alone(ts, valid, e);
    assert forall|k: int| 0 <= k implies alike(#[trigger] tok_at(ts, k), tok_at(all, k + d)) by {
        if k < ts.len() {
            assert(all[k + d] == ts[k]);
        } else if k == ts.len() {
            assert(all[k + d] == TokV::RParen);
        }
    }
    lemma_or_moves(ts, all, d, 0, 0, valid);
    assert(all[front.len() as int] == TokV::LParen);
    assert(all[ts.len() + d] == TokV::RParen);
}

/// Redundant parentheses leave no trace: a predicate in parentheses means what
/// it means without them.
pub proof fn parentheses_are_optional(ts: Seq<TokV>, valid: Seq<Seq<char>>, e: ExprV)
    requires
        query_of(ts, valid) == Ok::<QueryV, Seq<char>>(only(e)),
        tok_at(ts, 0) != Some(TokV::Where),
    ensures
        query_of(seq![TokV::LParen] + ts + seq![TokV::RParen], valid) == Ok::<QueryV, Seq<char>>(
            only(e),
        ),
{
    let none = Seq::<TokV>::empty();
    let all = none + seq![TokV::LParen] + ts + seq![TokV::RParen];
    assert(all =~= seq![TokV::LParen] + ts + seq![TokV::RParen]);
    lemma_parenthesised(none, ts, valid, e);
    assert(all[0] == TokV::LParen);
    lemma_operand_alone(all, 0, valid, e, all.len() as int);
    lemma_single_conjunction(all, 0, valid, e, all.len() as int);
}

// ── Parentheses in the text ──────────────────────────────────────────────────

/// A text between `front` and a closing parenthesis.
pub open spec fn enclosed(front: Seq<char>, t: Seq<char>) -> Seq<char> {
    front + t + ")"@
}

proof fn lemma_enclosed(front: Seq<char>, t: Seq<char>)
    ensures
        enclosed(front, t).len() == front.len() + t.len() + 1,
        enclosed(front, t).last() == ')',
        forall|k: int| 0 <= k < t.len() ==> enclosed(front, t)[front.len() + k] == #[trigger] t[k],
        forall|k: int| 0 <= k < front.len() ==> #[trigger] enclosed(front, t)[k] == front[k],
{
    reveal_strlit(")");
}

proof fn lemma_word_end_inside(front: Seq<char>, t: Seq<char>, i: int)
    requires
        0 <= i <= t.len(),
    ensures
        word_end(enclosed(front, t), front.len() + i) == front.len() + word_end(t, i),
        i <= word_end(t, i) <= t.len(),
    decreases t.len() - i,
{
    lemma_enclosed(front, t);
    let s = enclosed(front, t);
    if i < t.len() {
        assert(s[front.len() + i] == t[i]);
        if word_char(t[i]) {
            lemma_word_end_inside(front, t, i + 1);
        }
    } else {
        assert(s[front.len() + i] == ')');
    }
}

proof fn lemma_char_inside(front: Seq<char>, t: Seq<char>, c: char, i: int)
    requires
        0 <= i,
        char_from(t, c, i) is Some,
    ensures
        char_from(enclosed(front, t), c, front.len() + i) == Some(
            front.len() + char_from(t, c, i)->0,
        ),
        i <= char_from(t, c, i)->0 < t.len(),
{
    lemma_enclosed(front, t);
    let s = enclosed(front, t);
    let j = char_from(t, c, i)->0;
    char_from_is_first(t, c, i);
    char_from_is_first(s, c, front.len() + i);
    assert(s[front.len() + j] == c);
    let k = char_from(s, c, front.len() + i)->0;
    if k < front.len() + j {
        assert(t[k - front.len()] == s[k]);
    }
}

proof fn lemma_token_inside(front: Seq<char>, t: Seq<char>, i: int)
    requires
        0 <= i < t.len(),
        token_at(t, i) matches Ok((tok, j)) && j <= t.len(),
    ensures
        ({
            let (tok, j) = token_at(t, i)->Ok_0;
            token_at(enclosed(front, t), front.len() + i) == Ok::<(TokV, int), Seq<char>>(
                (tok, front.len() + j),
            )
        }),
{
    lemma_enclosed(front, t);
    let s = enclosed(front, t);
    let f = front.len() as int;
    let c = t[i];
    assert(s[f + i] == c);
    if i + 1 < t.len() {
        assert(s[f + (i + 1)] == t[i + 1]);
    } else {
        assert(s[f + i + 1] == ')');
    }
    if c == '\'' || c == '"' {
        lemma_char_inside(front, t, c, i + 1);
        let j = char_from(t, c, i + 1)->0;
        assert(s.subrange(f + i + 1, f + j) =~= t.subrange(i + 1, j));
    } else if word_start(c) {
        lemma_word_end_inside(front, t, i);
        let j = word_end(t, i);
        assert(s.subrange(f + i, f + j) =~= t.subrange(i, j));
    }
}

proof fn lemma_lex_inside(front: Seq<char>, t: Seq<char>, i: int)
    requires
        0 <= i <= t.len(),
        tokens_from(t, i) is Ok,
    ensures
        tokens_from(enclosed(front, t), front.len() + i) == Ok::<Seq<TokV>, Seq<char>>(
            tokens_from(t, i)->Ok_0 + seq![TokV::RParen],
        ),
    decreases t.len() - i,
{
    lemma_enclosed(front, t);
    let s = enclosed(front, t);
    let f = front.len() as int;
    if i == t.len() {
        assert(s[f + i] == ')');
        assert(tokens_from(s, f + i + 1) == Ok::<Seq<TokV>, Seq<char>>(Seq::empty()));
        assert(tokens_from(s, f + i)->Ok_0 =~= seq![TokV::RParen]);
        assert(tokens_from(t, i)->Ok_0 + seq![TokV::RParen] =~= seq![TokV::RParen]);
    } else if is_space(t[i]) {
        assert(s[f + i] == t[i]);
        lemma_lex_inside(front, t, i + 1);
    } else {
        assert(s[f + i] == t[i]);
        lemma_token_inside(front, t, i);
        let (tok, j) = token_at(t, i)->Ok_0;
        lemma_lex_inside(front, t, j);
        let rest = tokens_from(t, j)->Ok_0;
        assert(seq![tok] + rest + seq![TokV::RParen] =~= seq![tok] + (rest + seq![TokV::RParen]));
    }
}

/// Whether a text is a predicate alone, with this tree: no projection, no
/// `WHERE`, no grouping and no limit.
pub open spec fn is_predicate(t: Seq<char>, valid: Seq<Seq<char>>, e: ExprV) -> bool {
    &&& meaning(t, valid) == Ok::<QueryV, Seq<char>>(only(e))
    &&& tok_at(tokens_from(t, 0)->Ok_0, 0) != Some(TokV::Where)
}

/// A predicate that is put in parentheses means what it means without them.
pub proof fn parentheses_leave_no_trace(t: Seq<char>, valid: Seq<Seq<char>>, e: ExprV)
    requires
        is_predicate(t, valid, e),
    ensures
        is_predicate("("@ + t + ")"@, valid, e),
{
    reveal_strlit("(");
    let ts = tokens_from(t, 0)->Ok_0;
    let s = enclosed("("@, t);
    lemma_enclosed("("@, t);
    lemma_lex_inside("("@, t, 0);
    assert(s[0] == '(');
    let all = seq![TokV::LParen] + (ts + seq![TokV::RParen]);
    assert(tokens_from(s, 0) == Ok::<Seq<TokV>, Seq<char>>(all));
    assert(all =~= seq![TokV::LParen] + ts + seq![TokV::RParen]);
    parentheses_are_optional(ts, valid, e);
    assert(all[0] == TokV::LParen);
}

/// The condition that a field has a value.
pub open spec fn equals(field: Seq<char>, value: Seq<char>) -> ExprV {
    ExprV::Cond(CondV::Field { field, value, mode: MatchMode::Exact })
}

/// What asks for the correlated alerts among those of a predicate.
pub open spec fn of_correlated(t: Seq<char>) -> Seq<char> {
    "type == correlated AND ("@ + t + ")"@
}

proof fn lemma_correlated_front(t: Seq<char>)
    requires
        tokens_from(t, 0) is Ok,
    ensures
        tokens_from(of_correlated(t), 0) == Ok::<Seq<TokV>, Seq<char>>(
            seq![
                TokV::Word("type"@),
                TokV::Eq,
                TokV::Word("correlated"@),
                TokV::And,
            ] + seq![TokV::LParen] + tokens_from(t, 0)->Ok_0 + seq![TokV::RParen],
        ),
{
    let front = "type == correlated AND ("@;
    let s = enclosed(front, t);
    reveal_strlit("type == correlated AND (");
    reveal_strlit("type");
    reveal_strlit("correlated");
    reveal_strlit("AND");
    lemma_enclosed(front, t);
    lemma_lex_inside(front, t, 0);
    let rest = tokens_from(t, 0)->Ok_0 + seq![TokV::RParen];
    assert(front.len() == 24);
    assert forall|k: int| 0 <= k < 24 implies #[trigger] s[k] == front[k] by {}
    assert(tokens_from(s, 24) == Ok::<Seq<TokV>, Seq<char>>(rest));
    assert(s[23] == '(' && s[22] == ' ' && s[18] == ' ' && s[7] == ' ' && s[4] == ' ');
    let t4 = seq![TokV::LParen] + rest;
    assert(tokens_from(s, 23) == Ok::<Seq<TokV>, Seq<char>>(t4));
    assert(tokens_from(s, 22) == tokens_from(s, 23));
    assert(word_end(s, 19) == 22) by {
        reveal_with_fuel(word_end, 4);
        assert(s[19] == 'A' && s[20] == 'N' && s[21] == 'D');
    }
    assert(s.subrange(19, 22) =~= "AND"@);
    let t3 = seq![TokV::And] + t4;
    lemma_query_words();
    assert(tokens_from(s, 19) == Ok::<Seq<TokV>, Seq<char>>(t3));
    assert(tokens_from(s, 18) == tokens_from(s, 19));
    assert(word_end(s, 8) == 18) by {
        reveal_with_fuel(word_end, 11);
        assert(s[8] == 'c' && s[9] == 'o' && s[10] == 'r' && s[11] == 'r' && s[12] == 'e' && s[13]
            == 'l' && s[14] == 'a' && s[15] == 't' && s[16] == 'e' && s[17] == 'd');
    }
    assert(s.subrange(8, 18) =~= "correlated"@);
    let t2 = seq![TokV::Word("correlated"@)] + t3;
    assert(s[8] == 'c');
    assert(tokens_from(s, 8) == Ok::<Seq<TokV>, Seq<char>>(t2));
    assert(tokens_from(s, 7) == tokens_from(s, 8));
    assert(s[5] == '=' && s[6] == '=');
    let t1 = seq![TokV::Eq] + t2;
    assert(tokens_from(s, 5) == Ok::<Seq<TokV>, Seq<char>>(t1));
    assert(tokens_from(s, 4) == tokens_from(s, 5));
    assert(word_end(s, 0) == 4) by {
        reveal_with_fuel(word_end, 5);
        assert(s[0] == 't' && s[1] == 'y' && s[2] == 'p' && s[3] == 'e');
    }
    assert(s.subrange(0, 4) =~= "type"@);
    let t0 = seq![TokV::Word("type"@)] + t1;
    assert(s[0] == 't');
    assert(tokens_from(s, 0) == Ok::<Seq<TokV>, Seq<char>>(t0));
    assert(t0 =~= seq![
        TokV::Word("type"@),
        TokV::Eq,
        TokV::Word("correlated"@),
        TokV::And,
    ] + seq![TokV::LParen] + tokens_from(t, 0)->Ok_0 + seq![TokV::RParen]);
}

proof fn lemma_query_words()
    ensures
        word_token("type"@) == TokV::Word("type"@),
        word_token("correlated"@) == TokV::Word("correlated"@),
        word_token("AND"@) == TokV::And,
{
    reveal_strlit("type");
    reveal_strlit("correlated");
    reveal_strlit("SELECT");
    reveal_strlit("WHERE");
    reveal_strlit("GROUP");
    reveal_strlit("BY");
    reveal_strlit("LIMIT");
    reveal_strlit("AND");
    reveal_strlit("OR");
    reveal_strlit("NOT");
    assert(upper("AND"@) =~= "AND"@);
    assert(upper("type"@).len() == 4);
    assert(upper("correlated"@).len() == 10);
}

/// Asking for the correlated alerts among those of a predicate means both
/// conditions.
pub proof fn correlated_joins_the_predicate(t: Seq<char>, valid: Seq<Seq<char>>, e: ExprV)
    requires
        is_predicate(t, valid, e),
        field_error("type"@, valid) is None,
    ensures
        is_predicate(
            of_correlated(t),
            valid,
            ExprV::And(Box::new(equals("type"@, "correlated"@)), Box::new(e)),
        ),
{
    let ts = tokens_from(t, 0)->Ok_0;
    lemma_correlated_front(t);
    let front = seq![
        TokV::Word("type"@),
        TokV::Eq,
        TokV::Word("correlated"@),
        TokV::And,
    ];
    let all = front + seq![TokV::LParen] + ts + seq![TokV::RParen];
    let n = all.len() as int;
    lemma_parenthesised(front, ts, valid, e);
    assert(all[0] == front[0] && all[1] == front[1] && all[2] == front[2] && all[3] == front[3]);
    assert(all[4] == TokV::LParen);
    let c = equals("type"@, "correlated"@);
    assert(primary_from(all, 0, valid) == Ok::<(ExprV, int), Seq<char>>((c, 3)));
    lemma_conjunction_steps(all, 0, valid, c, 3, e, n);
    lemma_single_conjunction(all, 0, valid, ExprV::And(Box::new(c), Box::new(e)), n);
}

// ── Spellings ────────────────────────────────────────────────────────────────

proof fn lemma_word_end_behind(a: Seq<char>, r: Seq<char>, i: int)
    requires
        0 <= i,
    ensures
        word_end(a + r, a.len() + i) == a.len() + word_end(r, i),
        i <= word_end(r, i),
    decreases r.len() - i,
{
    if i < r.len() {
        assert((a + r)[a.len() + i] == r[i]);
        if word_char(r[i]) {
            lemma_word_end_behind(a, r, i + 1);
        }
    }
}

proof fn lemma_quote_behind(a: Seq<char>, r: Seq<char>, c: char, i: int)
    requires
        0 <= i,
    ensures
        match char_from(r, c, i) {
            Some(k) => char_from(a + r, c, a.len() + i) == Some(a.len() + k),
            None => char_from(a + r, c, a.len() + i) is None,
        },
    decreases r.len() - i,
{
    if i < r.len() {
        assert((a + r)[a.len() + i] == r[i]);
        if r[i] != c {
            lemma_quote_behind(a, r, c, i + 1);
        }
    }
}

proof fn lemma_token_behind(a: Seq<char>, r: Seq<char>, i: int)
    requires
        0 <= i < r.len(),
    ensures
        match token_at(r, i) {
            Ok((t, j)) => token_at(a + r, a.len() + i) == Ok::<(TokV, int), Seq<char>>(
                (t, a.len() + j),
            ),
            Err(m) => token_at(a + r, a.len() + i) == Err::<(TokV, int), Seq<char>>(m),
        },
{
    let s = a + r;
    let n = a.len() as int;
    let c = r[i];
    assert(s[n + i] == c);
    if i + 1 < r.len() {
        assert(s[n + i + 1] == r[i + 1]);
    }
    if c == '\'' || c == '"' {
        lemma_quote_behind(a, r, c, i + 1);
        char_from_is_first(r, c, i + 1);
        if let Some(j) = char_from(r, c, i + 1) {
            assert(s.subrange(n + i + 1, n + j) =~= r.subrange(i + 1, j));
        }
    } else if word_start(c) {
        lemma_word_end_behind(a, r, i);
        let j = word_end(r, i);
        lemma_word_end_bound(r, i);
        assert(s.subrange(n + i, n + j) =~= r.subrange(i, j));
    }
}

proof fn lemma_word_end_bound(r: Seq<char>, i: int)
    requires
        0 <= i <= r.len(),
    ensures
        i <= word_end(r, i) <= r.len(),
    decreases r.len() - i,
{
    if i < r.len() && word_char(r[i]) {
        lemma_word_end_bound(r, i + 1);
    }
}

proof fn lemma_lex_behind(a: Seq<char>, r: Seq<char>, i: int)
    requires
        0 <= i,
    ensures
        tokens_from(a + r, a.len() + i) == tokens_from(r, i),
    decreases r.len() - i,
{
    let s = a + r;
    let n = a.len() as int;
    if i < r.len() {
        assert(s[n + i] == r[i]);
        if is_space(r[i]) {
            lemma_lex_behind(a, r, i + 1);
        } else {
            lemma_token_behind(a, r, i);
            if let Ok((t, j)) = token_at(r, i) {
                if i < j <= r.len() {
                    lemma_lex_behind(a, r, j);
                }
            }
        }
    }
}

/// Equality is written with one sign or two, and inequality in either way; white
/// space before a token does not matter.
pub proof fn operators_have_two_spellings(rest: Seq<char>, c: char)
    requires
        rest.len() > 0 ==> rest[0] != '=',
        is_space(c),
    ensures
        tokens_from(seq!['=', '='] + rest, 0) == tokens_from(seq!['='] + rest, 0),
        tokens_from(seq!['!', '='] + rest, 0) == tokens_from(seq!['<', '>'] + rest, 0),
        tokens_from(seq![c] + rest, 0) == tokens_from(rest, 0),
        tokens_from(rest, 0) matches Ok(ts) ==> tokens_from(seq!['='] + rest, 0) == Ok::<
            Seq<TokV>,
            Seq<char>,
        >(seq![TokV::Eq] + ts),
        tokens_from(rest, 0) matches Ok(ts) ==> tokens_from(seq!['<', '>'] + rest, 0) == Ok::<
            Seq<TokV>,
            Seq<char>,
        >(seq![TokV::Ne] + ts),
{
    lemma_lex_behind(seq!['=', '='], rest, 0);
    lemma_lex_behind(seq!['='], rest, 0);
    lemma_lex_behind(seq!['!', '='], rest, 0);
    lemma_lex_behind(seq!['<', '>'], rest, 0);
    lemma_lex_behind(seq![c], rest, 0);
    let a = seq!['=', '='] + rest;
    let b = seq!['='] + rest;
    let x = seq!['!', '='] + rest;
    let y = seq!['<', '>'] + rest;
    let z = seq![c] + rest;
    assert(a[0] == '=' && a[1] == '=' && b[0] == '=' && x[0] == '!' && x[1] == '=' && y[0] == '<'
        && y[1] == '>' && z[0] == c);
    if rest.len() > 0 {
        assert(b[1] == rest[0]);
    }
}

/// What stands in quotes, of either kind, is one text, whatever it holds.
pub proof fn quotes_hold_their_text(text: Seq<char>, rest: Seq<char>, q: char)
    requires
        q == '\'' || q == '"',
        !text.contains(q),
    ensures
        tokens_from(rest, 0) matches Ok(ts) ==> tokens_from(
            seq![q] + text + seq![q] + rest,
            0,
        ) == Ok::<Seq<TokV>, Seq<char>>(seq![TokV::Str(text)] + ts),
{
    let a = seq![q] + text + seq![q];
    let s = a + rest;
    let n = text.len() as int;
    assert(s[0] == q && s[n + 1] == q);
    char_from_is_first(s, q, 1);
    assert(char_from(s, q, 1) == Some(n + 1)) by {
        let k = char_from(s, q, 1)->0;
        if k < n + 1 {
            assert(s[k] == text[k - 1]);
        }
    }
    assert(s.subrange(1, n + 1) =~= text);
    lemma_lex_behind(a, rest, 0);
    assert(a.len() == n + 2);
}

} // verus!
