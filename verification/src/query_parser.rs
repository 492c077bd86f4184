//! The grammar of the search language: from tokens to a predicate tree.
use vstd::prelude::*;

use crate::collections::FieldSet;
use crate::db::MatchMode;
use crate::db::{cidr_answer, cidr_contains};
use crate::number::{dec, dec_u64, parse_unsigned, read_unsigned};
use crate::query::{opt_expr_view, opt_int, CondV, Condition, Expr, ExprV, Query, QueryV};
use crate::query_lexer::{lex, tok_views, tokens_from, Tok, TokV};
use crate::text::{alpha, digit, is_alpha, is_digit, join, joined, lower, opt_views, same};
use crate::text::{to_chars, to_lower, views};

verus! {

// ── Names ────────────────────────────────────────────────────────────────────

/// A bare SQL identifier: letters, digits and underscores, no digit in front.
pub open spec fn sql_ident(s: Seq<char>) -> bool {
    &&& s.len() > 0
    &&& is_alpha(s[0]) || s[0] == '_'
    &&& forall|i: int|
        0 <= i < s.len() ==> is_alpha(#[trigger] s[i]) || is_digit(s[i]) || s[i] == '_'
}

/// Whether `s` is a bare SQL identifier.
pub fn is_sql_ident(s: &str) -> (r: bool)
    ensures
        r == sql_ident(s@),
{
    let v = to_chars(s);
    let n: usize = v.len();
    if n == 0 || !(alpha(v[0]) || v[0] == '_') {
        return false;
    }
    let mut i: usize = 0;
    while i < n
        invariant
            n == v@.len(),
            v@ == s@,
            i <= n,
            forall|k: int|
                0 <= k < i ==> is_alpha(#[trigger] s@[k]) || is_digit(s@[k]) || s@[k] == '_',
        decreases n - i,
    {
        if !(alpha(v[i]) || digit(v[i]) || v[i] == '_') {
            return false;
        }
        i = i + 1;
    }
    true
}

/// Why a field name is refused, if it is: it must be a bare identifier (it is
/// written into the SQL, not bound) and, when any fields are known, one of them.
pub open spec fn field_error(name: Seq<char>, valid: Seq<Seq<char>>) -> Option<Seq<char>> {
    if !sql_ident(name) {
        Some(
            "invalid field name '"@ + name
                + "' (only letters, digits and underscore allowed)"@,
        )
    } else if valid.len() > 0 && !valid.contains(name) {
        Some("unknown field '"@ + name + "'. Known fields: "@ + joined(valid, ", "@))
    } else {
        None
    }
}

/// Checks a field name. An empty `valid` set skips the membership test.
pub fn validate_field(name: &str, valid: &FieldSet) -> (r: Result<(), String>)
    requires
        valid.wf(),
    ensures
        match r {
            Ok(_) => field_error(name@, views(valid.items@)) is None,
            Err(m) => field_error(name@, views(valid.items@)) == Some(m@),
        },
{
    if !is_sql_ident(name) {
        let mut m = "invalid field name '".to_owned();
        m.append(name);
        m.append("' (only letters, digits and underscore allowed)");
        return Err(m);
    }
    if valid.items.len() > 0 && !valid.contains(name) {
        let mut m = "unknown field '".to_owned();
        m.append(name);
        m.append("'. Known fields: ");
        m.append(join(&valid.items, ", ").as_str());
        return Err(m);
    }
    Ok(())
}

// ── Describing tokens ────────────────────────────────────────────────────────

/// The text that `Debug` formatting gives a string: quoted and escaped.
pub uninterp spec fn debug_text(s: Seq<char>) -> Seq<char>;

/// `format!` with `{:?}` on a string: the result is a function of the string's
/// characters, named `debug_text`. How each character is escaped is not stated.
#[verifier::external_body]
fn debug_string(s: &str) -> (r: String)
    ensures
        r@ == debug_text(s@),
{
    format!("{s:?}")
}

/// How a message names a token.
pub open spec fn described(t: Option<TokV>) -> Seq<char> {
    match t {
        None => "end of input"@,
        Some(TokV::Select) => "Select"@,
        Some(TokV::Where) => "Where"@,
        Some(TokV::Group) => "Group"@,
        Some(TokV::By) => "By"@,
        Some(TokV::Limit) => "Limit"@,
        Some(TokV::And) => "And"@,
        Some(TokV::Or) => "Or"@,
        Some(TokV::Not) => "Not"@,
        Some(TokV::Eq) => "Eq"@,
        Some(TokV::Ne) => "Ne"@,
        Some(TokV::LParen) => "LParen"@,
        Some(TokV::RParen) => "RParen"@,
        Some(TokV::Comma) => "Comma"@,
        Some(TokV::Word(w)) => "Word("@ + debug_text(w) + ")"@,
        Some(TokV::Str(s)) => "Str("@ + debug_text(s) + ")"@,
    }
}

/// The model of an optional token.
pub open spec fn opt_tok(t: Option<Tok>) -> Option<TokV> {
    match t {
        Some(t) => Some(t@),
        None => None,
    }
}

/// How a message names a token.
pub fn describe(t: &Option<Tok>) -> (r: String)
    ensures
        r@ == described(opt_tok(*t)),
{
    match t {
        None => "end of input".to_owned(),
        Some(Tok::Select) => "Select".to_owned(),
        Some(Tok::Where) => "Where".to_owned(),
        Some(Tok::Group) => "Group".to_owned(),
        Some(Tok::By) => "By".to_owned(),
        Some(Tok::Limit) => "Limit".to_owned(),
        Some(Tok::And) => "And".to_owned(),
        Some(Tok::Or) => "Or".to_owned(),
        Some(Tok::Not) => "Not".to_owned(),
        Some(Tok::Eq) => "Eq".to_owned(),
        Some(Tok::Ne) => "Ne".to_owned(),
        Some(Tok::LParen) => "LParen".to_owned(),
        Some(Tok::RParen) => "RParen".to_owned(),
        Some(Tok::Comma) => "Comma".to_owned(),
        Some(Tok::Word(w)) => {
            let mut m = "Word(".to_owned();
            m.append(debug_string(w.as_str()).as_str());
            m.append(")");
            m
        },
        Some(Tok::Str(s)) => {
            let mut m = "Str(".to_owned();
            m.append(debug_string(s.as_str()).as_str());
            m.append(")");
            m
        },
    }
}

fn copy_tok(t: &Tok) -> (r: Tok)
    ensures
        r@ == t@,
{
    match t {
        Tok::Select => Tok::Select,
        Tok::Where => Tok::Where,
        Tok::Group => Tok::Group,
        Tok::By => Tok::By,
        Tok::Limit => Tok::Limit,
        Tok::And => Tok::And,
        Tok::Or => Tok::Or,
        Tok::Not => Tok::Not,
        Tok::Eq => Tok::Eq,
        Tok::Ne => Tok::Ne,
        Tok::LParen => Tok::LParen,
        Tok::RParen => Tok::RParen,
        Tok::Comma => Tok::Comma,
        Tok::Word(w) => Tok::Word(w.clone()),
        Tok::Str(s) => Tok::Str(s.clone()),
    }
}

// ── Grammar ──────────────────────────────────────────────────────────────────

/// The token at position `i`, if there is one.
pub open spec fn tok_at(ts: Seq<TokV>, i: int) -> Option<TokV> {
    if 0 <= i < ts.len() {
        Some(ts[i])
    } else {
        None
    }
}

/// The text of a word or string at position `i`.
pub open spec fn text_at(ts: Seq<TokV>, i: int) -> Option<Seq<char>> {
    match tok_at(ts, i) {
        Some(TokV::Word(w)) => Some(w),
        Some(TokV::Str(s)) => Some(s),
        _ => None,
    }
}

/// What is read and the position behind it, or a message.
pub type Parsed<T> = Result<(T, int), Seq<char>>;

/// The arguments of a call, from position `i` behind `acc`, up to the closing parenthesis.
pub open spec fn args_from(ts: Seq<TokV>, i: int, acc: Seq<Seq<char>>) -> Parsed<Seq<Seq<char>>>
    decreases ts.len() - i,
{
    match text_at(ts, i) {
        None => Err("expected a function argument, found "@ + described(tok_at(ts, i))),
        Some(a) => match tok_at(ts, i + 1) {
            Some(TokV::Comma) => args_from(ts, i + 2, acc.push(a)),
            Some(TokV::RParen) => Ok((acc.push(a), i + 1)),
            other => Err("expected ',' or ')' in argument list, found "@ + described(other)),
        },
    }
}

/// The message for a call with the wrong number of arguments.
pub open spec fn arity_error(fname: Seq<char>, expected: int, got: int) -> Seq<char> {
    fname + "() expects "@ + dec(expected as nat) + " argument(s), got "@ + dec(got as nat)
}

/// A condition on the field `args[0]`, which must be valid.
pub open spec fn field_cond(
    args: Seq<Seq<char>>,
    value: Seq<char>,
    mode: MatchMode,
    valid: Seq<Seq<char>>,
) -> Result<CondV, Seq<char>> {
    match field_error(args[0], valid) {
        Some(m) => Err(m),
        None => Ok(CondV::Field { field: args[0], value, mode }),
    }
}

/// The condition that a function call stands for.
pub open spec fn call_cond(
    name: Seq<char>,
    args: Seq<Seq<char>>,
    valid: Seq<Seq<char>>,
) -> Result<CondV, Seq<char>> {
    let fname = lower(name);
    if fname == "startswith"@ || fname == "endswith"@ || fname == "contains"@ {
        if args.len() != 2 {
            Err(arity_error(fname, 2, args.len() as int))
        } else {
            field_cond(
                args,
                args[1],
                if fname == "startswith"@ {
                    MatchMode::StartsWith
                } else if fname == "endswith"@ {
                    MatchMode::EndsWith
                } else {
                    MatchMode::Contains
                },
                valid,
            )
        }
    } else if fname == "cidr_match"@ {
        if args.len() != 2 {
            Err(arity_error(fname, 2, args.len() as int))
        } else {
            match field_error(args[0], valid) {
                Some(m) => Err(m),
                None => match cidr_answer(args[1], "0.0.0.0"@) {
                    Err(e) => Err("cidr_match: "@ + e),
                    Ok(_) => Ok(
                        CondV::Field { field: args[0], value: args[1], mode: MatchMode::Cidr },
                    ),
                },
            }
        }
    } else if fname == "any"@ {
        if args.len() != 1 {
            Err(arity_error(fname, 1, args.len() as int))
        } else {
            field_cond(args, Seq::empty(), MatchMode::Any, valid)
        }
    } else if fname == "raw_contains"@ {
        if args.len() != 1 {
            Err(arity_error(fname, 1, args.len() as int))
        } else {
            Ok(CondV::Text { needle: args[0] })
        }
    } else {
        Err("unknown function '"@ + fname + "'"@)
    }
}

/// `func_call`, the parenthesis at position `i`.
pub open spec fn call_from(
    ts: Seq<TokV>,
    i: int,
    name: Seq<char>,
    valid: Seq<Seq<char>>,
) -> Parsed<ExprV> {
    let args: Parsed<Seq<Seq<char>>> = if tok_at(ts, i + 1) == Some(TokV::RParen) {
        Ok((Seq::empty(), i + 1))
    } else {
        args_from(ts, i + 1, Seq::empty())
    };
    match args {
        Err(m) => Err(m),
        Ok((a, j)) => match call_cond(name, a, valid) {
            Err(m) => Err(m),
            Ok(c) => Ok((ExprV::Cond(c), j + 1)),
        },
    }
}

/// `comparison`, the operator at position `i`.
pub open spec fn comparison_from(
    ts: Seq<TokV>,
    i: int,
    field: Seq<char>,
    valid: Seq<Seq<char>>,
) -> Parsed<ExprV> {
    match text_at(ts, i + 1) {
        None => Err("expected a value after operator, found "@ + described(tok_at(ts, i + 1))),
        Some(value) => match field_error(field, valid) {
            Some(m) => Err(m),
            None => Ok(
                (
                    ExprV::Cond(
                        CondV::Field {
                            field,
                            value,
                            mode: if tok_at(ts, i) == Some(TokV::Eq) {
                                MatchMode::Exact
                            } else {
                                MatchMode::NotExact
                            },
                        },
                    ),
                    i + 2,
                ),
            ),
        },
    }
}

/// `primary`.
pub open spec fn primary_from(ts: Seq<TokV>, i: int, valid: Seq<Seq<char>>) -> Parsed<ExprV>
    decreases ts.len() - i, 0int,
{
    if tok_at(ts, i) == Some(TokV::LParen) {
        match or_from(ts, i + 1, valid) {
            Err(m) => Err(m),
            Ok((e, j)) => if tok_at(ts, j) == Some(TokV::RParen) {
                Ok((e, j + 1))
            } else {
                Err("expected ')', found "@ + described(tok_at(ts, j)))
            },
        }
    } else {
        match text_at(ts, i) {
            None => Err("expected a condition, found "@ + described(tok_at(ts, i))),
            Some(name) => match tok_at(ts, i + 1) {
                Some(TokV::LParen) => call_from(ts, i + 1, name, valid),
                Some(TokV::Eq) => comparison_from(ts, i + 1, name, valid),
                Some(TokV::Ne) => comparison_from(ts, i + 1, name, valid),
                other => Err(
                    "expected an operator or '(' after '"@ + name + "', found "@ + described(other),
                ),
            },
        }
    }
}

/// `not_expr`.
pub open spec fn not_from(ts: Seq<TokV>, i: int, valid: Seq<Seq<char>>) -> Parsed<ExprV>
    decreases ts.len() - i, 1int,
{
    if tok_at(ts, i) == Some(TokV::Not) {
        match primary_from(ts, i + 1, valid) {
            Err(m) => Err(m),
            Ok((e, j)) => Ok((ExprV::Not(Box::new(e)), j)),
        }
    } else {
        primary_from(ts, i, valid)
    }
}

/// The rest of an `and_expr` behind its first operands `left`.
pub open spec fn and_rest(
    ts: Seq<TokV>,
    i: int,
    left: ExprV,
    valid: Seq<Seq<char>>,
) -> Parsed<ExprV>
    decreases ts.len() - i, 2int,
{
    if tok_at(ts, i) == Some(TokV::And) {
        match not_from(ts, i + 1, valid) {
            Err(m) => Err(m),
            Ok((right, j)) => if i < j <= ts.len() {
                and_rest(ts, j, ExprV::And(Box::new(left), Box::new(right)), valid)
            } else {
                Err(Seq::empty())
            },
        }
    } else {
        Ok((left, i))
    }
}

/// `and_expr`.
pub open spec fn and_from(ts: Seq<TokV>, i: int, valid: Seq<Seq<char>>) -> Parsed<ExprV>
    decreases ts.len() - i, 3int,
{
    match not_from(ts, i, valid) {
        Err(m) => Err(m),
        Ok((left, j)) => if i < j <= ts.len() {
            and_rest(ts, j, left, valid)
        } else {
            Err(Seq::empty())
        },
    }
}

/// The rest of an `or_expr` behind its first operands `left`.
pub open spec fn or_rest(
    ts: Seq<TokV>,
    i: int,
    left: ExprV,
    valid: Seq<Seq<char>>,
) -> Parsed<ExprV>
    decreases ts.len() - i, 4int,
{
    if tok_at(ts, i) == Some(TokV::Or) {
        match and_from(ts, i + 1, valid) {
            Err(m) => Err(m),
            Ok((right, j)) => if i < j <= ts.len() {
                or_rest(ts, j, ExprV::Or(Box::new(left), Box::new(right)), valid)
            } else {
                Err(Seq::empty())
            },
        }
    } else {
        Ok((left, i))
    }
}

/// `or_expr`.
pub open spec fn or_from(ts: Seq<TokV>, i: int, valid: Seq<Seq<char>>) -> Parsed<ExprV>
    decreases ts.len() - i, 5int,
{
    match and_from(ts, i, valid) {
        Err(m) => Err(m),
        Ok((left, j)) => if i < j <= ts.len() {
            or_rest(ts, j, left, valid)
        } else {
            Err(Seq::empty())
        },
    }
}

/// One name of a list at position `i`. In a projection `count` names the
/// count column and is always valid.
pub open spec fn name_from(ts: Seq<TokV>, i: int, valid: Seq<Seq<char>>, count: bool) -> Parsed<
    Seq<char>,
> {
    match text_at(ts, i) {
        None => Err("expected a field name, found "@ + described(tok_at(ts, i))),
        Some(name) => if count && name == "count"@ {
            Ok((name, i + 1))
        } else {
            match field_error(name, valid) {
                Some(m) => Err(m),
                None => Ok((name, i + 1)),
            }
        },
    }
}

/// A list of names separated by commas, from position `i` behind `acc`.
pub open spec fn names_from(
    ts: Seq<TokV>,
    i: int,
    acc: Seq<Seq<char>>,
    valid: Seq<Seq<char>>,
    count: bool,
) -> Parsed<Seq<Seq<char>>>
    decreases ts.len() - i,
{
    match name_from(ts, i, valid, count) {
        Err(m) => Err(m),
        Ok((name, j)) => if tok_at(ts, i + 1) == Some(TokV::Comma) {
            names_from(ts, i + 2, acc.push(name), valid, count)
        } else {
            Ok((acc.push(name), i + 1))
        },
    }
}

/// An optional `SELECT` list at position `i`.
pub open spec fn select_from(ts: Seq<TokV>, i: int, valid: Seq<Seq<char>>) -> Parsed<
    Option<Seq<Seq<char>>>,
> {
    if tok_at(ts, i) == Some(TokV::Select) {
        match names_from(ts, i + 1, Seq::empty(), valid, true) {
            Err(m) => Err(m),
            Ok((v, j)) => Ok((Some(v), j)),
        }
    } else {
        Ok((None, i))
    }
}

/// An optional predicate at position `i`.
pub open spec fn predicate_from(ts: Seq<TokV>, i: int, valid: Seq<Seq<char>>) -> Parsed<
    Option<ExprV>,
> {
    match tok_at(ts, i) {
        None => Ok((None, i)),
        Some(TokV::Group) => Ok((None, i)),
        Some(TokV::Limit) => Ok((None, i)),
        _ => match or_from(ts, i, valid) {
            Err(m) => Err(m),
            Ok((e, j)) => Ok((Some(e), j)),
        },
    }
}

/// An optional `GROUP BY` list at position `i`.
pub open spec fn group_from(ts: Seq<TokV>, i: int, valid: Seq<Seq<char>>) -> Parsed<
    Option<Seq<Seq<char>>>,
> {
    if tok_at(ts, i) == Some(TokV::Group) {
        if tok_at(ts, i + 1) == Some(TokV::By) {
            match names_from(ts, i + 2, Seq::empty(), valid, false) {
                Err(m) => Err(m),
                Ok((v, j)) => Ok((Some(v), j)),
            }
        } else {
            Err("expected BY after GROUP"@)
        }
    } else {
        Ok((None, i))
    }
}

/// An optional `LIMIT` at position `i`.
pub open spec fn limit_from(ts: Seq<TokV>, i: int) -> Parsed<Option<int>> {
    if tok_at(ts, i) == Some(TokV::Limit) {
        match text_at(ts, i + 1) {
            Some(w) => match read_unsigned(w, usize::MAX as int) {
                Some(n) => Ok((Some(n), i + 2)),
                None => Err("invalid LIMIT value '"@ + w + "'"@),
            },
            None => Err("expected a number after LIMIT, found "@ + described(tok_at(ts, i + 1))),
        }
    } else {
        Ok((None, i))
    }
}

/// `query`: the parts in order, and nothing behind them.
pub open spec fn query_of(ts: Seq<TokV>, valid: Seq<Seq<char>>) -> Result<QueryV, Seq<char>> {
    match select_from(ts, 0, valid) {
        Err(m) => Err(m),
        Ok((select, i)) => {
            let i = if tok_at(ts, i) == Some(TokV::Where) {
                i + 1
            } else {
                i
            };
            match predicate_from(ts, i, valid) {
                Err(m) => Err(m),
                Ok((expr, i)) => match group_from(ts, i, valid) {
                    Err(m) => Err(m),
                    Ok((group_by, i)) => match limit_from(ts, i) {
                        Err(m) => Err(m),
                        Ok((limit, i)) => if i != ts.len() {
                            Err("unexpected trailing input near "@ + described(tok_at(ts, i)))
                        } else {
                            Ok(QueryV { select, expr, group_by, limit })
                        },
                    },
                },
            }
        },
    }
}

/// What a query text means, or the message of its first error.
pub open spec fn meaning(dsl: Seq<char>, valid: Seq<Seq<char>>) -> Result<QueryV, Seq<char>> {
    match tokens_from(dsl, 0) {
        Err(m) => Err(m),
        Ok(ts) => query_of(ts, valid),
    }
}

// ── Parser ───────────────────────────────────────────────────────────────────

/// The model of a result that carries a tree.
pub open spec fn expr_result(r: Result<Expr, String>, pos: usize) -> Parsed<ExprV> {
    match r {
        Ok(e) => Ok((e.view(), pos as int)),
        Err(m) => Err(m@),
    }
}

/// The model of a result that carries a list of names.
pub open spec fn names_result(r: Result<Vec<String>, String>, pos: usize) -> Parsed<
    Seq<Seq<char>>,
> {
    match r {
        Ok(v) => Ok((views(v@), pos as int)),
        Err(m) => Err(m@),
    }
}

/// The model of the parser's result.
pub open spec fn query_result(r: Result<Query, String>) -> Result<QueryV, Seq<char>> {
    match r {
        Ok(q) => Ok(q@),
        Err(m) => Err(m@),
    }
}

/// A position in a list of tokens.
pub struct Parser<'a> {
    pub toks: Vec<Tok>,
    pub pos: usize,
    pub valid: &'a FieldSet,
}

fn message(front: &str, t: &Option<Tok>) -> (r: String)
    ensures
        r@ == front@ + described(opt_tok(*t)),
{
    let mut m = front.to_owned();
    m.append(describe(t).as_str());
    m
}

impl<'a> Parser<'a> {
    /// The position lies in the list.
    pub open spec fn wf(&self) -> bool {
        self.pos <= self.toks@.len() && self.valid.wf()
    }

    /// The models of the tokens.
    pub open spec fn ts(&self) -> Seq<TokV> {
        tok_views(self.toks@)
    }

    /// The names that are valid.
    pub open spec fn names(&self) -> Seq<Seq<char>> {
        views(self.valid.items@)
    }

    /// The same list and names, at a position in the list.
    pub open spec fn follows(&self, other: &Parser) -> bool {
        self.wf() && self.toks@ == other.toks@ && self.valid == other.valid
    }

    /// The token at the position.
    pub fn peek(&self) -> (r: Option<&Tok>)
        requires
            self.wf(),
        ensures
            match r {
                Some(t) => tok_at(self.ts(), self.pos as int) == Some(t@) && self.pos
                    < self.toks@.len(),
                None => tok_at(self.ts(), self.pos as int) is None && self.pos == self.toks@.len(),
            },
    {
        if self.pos < self.toks.len() {
            Some(&self.toks[self.pos])
        } else {
            None
        }
    }

    /// The token at the position, which then moves on.
    pub fn next(&mut self) -> (r: Option<Tok>)
        requires
            old(self).wf(),
        ensures
            final(self).follows(old(self)),
            opt_tok(r) == tok_at(old(self).ts(), old(self).pos as int),
            r is Some ==> final(self).pos == old(self).pos + 1,
            r is None ==> final(self).pos == old(self).pos,
    {
        if self.pos < self.toks.len() {
            let t = copy_tok(&self.toks[self.pos]);
            self.pos = self.pos + 1;
            Some(t)
        } else {
            None
        }
    }

    /// The text of a word or string at the position, which then moves on; the
    /// token itself if it is neither.
    fn next_text(&mut self) -> (r: Result<String, Option<Tok>>)
        requires
            old(self).wf(),
        ensures
            final(self).follows(old(self)),
            match r {
                Ok(s) => text_at(old(self).ts(), old(self).pos as int) == Some(s@)
                    && final(self).pos == old(self).pos + 1,
                Err(t) => text_at(old(self).ts(), old(self).pos as int) is None && opt_tok(t)
                    == tok_at(old(self).ts(), old(self).pos as int),
            },
    {
        match self.next() {
            Some(Tok::Word(w)) => Ok(w),
            Some(Tok::Str(s)) => Ok(s),
            other => Err(other),
        }
    }

    /// One name.
    fn parse_name(&mut self, count: bool) -> (r: Result<String, String>)
        requires
            old(self).wf(),
        ensures
            final(self).follows(old(self)),
            match r {
                Ok(s) => name_from(old(self).ts(), old(self).pos as int, old(self).names(), count)
                    == Ok::<(Seq<char>, int), Seq<char>>((s@, final(self).pos as int))
                    && final(self).pos == old(self).pos + 1,
                Err(m) => name_from(old(self).ts(), old(self).pos as int, old(self).names(), count)
                    == Err::<(Seq<char>, int), Seq<char>>(m@),
            },
    {
        match self.next_text() {
            Err(other) => Err(message("expected a field name, found ", &other)),
            Ok(name) => {
                if count && same(name.as_str(), "count") {
                    return Ok(name);
                }
                match validate_field(name.as_str(), self.valid) {
                    Ok(_) => Ok(name),
                    Err(m) => Err(m),
                }
            },
        }
    }

    fn parse_names(&mut self, count: bool) -> (r: Result<Vec<String>, String>)
        requires
            old(self).wf(),
        ensures
            final(self).follows(old(self)),
            names_result(r, final(self).pos) == names_from(
                old(self).ts(),
                old(self).pos as int,
                Seq::empty(),
                old(self).names(),
                count,
            ),
    {
        let ghost ts = self.ts();
        let ghost valid = self.names();
        let ghost start = self.pos as int;
        let mut v: Vec<String> = Vec::new();
        assert(views(v@) =~= Seq::<Seq<char>>::empty());
        loop
            invariant
                self.follows(old(self)),
                ts == old(self).ts(),
                valid == old(self).names(),
                start == old(self).pos,
                names_from(ts, start, Seq::empty(), valid, count) == names_from(
                    ts,
                    self.pos as int,
                    views(v@),
                    valid,
                    count,
                ),
            decreases self.toks@.len() - self.pos,
        {
            let ghost before = views(v@);
            match self.parse_name(count) {
                Err(m) => {
                    return Err(m);
                },
                Ok(name) => {
                    v.push(name);
                    assert(views(v@) =~= before.push(name@));
                    match self.peek() {
                        Some(Tok::Comma) => {
                            self.next();
                        },
                        _ => {
                            return Ok(v);
                        },
                    }
                },
            }
        }
    }

    /// A list of field names.
    pub fn parse_identlist(&mut self) -> (r: Result<Vec<String>, String>)
        requires
            old(self).wf(),
        ensures
            final(self).follows(old(self)),
            names_result(r, final(self).pos) == names_from(
                old(self).ts(),
                old(self).pos as int,
                Seq::empty(),
                old(self).names(),
                false,
            ),
    {
        self.parse_names(false)
    }

    /// `or_expr`.
    pub fn parse_or(&mut self) -> (r: Result<Expr, String>)
        requires
            old(self).wf(),
        ensures
            final(self).follows(old(self)),
            expr_result(r, final(self).pos) == or_from(
                old(self).ts(),
                old(self).pos as int,
                old(self).names(),
            ),
            r is Ok ==> old(self).pos < final(self).pos,
        decreases old(self).toks@.len() - old(self).pos, 5int,
    {
        let ghost ts = self.ts();
        let ghost valid = self.names();
        let ghost start = self.pos as int;
        let mut left = match self.parse_and() {
            Ok(e) => e,
            Err(m) => {
                return Err(m);
            },
        };
        loop
            invariant
                self.follows(old(self)),
                ts == old(self).ts(),
                valid == old(self).names(),
                start == old(self).pos,
                start < self.pos,
                or_from(ts, start, valid) == or_rest(ts, self.pos as int, left.view(), valid),
            decreases self.toks@.len() - self.pos,
        {
            match self.peek() {
                Some(Tok::Or) => {
                    self.next();
                    match self.parse_and() {
                        Ok(right) => {
                            left = Expr::Or(Box::new(left), Box::new(right));
                        },
                        Err(m) => {
                            return Err(m);
                        },
                    }
                },
                _ => {
                    return Ok(left);
                },
            }
        }
    }

    /// `and_expr`.
    pub fn parse_and(&mut self) -> (r: Result<Expr, String>)
        requires
            old(self).wf(),
        ensures
            final(self).follows(old(self)),
            expr_result(r, final(self).pos) == and_from(
                old(self).ts(),
                old(self).pos as int,
                old(self).names(),
            ),
            r is Ok ==> old(self).pos < final(self).pos,
        decreases old(self).toks@.len() - old(self).pos, 3int,
    {
        let ghost ts = self.ts();
        let ghost valid = self.names();
        let ghost start = self.pos as int;
        let mut left = match self.parse_not() {
            Ok(e) => e,
            Err(m) => {
                return Err(m);
            },
        };
        loop
            invariant
                self.follows(old(self)),
                ts == old(self).ts(),
                valid == old(self).names(),
                start == old(self).pos,
                start < self.pos,
                and_from(ts, start, valid) == and_rest(ts, self.pos as int, left.view(), valid),
            decreases self.toks@.len() - self.pos,
        {
            match self.peek() {
                Some(Tok::And) => {
                    self.next();
                    match self.parse_not() {
                        Ok(right) => {
                            left = Expr::And(Box::new(left), Box::new(right));
                        },
                        Err(m) => {
                            return Err(m);
                        },
                    }
                },
                _ => {
                    return Ok(left);
                },
            }
        }
    }

    /// `not_expr`.
    pub fn parse_not(&mut self) -> (r: Result<Expr, String>)
        requires
            old(self).wf(),
        ensures
            final(self).follows(old(self)),
            expr_result(r, final(self).pos) == not_from(
                old(self).ts(),
                old(self).pos as int,
                old(self).names(),
            ),
            r is Ok ==> old(self).pos < final(self).pos,
        decreases old(self).toks@.len() - old(self).pos, 1int,
    {
        match self.peek() {
            Some(Tok::Not) => {
                self.next();
                match self.parse_primary() {
                    Ok(e) => Ok(Expr::Not(Box::new(e))),
                    Err(m) => Err(m),
                }
            },
            _ => self.parse_primary(),
        }
    }

    /// `primary`.
    pub fn parse_primary(&mut self) -> (r: Result<Expr, String>)
        requires
            old(self).wf(),
        ensures
            final(self).follows(old(self)),
            expr_result(r, final(self).pos) == primary_from(
                old(self).ts(),
                old(self).pos as int,
                old(self).names(),
            ),
            r is Ok ==> old(self).pos < final(self).pos,
        decreases old(self).toks@.len() - old(self).pos, 0int,
    {
        let open = matches!(self.peek(), Some(Tok::LParen));
        if open {
            self.next();
            return match self.parse_or() {
                Err(m) => Err(m),
                Ok(e) => match self.next() {
                    Some(Tok::RParen) => Ok(e),
                    other => Err(message("expected ')', found ", &other)),
                },
            };
        }
        match self.next_text() {
            Err(other) => Err(message("expected a condition, found ", &other)),
            Ok(name) => {
                let t = match self.peek() {
                    Some(t) => Some(copy_tok(t)),
                    None => None,
                };
                match t {
                    Some(Tok::LParen) => self.parse_func_call(name),
                    Some(Tok::Eq) => self.parse_comparison(name),
                    Some(Tok::Ne) => self.parse_comparison(name),
                    other => {
                        let mut m = "expected an operator or '(' after '".to_owned();
                        m.append(name.as_str());
                        m.append("', found ");
                        m.append(describe(&other).as_str());
                        Err(m)
                    },
                }
            },
        }
    }

    /// `comparison` behind its field; an operator stands at the position.
    pub fn parse_comparison(&mut self, field: String) -> (r: Result<Expr, String>)
        requires
            old(self).wf(),
            tok_at(old(self).ts(), old(self).pos as int) is Some,
        ensures
            final(self).follows(old(self)),
            expr_result(r, final(self).pos) == comparison_from(
                old(self).ts(),
                old(self).pos as int,
                field@,
                old(self).names(),
            ),
            r is Ok ==> old(self).pos < final(self).pos,
    {
        let op = self.next();
        match self.next_text() {
            Err(other) => Err(message("expected a value after operator, found ", &other)),
            Ok(value) => match validate_field(field.as_str(), self.valid) {
                Err(m) => Err(m),
                Ok(_) => {
                    let mode = match op {
                        Some(Tok::Eq) => MatchMode::Exact,
                        _ => MatchMode::NotExact,
                    };
                    Ok(Expr::Cond(Condition::Field { field, value, mode }))
                },
            },
        }
    }

    fn parse_args(&mut self) -> (r: Result<Vec<String>, String>)
        requires
            old(self).wf(),
        ensures
            final(self).follows(old(self)),
            names_result(r, final(self).pos) == args_from(
                old(self).ts(),
                old(self).pos as int,
                Seq::empty(),
            ),
            r is Ok ==> tok_at(final(self).ts(), final(self).pos as int) == Some(TokV::RParen)
                && old(self).pos < final(self).pos,
    {
        let ghost ts = self.ts();
        let ghost start = self.pos as int;
        let mut args: Vec<String> = Vec::new();
        assert(views(args@) =~= Seq::<Seq<char>>::empty());
        loop
            invariant
                self.follows(old(self)),
                ts == old(self).ts(),
                start == old(self).pos,
                start <= self.pos,
                args_from(ts, start, Seq::empty()) == args_from(ts, self.pos as int, views(args@)),
            decreases self.toks@.len() - self.pos,
        {
            let ghost before = views(args@);
            match self.next_text() {
                Err(other) => {
                    return Err(message("expected a function argument, found ", &other));
                },
                Ok(a) => {
                    args.push(a);
                    assert(views(args@) =~= before.push(a@));
                },
            }
            match self.peek() {
                Some(Tok::Comma) => {
                    self.next();
                },
                Some(Tok::RParen) => {
                    return Ok(args);
                },
                other => {
                    let t = match other {
                        Some(t) => Some(copy_tok(t)),
                        None => None,
                    };
                    return Err(message("expected ',' or ')' in argument list, found ", &t));
                },
            }
        }
    }

    /// `func_call` behind its name; the parenthesis stands at the position.
    pub fn parse_func_call(&mut self, name: String) -> (r: Result<Expr, String>)
        requires
            old(self).wf(),
            tok_at(old(self).ts(), old(self).pos as int) is Some,
        ensures
            final(self).follows(old(self)),
            expr_result(r, final(self).pos) == call_from(
                old(self).ts(),
                old(self).pos as int,
                name@,
                old(self).names(),
            ),
            r is Ok ==> old(self).pos < final(self).pos,
    {
        self.next();
        let empty = matches!(self.peek(), Some(Tok::RParen));
        let args = if empty {
            let v: Vec<String> = Vec::new();
            assert(views(v@) =~= Seq::<Seq<char>>::empty());
            v
        } else {
            match self.parse_args() {
                Ok(v) => v,
                Err(m) => {
                    return Err(m);
                },
            }
        };
        self.next();
        match self.map_function(name.as_str(), args) {
            Ok(c) => Ok(Expr::Cond(c)),
            Err(m) => Err(m),
        }
    }

    fn arity(fname: &str, args: &Vec<String>, n: usize) -> (r: Result<(), String>)
        ensures
            match r {
                Ok(_) => args@.len() == n,
                Err(m) => args@.len() != n && m@ == arity_error(
                    fname@,
                    n as int,
                    args@.len() as int,
                ),
            },
    {
        if args.len() == n {
            Ok(())
        } else {
            let mut m = fname.to_owned();
            m.append("() expects ");
            m.append(dec_u64(n as u64).as_str());
            m.append(" argument(s), got ");
            m.append(dec_u64(args.len() as u64).as_str());
            Err(m)
        }
    }

    fn field_fn(&self, args: &Vec<String>, value: String, mode: MatchMode) -> (r: Result<
        Condition,
        String,
    >)
        requires
            self.wf(),
            args@.len() > 0,
        ensures
            cond_result(r) == field_cond(views(args@), value@, mode, self.names()),
    {
        assert(views(args@)[0] == args@[0]@);
        match validate_field(args[0].as_str(), self.valid) {
            Ok(_) => Ok(Condition::Field { field: args[0].clone(), value, mode }),
            Err(m) => Err(m),
        }
    }

    /// The condition that a function call stands for.
    pub fn map_function(&self, name: &str, args: Vec<String>) -> (r: Result<Condition, String>)
        requires
            self.wf(),
        ensures
            cond_result(r) == call_cond(name@, views(args@), self.names()),
    {
        let fname = to_lower(name);
        let f = fname.as_str();
        let ghost a = views(args@);
        assert(a.len() == args@.len());
        assert(forall|i: int| 0 <= i < args@.len() ==> #[trigger] a[i] == args@[i]@);
        if same(f, "startswith") || same(f, "endswith") || same(f, "contains") {
            match Self::arity(f, &args, 2) {
                Err(m) => Err(m),
                Ok(_) => {
                    let mode = if same(f, "startswith") {
                        MatchMode::StartsWith
                    } else if same(f, "endswith") {
                        MatchMode::EndsWith
                    } else {
                        MatchMode::Contains
                    };
                    self.field_fn(&args, args[1].clone(), mode)
                },
            }
        } else if same(f, "cidr_match") {
            match Self::arity(f, &args, 2) {
                Err(m) => Err(m),
                Ok(_) => match self.field_fn(&args, args[1].clone(), MatchMode::Cidr) {
                    Err(m) => Err(m),
                    Ok(c) => match cidr_contains(args[1].as_str(), "0.0.0.0") {
                        Err(e) => {
                            let mut m = "cidr_match: ".to_owned();
                            m.append(e.as_str());
                            Err(m)
                        },
                        Ok(_) => Ok(c),
                    },
                },
            }
        } else if same(f, "any") {
            match Self::arity(f, &args, 1) {
                Err(m) => Err(m),
                Ok(_) => self.field_fn(&args, String::new(), MatchMode::Any),
            }
        } else if same(f, "raw_contains") {
            match Self::arity(f, &args, 1) {
                Err(m) => Err(m),
                Ok(_) => Ok(Condition::Text { needle: args[0].clone() }),
            }
        } else {
            let mut m = "unknown function '".to_owned();
            m.append(f);
            m.append("'");
            Err(m)
        }
    }

    fn parse_select(&mut self) -> (r: Result<Option<Vec<String>>, String>)
        requires
            old(self).wf(),
        ensures
            final(self).follows(old(self)),
            opt_names_result(r, final(self).pos) == select_from(
                old(self).ts(),
                old(self).pos as int,
                old(self).names(),
            ),
    {
        let present = matches!(self.peek(), Some(Tok::Select));
        if !present {
            return Ok(None);
        }
        self.next();
        match self.parse_names(true) {
            Ok(v) => Ok(Some(v)),
            Err(m) => Err(m),
        }
    }

    fn parse_predicate(&mut self) -> (r: Result<Option<Expr>, String>)
        requires
            old(self).wf(),
        ensures
            final(self).follows(old(self)),
            match r {
                Ok(e) => predicate_from(old(self).ts(), old(self).pos as int, old(self).names())
                    == Ok::<(Option<ExprV>, int), Seq<char>>(
                    (opt_expr_view(e), final(self).pos as int),
                ),
                Err(m) => predicate_from(old(self).ts(), old(self).pos as int, old(self).names())
                    == Err::<(Option<ExprV>, int), Seq<char>>(m@),
            },
    {
        let absent = match self.peek() {
            None => true,
            Some(Tok::Group) => true,
            Some(Tok::Limit) => true,
            _ => false,
        };
        if absent {
            return Ok(None);
        }
        match self.parse_or() {
            Ok(e) => Ok(Some(e)),
            Err(m) => Err(m),
        }
    }

    fn parse_group_by(&mut self) -> (r: Result<Option<Vec<String>>, String>)
        requires
            old(self).wf(),
        ensures
            final(self).follows(old(self)),
            opt_names_result(r, final(self).pos) == group_from(
                old(self).ts(),
                old(self).pos as int,
                old(self).names(),
            ),
    {
        let present = matches!(self.peek(), Some(Tok::Group));
        if !present {
            return Ok(None);
        }
        self.next();
        match self.next() {
            Some(Tok::By) => {},
            _ => {
                return Err("expected BY after GROUP".to_owned());
            },
        }
        match self.parse_identlist() {
            Ok(v) => Ok(Some(v)),
            Err(m) => Err(m),
        }
    }

    fn parse_limit(&mut self) -> (r: Result<Option<usize>, String>)
        requires
            old(self).wf(),
        ensures
            final(self).follows(old(self)),
            match r {
                Ok(n) => limit_from(old(self).ts(), old(self).pos as int) == Ok::<
                    (Option<int>, int),
                    Seq<char>,
                >((opt_int(n), final(self).pos as int)),
                Err(m) => limit_from(old(self).ts(), old(self).pos as int) == Err::<
                    (Option<int>, int),
                    Seq<char>,
                >(m@),
            },
    {
        let present = matches!(self.peek(), Some(Tok::Limit));
        if !present {
            return Ok(None);
        }
        self.next();
        match self.next_text() {
            Ok(w) => match parse_unsigned(&to_chars(w.as_str()), usize::MAX as u64) {
                Some(n) => Ok(Some(n as usize)),
                None => {
                    let mut m = "invalid LIMIT value '".to_owned();
                    m.append(w.as_str());
                    m.append("'");
                    Err(m)
                },
            },
            Err(other) => Err(message("expected a number after LIMIT, found ", &other)),
        }
    }

    /// `query`: all tokens are read.
    pub fn parse_query(&mut self) -> (r: Result<Query, String>)
        requires
            old(self).wf(),
            old(self).pos == 0,
        ensures
            query_result(r) == query_of(old(self).ts(), old(self).names()),
            r matches Ok(q) ==> q.after is None && q.before is None,
    {
        let select = match self.parse_select() {
            Ok(v) => v,
            Err(m) => {
                return Err(m);
            },
        };
        let has_where = matches!(self.peek(), Some(Tok::Where));
        if has_where {
            self.next();
        }
        let expr = match self.parse_predicate() {
            Ok(e) => e,
            Err(m) => {
                return Err(m);
            },
        };
        let group_by = match self.parse_group_by() {
            Ok(v) => v,
            Err(m) => {
                return Err(m);
            },
        };
        let limit = match self.parse_limit() {
            Ok(n) => n,
            Err(m) => {
                return Err(m);
            },
        };
        if self.pos != self.toks.len() {
            let t = match self.peek() {
                Some(t) => Some(copy_tok(t)),
                None => None,
            };
            return Err(message("unexpected trailing input near ", &t));
        }
        Ok(Query { select, expr, group_by, limit, after: None, before: None })
    }
}

/// The model of a result that carries an optional list of names.
pub open spec fn opt_names_result(r: Result<Option<Vec<String>>, String>, pos: usize) -> Parsed<
    Option<Seq<Seq<char>>>,
> {
    match r {
        Ok(v) => Ok((opt_views(v), pos as int)),
        Err(m) => Err(m@),
    }
}

/// The model of a result that carries a condition.
pub open spec fn cond_result(r: Result<Condition, String>) -> Result<CondV, Seq<char>> {
    match r {
        Ok(c) => Ok(c@),
        Err(m) => Err(m@),
    }
}

impl Query {
    /// Parses a query text. `valid` holds the indexed field names; an empty set
    /// skips the membership test.
    pub fn parse(dsl: &str, valid: &FieldSet) -> (r: Result<Query, String>)
        requires
            valid.wf(),
        ensures
            query_result(r) == meaning(dsl@, views(valid.items@)),
            r matches Ok(q) ==> q.after is None && q.before is None,
    {
        match lex(dsl) {
            Err(m) => Err(m),
            Ok(toks) => {
                let mut p = Parser { toks, pos: 0, valid };
                p.parse_query()
            },
        }
    }
}

} // verus!
