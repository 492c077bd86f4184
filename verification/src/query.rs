//! Searches: a predicate tree with optional projection, grouping and limit,
//! and its compilation to SQL.
//!
//! ```text
//! query      := [ "SELECT" namelist ] [ "WHERE" ] [ expr ] [ "GROUP" "BY" identlist ] [ "LIMIT" int ]
//! expr       := or_expr
//! or_expr    := and_expr { "OR" and_expr }
//! and_expr   := not_expr { "AND" not_expr }
//! not_expr   := [ "NOT" ] primary
//! primary    := "(" expr ")" | comparison | func_call
//! comparison := field ( "==" | "=" | "!=" | "<>" ) literal
//! func_call  := fname "(" [ arg { "," arg } ] ")"
//! identlist  := field { "," field }
//! namelist   := ( field | "count" ) { "," ( field | "count" ) }
//! ```
//! Keywords are case-insensitive; quotes (`'…'` / `"…"`) are optional
//! everywhere and simply stripped: a slot's role (field or literal) is fixed by
//! position.
use vstd::prelude::*;

use crate::db::MatchMode;
use crate::number::{dec, dec_u64};
use crate::text::{join, joined, opt_views, views};
use crate::time::HourBucket;

verus! {

/// A parsed search: predicate tree, optional projection, grouping and limit,
/// plus the bounds that select index buckets (set from flags after parsing).
#[derive(Debug, PartialEq)]
pub struct Query {
    /// `SELECT` columns, in order; `None` shows every column.
    pub select: Option<Vec<String>>,
    /// Parsed predicate tree; `None` matches all rows.
    pub expr: Option<Expr>,
    /// `GROUP BY` columns; `Some` switches to counting per combination.
    pub group_by: Option<Vec<String>>,
    /// `LIMIT`.
    pub limit: Option<usize>,
    /// Earliest bucket to read.
    pub after: Option<HourBucket>,
    /// Latest bucket to read.
    pub before: Option<HourBucket>,
}

/// A boolean predicate tree.
#[derive(Debug, PartialEq)]
pub enum Expr {
    And(Box<Expr>, Box<Expr>),
    Or(Box<Expr>, Box<Expr>),
    Not(Box<Expr>),
    Cond(Condition),
}

/// A leaf predicate.
#[derive(Debug, PartialEq)]
pub enum Condition {
    /// A comparison or function over an indexed column.
    Field { field: String, value: String, mode: MatchMode },
    /// A substring test over the row's raw line (`raw_contains`).
    Text { needle: String },
}

/// The model of a leaf predicate.
pub ghost enum CondV {
    Field { field: Seq<char>, value: Seq<char>, mode: MatchMode },
    Text { needle: Seq<char> },
}

/// The model of a predicate tree.
pub ghost enum ExprV {
    And(Box<ExprV>, Box<ExprV>),
    Or(Box<ExprV>, Box<ExprV>),
    Not(Box<ExprV>),
    Cond(CondV),
}

/// The model of a search.
pub ghost struct QueryV {
    pub select: Option<Seq<Seq<char>>>,
    pub expr: Option<ExprV>,
    pub group_by: Option<Seq<Seq<char>>>,
    pub limit: Option<int>,
}

impl View for Condition {
    type V = CondV;

    open spec fn view(&self) -> CondV {
        match self {
            Condition::Field { field, value, mode } => CondV::Field {
                field: field@,
                value: value@,
                mode: *mode,
            },
            Condition::Text { needle } => CondV::Text { needle: needle@ },
        }
    }
}

impl Expr {
    /// The model of the tree.
    pub open spec fn view(&self) -> ExprV
        decreases self,
    {
        match self {
            Expr::And(a, b) => ExprV::And(Box::new(a.view()), Box::new(b.view())),
            Expr::Or(a, b) => ExprV::Or(Box::new(a.view()), Box::new(b.view())),
            Expr::Not(e) => ExprV::Not(Box::new(e.view())),
            Expr::Cond(c) => ExprV::Cond(c@),
        }
    }
}

/// The model of an optional tree.
pub open spec fn opt_expr_view(e: Option<Expr>) -> Option<ExprV> {
    match e {
        Some(x) => Some(x.view()),
        None => None,
    }
}

/// The model of an optional count.
pub open spec fn opt_int(n: Option<usize>) -> Option<int> {
    match n {
        Some(x) => Some(x as int),
        None => None,
    }
}

impl View for Query {
    type V = QueryV;

    open spec fn view(&self) -> QueryV {
        QueryV {
            select: opt_views(self.select),
            expr: opt_expr_view(self.expr),
            group_by: opt_views(self.group_by),
            limit: opt_int(self.limit),
        }
    }
}

// ── Compiler ─────────────────────────────────────────────────────────────────

/// The SQL predicate of a leaf.
pub open spec fn cond_sql(c: CondV) -> Seq<char> {
    match c {
        CondV::Field { field, value, mode } => match mode {
            MatchMode::Exact => field + " = ?"@,
            MatchMode::NotExact => field + " != ?"@,
            MatchMode::StartsWith => field + " LIKE ?"@,
            MatchMode::EndsWith => field + " LIKE ?"@,
            MatchMode::Contains => field + " LIKE ? COLLATE NOCASE"@,
            MatchMode::Cidr => "cidr_match("@ + field + ", ?)"@,
            MatchMode::Any => field + " != ''"@,
        },
        CondV::Text { needle } => "raw_contains(raw_file, byte_offset, ?)"@,
    }
}

/// The values bound to the parameters of a leaf's SQL.
pub open spec fn cond_params(c: CondV) -> Seq<Seq<char>> {
    match c {
        CondV::Field { field, value, mode } => match mode {
            MatchMode::Exact => seq![value],
            MatchMode::NotExact => seq![value],
            MatchMode::StartsWith => seq![value + "%"@],
            MatchMode::EndsWith => seq!["%"@ + value],
            MatchMode::Contains => seq!["%"@ + value + "%"@],
            MatchMode::Cidr => seq![value],
            MatchMode::Any => Seq::empty(),
        },
        CondV::Text { needle } => seq![needle],
    }
}

/// The SQL predicate of a tree, fully parenthesized.
pub open spec fn expr_sql(e: ExprV) -> Seq<char>
    decreases e,
{
    match e {
        ExprV::And(a, b) => "("@ + expr_sql(*a) + " AND "@ + expr_sql(*b) + ")"@,
        ExprV::Or(a, b) => "("@ + expr_sql(*a) + " OR "@ + expr_sql(*b) + ")"@,
        ExprV::Not(a) => "(NOT "@ + expr_sql(*a) + ")"@,
        ExprV::Cond(c) => cond_sql(c),
    }
}

/// The values bound to the parameters of a tree's SQL, in order of appearance.
pub open spec fn expr_params(e: ExprV) -> Seq<Seq<char>>
    decreases e,
{
    match e {
        ExprV::And(a, b) => expr_params(*a) + expr_params(*b),
        ExprV::Or(a, b) => expr_params(*a) + expr_params(*b),
        ExprV::Not(a) => expr_params(*a),
        ExprV::Cond(c) => cond_params(c),
    }
}

/// The `WHERE` part of a search's SQL.
pub open spec fn where_sql(e: Option<ExprV>) -> Seq<char> {
    match e {
        Some(x) => " WHERE "@ + expr_sql(x),
        None => Seq::empty(),
    }
}

/// The SQL of a search over one bucket: counts per combination when it groups
/// (a limit then applies after all buckets are merged), whole rows otherwise.
pub open spec fn query_sql(q: QueryV) -> Seq<char> {
    match q.group_by {
        Some(fields) => "SELECT "@ + joined(fields, ", "@) + ", COUNT(*) FROM events"@ + where_sql(
            q.expr,
        ) + " GROUP BY "@ + joined(fields, ", "@),
        None => match q.limit {
            Some(n) => "SELECT * FROM events"@ + where_sql(q.expr) + " LIMIT "@ + dec(n as nat),
            None => "SELECT * FROM events"@ + where_sql(q.expr),
        },
    }
}

/// The values bound to the parameters of a search's SQL.
pub open spec fn query_params(q: QueryV) -> Seq<Seq<char>> {
    match q.expr {
        Some(x) => expr_params(x),
        None => Seq::empty(),
    }
}

fn push_text(params: &mut Vec<String>, s: String)
    ensures
        views(final(params)@) == views(old(params)@).push(s@),
{
    let ghost before = views(params@);
    params.push(s);
    assert(views(params@) =~= before.push(s@));
}

impl Condition {
    /// This leaf's SQL predicate; any bound value is pushed onto `params`.
    pub fn to_sql(&self, params: &mut Vec<String>) -> (r: String)
        ensures
            r@ == cond_sql(self@),
            views(final(params)@) == views(old(params)@) + cond_params(self@),
    {
        let ghost before = views(params@);
        match self {
            Condition::Field { field, value, mode } => match mode {
                MatchMode::Exact => {
                    push_text(params, value.clone());
                    let mut r = field.clone();
                    r.append(" = ?");
                    r
                },
                MatchMode::NotExact => {
                    push_text(params, value.clone());
                    let mut r = field.clone();
                    r.append(" != ?");
                    r
                },
                MatchMode::StartsWith => {
                    let mut v = value.clone();
                    v.append("%");
                    push_text(params, v);
                    let mut r = field.clone();
                    r.append(" LIKE ?");
                    r
                },
                MatchMode::EndsWith => {
                    let mut v = "%".to_owned();
                    v.append(value.as_str());
                    push_text(params, v);
                    let mut r = field.clone();
                    r.append(" LIKE ?");
                    r
                },
                MatchMode::Contains => {
                    let mut v = "%".to_owned();
                    v.append(value.as_str());
                    v.append("%");
                    push_text(params, v);
                    let mut r = field.clone();
                    r.append(" LIKE ? COLLATE NOCASE");
                    r
                },
                MatchMode::Cidr => {
                    push_text(params, value.clone());
                    let mut r = "cidr_match(".to_owned();
                    r.append(field.as_str());
                    r.append(", ?)");
                    r
                },
                MatchMode::Any => {
                    assert(before + Seq::<Seq<char>>::empty() =~= before);
                    let mut r = field.clone();
                    r.append(" != ''");
                    r
                },
            },
            Condition::Text { needle } => {
                push_text(params, needle.clone());
                "raw_contains(raw_file, byte_offset, ?)".to_owned()
            },
        }
    }
}

impl Expr {
    /// This tree's SQL predicate; the bound values are pushed onto `params` in
    /// order of appearance.
    pub fn to_sql(&self, params: &mut Vec<String>) -> (r: String)
        ensures
            r@ == expr_sql(self.view()),
            views(final(params)@) == views(old(params)@) + expr_params(self.view()),
        decreases self,
    {
        let ghost before = views(params@);
        match self {
            Expr::And(a, b) => {
                let x = a.to_sql(params);
                let y = b.to_sql(params);
                assert(before + expr_params(a.view()) + expr_params(b.view()) =~= before + (
                expr_params(a.view()) + expr_params(b.view())));
                let mut r = "(".to_owned();
                r.append(x.as_str());
                r.append(" AND ");
                r.append(y.as_str());
                r.append(")");
                r
            },
            Expr::Or(a, b) => {
                let x = a.to_sql(params);
                let y = b.to_sql(params);
                assert(before + expr_params(a.view()) + expr_params(b.view()) =~= before + (
                expr_params(a.view()) + expr_params(b.view())));
                let mut r = "(".to_owned();
                r.append(x.as_str());
                r.append(" OR ");
                r.append(y.as_str());
                r.append(")");
                r
            },
            Expr::Not(a) => {
                let x = a.to_sql(params);
                let mut r = "(NOT ".to_owned();
                r.append(x.as_str());
                r.append(")");
                r
            },
            Expr::Cond(c) => c.to_sql(params),
        }
    }
}

impl Query {
    /// The SQL over one bucket and the values bound to its parameters.
    pub fn to_sql(&self) -> (r: (String, Vec<String>))
        ensures
            r.0@ == query_sql(self@),
            views(r.1@) == query_params(self@),
    {
        let mut params: Vec<String> = Vec::new();
        let where_clause = match &self.expr {
            Some(e) => {
                let x = e.to_sql(&mut params);
                assert(views(Seq::<String>::empty()) + expr_params(e.view()) =~= expr_params(
                    e.view(),
                ));
                let mut w = " WHERE ".to_owned();
                w.append(x.as_str());
                w
            },
            None => String::new(),
        };
        assert(where_clause@ == where_sql(self@.expr));
        assert(views(params@) =~= query_params(self@));
        let sql = match &self.group_by {
            Some(fields) => {
                let cols = join(fields, ", ");
                let mut s = "SELECT ".to_owned();
                s.append(cols.as_str());
                s.append(", COUNT(*) FROM events");
                s.append(where_clause.as_str());
                s.append(" GROUP BY ");
                s.append(cols.as_str());
                s
            },
            None => {
                let mut s = "SELECT * FROM events".to_owned();
                s.append(where_clause.as_str());
                match self.limit {
                    Some(n) => {
                        s.append(" LIMIT ");
                        s.append(dec_u64(n as u64).as_str());
                    },
                    None => {},
                }
                s
            },
        };
        (sql, params)
    }
}

} // verus!
