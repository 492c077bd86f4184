//! Predicates evaluated on JSON records, in place of SQL.
use vstd::prelude::*;

use crate::db::{cidr_answer, cidr_match, MatchMode};
use crate::json::{compact_text, member, Json, JsonV, Node};
use crate::number::{dec_i64, dec_int};
use crate::query::{CondV, Condition, Expr, ExprV};
use crate::render::{bool_string, bool_text};
use crate::text::{contains, ends_with, has, is_prefix, is_suffix, lower, same, starts_with};
use crate::text::{opt_view, to_lower};

verus! {

/// The field of a record: its own, else that of its `event`, else that of its
/// first sample event.
pub open spec fn resolved(j: JsonV, field: Seq<char>) -> Option<JsonV> {
    match member(j, field) {
        Some(x) => Some(x),
        None => match nested(member(j, "event"@), field) {
            Some(x) => Some(x),
            None => match member(j, "sample_events"@) {
                Some(JsonV::Array(items)) => if items.len() > 0 {
                    member(items[0], field)
                } else {
                    None
                },
                _ => None,
            },
        },
    }
}

/// The member of an optional value.
pub open spec fn nested(j: Option<JsonV>, field: Seq<char>) -> Option<JsonV> {
    match j {
        Some(x) => member(x, field),
        None => None,
    }
}

/// The text of a string, number or boolean.
pub open spec fn scalar_text(j: JsonV) -> Option<Seq<char>> {
    match j {
        JsonV::Str(s) => Some(s),
        JsonV::Int(n) => Some(dec_int(n)),
        JsonV::Real { json, shown } => Some(json),
        JsonV::Bool(b) => Some(bool_text(b)),
        _ => None,
    }
}

/// The text of a record's field, if it has such a field of a scalar type.
pub open spec fn field_text(j: JsonV, field: Seq<char>) -> Option<Seq<char>> {
    match resolved(j, field) {
        Some(x) => scalar_text(x),
        None => None,
    }
}

/// Whether a text meets a comparison. The `LIKE` comparisons ignore ASCII case.
pub open spec fn meets(s: Seq<char>, value: Seq<char>, mode: MatchMode) -> bool {
    match mode {
        MatchMode::Exact => s == value,
        MatchMode::NotExact => s != value,
        MatchMode::StartsWith => is_prefix(lower(value), lower(s)),
        MatchMode::EndsWith => is_suffix(lower(value), lower(s)),
        MatchMode::Contains => has(lower(s), lower(value)),
        MatchMode::Cidr => cidr_answer(value, s) == Ok::<bool, Seq<char>>(true),
        MatchMode::Any => s.len() > 0,
    }
}

/// Whether a record meets a condition. A field that is absent, or no scalar,
/// meets no condition.
pub open spec fn cond_holds(c: CondV, j: JsonV) -> bool {
    match c {
        CondV::Field { field, value, mode } => field_text(j, field) matches Some(s) && meets(
            s,
            value,
            mode,
        ),
        CondV::Text { needle } => has(compact_text(j), needle),
    }
}

/// Whether a record meets a predicate.
pub open spec fn expr_holds(e: ExprV, j: JsonV) -> bool
    decreases e,
{
    match e {
        ExprV::And(a, b) => expr_holds(*a, j) && expr_holds(*b, j),
        ExprV::Or(a, b) => expr_holds(*a, j) || expr_holds(*b, j),
        ExprV::Not(a) => !expr_holds(*a, j),
        ExprV::Cond(c) => cond_holds(c, j),
    }
}

/// The field of a record: its own, else that of its `event`, else that of its
/// first sample event.
pub fn resolve_json_field<'a>(record: &'a Json, field: &str) -> (r: Option<&'a Json>)
    ensures
        match r {
            Some(x) => resolved(record.view(), field@) == Some(x.view()) && (record.wf()
                ==> x.wf()),
            None => resolved(record.view(), field@) is None,
        },
{
    match record.get(field) {
        Some(x) => {
            return Some(x);
        },
        None => {},
    }
    match record.get("event") {
        Some(ev) => match ev.get(field) {
            Some(x) => {
                return Some(x);
            },
            None => {},
        },
        None => {},
    }
    match record.get("sample_events") {
        Some(s) => match &s.node {
            Node::Array(items) => {
                if items.len() > 0 {
                    let first = &items[0];
                    assert(s.view()->Array_0[0] == first.view());
                    assert(s.wf() ==> items@[0].wf());
                    first.get(field)
                } else {
                    None
                }
            },
            _ => None,
        },
        None => None,
    }
}

/// The text of a string, number or boolean.
pub fn json_scalar_to_string(j: &Json) -> (r: Option<String>)
    ensures
        opt_view(r) == scalar_text(j.view()),
{
    match &j.node {
        Node::Str(s) => Some(s.clone()),
        Node::Int(n) => Some(dec_i64(*n)),
        Node::Real { json, shown: _ } => Some(json.clone()),
        Node::Bool(b) => Some(bool_string(*b)),
        _ => None,
    }
}

/// The text of a record's field, if it has such a field of a scalar type.
pub fn json_field_text(record: &Json, field: &str) -> (r: Option<String>)
    ensures
        opt_view(r) == field_text(record.view(), field@),
{
    match resolve_json_field(record, field) {
        Some(x) => json_scalar_to_string(x),
        None => None,
    }
}

impl Condition {
    /// Whether a record meets the condition.
    pub fn eval_json(&self, record: &Json) -> (r: bool)
        requires
            record.wf(),
        ensures
            r == cond_holds(self@, record.view()),
    {
        match self {
            Condition::Field { field, value, mode } => match json_field_text(
                record,
                field.as_str(),
            ) {
                None => false,
                Some(s) => match mode {
                    MatchMode::Exact => same(s.as_str(), value.as_str()),
                    MatchMode::NotExact => !same(s.as_str(), value.as_str()),
                    MatchMode::StartsWith => starts_with(
                        to_lower(s.as_str()).as_str(),
                        to_lower(value.as_str()).as_str(),
                    ),
                    MatchMode::EndsWith => ends_with(
                        to_lower(s.as_str()).as_str(),
                        to_lower(value.as_str()).as_str(),
                    ),
                    MatchMode::Contains => contains(
                        to_lower(s.as_str()).as_str(),
                        to_lower(value.as_str()).as_str(),
                    ),
                    MatchMode::Cidr => cidr_match(s.as_str(), value.as_str()),
                    MatchMode::Any => crate::text::char_count(s.as_str()) > 0,
                },
            },
            Condition::Text { needle } => contains(record.text.as_str(), needle.as_str()),
        }
    }
}

impl Expr {
    /// Whether a record meets the predicate.
    pub fn eval_json(&self, record: &Json) -> (r: bool)
        requires
            record.wf(),
        ensures
            r == expr_holds(self.view(), record.view()),
        decreases self,
    {
        match self {
            Expr::And(a, b) => a.eval_json(record) && b.eval_json(record),
            Expr::Or(a, b) => a.eval_json(record) || b.eval_json(record),
            Expr::Not(a) => !a.eval_json(record),
            Expr::Cond(c) => c.eval_json(record),
        }
    }
}

} // verus!
