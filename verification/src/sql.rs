//! What the SQL that the library writes means: expressions over the columns of
//! an event, their text, and the rows that they choose.
use vstd::prelude::*;

use crate::db::cidr_answer;
use crate::order::text_lt;
use crate::query_parser::sql_ident;
use crate::text::{has, joined, lower_char};

verus! {

/// An event as a bucket holds it: the texts of its columns, where a column
/// without a text is null, and its raw line.
pub ghost struct Event {
    pub columns: Map<Seq<char>, Seq<char>>,
    pub line: Seq<char>,
}

/// A condition on an event. A value stands for one that is bound to a `?`.
pub ghost enum Sql {
    NotNull(Seq<char>),
    Filled(Seq<char>),
    Equal(Seq<char>, Seq<char>),
    Differs(Seq<char>, Seq<char>),
    Like { column: Seq<char>, pattern: Seq<char>, collate: bool },
    AtLeast(Seq<char>, Seq<char>),
    Below(Seq<char>, Seq<char>),
    OneOf(Seq<char>, Seq<Seq<char>>),
    InNetwork(Seq<char>, Seq<char>),
    LineHolds(Seq<char>),
    And(Box<Sql>, Box<Sql>),
    Or(Box<Sql>, Box<Sql>),
    Not(Box<Sql>),
    Enclosed(Box<Sql>),
}

/// `n` placeholders.
pub open spec fn marks(n: nat) -> Seq<char> {
    joined(Seq::new(n, |i: int| "?"@), ", "@)
}

/// The text of a condition.
pub open spec fn text_of(e: Sql) -> Seq<char>
    decreases e,
{
    match e {
        Sql::NotNull(c) => c + " IS NOT NULL"@,
        Sql::Filled(c) => c + " != ''"@,
        Sql::Equal(c, v) => c + " = ?"@,
        Sql::Differs(c, v) => c + " != ?"@,
        Sql::Like { column, pattern, collate } => column + if collate {
            " LIKE ? COLLATE NOCASE"@
        } else {
            " LIKE ?"@
        },
        Sql::AtLeast(c, v) => c + " >= ?"@,
        Sql::Below(c, v) => c + " < ?"@,
        Sql::OneOf(c, vs) => c + " IN ("@ + marks(vs.len()) + ")"@,
        Sql::InNetwork(c, v) => "cidr_match("@ + c + ", ?)"@,
        Sql::LineHolds(v) => "raw_contains(raw_file, byte_offset, ?)"@,
        Sql::And(a, b) => text_of(*a) + " AND "@ + text_of(*b),
        Sql::Or(a, b) => text_of(*a) + " OR "@ + text_of(*b),
        Sql::Not(a) => "NOT "@ + text_of(*a),
        Sql::Enclosed(a) => "("@ + text_of(*a) + ")"@,
    }
}

/// The values bound to the placeholders of a condition, in their order.
pub open spec fn bound_to(e: Sql) -> Seq<Seq<char>>
    decreases e,
{
    match e {
        Sql::NotNull(c) => seq![],
        Sql::Filled(c) => seq![],
        Sql::Equal(c, v) => seq![v],
        Sql::Differs(c, v) => seq![v],
        Sql::Like { column, pattern, collate } => seq![pattern],
        Sql::AtLeast(c, v) => seq![v],
        Sql::Below(c, v) => seq![v],
        Sql::OneOf(c, vs) => vs,
        Sql::InNetwork(c, v) => seq![v],
        Sql::LineHolds(v) => seq![v],
        Sql::And(a, b) => bound_to(*a) + bound_to(*b),
        Sql::Or(a, b) => bound_to(*a) + bound_to(*b),
        Sql::Not(a) => bound_to(*a),
        Sql::Enclosed(a) => bound_to(*a),
    }
}

/// Whether a condition's text reads as that condition: its columns are
/// identifiers, `AND` joins no bare `OR`, and `NOT` stands before no bare `AND`
/// or `OR`.
pub open spec fn reads_as_written(e: Sql) -> bool
    decreases e,
{
    match e {
        Sql::NotNull(c) => sql_ident(c),
        Sql::Filled(c) => sql_ident(c),
        Sql::Equal(c, v) => sql_ident(c),
        Sql::Differs(c, v) => sql_ident(c),
        Sql::Like { column, pattern, collate } => sql_ident(column),
        Sql::AtLeast(c, v) => sql_ident(c),
        Sql::Below(c, v) => sql_ident(c),
        Sql::OneOf(c, vs) => sql_ident(c) && vs.len() > 0,
        Sql::InNetwork(c, v) => sql_ident(c),
        Sql::LineHolds(v) => true,
        Sql::And(a, b) => reads_as_written(*a) && reads_as_written(*b) && !(*a is Or) && !(*b is Or),
        Sql::Or(a, b) => reads_as_written(*a) && reads_as_written(*b),
        Sql::Not(a) => reads_as_written(*a) && !(*a is And) && !(*a is Or),
        Sql::Enclosed(a) => reads_as_written(*a),
    }
}

/// Whether a text matches a `LIKE` pattern: `%` stands for any characters, `_`
/// for one, and the case of ASCII letters does not matter.
pub open spec fn like(pattern: Seq<char>, s: Seq<char>) -> bool
    decreases pattern.len(), s.len(),
{
    if pattern.len() == 0 {
        s.len() == 0
    } else if pattern[0] == '%' {
        like(pattern.skip(1), s) || (s.len() > 0 && like(pattern, s.skip(1)))
    } else if s.len() == 0 {
        false
    } else {
        (pattern[0] == '_' || lower_char(pattern[0]) == lower_char(s[0])) && like(
            pattern.skip(1),
            s.skip(1),
        )
    }
}

/// What a condition says of an event; nothing where a column is null.
pub open spec fn truth(e: Sql, row: Event) -> Option<bool>
    decreases e,
{
    match e {
        Sql::NotNull(c) => Some(row.columns.dom().contains(c)),
        Sql::Filled(c) => of_column(row, c, |s: Seq<char>| s.len() > 0),
        Sql::Equal(c, v) => of_column(row, c, |s: Seq<char>| s == v),
        Sql::Differs(c, v) => of_column(row, c, |s: Seq<char>| s != v),
        Sql::Like { column, pattern, collate } => of_column(
            row,
            column,
            |s: Seq<char>| like(pattern, s),
        ),
        Sql::AtLeast(c, v) => of_column(row, c, |s: Seq<char>| !text_lt(s, v)),
        Sql::Below(c, v) => of_column(row, c, |s: Seq<char>| text_lt(s, v)),
        Sql::OneOf(c, vs) => of_column(row, c, |s: Seq<char>| vs.contains(s)),
        Sql::InNetwork(c, v) => of_column(
            row,
            c,
            |s: Seq<char>| cidr_answer(v, s) == Ok::<bool, Seq<char>>(true),
        ),
        Sql::LineHolds(v) => Some(has(row.line, v)),
        Sql::And(a, b) => both(truth(*a, row), truth(*b, row)),
        Sql::Or(a, b) => either(truth(*a, row), truth(*b, row)),
        Sql::Not(a) => negated(truth(*a, row)),
        Sql::Enclosed(a) => truth(*a, row),
    }
}

/// What holds of a column's text; nothing where it is null.
pub open spec fn of_column(
    row: Event,
    column: Seq<char>,
    p: spec_fn(Seq<char>) -> bool,
) -> Option<bool> {
    if row.columns.dom().contains(column) {
        Some(p(row.columns[column]))
    } else {
        None
    }
}

/// `AND` of three-valued logic.
pub open spec fn both(a: Option<bool>, b: Option<bool>) -> Option<bool> {
    if a == Some(false) || b == Some(false) {
        Some(false)
    } else if a is None || b is None {
        None
    } else {
        Some(true)
    }
}

/// `OR` of three-valued logic.
pub open spec fn either(a: Option<bool>, b: Option<bool>) -> Option<bool> {
    if a == Some(true) || b == Some(true) {
        Some(true)
    } else if a is None || b is None {
        None
    } else {
        Some(false)
    }
}

/// `NOT` of three-valued logic.
pub open spec fn negated(a: Option<bool>) -> Option<bool> {
    match a {
        Some(x) => Some(!x),
        None => None,
    }
}

/// Whether a text, with values for its placeholders, is that of a condition.
pub open spec fn is_text_of(text: Seq<char>, values: Seq<Seq<char>>, e: Sql) -> bool {
    reads_as_written(e) && text_of(e) == text && bound_to(e) == values
}

// ── Statements ───────────────────────────────────────────────────────────────

/// What a statement selects.
pub ghost enum Item {
    /// Every column.
    All,
    Column(Seq<char>),
    /// The front of a column, of that many characters.
    Front(Seq<char>, nat),
    /// The number of events.
    Count,
    /// The number of events of which a condition holds.
    CountIf(Sql),
    /// The least text of a column.
    Least(Seq<char>),
    /// The greatest text of a column.
    Greatest(Seq<char>),
}

/// The text of what is selected.
pub open spec fn item_text(i: Item) -> Seq<char> {
    match i {
        Item::All => "*"@,
        Item::Column(c) => c,
        Item::Front(c, n) => "substr("@ + c + ", 1, "@ + crate::number::dec(n) + ")"@,
        Item::Count => "COUNT(*)"@,
        Item::CountIf(e) => "SUM(CASE WHEN "@ + text_of(e) + " THEN 1 ELSE 0 END)"@,
        Item::Least(c) => "MIN("@ + c + ")"@,
        Item::Greatest(c) => "MAX("@ + c + ")"@,
    }
}

/// A statement over the events of a bucket.
pub ghost struct Statement {
    pub items: Seq<Item>,
    pub filter: Option<Sql>,
    pub groups: Seq<Item>,
    /// The largest groups first.
    pub by_count: bool,
    pub limit: Option<nat>,
}

/// The texts of what is selected.
pub open spec fn item_texts(items: Seq<Item>) -> Seq<Seq<char>> {
    items.map_values(|i: Item| item_text(i))
}

/// The text of a statement.
pub open spec fn statement_text(s: Statement) -> Seq<char> {
    "SELECT "@ + joined(item_texts(s.items), ", "@) + " FROM events"@ + match s.filter {
        Some(e) => " WHERE "@ + text_of(e),
        None => ""@,
    } + if s.groups.len() > 0 {
        " GROUP BY "@ + joined(item_texts(s.groups), ", "@)
    } else {
        ""@
    } + if s.by_count {
        " ORDER BY COUNT(*) DESC"@
    } else {
        ""@
    } + match s.limit {
        Some(n) => " LIMIT "@ + crate::number::dec(n),
        None => ""@,
    }
}

/// The values bound to a statement's placeholders.
pub open spec fn statement_values(s: Statement) -> Seq<Seq<char>> {
    match s.filter {
        Some(e) => bound_to(e),
        None => seq![],
    }
}

/// Whether a statement is about an event.
pub open spec fn is_about(s: Statement, row: Event) -> bool {
    match s.filter {
        Some(e) => truth(e, row) == Some(true),
        None => true,
    }
}

/// How many of the first `n` events meet a condition.
pub open spec fn number_of(rows: Seq<Event>, p: spec_fn(Event) -> bool, n: int) -> int
    decreases n,
{
    if n <= 0 {
        0
    } else {
        number_of(rows, p, n - 1) + if p(rows[n - 1]) {
            1int
        } else {
            0
        }
    }
}

/// A column's text as a group takes it: null counts as the empty text.
pub open spec fn shown(row: Event, column: Seq<char>) -> Seq<char> {
    if row.columns.dom().contains(column) {
        row.columns[column]
    } else {
        Seq::empty()
    }
}

/// What is selected of an event on its own.
pub open spec fn shown_item(row: Event, i: Item) -> Seq<char> {
    match i {
        Item::Column(c) => shown(row, c),
        Item::Front(c, n) => if n < shown(row, c).len() {
            shown(row, c).take(n as int)
        } else {
            shown(row, c)
        },
        _ => Seq::empty(),
    }
}

/// The group that an event belongs to.
pub open spec fn group_of_event(row: Event, groups: Seq<Item>) -> Seq<Seq<char>> {
    groups.map_values(|i: Item| shown_item(row, i))
}

/// The number that an aggregate gives over the events that its statement is about.
pub open spec fn aggregate(s: Statement, i: Item, rows: Seq<Event>) -> int {
    match i {
        Item::Count => number_of(rows, |row: Event| is_about(s, row), rows.len() as int),
        Item::CountIf(e) => number_of(
            rows,
            |row: Event| is_about(s, row) && truth(e, row) == Some(true),
            rows.len() as int,
        ),
        _ => 0,
    }
}

/// The number of events of a group that a grouping statement counts.
pub open spec fn counted(s: Statement, rows: Seq<Event>, group: Seq<Seq<char>>) -> int {
    number_of(
        rows,
        |row: Event| is_about(s, row) && group_of_event(row, s.groups) == group,
        rows.len() as int,
    )
}

/// Whether a text, with values for its placeholders, is that of a statement.
pub open spec fn is_statement(text: Seq<char>, values: Seq<Seq<char>>, s: Statement) -> bool {
    &&& statement_text(s) == text
    &&& statement_values(s) == values
    &&& s.filter matches Some(e) ==> reads_as_written(e)
    &&& forall|k: int|
        0 <= k < s.items.len() ==> match #[trigger] s.items[k] {
            Item::Column(c) => sql_ident(c),
            Item::Front(c, n) => sql_ident(c),
            Item::CountIf(e) => reads_as_written(e),
            Item::Least(c) => sql_ident(c),
            Item::Greatest(c) => sql_ident(c),
            _ => true,
        }
}

/// Conditions that agree on every event count the same number.
pub proof fn same_numbers(
    rows: Seq<Event>,
    p: spec_fn(Event) -> bool,
    q: spec_fn(Event) -> bool,
    n: int,
)
    requires
        0 <= n <= rows.len(),
        forall|i: int| 0 <= i < n ==> p(#[trigger] rows[i]) == q(rows[i]),
    ensures
        number_of(rows, p, n) == number_of(rows, q, n),
    decreases n,
{
    if n > 0 {
        same_numbers(rows, p, q, n - 1);
        assert(p(rows[n - 1]) == q(rows[n - 1]));
    }
}

/// A condition that all events meet counts them all, and one that none meets counts none.
pub proof fn all_or_none(rows: Seq<Event>, p: spec_fn(Event) -> bool, n: int)
    requires
        0 <= n <= rows.len(),
    ensures
        (forall|i: int| 0 <= i < n ==> p(#[trigger] rows[i])) ==> number_of(rows, p, n) == n,
        (forall|i: int| 0 <= i < n ==> !p(#[trigger] rows[i])) ==> number_of(rows, p, n) == 0,
    decreases n,
{
    if n > 0 {
        all_or_none(rows, p, n - 1);
    }
}

} // verus!
