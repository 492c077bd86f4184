//! JSON values as plain data, and the JSON library behind them.
use vstd::prelude::*;

use crate::order::text_lt;
use crate::text::{same, without_cr};

verus! {

/// A JSON value with its compact text.
#[derive(Debug)]
pub struct Json {
    pub text: String,
    pub node: Node,
}

/// What a JSON value is. An object's entries stand in ascending order of their
/// names.
#[derive(Debug)]
pub enum Node {
    Null,
    Bool(bool),
    /// A number that fits `i64`.
    Int(i64),
    /// Any other number: as JSON writes it, and as its floating-point value is shown.
    Real { json: String, shown: String },
    Str(String),
    Array(Vec<Json>),
    Object(Vec<(String, Json)>),
}

/// The model of a JSON value.
pub ghost enum JsonV {
    Null,
    Bool(bool),
    Int(int),
    Real { json: Seq<char>, shown: Seq<char> },
    Str(Seq<char>),
    Array(Seq<JsonV>),
    Object(Seq<(Seq<char>, JsonV)>),
}

impl Json {
    /// The model of the value.
    pub open spec fn view(&self) -> JsonV
        decreases self,
    {
        match self.node {
            Node::Null => JsonV::Null,
            Node::Bool(b) => JsonV::Bool(b),
            Node::Int(n) => JsonV::Int(n as int),
            Node::Real { json, shown } => JsonV::Real { json: json@, shown: shown@ },
            Node::Str(s) => JsonV::Str(s@),
            Node::Array(items) => JsonV::Array(
                Seq::new(
                    items@.len(),
                    |i: int|
                        if 0 <= i < items@.len() {
                            items@[i].view()
                        } else {
                            arbitrary()
                        },
                ),
            ),
            Node::Object(entries) => JsonV::Object(
                Seq::new(
                    entries@.len(),
                    |i: int|
                        if 0 <= i < entries@.len() {
                            (entries@[i].0@, entries@[i].1.view())
                        } else {
                            arbitrary()
                        },
                ),
            ),
        }
    }

    /// Whether the text is the value's compact text, here and below.
    pub open spec fn wf(&self) -> bool
        decreases self,
    {
        &&& self.text@ == compact_text(self.view())
        &&& match self.node {
            Node::Array(items) => forall|i: int|
                0 <= i < items@.len() ==> (#[trigger] items@[i]).wf(),
            Node::Object(entries) => forall|i: int|
                0 <= i < entries@.len() ==> (#[trigger] entries@[i]).1.wf(),
            _ => true,
        }
    }
}

/// The models of a list of values.
pub open spec fn json_views(v: Seq<Json>) -> Seq<JsonV> {
    v.map_values(|j: Json| j.view())
}

/// Whether every value of a list carries its compact texts.
pub open spec fn all_wf(v: Seq<Json>) -> bool {
    forall|i: int| 0 <= i < v.len() ==> (#[trigger] v[i]).wf()
}

// ── Members ──────────────────────────────────────────────────────────────────

/// The value under a name among an object's entries.
pub open spec fn entry(e: Seq<(Seq<char>, JsonV)>, key: Seq<char>) -> Option<JsonV>
    decreases e.len(),
{
    if e.len() == 0 {
        None
    } else if e[0].0 == key {
        Some(e[0].1)
    } else {
        entry(e.skip(1), key)
    }
}

/// The value under a name; nothing for a value that is no object.
pub open spec fn member(j: JsonV, key: Seq<char>) -> Option<JsonV> {
    match j {
        JsonV::Object(e) => entry(e, key),
        _ => None,
    }
}

/// The text of a string member.
pub open spec fn text_member(j: JsonV, key: Seq<char>) -> Option<Seq<char>> {
    match member(j, key) {
        Some(JsonV::Str(s)) => Some(s),
        _ => None,
    }
}

/// The number of an integer member.
pub open spec fn int_member(j: JsonV, key: Seq<char>) -> Option<int> {
    match member(j, key) {
        Some(JsonV::Int(n)) => Some(n),
        _ => None,
    }
}

/// The truth of a boolean member.
pub open spec fn bool_member(j: JsonV, key: Seq<char>) -> Option<bool> {
    match member(j, key) {
        Some(JsonV::Bool(b)) => Some(b),
        _ => None,
    }
}

impl Json {
    /// The value under a name; nothing for a value that is no object.
    pub fn get(&self, key: &str) -> (r: Option<&Json>)
        ensures
            match r {
                Some(j) => member(self.view(), key@) == Some(j.view()) && (self.wf() ==> j.wf()),
                None => member(self.view(), key@) is None,
            },
    {
        match &self.node {
            Node::Object(entries) => {
                let ghost e = self.view()->Object_0;
                let n: usize = entries.len();
                let mut i: usize = 0;
                assert(e.skip(0) =~= e);
                while i < n
                    invariant
                        n == entries@.len(),
                        self.node == Node::Object(*entries),
                        e == self.view()->Object_0,
                        e.len() == n,
                        i <= n,
                        entry(e, key@) == entry(e.skip(i as int), key@),
                    decreases n - i,
                {
                    assert(e.skip(i as int)[0] == (entries@[i as int].0@, entries@[i as int].1.view()));
                    assert(self.wf() ==> entries@[i as int].1.wf());
                    if same(entries[i].0.as_str(), key) {
                        return Some(&entries[i].1);
                    }
                    assert(e.skip(i as int).skip(1) =~= e.skip(i + 1));
                    i = i + 1;
                }
                None
            },
            _ => None,
        }
    }

    /// The text of a string member.
    pub fn get_text(&self, key: &str) -> (r: Option<&String>)
        ensures
            match r {
                Some(s) => text_member(self.view(), key@) == Some(s@),
                None => text_member(self.view(), key@) is None,
            },
    {
        match self.get(key) {
            Some(j) => match &j.node {
                Node::Str(s) => Some(s),
                _ => None,
            },
            None => None,
        }
    }

    /// The truth of a boolean member.
    pub fn get_bool(&self, key: &str) -> (r: Option<bool>)
        ensures
            r == bool_member(self.view(), key@),
    {
        match self.get(key) {
            Some(j) => match &j.node {
                Node::Bool(b) => Some(*b),
                _ => None,
            },
            None => None,
        }
    }

    /// The number of an integer member.
    pub fn get_int(&self, key: &str) -> (r: Option<i64>)
        ensures
            match r {
                Some(n) => int_member(self.view(), key@) == Some(n as int),
                None => int_member(self.view(), key@) is None,
            },
    {
        match self.get(key) {
            Some(j) => match &j.node {
                Node::Int(n) => Some(*n),
                _ => None,
            },
            None => None,
        }
    }
}

// ── The JSON library ─────────────────────────────────────────────────────────

/// A value of the JSON library.
#[verifier::external_type_specification]
#[verifier::external_body]
pub struct ExValue(serde_json::Value);

/// What a value of the JSON library holds.
pub uninterp spec fn json_of(v: serde_json::Value) -> JsonV;

/// What `serde_json::from_str` makes of a text.
pub uninterp spec fn parsed_json(s: Seq<char>) -> Option<JsonV>;

/// The compact text that `serde_json` writes for a value.
pub uninterp spec fn compact_text(j: JsonV) -> Seq<char>;

/// The top of a value of the JSON library: its compact text and its kind.
struct Top {
    text: String,
    kind: Kind,
}

enum Kind {
    Null,
    Bool(bool),
    Int(i64),
    Real { json: String, shown: String },
    Str(String),
    Array(Vec<serde_json::Value>),
    Object(Vec<(String, serde_json::Value)>),
}

/// Whether entries stand in ascending order of their names.
pub open spec fn ascending_entries(e: Seq<(Seq<char>, JsonV)>) -> bool {
    forall|a: int, b: int|
        0 <= a < b < e.len() ==> text_lt((#[trigger] e[a]).0, (#[trigger] e[b]).0)
}

/// Whether a kind is that of the value `j`.
spec fn is_kind_of(k: Kind, j: JsonV) -> bool {
    match k {
        Kind::Null => j == JsonV::Null,
        Kind::Bool(b) => j == JsonV::Bool(b),
        Kind::Int(n) => j == JsonV::Int(n as int),
        Kind::Real { json, shown } => j == (JsonV::Real { json: json@, shown: shown@ }),
        Kind::Str(s) => j == JsonV::Str(s@),
        Kind::Array(items) => j == JsonV::Array(
            items@.map_values(|x: serde_json::Value| json_of(x)),
        ),
        Kind::Object(entries) => j == JsonV::Object(
            entries@.map_values(|x: (String, serde_json::Value)| (x.0@, json_of(x.1))),
        ) && ascending_entries(j->Object_0),
    }
}

/// `serde_json::from_str` into a `Value`: nothing when the text is not JSON. A
/// carriage return at the end is white space to it and changes nothing.
#[verifier::external_body]
fn parse_value(text: &str) -> (r: Option<serde_json::Value>)
    ensures
        match r {
            Some(v) => parsed_json(text@) == Some(json_of(v)) && parsed_json(without_cr(text@))
                == Some(json_of(v)),
            None => parsed_json(text@) is None && parsed_json(without_cr(text@)) is None,
        },
{
    serde_json::from_str(text).ok()
}

/// The variants of `serde_json::Value`, told apart, with the value's `Display`
/// text, which is its compact text. A number is an integer when `as_i64` gives
/// one; otherwise it is its own `Display` text and that of `as_f64`. An object's
/// entries come in ascending order of names.
#[verifier::external_body]
fn top(v: serde_json::Value) -> (r: Top)
    ensures
        r.text@ == compact_text(json_of(v)),
        is_kind_of(r.kind, json_of(v)),
{
    let text = v.to_string();
    let kind = match v {
        serde_json::Value::Null => Kind::Null,
        serde_json::Value::Bool(b) => Kind::Bool(b),
        serde_json::Value::Number(n) => match (n.as_i64(), n.as_f64()) {
            (Some(i), _) => Kind::Int(i),
            (None, f) => Kind::Real { json: n.to_string(), shown: f.unwrap().to_string() },
        },
        serde_json::Value::String(s) => Kind::Str(s),
        serde_json::Value::Array(a) => Kind::Array(a),
        serde_json::Value::Object(m) => Kind::Object(m.into_iter().collect()),
    };
    Top { text, kind }
}

proof fn lemma_item_is_smaller(j: JsonV, i: int)
    requires
        j is Array,
        0 <= i < j->Array_0.len(),
    ensures
        decreases_to!(j => j->Array_0[i]),
{
    let vs = j->Array_0;
    assert(decreases_to!(j => j->Array_0));
    assert(decreases_to!(vs => vs[i]));
}

proof fn lemma_entry_is_smaller(j: JsonV, i: int)
    requires
        j is Object,
        0 <= i < j->Object_0.len(),
    ensures
        decreases_to!(j => j->Object_0[i].1),
{
    let vs = j->Object_0;
    let e = vs[i];
    assert(decreases_to!(j => j->Object_0));
    assert(decreases_to!(vs => vs[i]));
    assert(decreases_to!(e => e.1));
}

/// The plain form of a value of the JSON library.
fn plain(v: serde_json::Value) -> (r: Json)
    ensures
        r.view() == json_of(v),
        r.wf(),
    decreases json_of(v),
{
    let ghost j = json_of(v);
    let t = top(v);
    let node = match t.kind {
        Kind::Null => Node::Null,
        Kind::Bool(b) => Node::Bool(b),
        Kind::Int(n) => Node::Int(n),
        Kind::Real { json, shown } => Node::Real { json, shown },
        Kind::Str(s) => Node::Str(s),
        Kind::Array(items) => {
            let ghost vs = items@.map_values(|x: serde_json::Value| json_of(x));
            let mut rest = items;
            let mut out: Vec<Json> = Vec::new();
            while rest.len() > 0
                invariant
                    j == json_of(v),
                    j == JsonV::Array(vs),
                    rest@.len() + out@.len() == vs.len(),
                    forall|k: int|
                        0 <= k < rest@.len() ==> json_of(#[trigger] rest@[k]) == vs[k + out@.len()],
                    forall|k: int|
                        0 <= k < out@.len() ==> (#[trigger] out@[k]).view() == vs[k]
                            && out@[k].wf(),
                decreases rest@.len(),
            {
                let x = rest.remove(0);
                assert(json_of(x) == vs[out@.len() as int]);
                proof {
                    lemma_item_is_smaller(j, out@.len() as int);
                }
                let y = plain(x);
                out.push(y);
            }
            let ghost shown = (Json { text: t.text, node: Node::Array(out) }).view();
            assert(shown->Array_0 =~= vs);
            Node::Array(out)
        },
        Kind::Object(entries) => {
            let ghost vs = entries@.map_values(
                |x: (String, serde_json::Value)| (x.0@, json_of(x.1)),
            );
            let mut rest = entries;
            let mut out: Vec<(String, Json)> = Vec::new();
            while rest.len() > 0
                invariant
                    j == json_of(v),
                    j == JsonV::Object(vs),
                    rest@.len() + out@.len() == vs.len(),
                    forall|k: int|
                        0 <= k < rest@.len() ==> ((#[trigger] rest@[k]).0@, json_of(rest@[k].1))
                            == vs[k + out@.len()],
                    forall|k: int|
                        0 <= k < out@.len() ==> ((#[trigger] out@[k]).0@, out@[k].1.view()) == vs[k]
                            && out@[k].1.wf(),
                decreases rest@.len(),
            {
                let (name, x) = rest.remove(0);
                assert((name@, json_of(x)) == vs[out@.len() as int]);
                proof {
                    lemma_entry_is_smaller(j, out@.len() as int);
                }
                let y = plain(x);
                out.push((name, y));
            }
            let ghost shown = (Json { text: t.text, node: Node::Object(out) }).view();
            assert(shown->Object_0 =~= vs);
            Node::Object(out)
        },
    };
    Json { text: t.text, node }
}

impl Json {
    /// Parses a text; nothing when it is not JSON. A carriage return at the end
    /// changes nothing.
    pub fn parse(text: &str) -> (r: Option<Json>)
        ensures
            match r {
                Some(j) => parsed_json(text@) == Some(j.view()) && j.wf(),
                None => parsed_json(text@) is None,
            },
            parsed_json(without_cr(text@)) == parsed_json(text@),
    {
        match parse_value(text) {
            Some(v) => Some(plain(v)),
            None => None,
        }
    }
}

// ── Objects that are written ─────────────────────────────────────────────────

/// Entries with the value `x` under `key`: in place of what was there, or at
/// its place in ascending order.
pub open spec fn inserted(e: Seq<(Seq<char>, JsonV)>, key: Seq<char>, x: JsonV) -> Seq<
    (Seq<char>, JsonV),
>
    decreases e.len(),
{
    if e.len() == 0 {
        seq![(key, x)]
    } else if e[0].0 == key {
        seq![(key, x)] + e.skip(1)
    } else if text_lt(key, e[0].0) {
        seq![(key, x)] + e
    } else {
        seq![e[0]] + inserted(e.skip(1), key, x)
    }
}

/// A value with a string under `key`, if it is an object; otherwise the value.
pub open spec fn with_member(j: JsonV, key: Seq<char>, x: JsonV) -> JsonV {
    match j {
        JsonV::Object(e) => JsonV::Object(inserted(e, key, x)),
        _ => j,
    }
}

/// What was put under a name is found there, and everything else is where it was.
pub proof fn inserted_is_found(
    e: Seq<(Seq<char>, JsonV)>,
    key: Seq<char>,
    x: JsonV,
    other: Seq<char>,
)
    ensures
        entry(inserted(e, key, x), key) == Some(x),
        other != key ==> entry(inserted(e, key, x), other) == entry(e, other),
    decreases e.len(),
{
    let r = inserted(e, key, x);
    if e.len() == 0 {
        assert(r.skip(1) =~= Seq::empty());
        assert(entry(r.skip(1), other) is None);
    } else if e[0].0 == key {
        assert(r.skip(1) =~= e.skip(1));
    } else if text_lt(key, e[0].0) {
        assert(r.skip(1) =~= e);
    } else {
        inserted_is_found(e.skip(1), key, x, other);
        assert(r.skip(1) =~= inserted(e.skip(1), key, x));
    }
}

/// `serde_json::Value::Object` of an empty `serde_json::Map`.
#[verifier::external_body]
fn empty_object() -> (r: serde_json::Value)
    ensures
        json_of(r) == JsonV::Object(Seq::empty()),
{
    serde_json::Value::Object(serde_json::Map::new())
}

/// `serde_json::Map::insert` of a string into a value that is an object, found
/// by `as_object_mut`; any other value stays as it is.
#[verifier::external_body]
fn with_text(v: serde_json::Value, key: &str, text: &str) -> (r: serde_json::Value)
    ensures
        json_of(r) == with_member(json_of(v), key@, JsonV::Str(text@)),
{
    let mut v = v;
    if let Some(obj) = v.as_object_mut() {
        obj.insert(key.to_string(), serde_json::Value::String(text.to_string()));
    }
    v
}

/// `serde_json::Map::insert` of an integer into a value that is an object.
#[verifier::external_body]
fn with_int(v: serde_json::Value, key: &str, n: i64) -> (r: serde_json::Value)
    ensures
        json_of(r) == with_member(json_of(v), key@, JsonV::Int(n as int)),
{
    let mut v = v;
    if let Some(obj) = v.as_object_mut() {
        obj.insert(key.to_string(), serde_json::Value::Number(n.into()));
    }
    v
}

/// Whether a value is an object of strings and integers.
pub open spec fn is_flat(j: JsonV) -> bool {
    j matches JsonV::Object(e) && forall|i: int|
        0 <= i < e.len() ==> (#[trigger] e[i]).1 is Str || e[i].1 is Int
}

/// `serde_json::to_string`: the compact text, in which control characters are
/// escaped. That of an object of strings and integers reads back as that object.
#[verifier::external_body]
fn to_line(v: &serde_json::Value) -> (r: String)
    ensures
        r@ == compact_text(json_of(*v)),
        json_of(*v) is Object ==> r@.len() > 0,
        forall|i: int| 0 <= i < r@.len() ==> #[trigger] r@[i] >= ' ',
        is_flat(json_of(*v)) ==> parsed_json(r@) == Some(json_of(*v)),
{
    serde_json::to_string(v).unwrap_or_default()
}

/// A text parsed as a JSON object, with the string `tag` under `key`; nothing
/// for any other text.
pub fn parse_tagged(text: &str, key: &str, tag: &str) -> (r: Option<Json>)
    ensures
        match parsed_json(text@) {
            Some(j) => if j is Object {
                r matches Some(x) && x.view() == with_member(j, key@, JsonV::Str(tag@)) && x.wf()
            } else {
                r is None
            },
            None => r is None,
        },
{
    match parse_value(text) {
        Some(v) => {
            let j = plain(with_text(v, key, tag));
            match &j.node {
                Node::Object(_) => Some(j),
                _ => None,
            }
        },
        None => None,
    }
}

/// The object of an acknowledgement.
pub open spec fn ack_object(rule_id: Seq<char>, timestamp: int, note: Option<Seq<char>>) -> JsonV {
    let o = with_member(
        with_member(JsonV::Object(Seq::empty()), "rule_id"@, JsonV::Str(rule_id)),
        "timestamp"@,
        JsonV::Int(timestamp),
    );
    match note {
        Some(n) => with_member(o, "note"@, JsonV::Str(n)),
        None => o,
    }
}

proof fn lemma_inserted_flat(e: Seq<(Seq<char>, JsonV)>, key: Seq<char>, x: JsonV)
    requires
        is_flat(JsonV::Object(e)),
        x is Str || x is Int,
    ensures
        is_flat(JsonV::Object(inserted(e, key, x))),
    decreases e.len(),
{
    let r = inserted(e, key, x);
    if e.len() > 0 && e[0].0 != key && !text_lt(key, e[0].0) {
        assert forall|i: int| 0 <= i < e.skip(1).len() implies (#[trigger] e.skip(1)[i]).1 is Str
            || e.skip(1)[i].1 is Int by {
            assert(e.skip(1)[i] == e[i + 1]);
        }
        lemma_inserted_flat(e.skip(1), key, x);
        let t = inserted(e.skip(1), key, x);
        assert forall|i: int| 0 <= i < r.len() implies (#[trigger] r[i]).1 is Str
            || r[i].1 is Int by {
            if i > 0 {
                assert(r[i] == t[i - 1]);
            } else {
                assert(r[0] == e[0]);
            }
        }
    } else {
        assert forall|i: int| 0 <= i < r.len() implies (#[trigger] r[i]).1 is Str
            || r[i].1 is Int by {
            if i > 0 {
                if e.len() > 0 && e[0].0 == key {
                    assert(r[i] == e[i]);
                } else if e.len() > 0 {
                    assert(r[i] == e[i - 1]);
                }
            }
        }
    }
}

/// The line of an acknowledgement: a JSON object of the rule, the moment and
/// the note.
pub fn ack_line(rule_id: &str, timestamp: i64, note: Option<&str>) -> (r: String)
    ensures
        ({
            let o = ack_object(
                rule_id@,
                timestamp as int,
                match note {
                    Some(n) => Some(n@),
                    None => None,
                },
            );
            r@ == compact_text(o) && parsed_json(r@) == Some(o)
        }),
        r@.len() > 0,
        forall|i: int| 0 <= i < r@.len() ==> #[trigger] r@[i] >= ' ',
{
    let v = with_int(
        with_text(empty_object(), "rule_id", rule_id),
        "timestamp",
        timestamp,
    );
    proof {
        let e0 = Seq::<(Seq<char>, JsonV)>::empty();
        lemma_inserted_flat(e0, "rule_id"@, JsonV::Str(rule_id@));
        let e1 = inserted(e0, "rule_id"@, JsonV::Str(rule_id@));
        lemma_inserted_flat(e1, "timestamp"@, JsonV::Int(timestamp as int));
    }
    let v = match note {
        Some(n) => {
            proof {
                lemma_inserted_flat(json_of(v)->Object_0, "note"@, JsonV::Str(n@));
            }
            with_text(v, "note", n)
        },
        None => v,
    };
    to_line(&v)
}

} // verus!
