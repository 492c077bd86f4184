//! How results are written: as JSON lines or tab-separated, with a choice of
//! fields and a limit.
//!
//! Every search feeds its results through one [`Renderer`], so that field
//! selection and format behave the same wherever a record came from.
use vstd::prelude::*;

use crate::json::{compact_text, parsed_json, Json, JsonV, Node};
use crate::number::{dec_i64, dec_int};
use crate::query::opt_int;
use crate::text::{copy_strings, join, joined, opt_views, same, to_chars, views};

verus! {

/// Output format.
#[derive(Debug, Clone, Copy, PartialEq, Eq, Structural)]
pub enum Format {
    Json,
    /// Tab-separated values; `header` controls the leading header row.
    Tsv { header: bool },
}

/// The format that a name stands for.
pub open spec fn format_of(s: Seq<char>) -> Result<Format, Seq<char>> {
    if s == "json"@ {
        Ok(Format::Json)
    } else if s == "tsv"@ {
        Ok(Format::Tsv { header: true })
    } else if s == "tsv-noheader"@ {
        Ok(Format::Tsv { header: false })
    } else {
        Err("invalid --format '"@ + s + "' (expected: json, tsv, tsv-noheader)"@)
    }
}

impl Format {
    /// Parses a format: `json` | `tsv` | `tsv-noheader`.
    pub fn parse(s: &str) -> (r: Result<Format, String>)
        ensures
            match r {
                Ok(f) => format_of(s@) == Ok::<Format, Seq<char>>(f),
                Err(m) => format_of(s@) == Err::<Format, Seq<char>>(m@),
            },
    {
        if same(s, "json") {
            Ok(Format::Json)
        } else if same(s, "tsv") {
            Ok(Format::Tsv { header: true })
        } else if same(s, "tsv-noheader") {
            Ok(Format::Tsv { header: false })
        } else {
            let mut m = "invalid --format '".to_owned();
            m.append(s);
            m.append("' (expected: json, tsv, tsv-noheader)");
            Err(m)
        }
    }
}

// ── Values ───────────────────────────────────────────────────────────────────

/// A typed field value: the type decides how JSON writes it.
#[derive(Debug, PartialEq)]
pub enum Val {
    Str(String),
    Int(i64),
    /// A floating-point number, as it is shown.
    Real(String),
    Bool(bool),
    Null,
}

/// The model of a field value.
pub ghost enum ValV {
    Str(Seq<char>),
    Int(int),
    Real(Seq<char>),
    Bool(bool),
    Null,
}

impl View for Val {
    type V = ValV;

    open spec fn view(&self) -> ValV {
        match self {
            Val::Str(s) => ValV::Str(s@),
            Val::Int(n) => ValV::Int(*n as int),
            Val::Real(s) => ValV::Real(s@),
            Val::Bool(b) => ValV::Bool(*b),
            Val::Null => ValV::Null,
        }
    }
}

/// An ordered record: fields and values in order.
pub type Record = Vec<(String, Val)>;

/// The model of a record.
pub type RecordV = Seq<(Seq<char>, ValV)>;

/// The model of a record.
pub open spec fn record_view(r: Seq<(String, Val)>) -> RecordV {
    r.map_values(|e: (String, Val)| (e.0@, e.1@))
}

/// The text of a boolean.
pub open spec fn bool_text(b: bool) -> Seq<char> {
    if b {
        "true"@
    } else {
        "false"@
    }
}

/// One character of a tab-separated cell: what would break the columns is a space.
pub open spec fn cell_char(c: char) -> char {
    if c == '\t' || c == '\n' || c == '\r' {
        ' '
    } else {
        c
    }
}

/// A value in a tab-separated cell.
pub open spec fn tsv_cell(v: ValV) -> Seq<char> {
    match v {
        ValV::Str(s) => s.map_values(|c: char| cell_char(c)),
        ValV::Int(n) => dec_int(n),
        ValV::Real(s) => s,
        ValV::Bool(b) => bool_text(b),
        ValV::Null => Seq::empty(),
    }
}

/// The hexadecimal digit of `n < 16`.
pub open spec fn hex_digit(n: int) -> char {
    if n < 10 {
        (48 + n) as u8 as char
    } else {
        (87 + n) as u8 as char
    }
}

/// One character inside a JSON string.
pub open spec fn escaped_char(c: char) -> Seq<char> {
    if c == '"' {
        "\\\""@
    } else if c == '\\' {
        "\\\\"@
    } else if c == '\n' {
        "\\n"@
    } else if c == '\r' {
        "\\r"@
    } else if c == '\t' {
        "\\t"@
    } else if (c as u32) < 32 {
        "\\u00"@.push(hex_digit(c as int / 16)).push(hex_digit(c as int % 16))
    } else {
        seq![c]
    }
}

/// A text inside a JSON string.
pub open spec fn escaped(s: Seq<char>) -> Seq<char>
    decreases s.len(),
{
    if s.len() == 0 {
        Seq::empty()
    } else {
        escaped(s.drop_last()) + escaped_char(s.last())
    }
}

/// A value as JSON.
pub open spec fn json_cell(v: ValV) -> Seq<char> {
    match v {
        ValV::Str(s) => "\""@ + escaped(s) + "\""@,
        ValV::Int(n) => dec_int(n),
        ValV::Real(s) => s,
        ValV::Bool(b) => bool_text(b),
        ValV::Null => "null"@,
    }
}

fn hex(n: u8) -> (r: char)
    requires
        n < 16,
    ensures
        r == hex_digit(n as int),
{
    if n < 10 {
        (48 + n) as char
    } else {
        (87 + n) as char
    }
}

fn escape_char(c: char) -> (r: String)
    ensures
        r@ == escaped_char(c),
{
    if c == '"' {
        "\\\"".to_owned()
    } else if c == '\\' {
        "\\\\".to_owned()
    } else if c == '\n' {
        "\\n".to_owned()
    } else if c == '\r' {
        "\\r".to_owned()
    } else if c == '\t' {
        "\\t".to_owned()
    } else if (c as u32) < 32 {
        let b: u8 = c as u8;
        let mut out = "\\u00".to_owned();
        out.push(hex(b / 16));
        out.push(hex(b % 16));
        out
    } else {
        let mut out = String::new();
        out.push(c);
        assert(out@ =~= seq![c]);
        out
    }
}

/// Escapes a text for a JSON string.
pub fn json_escape(s: &str) -> (r: String)
    ensures
        r@ == escaped(s@),
{
    let v = to_chars(s);
    let mut out = String::new();
    let mut i: usize = 0;
    while i < v.len()
        invariant
            i <= v@.len(),
            v@ == s@,
            out@ == escaped(s@.take(i as int)),
        decreases v@.len() - i,
    {
        assert(s@.take(i + 1).drop_last() =~= s@.take(i as int));
        out.append(escape_char(v[i]).as_str());
        i = i + 1;
    }
    assert(s@.take(i as int) =~= s@);
    out
}

/// The number that a hexadecimal digit stands for.
pub open spec fn hex_value(c: char) -> Option<int> {
    if '0' <= c <= '9' {
        Some(c as int - 48)
    } else if 'a' <= c <= 'f' {
        Some(c as int - 87)
    } else {
        None
    }
}

/// The character that a one-letter escape stands for.
pub open spec fn plain_escape(c: char) -> Option<char> {
    if c == '"' {
        Some('"')
    } else if c == '\\' {
        Some('\\')
    } else if c == 'n' {
        Some('\n')
    } else if c == 'r' {
        Some('\r')
    } else if c == 't' {
        Some('\t')
    } else {
        None
    }
}

/// A reading of a text with one character before it.
pub open spec fn led_by(c: char, rest: Option<Seq<char>>) -> Option<Seq<char>> {
    match rest {
        Some(r) => Some(seq![c] + r),
        None => None,
    }
}

/// The text that the inside of a JSON string stands for. A bare quote, which
/// would end the string, a bare control character and an unknown escape stand
/// for none; of the numbered escapes those below 256 are read.
pub open spec fn unescaped(t: Seq<char>) -> Option<Seq<char>>
    decreases t.len(),
{
    if t.len() == 0 {
        Some(Seq::empty())
    } else if t[0] == '"' || (t[0] as u32) < 32 {
        None
    } else if t[0] != '\\' {
        led_by(t[0], unescaped(t.skip(1)))
    } else if t.len() < 2 {
        None
    } else if t[1] != 'u' {
        match plain_escape(t[1]) {
            Some(c) => led_by(c, unescaped(t.skip(2))),
            None => None,
        }
    } else if t.len() < 6 || t[2] != '0' || t[3] != '0' {
        None
    } else {
        match (hex_value(t[4]), hex_value(t[5])) {
            (Some(hi), Some(lo)) => led_by((16 * hi + lo) as u8 as char, unescaped(t.skip(6))),
            _ => None,
        }
    }
}

proof fn lemma_escape_reads_back(c: char, rest: Seq<char>)
    ensures
        unescaped(escaped_char(c) + rest) == led_by(c, unescaped(rest)),
{
    let e = escaped_char(c);
    let t = e + rest;
    reveal_strlit("\\\"");
    reveal_strlit("\\\\");
    reveal_strlit("\\n");
    reveal_strlit("\\r");
    reveal_strlit("\\t");
    reveal_strlit("\\u00");
    assert(t.skip(e.len() as int) =~= rest);
    if c != '"' && c != '\\' && c != '\n' && c != '\r' && c != '\t' && (c as u32) < 32 {
        let (hi, lo) = (c as int / 16, c as int % 16);
        assert(t[4] == hex_digit(hi) && t[5] == hex_digit(lo));
        assert(hex_value(hex_digit(hi)) == Some(hi) && hex_value(hex_digit(lo)) == Some(lo));
        assert((16 * hi + lo) as u8 as char == c);
    }
}

proof fn lemma_escaped_front(s: Seq<char>)
    requires
        s.len() > 0,
    ensures
        escaped(s) == escaped_char(s[0]) + escaped(s.skip(1)),
    decreases s.len(),
{
    if s.len() == 1 {
        assert(s.drop_last() =~= Seq::empty());
        assert(s.skip(1) =~= Seq::empty());
        assert(escaped(s) =~= escaped_char(s[0]) + escaped(s.skip(1)));
    } else {
        lemma_escaped_front(s.drop_last());
        assert(s.drop_last().skip(1) =~= s.skip(1).drop_last());
        assert(escaped(s) =~= escaped_char(s[0]) + escaped(s.skip(1)));
    }
}

/// The inside of a written JSON string stands for the text that was written: no
/// character of it ends the string early, and none is lost or changed.
pub proof fn escaped_text_reads_back(s: Seq<char>)
    ensures
        unescaped(escaped(s)) == Some(s),
    decreases s.len(),
{
    if s.len() > 0 {
        lemma_escaped_front(s);
        lemma_escape_reads_back(s[0], escaped(s.skip(1)));
        escaped_text_reads_back(s.skip(1));
        assert(seq![s[0]] + s.skip(1) =~= s);
    } else {
        assert(s =~= Seq::empty());
    }
}

/// The text of a boolean.
pub fn bool_string(b: bool) -> (r: String)
    ensures
        r@ == bool_text(b),
{
    if b {
        "true".to_owned()
    } else {
        "false".to_owned()
    }
}

impl Val {
    /// The value in a tab-separated cell.
    pub fn to_tsv(&self) -> (r: String)
        ensures
            r@ == tsv_cell(self@),
    {
        match self {
            Val::Str(s) => {
                let v = to_chars(s.as_str());
                let mut out = String::new();
                let mut i: usize = 0;
                while i < v.len()
                    invariant
                        i <= v@.len(),
                        v@ == s@,
                        out@ == s@.take(i as int).map_values(|c: char| cell_char(c)),
                    decreases v@.len() - i,
                {
                    let c = v[i];
                    out.push(
                        if c == '\t' || c == '\n' || c == '\r' {
                            ' '
                        } else {
                            c
                        },
                    );
                    i = i + 1;
                    assert(out@ =~= s@.take(i as int).map_values(|c: char| cell_char(c)));
                }
                assert(s@.take(i as int) =~= s@);
                out
            },
            Val::Int(n) => dec_i64(*n),
            Val::Real(s) => s.clone(),
            Val::Bool(b) => bool_string(*b),
            Val::Null => String::new(),
        }
    }

    /// The value as JSON.
    pub fn to_json(&self) -> (r: String)
        ensures
            r@ == json_cell(self@),
    {
        match self {
            Val::Str(s) => {
                let mut r = "\"".to_owned();
                r.append(json_escape(s.as_str()).as_str());
                r.append("\"");
                r
            },
            Val::Int(n) => dec_i64(*n),
            Val::Real(s) => s.clone(),
            Val::Bool(b) => bool_string(*b),
            Val::Null => "null".to_owned(),
        }
    }
}

/// The value of the first field of that name.
pub open spec fn field_value(rec: RecordV, key: Seq<char>) -> Option<ValV>
    decreases rec.len(),
{
    if rec.len() == 0 {
        None
    } else if rec[0].0 == key {
        Some(rec[0].1)
    } else {
        field_value(rec.skip(1), key)
    }
}

/// The value of the first field of that name.
pub fn lookup<'a>(rec: &'a Vec<(String, Val)>, key: &str) -> (r: Option<&'a Val>)
    ensures
        match r {
            Some(v) => field_value(record_view(rec@), key@) == Some(v@),
            None => field_value(record_view(rec@), key@) is None,
        },
{
    let ghost rv = record_view(rec@);
    let n: usize = rec.len();
    let mut i: usize = 0;
    assert(rv.skip(0) =~= rv);
    while i < n
        invariant
            n == rec@.len(),
            rv == record_view(rec@),
            i <= n,
            field_value(rv, key@) == field_value(rv.skip(i as int), key@),
        decreases n - i,
    {
        assert(rv.skip(i as int)[0] == (rec@[i as int].0@, rec@[i as int].1@));
        if same(rec[i].0.as_str(), key) {
            return Some(&rec[i].1);
        }
        assert(rv.skip(i as int).skip(1) =~= rv.skip(i + 1));
        i = i + 1;
    }
    None
}

// ── Records from JSON ────────────────────────────────────────────────────────

/// A JSON value as a field value; arrays and objects are their compact text.
pub open spec fn val_of(j: JsonV) -> ValV {
    match j {
        JsonV::Null => ValV::Null,
        JsonV::Bool(b) => ValV::Bool(b),
        JsonV::Int(n) => ValV::Int(n),
        JsonV::Real { json, shown } => ValV::Real(shown),
        JsonV::Str(s) => ValV::Str(s),
        JsonV::Array(_) => ValV::Str(compact_text(j)),
        JsonV::Object(_) => ValV::Str(compact_text(j)),
    }
}

/// A JSON value as a field value.
pub fn json_to_val(j: &Json) -> (r: Val)
    requires
        j.wf(),
    ensures
        r@ == val_of(j.view()),
{
    match &j.node {
        Node::Null => Val::Null,
        Node::Bool(b) => Val::Bool(*b),
        Node::Int(n) => Val::Int(*n),
        Node::Real { json: _, shown } => Val::Real(shown.clone()),
        Node::Str(s) => Val::Str(s.clone()),
        _ => Val::Str(j.text.clone()),
    }
}

/// The record of a line that is a JSON object.
pub open spec fn record_of(j: Option<JsonV>) -> Option<RecordV> {
    match j {
        Some(JsonV::Object(e)) => Some(
            e.map_values(|x: (Seq<char>, JsonV)| (x.0, val_of(x.1))),
        ),
        _ => None,
    }
}

/// The model of an optional record.
pub open spec fn opt_record(r: Option<Record>) -> Option<RecordV> {
    match r {
        Some(v) => Some(record_view(v@)),
        None => None,
    }
}

/// The record of a JSON value that is an object.
pub fn flat_record(j: &Json) -> (r: Option<Record>)
    requires
        j.wf(),
    ensures
        opt_record(r) == record_of(Some(j.view())),
{
    match &j.node {
        Node::Object(entries) => {
            let ghost e = j.view()->Object_0;
            let mut rec: Record = Vec::new();
            let mut i: usize = 0;
            while i < entries.len()
                invariant
                    i <= entries@.len(),
                    j.wf(),
                    j.node == Node::Object(*entries),
                    e == j.view()->Object_0,
                    rec@.len() == i,
                    forall|k: int|
                        0 <= k < i ==> ((#[trigger] rec@[k]).0@, rec@[k].1@) == (
                            e[k].0,
                            val_of(e[k].1),
                        ),
                decreases entries@.len() - i,
            {
                assert(entries@[i as int].1.wf());
                rec.push((entries[i].0.clone(), json_to_val(&entries[i].1)));
                i = i + 1;
            }
            assert(record_view(rec@) =~= e.map_values(
                |x: (Seq<char>, JsonV)| (x.0, val_of(x.1)),
            ));
            Some(rec)
        },
        _ => None,
    }
}

/// The model of an optional JSON value.
pub open spec fn opt_json(j: Option<Json>) -> Option<JsonV> {
    match j {
        Some(x) => Some(x.view()),
        None => None,
    }
}

// ── Renderer ─────────────────────────────────────────────────────────────────

/// Writes results in the selected format.
pub struct Renderer {
    pub format: Format,
    /// Output these fields, in this order. `None` = all.
    pub fields: Option<Vec<String>>,
    /// What was written and not taken yet.
    pub out: String,
    /// The columns, fixed by the first row.
    pub tsv_cols: Option<Vec<String>>,
    pub header_done: bool,
    pub limit: Option<usize>,
    pub emitted: usize,
}

/// The model of a renderer.
pub ghost struct RendererV {
    pub format: Format,
    pub fields: Option<Seq<Seq<char>>>,
    pub out: Seq<char>,
    pub cols: Option<Seq<Seq<char>>>,
    pub header_done: bool,
    pub limit: Option<int>,
    pub emitted: int,
}

impl View for Renderer {
    type V = RendererV;

    open spec fn view(&self) -> RendererV {
        RendererV {
            format: self.format,
            fields: opt_views(self.fields),
            out: self.out@,
            cols: opt_views(self.tsv_cols),
            header_done: self.header_done,
            limit: opt_int(self.limit),
            emitted: self.emitted as int,
        }
    }
}

/// Whether the limit is reached.
pub open spec fn done(s: RendererV) -> bool {
    s.limit matches Some(n) && s.emitted >= n
}

/// The names of a record's fields.
pub open spec fn field_names(rec: RecordV) -> Seq<Seq<char>> {
    rec.map_values(|e: (Seq<char>, ValV)| e.0)
}

/// A field and its value as JSON.
pub open spec fn json_pair(name: Seq<char>, v: ValV) -> Seq<char> {
    "\""@ + escaped(name) + "\":"@ + json_cell(v)
}

/// The pairs of a record: the chosen fields in order, `null` where the record
/// has none, or all fields.
pub open spec fn json_pairs(fields: Option<Seq<Seq<char>>>, rec: RecordV) -> Seq<Seq<char>> {
    match fields {
        Some(names) => names.map_values(
            |f: Seq<char>|
                json_pair(
                    f,
                    match field_value(rec, f) {
                        Some(v) => v,
                        None => ValV::Null,
                    },
                ),
        ),
        None => rec.map_values(|e: (Seq<char>, ValV)| json_pair(e.0, e.1)),
    }
}

/// A record as a JSON object.
pub open spec fn json_object(fields: Option<Seq<Seq<char>>>, rec: RecordV) -> Seq<char> {
    "{"@ + joined(json_pairs(fields, rec), ","@) + "}"@
}

/// The columns of a row: those fixed by an earlier row, else the chosen fields,
/// else this record's fields.
pub open spec fn columns(s: RendererV, rec: RecordV) -> Seq<Seq<char>> {
    match s.cols {
        Some(c) => c,
        None => match s.fields {
            Some(f) => f,
            None => field_names(rec),
        },
    }
}

/// The cells of a row; empty where the record has no such field.
pub open spec fn row_cells(cols: Seq<Seq<char>>, rec: RecordV) -> Seq<Seq<char>> {
    cols.map_values(
        |c: Seq<char>|
            match field_value(rec, c) {
                Some(v) => tsv_cell(v),
                None => Seq::empty(),
            },
    )
}

/// The renderer after a record was written, whatever the limit.
pub open spec fn written(s: RendererV, rec: RecordV) -> RendererV {
    match s.format {
        Format::Json => RendererV {
            out: s.out + json_object(s.fields, rec) + "\n"@,
            ..s
        },
        Format::Tsv { header } => {
            let cols = columns(s, rec);
            let head = if header && !s.header_done {
                s.out + joined(cols, "\t"@) + "\n"@
            } else {
                s.out
            };
            RendererV {
                out: head + joined(row_cells(cols, rec), "\t"@) + "\n"@,
                cols: Some(cols),
                header_done: s.header_done || header,
                ..s
            }
        },
    }
}

/// The renderer after a record: unchanged when the limit is reached.
pub open spec fn after_record(s: RendererV, rec: RecordV) -> RendererV {
    if done(s) {
        s
    } else {
        RendererV { emitted: s.emitted + 1, ..written(s, rec) }
    }
}

/// The renderer after a line that parses as `j`: the line itself for plain
/// JSON; otherwise its record, or the line when it is no object and the format
/// is JSON; a line that is no object is skipped, uncounted, in a table.
pub open spec fn after_line(s: RendererV, line: Seq<char>, j: Option<JsonV>) -> RendererV {
    let verbatim = RendererV { out: s.out + line + "\n"@, emitted: s.emitted + 1, ..s };
    if done(s) {
        s
    } else if s.format == Format::Json && s.fields is None {
        verbatim
    } else {
        match record_of(j) {
            Some(rec) => RendererV { emitted: s.emitted + 1, ..written(s, rec) },
            None => if s.format == Format::Json {
                verbatim
            } else {
                s
            },
        }
    }
}

impl Renderer {
    /// A renderer that has written nothing.
    pub fn new(format: Format, fields: Option<Vec<String>>, limit: Option<usize>) -> (r: Renderer)
        ensures
            r@ == (RendererV {
                format,
                fields: opt_views(fields),
                out: Seq::empty(),
                cols: None,
                header_done: false,
                limit: opt_int(limit),
                emitted: 0,
            }),
    {
        Renderer {
            format,
            fields,
            out: String::new(),
            tsv_cols: None,
            header_done: false,
            limit,
            emitted: 0,
        }
    }

    /// Takes what was written since the last time.
    pub fn flush(&mut self) -> (r: String)
        ensures
            r@ == old(self)@.out,
            final(self)@ == (RendererV { out: Seq::empty(), ..old(self)@ }),
    {
        let mut taken = String::new();
        std::mem::swap(&mut taken, &mut self.out);
        taken
    }

    /// Whether the limit is reached, and nothing more will be written.
    pub fn is_done(&self) -> (r: bool)
        ensures
            r == done(self@),
    {
        match self.limit {
            Some(n) => self.emitted >= n,
            None => false,
        }
    }

    /// How many results were written.
    pub fn emitted(&self) -> (r: usize)
        ensures
            r == self@.emitted,
    {
        self.emitted
    }

    /// Writes a record.
    pub fn emit_record(&mut self, rec: &Record)
        requires
            done(old(self)@) || old(self).emitted < usize::MAX,
        ensures
            final(self)@ == after_record(old(self)@, record_view(rec@)),
    {
        if self.is_done() {
            return ;
        }
        self.write_rec(rec);
        self.emitted = self.emitted + 1;
    }

    /// Writes a raw line.
    ///
    /// Plain JSON with no field selection prints the line verbatim. Otherwise the
    /// line is parsed so that selection and columns apply; a line that is no
    /// object passes through (JSON) or is skipped and not counted (a table).
    pub fn emit_raw_line(&mut self, line: &str)
        requires
            done(old(self)@) || old(self).emitted < usize::MAX,
        ensures
            final(self)@ == after_line(old(self)@, line@, parsed_json(line@)),
    {
        if self.is_done() {
            return ;
        }
        let parsed = if self.format == Format::Json && self.fields.is_none() {
            None
        } else {
            Json::parse(line)
        };
        self.emit_parsed_line(line, &parsed);
    }

    /// Writes a raw line that parsed as `parsed`.
    pub fn emit_parsed_line(&mut self, line: &str, parsed: &Option<Json>)
        requires
            done(old(self)@) || old(self).emitted < usize::MAX,
            parsed matches Some(j) ==> j.wf(),
        ensures
            final(self)@ == after_line(old(self)@, line@, opt_json(*parsed)),
    {
        if self.is_done() {
            return ;
        }
        if self.format == Format::Json && self.fields.is_none() {
            self.emitted = self.emitted + 1;
            self.out.append(line);
            self.out.append("\n");
            return ;
        }
        let rec = match parsed {
            Some(j) => flat_record(j),
            None => None,
        };
        match rec {
            Some(rec) => {
                self.emitted = self.emitted + 1;
                self.write_rec(&rec);
            },
            None => match self.format {
                Format::Json => {
                    self.emitted = self.emitted + 1;
                    self.out.append(line);
                    self.out.append("\n");
                },
                Format::Tsv { header: _ } => {},
            },
        }
    }

    fn write_rec(&mut self, rec: &Record)
        ensures
            final(self)@ == written(old(self)@, record_view(rec@)),
            final(self).emitted == old(self).emitted,
    {
        match self.format {
            Format::Json => {
                let json = self.render_json(rec);
                self.out.append(json.as_str());
                self.out.append("\n");
            },
            Format::Tsv { header } => {
                self.emit_tsv(rec, header);
            },
        }
    }

    fn render_json(&self, rec: &Record) -> (r: String)
        ensures
            r@ == json_object(self@.fields, record_view(rec@)),
    {
        let ghost rv = record_view(rec@);
        let ghost target = json_pairs(self@.fields, rv);
        let mut parts: Vec<String> = Vec::new();
        match &self.fields {
            Some(fields) => {
                let mut i: usize = 0;
                while i < fields.len()
                    invariant
                        i <= fields@.len(),
                        rv == record_view(rec@),
                        target == json_pairs(Some(views(fields@)), rv),
                        parts@.len() == i,
                        forall|k: int| 0 <= k < i ==> (#[trigger] parts@[k])@ == target[k],
                    decreases fields@.len() - i,
                {
                    let v = match lookup(rec, fields[i].as_str()) {
                        Some(v) => v.to_json(),
                        None => Val::Null.to_json(),
                    };
                    parts.push(json_pair_text(fields[i].as_str(), v.as_str()));
                    i = i + 1;
                }
            },
            None => {
                let mut i: usize = 0;
                while i < rec.len()
                    invariant
                        i <= rec@.len(),
                        rv == record_view(rec@),
                        target == json_pairs(None, rv),
                        parts@.len() == i,
                        forall|k: int| 0 <= k < i ==> (#[trigger] parts@[k])@ == target[k],
                    decreases rec@.len() - i,
                {
                    let v = rec[i].1.to_json();
                    parts.push(json_pair_text(rec[i].0.as_str(), v.as_str()));
                    i = i + 1;
                }
            },
        }
        assert(views(parts@) =~= target);
        let mut r = "{".to_owned();
        r.append(join(&parts, ",").as_str());
        r.append("}");
        r
    }

    fn emit_tsv(&mut self, rec: &Record, header: bool)
        requires
            old(self).format == (Format::Tsv { header }),
        ensures
            final(self)@ == written(old(self)@, record_view(rec@)),
            final(self).emitted == old(self).emitted,
    {
        let ghost rv = record_view(rec@);
        let cols = match &self.tsv_cols {
            Some(c) => copy_strings(c),
            None => match &self.fields {
                Some(f) => copy_strings(f),
                None => names_of(rec),
            },
        };
        let ghost target = row_cells(views(cols@), rv);
        if header && !self.header_done {
            self.out.append(join(&cols, "\t").as_str());
            self.out.append("\n");
            self.header_done = true;
        }
        let mut row: Vec<String> = Vec::new();
        let mut i: usize = 0;
        while i < cols.len()
            invariant
                i <= cols@.len(),
                rv == record_view(rec@),
                target == row_cells(views(cols@), rv),
                row@.len() == i,
                forall|k: int| 0 <= k < i ==> (#[trigger] row@[k])@ == target[k],
            decreases cols@.len() - i,
        {
            let cell = match lookup(rec, cols[i].as_str()) {
                Some(v) => v.to_tsv(),
                None => String::new(),
            };
            row.push(cell);
            i = i + 1;
        }
        assert(views(row@) =~= target);
        self.out.append(join(&row, "\t").as_str());
        self.out.append("\n");
        self.tsv_cols = Some(cols);
    }
}

fn json_pair_text(name: &str, value: &str) -> (r: String)
    ensures
        r@ == "\""@ + escaped(name@) + "\":"@ + value@,
{
    let mut r = "\"".to_owned();
    r.append(json_escape(name).as_str());
    r.append("\":");
    r.append(value);
    r
}

fn names_of(rec: &Vec<(String, Val)>) -> (r: Vec<String>)
    ensures
        views(r@) == field_names(record_view(rec@)),
{
    let mut r: Vec<String> = Vec::new();
    let mut i: usize = 0;
    while i < rec.len()
        invariant
            i <= rec@.len(),
            r@.len() == i,
            forall|k: int| 0 <= k < i ==> (#[trigger] r@[k])@ == rec@[k].0@,
        decreases rec@.len() - i,
    {
        r.push(rec[i].0.clone());
        i = i + 1;
    }
    assert(views(r@) =~= field_names(record_view(rec@)));
    r
}

// ── What always holds ────────────────────────────────────────────────────────

/// The limit is kept: no more results are written than it allows.
pub proof fn limit_is_kept(s: RendererV, rec: RecordV, line: Seq<char>, j: Option<JsonV>, n: int)
    requires
        s.limit == Some(n),
        s.emitted <= n,
    ensures
        after_record(s, rec).emitted <= n,
        after_record(s, rec).limit == Some(n),
        after_line(s, line, j).emitted <= n,
        after_line(s, line, j).limit == Some(n),
{
}

/// The first row fixes the columns for the rest of the output.
pub proof fn columns_stay(s: RendererV, first: RecordV, second: RecordV)
    requires
        s.format is Tsv,
    ensures
        written(s, first).cols is Some,
        written(written(s, first), second).cols == written(s, first).cols,
{
}

/// The header is written at most once.
pub proof fn header_is_written_once(s: RendererV, rec: RecordV)
    requires
        s.format is Tsv,
        s.header_done,
    ensures
        written(s, rec).out == s.out + joined(row_cells(columns(s, rec), rec), "\t"@) + "\n"@,
        written(s, rec).header_done,
{
}

/// A text cannot break the columns of a table.
pub proof fn cells_keep_the_columns(s: Seq<char>, i: int)
    requires
        0 <= i < tsv_cell(ValV::Str(s)).len(),
    ensures
        tsv_cell(ValV::Str(s))[i] != '\t',
        tsv_cell(ValV::Str(s))[i] != '\n',
        tsv_cell(ValV::Str(s))[i] != '\r',
        tsv_cell(ValV::Str(s)).len() == s.len(),
{
}

} // verus!
