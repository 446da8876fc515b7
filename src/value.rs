use vstd::prelude::*;

use crate::schema::{all_digits, digits_value, is_i64_text, parses_as_i64};

verus! {

broadcast use vstd::std_specs::vec::axiom_vec_index_decreases;

/// How a JSON number is stored by the serializer that produced it.
#[derive(Clone, Copy, Debug, PartialEq, Eq, Structural)]
pub enum NumberKind {
    /// An integer that fits in `i64`.
    Signed,
    /// A non-negative integer above `i64::MAX`.
    Unsigned,
    /// A floating-point number.
    Float,
}

/// A JSON number: its storage kind and its decimal text.
#[derive(Clone, Debug, PartialEq)]
pub struct JsonNumber {
    pub kind: NumberKind,
    pub text: String,
}

/// Base-10 text of a `u64`: an optional `+`, at least one digit, in range.
pub open spec fn is_u64_text(s: Seq<char>) -> bool {
    let digits = if s.len() > 0 && s[0] == '+' {
        s.drop_first()
    } else {
        s
    };
    &&& digits.len() > 0
    &&& all_digits(digits)
    &&& digits_value(digits) <= 0xffff_ffff_ffff_ffff
}

/// The storage kind that a number's text calls for.
pub open spec fn number_kind(text: Seq<char>) -> NumberKind {
    if is_i64_text(text) {
        NumberKind::Signed
    } else if is_u64_text(text) {
        NumberKind::Unsigned
    } else {
        NumberKind::Float
    }
}

/// Relies on `str::parse::<u64>`: it succeeds exactly on base-10 text of a
/// value in range, with an optional leading `+`.
#[verifier::external_body]
fn parses_as_u64(s: &str) -> (r: bool)
    ensures
        r == is_u64_text(s@),
{
    s.parse::<u64>().is_ok()
}

impl JsonNumber {
    /// The kind agrees with the text: `Signed` for `i64` text, `Unsigned` for
    /// other `u64` text, `Float` for anything else.
    pub open spec fn wf(&self) -> bool {
        self.kind == number_kind(self.text@)
    }

    /// The number written by `text`, with the kind its text calls for.
    pub fn from_text(text: String) -> (r: Self)
        ensures
            r.text == text,
            r.wf(),
    {
        let kind = if parses_as_i64(text.as_str()) {
            NumberKind::Signed
        } else if parses_as_u64(text.as_str()) {
            NumberKind::Unsigned
        } else {
            NumberKind::Float
        };
        JsonNumber { kind, text }
    }
}

/// A self-describing value tree: the serialized form of an example value.
///
/// Object fields keep the order in which the serializer produced them.
#[derive(Debug, PartialEq)]
pub enum JsonValue {
    Null,
    Bool(bool),
    Number(JsonNumber),
    Str(String),
    Array(Vec<JsonValue>),
    Object(Vec<(String, JsonValue)>),
}

/// The mathematical model of a `JsonValue`.
pub enum JsonTree {
    Null,
    Bool(bool),
    Number(NumberKind, Seq<char>),
    Str(Seq<char>),
    Array(Seq<JsonTree>),
    Object(Seq<(Seq<char>, JsonTree)>),
}

pub open spec fn tree_of(v: JsonValue) -> JsonTree
    decreases v,
{
    match v {
        JsonValue::Null => JsonTree::Null,
        JsonValue::Bool(b) => JsonTree::Bool(b),
        JsonValue::Number(n) => JsonTree::Number(n.kind, n.text@),
        JsonValue::Str(s) => JsonTree::Str(s@),
        JsonValue::Array(items) => JsonTree::Array(trees_of(items@)),
        JsonValue::Object(fields) => JsonTree::Object(field_trees_of(fields@)),
    }
}

pub open spec fn trees_of(items: Seq<JsonValue>) -> Seq<JsonTree>
    decreases items,
{
    if items.len() == 0 {
        Seq::empty()
    } else {
        trees_of(items.drop_last()).push(tree_of(items.last()))
    }
}

pub open spec fn field_trees_of(fields: Seq<(String, JsonValue)>) -> Seq<(Seq<char>, JsonTree)>
    decreases fields,
{
    if fields.len() == 0 {
        Seq::empty()
    } else {
        field_trees_of(fields.drop_last()).push((fields.last().0@, tree_of(fields.last().1)))
    }
}

impl View for JsonValue {
    type V = JsonTree;

    open spec fn view(&self) -> JsonTree {
        tree_of(*self)
    }
}


/// The JSON escape of one character: a double quote or a backslash behind a
/// backslash, the short escapes for backspace, tab, line feed, form feed and
/// carriage return, `\u00xx` in lower-case hex for the other characters
/// below U+0020, and any other character as it is.
pub open spec fn escape_char(c: char) -> Seq<char> {
    if c == '"' {
        seq!['\\', '"']
    } else if c == '\\' {
        seq!['\\', '\\']
    } else if c == '\u{8}' {
        seq!['\\', 'b']
    } else if c == '\t' {
        seq!['\\', 't']
    } else if c == '\n' {
        seq!['\\', 'n']
    } else if c == '\u{c}' {
        seq!['\\', 'f']
    } else if c == '\r' {
        seq!['\\', 'r']
    } else if (c as u32) < 0x20 {
        seq!['\\', 'u', '0', '0', hex_digit((c as u32) / 16), hex_digit((c as u32) % 16)]
    } else {
        seq![c]
    }
}

pub open spec fn hex_digit(n: u32) -> char {
    "0123456789abcdef"@[n as int]
}

pub open spec fn escaped(s: Seq<char>) -> Seq<char>
    decreases s.len(),
{
    if s.len() == 0 {
        Seq::empty()
    } else {
        escaped(s.drop_last()) + escape_char(s.last())
    }
}

/// The JSON string literal of `s`: its escaped characters in double quotes.
pub open spec fn json_quoted(s: Seq<char>) -> Seq<char> {
    seq!['"'] + escaped(s) + seq!['"']
}

/// Relies on serde_json's `Display` for `Value::String`: writes `s` in double
/// quotes through its escape table.
#[verifier::external_body]
pub fn quote_json(s: &str) -> (r: String)
    ensures
        r@ == json_quoted(s@),
{
    serde_json::Value::String(s.to_string()).to_string()
}

pub open spec fn spaces(n: nat) -> Seq<char> {
    Seq::new(n, |i: int| ' ')
}

/// Indented multi-line JSON text of a tree, two spaces per level, with
/// `ind` spaces before the closing bracket of a non-empty container.
pub open spec fn pretty(t: JsonTree, ind: nat) -> Seq<char>
    decreases t,
{
    match t {
        JsonTree::Null => "null"@,
        JsonTree::Bool(b) => if b { "true"@ } else { "false"@ },
        JsonTree::Number(_, text) => text,
        JsonTree::Str(s) => json_quoted(s),
        JsonTree::Array(items) => if items.len() == 0 {
            "[]"@
        } else {
            "[\n"@ + pretty_items(items, ind + 2) + "\n"@ + spaces(ind) + "]"@
        },
        JsonTree::Object(fields) => if fields.len() == 0 {
            "{}"@
        } else {
            "{\n"@ + pretty_fields(fields, ind + 2) + "\n"@ + spaces(ind) + "}"@
        },
    }
}

pub open spec fn pretty_items(items: Seq<JsonTree>, ind: nat) -> Seq<char>
    decreases items,
{
    if items.len() == 0 {
        Seq::empty()
    } else {
        let sep = if items.len() == 1 { Seq::empty() } else { ",\n"@ };
        pretty_items(items.drop_last(), ind) + sep + spaces(ind) + pretty(items.last(), ind)
    }
}

pub open spec fn pretty_fields(fields: Seq<(Seq<char>, JsonTree)>, ind: nat) -> Seq<char>
    decreases fields,
{
    if fields.len() == 0 {
        Seq::empty()
    } else {
        let sep = if fields.len() == 1 { Seq::empty() } else { ",\n"@ };
        pretty_fields(fields.drop_last(), ind) + sep + spaces(ind) + json_quoted(fields.last().0)
            + ": "@ + pretty(fields.last().1, ind)
    }
}

/// Single-line JSON text of a tree, without any whitespace.
pub open spec fn compact(t: JsonTree) -> Seq<char>
    decreases t,
{
    match t {
        JsonTree::Null => "null"@,
        JsonTree::Bool(b) => if b { "true"@ } else { "false"@ },
        JsonTree::Number(_, text) => text,
        JsonTree::Str(s) => json_quoted(s),
        JsonTree::Array(items) => "["@ + compact_items(items) + "]"@,
        JsonTree::Object(fields) => "{"@ + compact_fields(fields) + "}"@,
    }
}

pub open spec fn compact_items(items: Seq<JsonTree>) -> Seq<char>
    decreases items,
{
    if items.len() == 0 {
        Seq::empty()
    } else {
        let sep = if items.len() == 1 { Seq::empty() } else { ","@ };
        compact_items(items.drop_last()) + sep + compact(items.last())
    }
}

pub open spec fn compact_fields(fields: Seq<(Seq<char>, JsonTree)>) -> Seq<char>
    decreases fields,
{
    if fields.len() == 0 {
        Seq::empty()
    } else {
        let sep = if fields.len() == 1 { Seq::empty() } else { ","@ };
        compact_fields(fields.drop_last()) + sep + json_quoted(fields.last().0) + ":"@ + compact(
            fields.last().1,
        )
    }
}

pub proof fn lemma_trees_of_len(items: Seq<JsonValue>)
    ensures
        trees_of(items).len() == items.len(),
        forall|i: int| 0 <= i < items.len() ==> #[trigger] trees_of(items)[i] == tree_of(items[i]),
    decreases items.len(),
{
    if items.len() > 0 {
        lemma_trees_of_len(items.drop_last());
    }
}

pub proof fn lemma_field_trees_of_len(fields: Seq<(String, JsonValue)>)
    ensures
        field_trees_of(fields).len() == fields.len(),
        forall|i: int|
            0 <= i < fields.len() ==> #[trigger] field_trees_of(fields)[i] == (
                fields[i].0@,
                tree_of(fields[i].1),
            ),
    decreases fields.len(),
{
    if fields.len() > 0 {
        lemma_field_trees_of_len(fields.drop_last());
    }
}

fn two_more(pad: &String, Ghost(ind): Ghost<nat>) -> (r: String)
    requires
        pad@ == spaces(ind),
    ensures
        r@ == spaces(ind + 2),
{
    let mut r = pad.clone();
    r.append("  ");
    proof {
        reveal_strlit("  ");
        assert(r@ =~= spaces(ind + 2));
    }
    r
}

/// Appends the indented text of `v`; `pad` holds the spaces of the current level.
fn write_pretty(v: &JsonValue, pad: &String, Ghost(ind): Ghost<nat>, out: &mut String)
    requires
        pad@ == spaces(ind),
    ensures
        final(out)@ == old(out)@ + pretty(v@, ind),
    decreases v,
{
    match v {
        JsonValue::Null => out.append("null"),
        JsonValue::Bool(b) => if *b {
            out.append("true")
        } else {
            out.append("false")
        },
        JsonValue::Number(n) => out.append(n.text.as_str()),
        JsonValue::Str(s) => {
            let q = quote_json(s.as_str());
            out.append(q.as_str());
        },
        JsonValue::Array(items) => {
            if items.len() == 0 {
                out.append("[]");
                return;
            }
            let inner = two_more(pad, Ghost(ind));
            let ghost start = out@;
            let ghost ts = trees_of(items@);
            proof {
                lemma_trees_of_len(items@);
            }
            out.append("[\n");
            let mut i: usize = 0;
            while i < items.len()
                invariant
                    0 <= i <= items.len(),
                    *v is Array && v->Array_0 == *items,
                    ts == trees_of(items@),
                    ts.len() == items.len(),
                    forall|j: int| 0 <= j < items.len() ==> #[trigger] ts[j] == tree_of(items@[j]),
                    inner@ == spaces(ind + 2),
                    out@ == start + "[\n"@ + pretty_items(ts.take(i as int), ind + 2),
                decreases items.len() - i,
            {
                if i > 0 {
                    out.append(",\n");
                }
                out.append(inner.as_str());
                proof {
                    assert(decreases_to!(*v => v->Array_0));
                    assert(decreases_to!(*items => items[i as int]));
                }
                write_pretty(&items[i], &inner, Ghost(ind + 2), out);
                proof {
                    let t = ts.take(i + 1);
                    assert(t.drop_last() =~= ts.take(i as int));
                    assert(t.last() == tree_of(items@[i as int]));
                }
                i = i + 1;
            }
            out.append("\n");
            out.append(pad.as_str());
            out.append("]");
            proof {
                assert(ts.take(items.len() as int) =~= ts);
                assert(out@ =~= start + pretty(v@, ind));
            }
        },
        JsonValue::Object(fields) => {
            if fields.len() == 0 {
                out.append("{}");
                return;
            }
            let inner = two_more(pad, Ghost(ind));
            let ghost start = out@;
            let ghost ts = field_trees_of(fields@);
            proof {
                lemma_field_trees_of_len(fields@);
            }
            out.append("{\n");
            let mut i: usize = 0;
            while i < fields.len()
                invariant
                    0 <= i <= fields.len(),
                    *v is Object && v->Object_0 == *fields,
                    ts == field_trees_of(fields@),
                    ts.len() == fields.len(),
                    forall|j: int|
                        0 <= j < fields.len() ==> #[trigger] ts[j] == (
                            fields@[j].0@,
                            tree_of(fields@[j].1),
                        ),
                    inner@ == spaces(ind + 2),
                    out@ == start + "{\n"@ + pretty_fields(ts.take(i as int), ind + 2),
                decreases fields.len() - i,
            {
                if i > 0 {
                    out.append(",\n");
                }
                out.append(inner.as_str());
                let q = quote_json(fields[i].0.as_str());
                out.append(q.as_str());
                out.append(": ");
                proof {
                    assert(decreases_to!(*v => v->Object_0));
                    assert(decreases_to!(*fields => fields[i as int]));
                    assert(decreases_to!(fields[i as int] => fields[i as int].1));
                }
                write_pretty(&fields[i].1, &inner, Ghost(ind + 2), out);
                proof {
                    let t = ts.take(i + 1);
                    assert(t.drop_last() =~= ts.take(i as int));
                    assert(t.last() == ts[i as int]);
                }
                i = i + 1;
            }
            out.append("\n");
            out.append(pad.as_str());
            out.append("}");
            proof {
                assert(ts.take(fields.len() as int) =~= ts);
                assert(out@ =~= start + pretty(v@, ind));
            }
        },
    }
}


/// Appends the single-line text of `v`.
fn write_compact(v: &JsonValue, out: &mut String)
    ensures
        final(out)@ == old(out)@ + compact(v@),
    decreases v,
{
    match v {
        JsonValue::Null => out.append("null"),
        JsonValue::Bool(b) => if *b {
            out.append("true")
        } else {
            out.append("false")
        },
        JsonValue::Number(n) => out.append(n.text.as_str()),
        JsonValue::Str(s) => {
            let q = quote_json(s.as_str());
            out.append(q.as_str());
        },
        JsonValue::Array(items) => {
            let ghost start = out@;
            let ghost ts = trees_of(items@);
            proof {
                lemma_trees_of_len(items@);
            }
            out.append("[");
            let mut i: usize = 0;
            while i < items.len()
                invariant
                    0 <= i <= items.len(),
                    *v is Array && v->Array_0 == *items,
                    ts == trees_of(items@),
                    ts.len() == items.len(),
                    forall|j: int| 0 <= j < items.len() ==> #[trigger] ts[j] == tree_of(items@[j]),
                    out@ == start + "["@ + compact_items(ts.take(i as int)),
                decreases items.len() - i,
            {
                if i > 0 {
                    out.append(",");
                }
                proof {
                    assert(decreases_to!(*v => v->Array_0));
                    assert(decreases_to!(*items => items[i as int]));
                }
                write_compact(&items[i], out);
                proof {
                    let t = ts.take(i + 1);
                    assert(t.drop_last() =~= ts.take(i as int));
                    assert(t.last() == tree_of(items@[i as int]));
                }
                i = i + 1;
            }
            out.append("]");
            proof {
                assert(ts.take(items.len() as int) =~= ts);
                assert(out@ =~= start + compact(v@));
            }
        },
        JsonValue::Object(fields) => {
            let ghost start = out@;
            let ghost ts = field_trees_of(fields@);
            proof {
                lemma_field_trees_of_len(fields@);
            }
            out.append("{");
            let mut i: usize = 0;
            while i < fields.len()
                invariant
                    0 <= i <= fields.len(),
                    *v is Object && v->Object_0 == *fields,
                    ts == field_trees_of(fields@),
                    ts.len() == fields.len(),
                    forall|j: int|
                        0 <= j < fields.len() ==> #[trigger] ts[j] == (
                            fields@[j].0@,
                            tree_of(fields@[j].1),
                        ),
                    out@ == start + "{"@ + compact_fields(ts.take(i as int)),
                decreases fields.len() - i,
            {
                if i > 0 {
                    out.append(",");
                }
                let q = quote_json(fields[i].0.as_str());
                out.append(q.as_str());
                out.append(":");
                proof {
                    assert(decreases_to!(*v => v->Object_0));
                    assert(decreases_to!(*fields => fields[i as int]));
                    assert(decreases_to!(fields[i as int] => fields[i as int].1));
                }
                write_compact(&fields[i].1, out);
                proof {
                    let t = ts.take(i + 1);
                    assert(t.drop_last() =~= ts.take(i as int));
                    assert(t.last() == ts[i as int]);
                }
                i = i + 1;
            }
            out.append("}");
            proof {
                assert(ts.take(fields.len() as int) =~= ts);
                assert(out@ =~= start + compact(v@));
            }
        },
    }
}

impl JsonValue {
    /// The indented multi-line JSON text of this value.
    pub fn to_pretty_string(&self) -> (r: String)
        ensures
            r@ == pretty(self@, 0),
    {
        let mut out = String::new();
        let pad = String::new();
        proof {
            assert(pad@ =~= spaces(0));
        }
        write_pretty(self, &pad, Ghost(0), &mut out);
        proof {
            assert(out@ =~= pretty(self@, 0));
        }
        out
    }

    /// The single-line JSON text of this value.
    pub fn to_compact_string(&self) -> (r: String)
        ensures
            r@ == compact(self@),
    {
        let mut out = String::new();
        write_compact(self, &mut out);
        proof {
            assert(out@ =~= compact(self@));
        }
        out
    }
}

} // verus!
