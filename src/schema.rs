use vstd::prelude::*;

use vstd::std_specs::iter::IteratorSpec;

use crate::value::{
    field_trees_of, lemma_field_trees_of_len, lemma_trees_of_len, tree_of, trees_of, JsonTree,
    JsonValue, NumberKind,
};

verus! {

broadcast use vstd::std_specs::vec::axiom_vec_index_decreases;

/// A format hint attached to an inferred string schema.
#[derive(Clone, Copy, Debug, PartialEq, Eq, Structural)]
pub enum StringFormat {
    NumericString,
    Email,
    Uri,
    Date,
    Time,
}

/// The inferred structural description of an example value.
#[derive(Debug, PartialEq)]
pub enum SchemaNode {
    Null,
    Boolean,
    Integer,
    Number,
    Str(Option<StringFormat>),
    /// The item type of an empty array: nothing is known of it.
    Any,
    Array(Box<SchemaNode>),
    Object(Vec<(String, SchemaNode)>),
}

/// The mathematical model of a `SchemaNode`.
pub enum SchemaTree {
    Null,
    Boolean,
    Integer,
    Number,
    Str(Option<StringFormat>),
    Any,
    Array(Box<SchemaTree>),
    Object(Seq<(Seq<char>, SchemaTree)>),
}

pub open spec fn node_of(n: SchemaNode) -> SchemaTree
    decreases n,
{
    match n {
        SchemaNode::Null => SchemaTree::Null,
        SchemaNode::Boolean => SchemaTree::Boolean,
        SchemaNode::Integer => SchemaTree::Integer,
        SchemaNode::Number => SchemaTree::Number,
        SchemaNode::Str(f) => SchemaTree::Str(f),
        SchemaNode::Any => SchemaTree::Any,
        SchemaNode::Array(item) => SchemaTree::Array(Box::new(node_of(*item))),
        SchemaNode::Object(fields) => SchemaTree::Object(node_fields_of(fields@)),
    }
}

pub open spec fn node_fields_of(fields: Seq<(String, SchemaNode)>) -> Seq<(Seq<char>, SchemaTree)>
    decreases fields,
{
    if fields.len() == 0 {
        Seq::empty()
    } else {
        node_fields_of(fields.drop_last()).push((fields.last().0@, node_of(fields.last().1)))
    }
}

impl View for SchemaNode {
    type V = SchemaTree;

    open spec fn view(&self) -> SchemaTree {
        node_of(*self)
    }
}

pub open spec fn is_ascii_digit(c: char) -> bool {
    '0' <= c && c <= '9'
}

pub open spec fn all_digits(s: Seq<char>) -> bool {
    forall|i: int| 0 <= i < s.len() ==> is_ascii_digit(#[trigger] s[i])
}

/// The number written by a string of ASCII digits.
pub open spec fn digits_value(s: Seq<char>) -> int
    decreases s.len(),
{
    if s.len() == 0 {
        0
    } else {
        digits_value(s.drop_last()) * 10 + (s.last() as int - '0' as int)
    }
}

/// Base-10 text of an `i64`: an optional sign, at least one digit, in range.
pub open spec fn is_i64_text(s: Seq<char>) -> bool {
    let signed = s.len() > 0 && (s[0] == '+' || s[0] == '-');
    let digits = if signed { s.drop_first() } else { s };
    &&& digits.len() > 0
    &&& all_digits(digits)
    &&& if signed && s[0] == '-' {
        digits_value(digits) <= 0x8000_0000_0000_0000
    } else {
        digits_value(digits) <= 0x7fff_ffff_ffff_ffff
    }
}

/// Relies on `str::parse::<i64>`: it succeeds exactly on base-10 text of a
/// value in range, with an optional leading `+` or `-`.
#[verifier::external_body]
pub(crate) fn parses_as_i64(s: &str) -> (r: bool)
    ensures
        r == is_i64_text(s@),
{
    s.parse::<i64>().is_ok()
}

pub open spec fn has_char(s: Seq<char>, c: char) -> bool {
    exists|i: int| 0 <= i < s.len() && s[i] == c
}

pub open spec fn count_char(s: Seq<char>, c: char) -> nat
    decreases s.len(),
{
    if s.len() == 0 {
        0
    } else {
        count_char(s.drop_last(), c) + if s.last() == c { 1nat } else { 0nat }
    }
}

pub open spec fn is_prefix(p: Seq<char>, s: Seq<char>) -> bool {
    p.len() <= s.len() && s.subrange(0, p.len() as int) == p
}

/// `NNNN-NN-NN` with ASCII digits.
pub open spec fn is_date_text(s: Seq<char>) -> bool {
    &&& s.len() == 10
    &&& s[4] == '-'
    &&& s[7] == '-'
    &&& forall|i: int| 0 <= i < 10 && i != 4 && i != 7 ==> is_ascii_digit(#[trigger] s[i])
}

/// Exactly two `:` in eight bytes of UTF-8.
pub open spec fn is_time_text(s: Seq<char>) -> bool {
    count_char(s, ':') == 2 && vstd::utf8::encode_utf8(s).len() == 8
}

/// The format hint of a string: the first rule that matches, in order.
pub open spec fn string_format(s: Seq<char>) -> Option<StringFormat> {
    if is_i64_text(s) {
        Some(StringFormat::NumericString)
    } else if has_char(s, '@') && has_char(s, '.') {
        Some(StringFormat::Email)
    } else if is_prefix("http://"@, s) || is_prefix("https://"@, s) {
        Some(StringFormat::Uri)
    } else if is_date_text(s) {
        Some(StringFormat::Date)
    } else if is_time_text(s) {
        Some(StringFormat::Time)
    } else {
        None
    }
}

/// The schema inferred from a value: arrays are described by their first
/// element only, objects keep their field order.
pub open spec fn schema_of(t: JsonTree) -> SchemaTree
    decreases t,
{
    match t {
        JsonTree::Null => SchemaTree::Null,
        JsonTree::Bool(_) => SchemaTree::Boolean,
        JsonTree::Number(kind, _) => if kind == NumberKind::Signed {
            SchemaTree::Integer
        } else {
            SchemaTree::Number
        },
        JsonTree::Str(s) => SchemaTree::Str(string_format(s)),
        JsonTree::Array(items) => if items.len() == 0 {
            SchemaTree::Array(Box::new(SchemaTree::Any))
        } else {
            SchemaTree::Array(Box::new(schema_of(items[0])))
        },
        JsonTree::Object(fields) => SchemaTree::Object(schema_fields(fields)),
    }
}

pub open spec fn schema_fields(fields: Seq<(Seq<char>, JsonTree)>) -> Seq<(Seq<char>, SchemaTree)>
    decreases fields,
{
    if fields.len() == 0 {
        Seq::empty()
    } else {
        schema_fields(fields.drop_last()).push((fields.last().0, schema_of(fields.last().1)))
    }
}

pub open spec fn format_name(f: StringFormat) -> Seq<char> {
    match f {
        StringFormat::NumericString => "numeric-string"@,
        StringFormat::Email => "email"@,
        StringFormat::Uri => "uri"@,
        StringFormat::Date => "date"@,
        StringFormat::Time => "time"@,
    }
}

pub open spec fn type_only(name: Seq<char>) -> JsonTree {
    JsonTree::Object(seq![("type"@, JsonTree::Str(name))])
}

/// The JSON-Schema-like tree that documents a schema (`type`, `format`,
/// `items`, `properties`).
pub open spec fn schema_json(n: SchemaTree) -> JsonTree
    decreases n,
{
    match n {
        SchemaTree::Null => type_only("null"@),
        SchemaTree::Boolean => type_only("boolean"@),
        SchemaTree::Integer => type_only("integer"@),
        SchemaTree::Number => type_only("number"@),
        SchemaTree::Any => type_only("any"@),
        SchemaTree::Str(None) => type_only("string"@),
        SchemaTree::Str(Some(f)) => JsonTree::Object(
            seq![("type"@, JsonTree::Str("string"@)), ("format"@, JsonTree::Str(format_name(f)))],
        ),
        SchemaTree::Array(item) => JsonTree::Object(
            seq![("type"@, JsonTree::Str("array"@)), ("items"@, schema_json(*item))],
        ),
        SchemaTree::Object(fields) => JsonTree::Object(
            seq![
                ("type"@, JsonTree::Str("object"@)),
                ("properties"@, JsonTree::Object(schema_json_fields(fields))),
            ],
        ),
    }
}

pub open spec fn schema_json_fields(fields: Seq<(Seq<char>, SchemaTree)>) -> Seq<(Seq<char>, JsonTree)>
    decreases fields,
{
    if fields.len() == 0 {
        Seq::empty()
    } else {
        schema_json_fields(fields.drop_last()).push(
            (fields.last().0, schema_json(fields.last().1)),
        )
    }
}


/// The characters of `s`, in order.
pub fn chars_of(s: &str) -> (r: Vec<char>)
    ensures
        r@ == s@,
{
    let mut it = s.chars();
    let mut r: Vec<char> = Vec::new();
    loop
        invariant
            r@ + it.remaining() == s@,
            it.decrease() is Some,
        ensures
            r@ == s@,
        decreases it.decrease()->0,
    {
        match it.next() {
            Some(c) => {
                r.push(c);
                proof {
                    assert(r@ + it.remaining() =~= s@);
                }
            },
            None => {
                proof {
                    assert(r@ =~= s@);
                }
                break ;
            },
        }
    }
    r
}

fn contains_char(cs: &Vec<char>, c: char) -> (r: bool)
    ensures
        r == has_char(cs@, c),
{
    let mut i: usize = 0;
    while i < cs.len()
        invariant
            0 <= i <= cs.len(),
            forall|j: int| 0 <= j < i ==> cs@[j] != c,
        decreases cs.len() - i,
    {
        if cs[i] == c {
            return true;
        }
        i = i + 1;
    }
    false
}

fn count_of(cs: &Vec<char>, c: char) -> (r: usize)
    ensures
        r == count_char(cs@, c),
{
    let mut i: usize = 0;
    let mut n: usize = 0;
    while i < cs.len()
        invariant
            0 <= i <= cs.len(),
            n == count_char(cs@.take(i as int), c),
            n <= i,
        decreases cs.len() - i,
    {
        proof {
            assert(cs@.take(i + 1).drop_last() =~= cs@.take(i as int));
        }
        if cs[i] == c {
            n = n + 1;
        }
        i = i + 1;
    }
    proof {
        assert(cs@.take(cs.len() as int) =~= cs@);
    }
    n
}

fn starts_with(cs: &Vec<char>, p: &str) -> (r: bool)
    ensures
        r == is_prefix(p@, cs@),
{
    let n = p.unicode_len();
    if n > cs.len() {
        return false;
    }
    let mut i: usize = 0;
    while i < n
        invariant
            n == p@.len(),
            n <= cs.len(),
            0 <= i <= n,
            forall|j: int| 0 <= j < i ==> cs@[j] == p@[j],
        decreases n - i,
    {
        if cs[i] != p.get_char(i) {
            proof {
                assert(cs@.subrange(0, n as int)[i as int] != p@[i as int]);
            }
            return false;
        }
        i = i + 1;
    }
    proof {
        assert(cs@.subrange(0, n as int) =~= p@);
    }
    true
}

fn is_digit(c: char) -> (r: bool)
    ensures
        r == is_ascii_digit(c),
{
    '0' <= c && c <= '9'
}

fn date_shaped(cs: &Vec<char>) -> (r: bool)
    ensures
        r == is_date_text(cs@),
{
    if cs.len() != 10 || cs[4] != '-' || cs[7] != '-' {
        return false;
    }
    let mut i: usize = 0;
    while i < 10
        invariant
            cs.len() == 10,
            0 <= i <= 10,
            forall|j: int| 0 <= j < i && j != 4 && j != 7 ==> is_ascii_digit(#[trigger] cs@[j]),
        decreases 10 - i,
    {
        if i != 4 && i != 7 && !is_digit(cs[i]) {
            return false;
        }
        i = i + 1;
    }
    true
}

/// Each character takes one to four bytes of UTF-8.
proof fn lemma_utf8_len_bounds(s: Seq<char>)
    ensures
        s.len() <= vstd::utf8::encode_utf8(s).len() <= 4 * s.len(),
    decreases s.len(),
{
    if s.len() > 0 {
        lemma_utf8_len_bounds(s.drop_first());
    }
}

/// The format hint of a string, by the first of these that holds: base-10
/// `i64` text, contains `@` and `.`, starts with `http://` or `https://`,
/// `NNNN-NN-NN`, exactly two `:` in eight bytes.
pub fn detect_string_format(s: &str) -> (r: Option<StringFormat>)
    ensures
        r == string_format(s@),
{
    if parses_as_i64(s) {
        return Some(StringFormat::NumericString);
    }
    let cs = chars_of(s);
    proof {
        lemma_utf8_len_bounds(s@);
    }
    if contains_char(&cs, '@') && contains_char(&cs, '.') {
        Some(StringFormat::Email)
    } else if starts_with(&cs, "http://") || starts_with(&cs, "https://") {
        Some(StringFormat::Uri)
    } else if date_shaped(&cs) {
        Some(StringFormat::Date)
    } else if count_of(&cs, ':') == 2 && cs.len() <= 8 && s.len() == 8 {
        Some(StringFormat::Time)
    } else {
        None
    }
}


/// Infers the schema of an example value.
pub fn infer(v: &JsonValue) -> (r: SchemaNode)
    ensures
        r@ == schema_of(v@),
    decreases v,
{
    match v {
        JsonValue::Null => SchemaNode::Null,
        JsonValue::Bool(_) => SchemaNode::Boolean,
        JsonValue::Number(n) => match n.kind {
            NumberKind::Signed => SchemaNode::Integer,
            _ => SchemaNode::Number,
        },
        JsonValue::Str(s) => SchemaNode::Str(detect_string_format(s.as_str())),
        JsonValue::Array(items) => {
            proof {
                lemma_trees_of_len(items@);
            }
            if items.len() == 0 {
                assert(schema_of(v@) == SchemaTree::Array(Box::new(SchemaTree::Any)));
                assert(node_of(SchemaNode::Any) == SchemaTree::Any);
                assert(node_of(SchemaNode::Array(Box::new(SchemaNode::Any))) == SchemaTree::Array(
                    Box::new(SchemaTree::Any),
                ));
                SchemaNode::Array(Box::new(SchemaNode::Any))
            } else {
                proof {
                    lemma_trees_of_len(items@);
                    assert(decreases_to!(*v => v->Array_0));
                    assert(decreases_to!(*items => items[0]));
                }
                let item = infer(&items[0]);
                assert(trees_of(items@)[0] == tree_of(items@[0]));
                assert(node_of(SchemaNode::Array(Box::new(item))) == SchemaTree::Array(
                    Box::new(node_of(item)),
                ));
                SchemaNode::Array(Box::new(item))
            }
        },
        JsonValue::Object(fields) => {
            let ghost ts = field_trees_of(fields@);
            proof {
                lemma_field_trees_of_len(fields@);
            }
            let mut out: Vec<(String, SchemaNode)> = Vec::new();
            let mut i: usize = 0;
            while i < fields.len()
                invariant
                    0 <= i <= fields.len(),
                    *v is Object && v->Object_0 == *fields,
                    ts == field_trees_of(fields@),
                    ts.len() == fields.len(),
                    forall|j: int|
                        0 <= j < fields.len() ==> #[trigger] ts[j] == (
                            fields@[j].0@,
                            tree_of(fields@[j].1),
                        ),
                    node_fields_of(out@) == schema_fields(ts.take(i as int)),
                decreases fields.len() - i,
            {
                proof {
                    assert(decreases_to!(*v => v->Object_0));
                    assert(decreases_to!(*fields => fields[i as int]));
                    assert(decreases_to!(fields[i as int] => fields[i as int].1));
                }
                let item = infer(&fields[i].1);
                let ghost prev = out@;
                out.push((fields[i].0.clone(), item));
                proof {
                    assert(out@.drop_last() =~= prev);
                    assert(ts.take(i + 1).drop_last() =~= ts.take(i as int));
                }
                i = i + 1;
            }
            proof {
                assert(ts.take(fields.len() as int) =~= ts);
            }
            SchemaNode::Object(out)
        },
    }
}

fn format_text(f: StringFormat) -> (r: &'static str)
    ensures
        r@ == format_name(f),
{
    match f {
        StringFormat::NumericString => "numeric-string",
        StringFormat::Email => "email",
        StringFormat::Uri => "uri",
        StringFormat::Date => "date",
        StringFormat::Time => "time",
    }
}

fn pair_tree(key: &str, value: JsonValue) -> (r: (String, JsonValue))
    ensures
        r.0@ == key@,
        r.1 == value,
{
    (key.to_string(), value)
}

pub(crate) fn text_value(s: &str) -> (r: JsonValue)
    ensures
        r@ == JsonTree::Str(s@),
{
    JsonValue::Str(s.to_string())
}

fn object_of(fields: Vec<(String, JsonValue)>) -> (r: JsonValue)
    ensures
        r@ == JsonTree::Object(field_trees_of(fields@)),
{
    JsonValue::Object(fields)
}

proof fn lemma_field_trees_one(a: (String, JsonValue))
    ensures
        field_trees_of(seq![a]) == seq![(a.0@, tree_of(a.1))],
{
    let s = seq![a];
    assert(s.drop_last() =~= Seq::<(String, JsonValue)>::empty());
    assert(field_trees_of(Seq::<(String, JsonValue)>::empty()) == Seq::<
        (Seq<char>, JsonTree),
    >::empty());
    assert(s.last() == a);
    assert(field_trees_of(s) =~= seq![(a.0@, tree_of(a.1))]);
}

proof fn lemma_field_trees_two(a: (String, JsonValue), b: (String, JsonValue))
    ensures
        field_trees_of(seq![a, b]) == seq![(a.0@, tree_of(a.1)), (b.0@, tree_of(b.1))],
{
    assert(seq![a, b].drop_last() =~= seq![a]);
    lemma_field_trees_one(a);
    assert(field_trees_of(seq![a, b]) =~= seq![(a.0@, tree_of(a.1)), (b.0@, tree_of(b.1))]);
}

fn type_only_value(name: &str) -> (r: JsonValue)
    ensures
        r@ == type_only(name@),
{
    let a = pair_tree("type", text_value(name));
    let v = vec![a];
    proof {
        reveal_strlit("type");
        lemma_field_trees_one(v@[0]);
        assert(v@ =~= seq![v@[0]]);
    }
    object_of(v)
}

pub(crate) fn two_fields(k1: &str, v1: JsonValue, k2: &str, v2: JsonValue) -> (r: JsonValue)
    ensures
        r@ == JsonTree::Object(seq![(k1@, v1@), (k2@, v2@)]),
{
    let a = pair_tree(k1, v1);
    let b = pair_tree(k2, v2);
    let v = vec![a, b];
    proof {
        lemma_field_trees_two(v@[0], v@[1]);
        assert(v@ =~= seq![v@[0], v@[1]]);
    }
    object_of(v)
}

impl SchemaNode {
    /// The JSON-Schema-like tree that documents this schema.
    pub fn to_json(&self) -> (r: JsonValue)
        ensures
            r@ == schema_json(self@),
        decreases self,
    {
        match self {
            SchemaNode::Null => type_only_value("null"),
            SchemaNode::Boolean => type_only_value("boolean"),
            SchemaNode::Integer => type_only_value("integer"),
            SchemaNode::Number => type_only_value("number"),
            SchemaNode::Any => type_only_value("any"),
            SchemaNode::Str(None) => type_only_value("string"),
            SchemaNode::Str(Some(f)) => two_fields(
                "type",
                text_value("string"),
                "format",
                text_value(format_text(*f)),
            ),
            SchemaNode::Array(item) => {
                let inner = item.to_json();
                two_fields("type", text_value("array"), "items", inner)
            },
            SchemaNode::Object(fields) => {
                let ghost ts = node_fields_of(fields@);
                let mut props: Vec<(String, JsonValue)> = Vec::new();
                let mut i: usize = 0;
                while i < fields.len()
                    invariant
                        0 <= i <= fields.len(),
                        *self is Object && self->Object_0 == *fields,
                        ts == node_fields_of(fields@),
                        field_trees_of(props@) == schema_json_fields(ts.take(i as int)),
                    decreases fields.len() - i,
                {
                    proof {
                        lemma_node_fields_of_len(fields@);
                        assert(decreases_to!(*self => self->Object_0));
                        assert(decreases_to!(*fields => fields[i as int]));
                        assert(decreases_to!(fields[i as int] => fields[i as int].1));
                    }
                    let item = fields[i].1.to_json();
                    let ghost prev = props@;
                    props.push((fields[i].0.clone(), item));
                    proof {
                        assert(props@.drop_last() =~= prev);
                        assert(ts.take(i + 1).drop_last() =~= ts.take(i as int));
                    }
                    i = i + 1;
                }
                proof {
                    lemma_node_fields_of_len(fields@);
                    assert(ts.take(fields.len() as int) =~= ts);
                }
                let p = object_of(props);
                two_fields("type", text_value("object"), "properties", p)
            },
        }
    }
}

pub proof fn lemma_node_fields_of_len(fields: Seq<(String, SchemaNode)>)
    ensures
        node_fields_of(fields).len() == fields.len(),
        forall|i: int|
            0 <= i < fields.len() ==> #[trigger] node_fields_of(fields)[i] == (
                fields[i].0@,
                node_of(fields[i].1),
            ),
    decreases fields.len(),
{
    if fields.len() > 0 {
        lemma_node_fields_of_len(fields.drop_last());
    }
}

} // verus!
