use vstd::prelude::*;

use indexmap::IndexMap;

use crate::config::{entries_of, Config, Example, OutputFormat};
use crate::descriptions::{
    entries_after_insert, description_at, description_count, description_entries, first_key,
    has_description, lemma_first_key, lookup,
};
use crate::extract::{
    has_no_fence, is_ws, lemma_first_json_block, lemma_rendered_example_trimmed, payload,
};
use crate::schema::{infer, schema_json, schema_of};
use crate::value::{
    compact, field_trees_of, lemma_field_trees_of_len, lemma_trees_of_len, pretty, tree_of,
    trees_of, JsonTree, JsonValue,
};

verus! {

/// A rendered instruction for a text-generating model.
#[derive(Clone, Debug, PartialEq)]
pub struct Instruction {
    pub content: String,
}

impl Instruction {
    pub fn new(content: &str) -> (r: Self)
        ensures
            r.content@ == content@,
    {
        Instruction { content: content.to_string() }
    }

    /// The instruction text.
    pub fn text(&self) -> (r: &str)
        ensures
            r@ == self.content@,
    {
        self.content.as_str()
    }

    /// The instruction text.
    pub fn content(&self) -> (r: &str)
        ensures
            r@ == self.content@,
    {
        self.content.as_str()
    }
}

/// The type name of a value, as a schema writes it.
pub open spec fn type_str(t: JsonTree) -> Seq<char> {
    match t {
        JsonTree::Null => "null"@,
        JsonTree::Bool(_) => "boolean"@,
        JsonTree::Number(kind, _) => if kind == crate::value::NumberKind::Signed {
            "integer"@
        } else {
            "number"@
        },
        JsonTree::Str(_) => "string"@,
        JsonTree::Array(_) => "array"@,
        JsonTree::Object(_) => "object"@,
    }
}

/// The type hint written after a field name.
pub open spec fn type_info(t: JsonTree) -> Seq<char> {
    match t {
        JsonTree::Null => " (type not specified)"@,
        JsonTree::Bool(_) => " (boolean)"@,
        JsonTree::Number(kind, _) => match kind {
            crate::value::NumberKind::Signed => " (integer)"@,
            crate::value::NumberKind::Float => " (float)"@,
            crate::value::NumberKind::Unsigned => " (number)"@,
        },
        JsonTree::Str(_) => " (string)"@,
        JsonTree::Array(_) => " (array)"@,
        JsonTree::Object(_) => " (object)"@,
    }
}

/// One line per description whose field the example has, in the
/// descriptions' order; each line starts with `lead`.
pub open spec fn described_lines(
    ds: Seq<(Seq<char>, Seq<char>)>,
    fs: Seq<(Seq<char>, JsonTree)>,
    lead: Seq<char>,
) -> Seq<char>
    decreases ds.len(),
{
    if ds.len() == 0 {
        Seq::empty()
    } else {
        let (k, d) = ds.last();
        described_lines(ds.drop_last(), fs, lead) + match lookup(fs, k) {
            Some(v) => lead + k + type_info(v) + ": "@ + d + "\n"@,
            None => Seq::empty(),
        }
    }
}

/// One line per field of the example that has no description, in the
/// example's order; each line starts with `lead`.
pub open spec fn undescribed_lines(
    ds: Seq<(Seq<char>, Seq<char>)>,
    fs: Seq<(Seq<char>, JsonTree)>,
    lead: Seq<char>,
) -> Seq<char>
    decreases fs.len(),
{
    if fs.len() == 0 {
        Seq::empty()
    } else {
        let (k, v) = fs.last();
        undescribed_lines(ds, fs.drop_last(), lead) + if first_key(ds, k) is None {
            lead + k + type_info(v) + "\n"@
        } else {
            Seq::empty()
        }
    }
}

/// The field lines of an object: described fields first, in the
/// descriptions' order, then the rest in the object's own order.
pub open spec fn field_lines(
    ds: Seq<(Seq<char>, Seq<char>)>,
    fs: Seq<(Seq<char>, JsonTree)>,
    lead: Seq<char>,
) -> Seq<char> {
    described_lines(ds, fs, lead) + undescribed_lines(ds, fs, lead)
}

/// The "should include" block.
pub open spec fn descriptions_block(t: JsonTree, ds: Seq<(Seq<char>, Seq<char>)>) -> Seq<char> {
    "The response should include:\n"@ + match t {
        JsonTree::Object(fs) => field_lines(ds, fs, "- "@),
        JsonTree::Array(items) => if items.len() == 0 {
            "- An empty array\n"@
        } else {
            "- An array of "@ + type_str(items[0]) + " items\n"@ + match items[0] {
                JsonTree::Object(fs) => "  Each item should have:\n"@ + field_lines(ds, fs, "  - "@),
                _ => Seq::empty(),
            }
        },
        _ => Seq::empty(),
    } + "\n"@
}


fn type_str_of(v: &JsonValue) -> (r: &'static str)
    ensures
        r@ == type_str(v@),
{
    match v {
        JsonValue::Null => "null",
        JsonValue::Bool(_) => "boolean",
        JsonValue::Number(n) => match n.kind {
            crate::value::NumberKind::Signed => "integer",
            _ => "number",
        },
        JsonValue::Str(_) => "string",
        JsonValue::Array(_) => "array",
        JsonValue::Object(_) => "object",
    }
}

fn type_info_of(v: &JsonValue) -> (r: &'static str)
    ensures
        r@ == type_info(v@),
{
    match v {
        JsonValue::Null => " (type not specified)",
        JsonValue::Bool(_) => " (boolean)",
        JsonValue::Number(n) => match n.kind {
            crate::value::NumberKind::Signed => " (integer)",
            crate::value::NumberKind::Float => " (float)",
            crate::value::NumberKind::Unsigned => " (number)",
        },
        JsonValue::Str(_) => " (string)",
        JsonValue::Array(_) => " (array)",
        JsonValue::Object(_) => " (object)",
    }
}

/// The value of the first field named `k`.
fn field_value_of<'a>(fields: &'a Vec<(String, JsonValue)>, k: &String) -> (r: Option<&'a JsonValue>)
    ensures
        match lookup(field_trees_of(fields@), k@) {
            Some(t) => r is Some && r->0@ == t,
            None => r is None,
        },
{
    let ghost ts = field_trees_of(fields@);
    proof {
        lemma_field_trees_of_len(fields@);
    }
    let mut i: usize = 0;
    while i < fields.len()
        invariant
            0 <= i <= fields.len(),
            ts == field_trees_of(fields@),
            ts.len() == fields.len(),
            forall|j: int|
                0 <= j < fields.len() ==> #[trigger] ts[j] == (
                    fields@[j].0@,
                    tree_of(fields@[j].1),
                ),
            forall|j: int| 0 <= j < i ==> #[trigger] ts[j].0 != k@,
        decreases fields.len() - i,
    {
        if fields[i].0 == *k {
            proof {
                lemma_first_key(ts, k@, i as int);
            }
            return Some(&fields[i].1);
        }
        i = i + 1;
    }
    proof {
        lemma_first_key(ts, k@, i as int);
    }
    None
}

fn write_described_lines(
    m: &IndexMap<String, String>,
    fields: &Vec<(String, JsonValue)>,
    lead: &str,
    out: &mut String,
)
    ensures
        final(out)@ == old(out)@ + described_lines(
            description_entries(*m),
            field_trees_of(fields@),
            lead@,
        ),
{
    let ghost es = description_entries(*m);
    let ghost fs = field_trees_of(fields@);
    let ghost start = out@;
    let n = description_count(m);
    let mut i: usize = 0;
    while i < n
        invariant
            0 <= i <= n,
            n == es.len(),
            es == description_entries(*m),
            fs == field_trees_of(fields@),
            out@ == start + described_lines(es.take(i as int), fs, lead@),
        decreases n - i,
    {
        let (k, d) = description_at(m, i).unwrap();
        proof {
            let t = es.take(i + 1);
            assert(t.drop_last() =~= es.take(i as int));
            assert(t.last() == es[i as int]);
        }
        match field_value_of(fields, k) {
            Some(v) => {
                let ghost before = out@;
                out.append(lead);
                out.append(k.as_str());
                out.append(type_info_of(v));
                out.append(": ");
                out.append(d.as_str());
                out.append("\n");
                proof {
                    assert(out@ =~= before + (lead@ + k@ + type_info(v@) + ": "@ + d@ + "\n"@));
                }
            },
            None => {
                proof {
                    assert(out@ =~= out@ + Seq::<char>::empty());
                }
            },
        }
        i = i + 1;
    }
    proof {
        assert(es.take(n as int) =~= es);
    }
}

fn write_undescribed_lines(
    m: &IndexMap<String, String>,
    fields: &Vec<(String, JsonValue)>,
    lead: &str,
    out: &mut String,
)
    ensures
        final(out)@ == old(out)@ + undescribed_lines(
            description_entries(*m),
            field_trees_of(fields@),
            lead@,
        ),
{
    let ghost es = description_entries(*m);
    let ghost fs = field_trees_of(fields@);
    let ghost start = out@;
    proof {
        lemma_field_trees_of_len(fields@);
    }
    let mut i: usize = 0;
    while i < fields.len()
        invariant
            0 <= i <= fields.len(),
            es == description_entries(*m),
            fs == field_trees_of(fields@),
            fs.len() == fields.len(),
            forall|j: int|
                0 <= j < fields.len() ==> #[trigger] fs[j] == (
                    fields@[j].0@,
                    tree_of(fields@[j].1),
                ),
            out@ == start + undescribed_lines(es, fs.take(i as int), lead@),
        decreases fields.len() - i,
    {
        proof {
            let t = fs.take(i + 1);
            assert(t.drop_last() =~= fs.take(i as int));
            assert(t.last() == fs[i as int]);
        }
        let k = &fields[i].0;
        if !has_description(m, k.as_str()) {
            let ghost before = out@;
            out.append(lead);
            out.append(k.as_str());
            out.append(type_info_of(&fields[i].1));
            out.append("\n");
            proof {
                assert(out@ =~= before + (lead@ + k@ + type_info(fields@[i as int].1@) + "\n"@));
            }
        } else {
            proof {
                assert(out@ =~= out@ + Seq::<char>::empty());
            }
        }
        i = i + 1;
    }
    proof {
        assert(fs.take(fields.len() as int) =~= fs);
    }
}

fn write_descriptions_block(m: &IndexMap<String, String>, v: &JsonValue, out: &mut String)
    ensures
        final(out)@ == old(out)@ + descriptions_block(v@, description_entries(*m)),
{
    let ghost start = out@;
    out.append("The response should include:\n");
    match v {
        JsonValue::Object(fields) => {
            write_described_lines(m, fields, "- ", out);
            write_undescribed_lines(m, fields, "- ", out);
        },
        JsonValue::Array(items) => {
            proof {
                lemma_trees_of_len(items@);
            }
            if items.len() == 0 {
                out.append("- An empty array\n");
            } else {
                let first = &items[0];
                out.append("- An array of ");
                out.append(type_str_of(first));
                out.append(" items\n");
                match first {
                    JsonValue::Object(fields) => {
                        out.append("  Each item should have:\n");
                        write_described_lines(m, fields, "  - ", out);
                        write_undescribed_lines(m, fields, "  - ", out);
                    },
                    _ => {},
                }
                proof {
                    assert(trees_of(items@)[0] == first@);
                }
            }
        },
        _ => {},
    }
    out.append("\n");
    proof {
        assert(out@ =~= start + descriptions_block(v@, description_entries(*m)));
    }
}


/// The rendered schema tree inferred from an example.
pub open spec fn inferred_schema(t: JsonTree) -> JsonTree {
    schema_json(schema_of(t))
}

/// The rendered schema of an object or array example; nothing for a scalar.
pub open spec fn json_schema_text(t: JsonTree) -> Seq<char> {
    match t {
        JsonTree::Array(_) => pretty(inferred_schema(t), 0),
        JsonTree::Object(_) => pretty(inferred_schema(t), 0),
        _ => Seq::empty(),
    }
}

pub open spec fn json_block(t: JsonTree) -> Seq<char> {
    "Please return the response in JSON format.\n\n"@ + "Example format:\n```json\n"@ + pretty(t, 0)
        + "\n```\n"@ + "\nJSON Schema information:\n```json\n"@ + json_schema_text(t) + "```\n"@
}

/// The schema of a JSON array of items: an array example's own schema, or
/// the schema of an array whose items are like the example.
pub open spec fn array_schema(t: JsonTree) -> JsonTree {
    if t is Array {
        inferred_schema(t)
    } else {
        JsonTree::Object(seq![("type"@, JsonTree::Str("array"@)), ("items"@, inferred_schema(t))])
    }
}

pub open spec fn json_array_block(t: JsonTree) -> Seq<char> {
    "Please return the response as a JSON array of items.\n\n"@ + if t is Array {
        "Example format:\n```json\n"@ + pretty(t, 0) + "\n```\n"@
    } else {
        "Example format:\n```json\n[\n  "@ + pretty(t, 0) + "\n]\n```\n"@
    } + "\nJSON Schema information:\n```json\n"@ + pretty(array_schema(t), 0) + "```\n"@
}

/// The sentence that says what an array example holds.
pub open spec fn yaml_note(t: JsonTree) -> Seq<char> {
    match t {
        JsonTree::Array(items) => if items.len() == 0 {
            "\nThis is an empty array.\n"@
        } else if items[0] is Object {
            "\nThis is an array of objects. Each item should follow the above structure.\n"@
        } else {
            "\nThis is an array of "@ + type_str(items[0]) + " values.\n"@
        },
        _ => Seq::empty(),
    }
}

pub open spec fn yaml_block(t: JsonTree, yaml: Option<Seq<char>>) -> Seq<char> {
    "Please return the response in YAML format.\n\n"@ + match yaml {
        Some(y) => "Example format:\n```yaml\n"@ + y + "\n```\n"@ + yaml_note(t),
        None => Seq::empty(),
    }
}

/// The text of a value inside an XML element: a string as it is, anything
/// else as single-line JSON.
pub open spec fn xml_scalar(t: JsonTree) -> Seq<char> {
    match t {
        JsonTree::Str(s) => s,
        _ => compact(t),
    }
}

/// One element per field, each line starting with `pad`.
pub open spec fn xml_fields(fs: Seq<(Seq<char>, JsonTree)>, pad: Seq<char>) -> Seq<char>
    decreases fs.len(),
{
    if fs.len() == 0 {
        Seq::empty()
    } else {
        let (k, v) = fs.last();
        xml_fields(fs.drop_last(), pad) + pad + "<"@ + k + ">"@ + xml_scalar(v) + "</"@ + k + ">\n"@
    }
}

pub open spec fn xml_body(t: JsonTree) -> Seq<char> {
    match t {
        JsonTree::Array(items) => if items.len() == 0 {
            "  <!-- Empty array - no items -->\n"@
        } else {
            match items[0] {
                JsonTree::Object(fs) => "  <item>\n"@ + xml_fields(fs, "    "@) + "  </item>\n"@
                    + "  <!-- Additional items here -->\n"@,
                _ => "  <item>"@ + xml_scalar(items[0]) + "</item>\n"@
                    + "  <!-- Additional items here -->\n"@,
            }
        },
        JsonTree::Object(fs) => xml_fields(fs, "  "@),
        _ => Seq::empty(),
    }
}

pub open spec fn xml_block(t: JsonTree) -> Seq<char> {
    "Please return the response in XML format.\n\n"@ + "Example format:\n```xml\n<root>\n"@ + xml_body(
        t,
    ) + "</root>\n```\n"@
}

pub open spec fn yaml_text_of(e: Example) -> Option<Seq<char>> {
    match e.yaml {
        Some(y) => Some(y@),
        None => None,
    }
}

pub open spec fn format_block(format: OutputFormat, e: Example) -> Seq<char> {
    match format {
        OutputFormat::Json => json_block(e.value@),
        OutputFormat::JsonArray => json_array_block(e.value@),
        OutputFormat::Yaml => yaml_block(e.value@, yaml_text_of(e)),
        OutputFormat::Xml => xml_block(e.value@),
    }
}

/// Everything the example contributes: the "should include" block when the
/// configuration has at least one description, then the block of the output format.
pub open spec fn example_section(c: Config, e: Example) -> Seq<char> {
    description_part(c, e) + format_block(c.format, e)
}

/// The "should include" block when there is at least one description.
pub open spec fn description_part(c: Config, e: Example) -> Seq<char> {
    if entries_of(c.descriptions).len() > 0 {
        descriptions_block(e.value@, entries_of(c.descriptions))
    } else {
        Seq::empty()
    }
}

/// The prefix and a blank line, if there is a prefix.
pub open spec fn prefix_part(c: Config) -> Seq<char> {
    match c.prefix {
        Some(p) => p@ + "\n\n"@,
        None => Seq::empty(),
    }
}

/// A newline and the suffix, if there is a suffix.
pub open spec fn suffix_part(c: Config) -> Seq<char> {
    match c.suffix {
        Some(s) => "\n"@ + s@,
        None => Seq::empty(),
    }
}

/// The instruction text of a configuration: prefix and a blank line, the
/// example's section, then a newline and the suffix.
pub open spec fn instruction_of(c: Config) -> Seq<char> {
    prefix_part(c) + match c.schema {
        Some(e) => example_section(c, e),
        None => Seq::empty(),
    } + suffix_part(c)
}

fn inferred_schema_value(v: &JsonValue) -> (r: JsonValue)
    ensures
        r@ == inferred_schema(v@),
{
    let node = infer(v);
    node.to_json()
}

fn write_json_block(v: &JsonValue, out: &mut String)
    ensures
        final(out)@ == old(out)@ + json_block(v@),
{
    let ghost start = out@;
    out.append("Please return the response in JSON format.\n\n");
    out.append("Example format:\n```json\n");
    let example = v.to_pretty_string();
    out.append(example.as_str());
    out.append("\n```\n");
    out.append("\nJSON Schema information:\n```json\n");
    match v {
        JsonValue::Array(_) | JsonValue::Object(_) => {
            let schema = inferred_schema_value(v).to_pretty_string();
            out.append(schema.as_str());
        },
        _ => {},
    }
    out.append("```\n");
    proof {
        assert(out@ =~= start + json_block(v@));
    }
}

fn write_json_array_block(v: &JsonValue, out: &mut String)
    ensures
        final(out)@ == old(out)@ + json_array_block(v@),
{
    let ghost start = out@;
    out.append("Please return the response as a JSON array of items.\n\n");
    let example = v.to_pretty_string();
    let is_array = match v {
        JsonValue::Array(_) => true,
        _ => false,
    };
    if is_array {
        out.append("Example format:\n```json\n");
        out.append(example.as_str());
        out.append("\n```\n");
    } else {
        out.append("Example format:\n```json\n[\n  ");
        out.append(example.as_str());
        out.append("\n]\n```\n");
    }
    let item_schema = inferred_schema_value(v);
    let schema = if is_array {
        item_schema
    } else {
        crate::schema::two_fields(
            "type",
            crate::schema::text_value("array"),
            "items",
            item_schema,
        )
    };
    out.append("\nJSON Schema information:\n```json\n");
    let text = schema.to_pretty_string();
    out.append(text.as_str());
    out.append("```\n");
    proof {
        assert(out@ =~= start + json_array_block(v@));
    }
}

fn write_yaml_block(v: &JsonValue, yaml: &Option<String>, out: &mut String)
    ensures
        final(out)@ == old(out)@ + yaml_block(
            v@,
            match yaml {
                Some(y) => Some(y@),
                None => None,
            },
        ),
{
    let ghost start = out@;
    out.append("Please return the response in YAML format.\n\n");
    match yaml {
        Some(y) => {
            out.append("Example format:\n```yaml\n");
            out.append(y.as_str());
            out.append("\n```\n");
            let ghost mid = out@;
            match v {
                JsonValue::Array(items) => {
                    proof {
                        lemma_trees_of_len(items@);
                    }
                    if items.len() == 0 {
                        out.append("\nThis is an empty array.\n");
                    } else {
                        let first = &items[0];
                        proof {
                            assert(trees_of(items@)[0] == first@);
                        }
                        match first {
                            JsonValue::Object(_) => {
                                out.append(
                                    "\nThis is an array of objects. Each item should follow the above structure.\n",
                                );
                            },
                            _ => {
                                out.append("\nThis is an array of ");
                                out.append(type_str_of(first));
                                out.append(" values.\n");
                            },
                        }
                    }
                },
                _ => {},
            }
            proof {
                assert(out@ =~= mid + yaml_note(v@));
            }
        },
        None => {},
    }
    proof {
        assert(out@ =~= start + yaml_block(
            v@,
            match yaml {
                Some(y) => Some(y@),
                None => None,
            },
        ));
    }
}

fn write_xml_scalar(v: &JsonValue, out: &mut String)
    ensures
        final(out)@ == old(out)@ + xml_scalar(v@),
{
    match v {
        JsonValue::Str(s) => out.append(s.as_str()),
        _ => {
            let text = v.to_compact_string();
            out.append(text.as_str());
        },
    }
}

fn write_xml_fields(fields: &Vec<(String, JsonValue)>, pad: &str, out: &mut String)
    ensures
        final(out)@ == old(out)@ + xml_fields(field_trees_of(fields@), pad@),
{
    let ghost fs = field_trees_of(fields@);
    let ghost start = out@;
    proof {
        lemma_field_trees_of_len(fields@);
    }
    let mut i: usize = 0;
    while i < fields.len()
        invariant
            0 <= i <= fields.len(),
            fs == field_trees_of(fields@),
            fs.len() == fields.len(),
            forall|j: int|
                0 <= j < fields.len() ==> #[trigger] fs[j] == (
                    fields@[j].0@,
                    tree_of(fields@[j].1),
                ),
            out@ == start + xml_fields(fs.take(i as int), pad@),
        decreases fields.len() - i,
    {
        proof {
            let t = fs.take(i + 1);
            assert(t.drop_last() =~= fs.take(i as int));
            assert(t.last() == fs[i as int]);
        }
        let k = &fields[i].0;
        let ghost before = out@;
        out.append(pad);
        out.append("<");
        out.append(k.as_str());
        out.append(">");
        write_xml_scalar(&fields[i].1, out);
        out.append("</");
        out.append(k.as_str());
        out.append(">\n");
        proof {
            assert(out@ =~= before + pad@ + "<"@ + k@ + ">"@ + xml_scalar(fields@[i as int].1@)
                + "</"@ + k@ + ">\n"@);
        }
        i = i + 1;
    }
    proof {
        assert(fs.take(fields.len() as int) =~= fs);
    }
}

fn write_xml_block(v: &JsonValue, out: &mut String)
    ensures
        final(out)@ == old(out)@ + xml_block(v@),
{
    let ghost start = out@;
    out.append("Please return the response in XML format.\n\n");
    out.append("Example format:\n```xml\n<root>\n");
    let ghost head = out@;
    match v {
        JsonValue::Array(items) => {
            proof {
                lemma_trees_of_len(items@);
            }
            if items.len() == 0 {
                out.append("  <!-- Empty array - no items -->\n");
            } else {
                let first = &items[0];
                proof {
                    assert(trees_of(items@)[0] == first@);
                }
                match first {
                    JsonValue::Object(fields) => {
                        out.append("  <item>\n");
                        write_xml_fields(fields, "    ", out);
                        out.append("  </item>\n");
                        out.append("  <!-- Additional items here -->\n");
                    },
                    _ => {
                        out.append("  <item>");
                        write_xml_scalar(first, out);
                        out.append("</item>\n");
                        out.append("  <!-- Additional items here -->\n");
                    },
                }
            }
        },
        JsonValue::Object(fields) => {
            write_xml_fields(fields, "  ", out);
        },
        _ => {},
    }
    proof {
        assert(out@ =~= head + xml_body(v@));
    }
    out.append("</root>\n```\n");
    proof {
        assert(out@ =~= start + xml_block(v@));
    }
}

impl Config {
    /// Builds the instruction text; a pure function of the configuration.
    pub fn to_instruction(&self) -> (r: Instruction)
        ensures
            r.content@ == instruction_of(*self),
    {
        let mut content = String::new();
        match &self.prefix {
            Some(p) => {
                content.append(p.as_str());
                content.append("\n\n");
            },
            None => {},
        }
        let ghost head = content@;
        match &self.schema {
            Some(e) => {
                match &self.descriptions {
                    Some(m) => if description_count(m) > 0 {
                        write_descriptions_block(m, &e.value, &mut content);
                    },
                    None => {},
                }
                match self.format {
                    OutputFormat::Json => write_json_block(&e.value, &mut content),
                    OutputFormat::JsonArray => write_json_array_block(&e.value, &mut content),
                    OutputFormat::Yaml => write_yaml_block(&e.value, &e.yaml, &mut content),
                    OutputFormat::Xml => write_xml_block(&e.value, &mut content),
                }
                proof {
                    assert(content@ =~= head + example_section(*self, *e));
                }
            },
            None => {},
        }
        match &self.suffix {
            Some(s) => {
                content.append("\n");
                content.append(s.as_str());
            },
            None => {},
        }
        proof {
            assert(content@ =~= instruction_of(*self));
        }
        Instruction { content }
    }
}


/// Building an instruction twice from an unchanged configuration gives the
/// same text: the text is a function of the configuration alone.
pub proof fn lemma_instruction_idempotent(c: Config, first: Instruction, second: Instruction)
    requires
        first.content@ == instruction_of(c),
        second.content@ == instruction_of(c),
    ensures
        first.content@ == second.content@,
{
}

/// Describing a field that has no description yet adds its line after the
/// lines of every earlier description: the block follows insertion order.
pub proof fn lemma_description_order(
    es: Seq<(Seq<char>, Seq<char>)>,
    field: Seq<char>,
    text: Seq<char>,
    fs: Seq<(Seq<char>, JsonTree)>,
    lead: Seq<char>,
)
    requires
        first_key(es, field) is None,
    ensures
        described_lines(entries_after_insert(es, field, text), fs, lead) == described_lines(
            es,
            fs,
            lead,
        ) + match lookup(fs, field) {
            Some(v) => lead + field + type_info(v) + ": "@ + text + "\n"@,
            None => Seq::empty(),
        },
{
    let n = es.push((field, text));
    assert(n.drop_last() =~= es);
    assert(n.last() == (field, text));
}


/// The text of a JSON instruction before its example block: the prefix
/// part, the "should include" block, and the lines that introduce the example.
pub open spec fn json_head(c: Config, e: Example) -> Seq<char> {
    prefix_part(c) + description_part(c, e) + "Please return the response in JSON format.\n\n"@
        + "Example format:\n"@
}

/// What follows the example literal of a JSON instruction.
pub open spec fn json_rest(c: Config, t: JsonTree) -> Seq<char> {
    "\n"@ + "\nJSON Schema information:\n```json\n"@ + json_schema_text(t) + "```\n"@ + suffix_part(
        c,
    )
}

proof fn lemma_json_block_split(t: JsonTree)
    ensures
        json_block(t) =~= "Please return the response in JSON format.\n\n"@ + "Example format:\n"@
            + "```json\n"@ + pretty(t, 0) + "\n```"@ + "\n"@
            + "\nJSON Schema information:\n```json\n"@ + json_schema_text(t) + "```\n"@,
{
    assert("Example format:\n```json\n"@ =~= "Example format:\n"@ + "```json\n"@) by {
        reveal_strlit("Example format:\n```json\n");
        reveal_strlit("Example format:\n");
        reveal_strlit("```json\n");
    }
    assert("\n```\n"@ =~= "\n```"@ + "\n"@) by {
        reveal_strlit("\n```\n");
        reveal_strlit("\n```");
        reveal_strlit("\n");
    }
}

proof fn lemma_json_instruction_split(c: Config)
    requires
        c.format == OutputFormat::Json,
        c.schema is Some,
    ensures
        instruction_of(c) =~= json_head(c, c.schema->0) + "```json\n"@ + pretty(
            c.schema->0.value@,
            0,
        ) + "\n```"@ + json_rest(c, c.schema->0.value@),
{
    let e = c.schema->0;
    lemma_json_block_split(e.value@);
    assert(example_section(c, e) == description_part(c, e) + json_block(e.value@));
}

/// When no fence occurs before the example block of a JSON instruction nor
/// in the rendered example of an object or array, the payload located in the
/// instruction itself is that rendered example.
pub proof fn lemma_instruction_example_located(c: Config)
    requires
        c.format == OutputFormat::Json,
        c.schema is Some,
        c.schema->0.value@ is Object || c.schema->0.value@ is Array,
        has_no_fence(json_head(c, c.schema->0)),
        has_no_fence(pretty(c.schema->0.value@, 0)),
    ensures
        payload(instruction_of(c), OutputFormat::Json) == pretty(c.schema->0.value@, 0),
{
    let e = c.schema->0;
    let x = pretty(e.value@, 0);
    lemma_rendered_example_trimmed(e.value@);
    assert(!is_ws(x[0]));
    lemma_json_instruction_split(c);
    assert(json_head(c, e).last() == '\n') by {
        reveal_strlit("Example format:\n");
    }
    lemma_first_json_block(json_head(c, e), x, json_rest(c, e.value@));
}

} // verus!
