use structured_output::{
    infer, Config, Example, JsonNumber, JsonValue, NumberKind, OutputFormat, SchemaNode,
};

fn s(text: &str) -> JsonValue {
    JsonValue::Str(text.to_string())
}

fn num(text: &str) -> JsonValue {
    JsonValue::Number(JsonNumber { kind: NumberKind::Signed, text: text.to_string() })
}

fn obj(fields: Vec<(&str, JsonValue)>) -> JsonValue {
    JsonValue::Object(fields.into_iter().map(|(k, v)| (k.to_string(), v)).collect())
}

fn from_serde(v: &serde_json::Value) -> JsonValue {
    match v {
        serde_json::Value::Null => JsonValue::Null,
        serde_json::Value::Bool(b) => JsonValue::Bool(*b),
        serde_json::Value::Number(n) => JsonValue::Number(JsonNumber::from_text(n.to_string())),
        serde_json::Value::String(t) => JsonValue::Str(t.clone()),
        serde_json::Value::Array(items) => JsonValue::Array(items.iter().map(from_serde).collect()),
        serde_json::Value::Object(map) => {
            JsonValue::Object(map.iter().map(|(k, v)| (k.clone(), from_serde(v))).collect())
        }
    }
}

fn cat(parts: &[&str]) -> String {
    parts.concat()
}

fn joke() -> JsonValue {
    obj(vec![("joke", s("Q")), ("explanation", s("A"))])
}

#[test]
fn joke_scenario_lists_described_fields_in_order() {
    let config = Config::with_schema(Example::new(joke()))
        .describe("joke", "desc1")
        .describe("explanation", "desc2")
        .format(OutputFormat::Json);
    let text = config.to_instruction().content;
    let first = text.find("- joke (string): desc1\n").expect("joke line");
    let second = text.find("- explanation (string): desc2\n").expect("explanation line");
    assert!(first < second);
    assert!(text.contains(
        "Example format:\n```json\n{\n  \"joke\": \"Q\",\n  \"explanation\": \"A\"\n}\n```\n"
    ));
}

#[test]
fn joke_scenario_full_text() {
    let config = Config::with_schema(Example::new(joke()))
        .describe("joke", "desc1")
        .describe("explanation", "desc2");
    let expected = cat(&[
        "The response should include:\n",
        "- joke (string): desc1\n",
        "- explanation (string): desc2\n",
        "\n",
        "Please return the response in JSON format.\n\n",
        "Example format:\n```json\n{\n  \"joke\": \"Q\",\n  \"explanation\": \"A\"\n}\n```\n",
        "\nJSON Schema information:\n```json\n",
        "{\n  \"type\": \"object\",\n  \"properties\": {\n",
        "    \"joke\": {\n      \"type\": \"string\"\n    },\n",
        "    \"explanation\": {\n      \"type\": \"string\"\n    }\n  }\n}",
        "```\n"
    ]);
    assert_eq!(config.to_instruction().text(), expected);
}

#[test]
fn description_order_follows_insertion_then_example_order() {
    let example = obj(vec![("a", s("x")), ("b", num("1")), ("c", JsonValue::Bool(true)), ("d", s("y"))]);
    let config = Config::with_schema(Example::new(example))
        .describe("b", "second letter")
        .describe("a", "first letter")
        .describe("c", "third letter");
    let text = config.to_instruction().content;
    let expected = cat(&[
        "The response should include:\n",
        "- b (integer): second letter\n",
        "- a (string): first letter\n",
        "- c (boolean): third letter\n",
        "- d (string)\n",
        "\n"
    ]);
    assert!(text.starts_with(&expected), "{}", text);
}

#[test]
fn describing_again_keeps_place_and_takes_new_text() {
    let example = obj(vec![("a", s("x")), ("b", s("y"))]);
    let config = Config::with_schema(Example::new(example))
        .describe("b", "old")
        .describe("a", "first")
        .describe("b", "new");
    let text = config.to_instruction().content;
    assert!(text.starts_with("The response should include:\n- b (string): new\n- a (string): first\n\n"));
}

#[test]
fn description_of_missing_field_is_left_out() {
    let config = Config::with_schema(Example::new(joke())).describe("setup", "not in example");
    let text = config.to_instruction().content;
    assert!(text.starts_with(
        "The response should include:\n- joke (string)\n- explanation (string)\n\n"
    ));
    assert!(!text.contains("setup"));
}

#[test]
fn empty_array_json_array_schema_has_any_items() {
    let config = Config::with_schema(Example::new(JsonValue::Array(vec![])))
        .format(OutputFormat::JsonArray);
    let text = config.to_instruction().content;
    let expected = cat(&[
        "Please return the response as a JSON array of items.\n\n",
        "Example format:\n```json\n[]\n```\n",
        "\nJSON Schema information:\n```json\n",
        "{\n  \"type\": \"array\",\n  \"items\": {\n    \"type\": \"any\"\n  }\n}",
        "```\n"
    ]);
    assert_eq!(text, expected);
}

#[test]
fn json_array_wraps_object_example() {
    let config = Config::with_schema(Example::new(obj(vec![("n", num("3"))])))
        .format(OutputFormat::JsonArray);
    let text = config.to_instruction().content;
    let expected = cat(&[
        "Please return the response as a JSON array of items.\n\n",
        "Example format:\n```json\n[\n  {\n  \"n\": 3\n}\n]\n```\n",
        "\nJSON Schema information:\n```json\n",
        "{\n  \"type\": \"array\",\n  \"items\": {\n    \"type\": \"object\",\n",
        "    \"properties\": {\n      \"n\": {\n        \"type\": \"integer\"\n      }\n    }\n  }\n}",
        "```\n"
    ]);
    assert_eq!(text, expected);
}

#[test]
fn array_descriptions_describe_item_fields() {
    let example = JsonValue::Array(vec![obj(vec![("id", num("1")), ("name", s("n"))])]);
    let config = Config::with_schema(Example::new(example)).describe("name", "the name");
    let text = config.to_instruction().content;
    assert!(text.starts_with(&cat(&[
        "The response should include:\n",
        "- An array of object items\n",
        "  Each item should have:\n",
        "  - name (string): the name\n",
        "  - id (integer)\n",
        "\n"
    ])));
}

#[test]
fn empty_description_map_gives_no_block() {
    let mut config = Config::with_schema(Example::new(joke()));
    config.descriptions = Some(indexmap::IndexMap::new());
    let text = config.to_instruction().content;
    assert!(!text.contains("The response should include:"));
    assert!(text.starts_with("Please return the response in JSON format.\n\n"));
}

#[test]
fn number_kind_follows_text() {
    assert_eq!(JsonNumber::from_text("-12".to_string()).kind, NumberKind::Signed);
    assert_eq!(JsonNumber::from_text("18446744073709551615".to_string()).kind, NumberKind::Unsigned);
    assert_eq!(JsonNumber::from_text("2.5".to_string()).kind, NumberKind::Float);
}

#[test]
fn empty_array_descriptions_say_empty() {
    let config = Config::with_schema(Example::new(JsonValue::Array(vec![]))).describe("x", "y");
    let text = config.to_instruction().content;
    assert!(text.starts_with("The response should include:\n- An empty array\n\n"));
}

#[test]
fn prefix_and_suffix_surround_text() {
    let config = Config::with_prefix_schema("Tell a joke.", Example::new(joke())).suffix("Be brief.");
    let text = config.to_instruction().content;
    assert!(text.starts_with("Tell a joke.\n\nPlease return the response in JSON format.\n\n"));
    assert!(text.ends_with("```\n\nBe brief."));
}

#[test]
fn no_example_gives_only_prefix_and_suffix() {
    let config = Config::default().prefix("P").suffix("S");
    assert_eq!(config.to_instruction().content, "P\n\n\nS");
}

#[test]
fn building_twice_gives_same_text() {
    let config = Config::with_schema(Example::new(joke())).describe("joke", "d");
    let first = config.to_instruction();
    let second = config.to_instruction();
    assert_eq!(first, second);
}

#[test]
fn yaml_block_with_note_for_scalar_array() {
    let example = Example::with_yaml(JsonValue::Array(vec![num("1"), num("2")]), "- 1\n- 2\n".to_string());
    let config = Config::with_schema(example).format(OutputFormat::Yaml);
    let text = config.to_instruction().content;
    assert_eq!(
        text,
        cat(&[
            "Please return the response in YAML format.\n\n",
            "Example format:\n```yaml\n- 1\n- 2\n\n```\n",
            "\nThis is an array of integer values.\n"
        ])
    );
}

#[test]
fn yaml_block_without_yaml_text_stops_after_first_line() {
    let config = Config::with_schema(Example::new(joke())).format(OutputFormat::Yaml);
    assert_eq!(config.to_instruction().content, "Please return the response in YAML format.\n\n");
}

#[test]
fn xml_block_for_object() {
    let example = obj(vec![("joke", s("Q")), ("score", num("7")), ("tags", JsonValue::Array(vec![s("a")]))]);
    let config = Config::with_schema(Example::new(example)).format(OutputFormat::Xml);
    assert_eq!(
        config.to_instruction().content,
        cat(&[
            "Please return the response in XML format.\n\n",
            "Example format:\n```xml\n<root>\n",
            "  <joke>Q</joke>\n",
            "  <score>7</score>\n",
            "  <tags>[\"a\"]</tags>\n",
            "</root>\n```\n"
        ])
    );
}

#[test]
fn xml_block_for_array_of_objects_and_empty_array() {
    let example = JsonValue::Array(vec![obj(vec![("a", JsonValue::Null)])]);
    let config = Config::with_schema(Example::new(example)).format(OutputFormat::Xml);
    assert!(config.to_instruction().content.contains(
        "<root>\n  <item>\n    <a>null</a>\n  </item>\n  <!-- Additional items here -->\n</root>"
    ));
    let empty = Config::with_schema(Example::new(JsonValue::Array(vec![]))).format(OutputFormat::Xml);
    assert!(empty
        .to_instruction()
        .content
        .contains("<root>\n  <!-- Empty array - no items -->\n</root>"));
}

#[test]
fn string_formats_are_detected_in_schema() {
    let example = obj(vec![
        ("id", s("42")),
        ("mail", s("a@b.c")),
        ("site", s("https://x.org")),
        ("day", s("2024-01-31")),
        ("at", s("12:30:00")),
        ("plain", s("hello")),
    ]);
    let node = infer(&example);
    match node {
        SchemaNode::Object(fields) => {
            let formats: Vec<SchemaNode> = fields.into_iter().map(|(_, n)| n).collect();
            assert_eq!(
                formats,
                vec![
                    SchemaNode::Str(Some(structured_output::StringFormat::NumericString)),
                    SchemaNode::Str(Some(structured_output::StringFormat::Email)),
                    SchemaNode::Str(Some(structured_output::StringFormat::Uri)),
                    SchemaNode::Str(Some(structured_output::StringFormat::Date)),
                    SchemaNode::Str(Some(structured_output::StringFormat::Time)),
                    SchemaNode::Str(None),
                ]
            );
        }
        _ => panic!("expected an object schema"),
    }
}

#[test]
fn string_format_schema_text_has_format_after_type() {
    let config = Config::with_schema(Example::new(obj(vec![("mail", s("a@b.c"))])));
    assert!(config.to_instruction().content.contains(
        "\"mail\": {\n      \"type\": \"string\",\n      \"format\": \"email\"\n    }"
    ));
}

#[test]
fn pretty_text_matches_serde_json() {
    let text = r#"{"a":[1,2.5,{"b":null,"c":"q\"uote"}],"d":{},"e":[],"f":true,"g":18446744073709551615}"#;
    let v: serde_json::Value = serde_json::from_str(text).unwrap();
    let ours = from_serde(&v);
    assert_eq!(ours.to_pretty_string(), serde_json::to_string_pretty(&v).unwrap());
    assert_eq!(ours.to_compact_string(), v.to_string());
}
