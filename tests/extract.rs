use structured_output::{
    decode_error, locate_payload, prepare_extraction, Config, Example, FormatSupport, JsonValue,
    OutputFormat, ParseError,
};

#[test]
fn fenced_json_with_prose_parses() {
    let reply = "Sure! Here it is:\n```json\n{\"joke\":\"x\",\"explanation\":\"y\"}\n```\nEnjoy.";
    let c = prepare_extraction(reply, OutputFormat::Json, FormatSupport::all()).unwrap();
    assert!(c.fenced);
    assert_eq!(c.text, "{\"joke\":\"x\",\"explanation\":\"y\"}");
    let v: serde_json::Value = serde_json::from_str(&c.text).unwrap();
    assert_eq!(v["joke"], "x");
    assert_eq!(v["explanation"], "y");
}

#[test]
fn bare_json_parses_like_fenced() {
    let bare = "{\"a\": 1}";
    let fenced = "```json\n{\"a\": 1}\n```";
    let b = locate_payload(bare, OutputFormat::Json);
    let f = locate_payload(fenced, OutputFormat::Json);
    assert!(!b.fenced);
    assert!(f.fenced);
    assert_eq!(b.text, f.text);
    let bv: serde_json::Value = serde_json::from_str(&b.text).unwrap();
    let fv: serde_json::Value = serde_json::from_str(&f.text).unwrap();
    assert_eq!(bv, fv);
}

#[test]
fn untagged_fence_and_whitespace_are_trimmed() {
    let c = locate_payload("```\n  [1, 2]  \n\n```", OutputFormat::JsonArray);
    assert_eq!(c.text, "[1, 2]");
}

#[test]
fn unclosed_fence_falls_back_to_whole_reply() {
    let reply = "```json\n{\"a\":1}";
    let c = locate_payload(reply, OutputFormat::Json);
    assert!(!c.fenced);
    assert_eq!(c.text, reply);
}

#[test]
fn yaml_tags() {
    assert_eq!(locate_payload("x\n```yaml\na: 1\n```", OutputFormat::Yaml).text, "a: 1");
    assert_eq!(locate_payload("```yml\nb: 2\n```", OutputFormat::Yaml).text, "b: 2");
}

#[test]
fn xml_block_needs_angle_brackets() {
    let reply = "```json\n{}\n``` then ```xml\n<root><a>1</a></root>\n```";
    let c = locate_payload(reply, OutputFormat::Xml);
    assert!(c.fenced);
    assert_eq!(c.text, "<root><a>1</a></root>");
}

#[test]
fn unsupported_formats_are_refused() {
    let reply = "```yaml\na: 1\n```";
    let e = prepare_extraction(reply, OutputFormat::Yaml, FormatSupport::json_only()).unwrap_err();
    assert_eq!(
        e,
        ParseError::UnsupportedFormat("Unsupported format: Yaml, enable required feature".to_string())
    );
    let e = prepare_extraction("<a/>", OutputFormat::Xml, FormatSupport::json_only()).unwrap_err();
    assert_eq!(e.message(), "Error: Unsupported format: Xml, enable required feature");
    assert!(prepare_extraction("{}", OutputFormat::Json, FormatSupport::json_only()).is_ok());
}

#[test]
fn decode_errors_name_the_format() {
    assert_eq!(
        decode_error(OutputFormat::Json, true, "bad"),
        ParseError::Extraction("Unable to extract JSON data: bad".to_string())
    );
    assert_eq!(
        decode_error(OutputFormat::Yaml, false, "bad"),
        ParseError::Extraction("Unable to extract YAML: bad".to_string())
    );
    assert_eq!(decode_error(OutputFormat::Xml, true, "bad"), ParseError::XmlParse("bad".to_string()));
    assert_eq!(
        decode_error(OutputFormat::Xml, false, "bad"),
        ParseError::XmlParse("Unable to extract XML: bad".to_string())
    );
}

#[test]
fn round_trip_of_rendered_example() {
    let text = r#"{"joke":"Q","explanation":"A","n":[1,2]}"#;
    let v: serde_json::Value = serde_json::from_str(text).unwrap();
    let rendered = serde_json::to_string_pretty(&v).unwrap();
    let c = locate_payload(&rendered, OutputFormat::Json);
    let back: serde_json::Value = serde_json::from_str(&c.text).unwrap();
    assert_eq!(back, v);
}

#[test]
fn bare_json_with_whitespace_parses_like_fenced() {
    let bare = "\n  {\"a\": [1, 2]}  \n";
    let fenced = format!("```json\n{}\n```", bare);
    let b = locate_payload(bare, OutputFormat::Json);
    let f = locate_payload(&fenced, OutputFormat::Json);
    assert_eq!(b.text, bare);
    assert_eq!(f.text, "{\"a\": [1, 2]}");
    let bv: serde_json::Value = serde_json::from_str(&b.text).unwrap();
    let fv: serde_json::Value = serde_json::from_str(&f.text).unwrap();
    assert_eq!(bv, fv);
}

#[test]
fn instruction_example_is_located_in_the_instruction() {
    let example = JsonValue::Object(vec![
        ("joke".to_string(), JsonValue::Str("Q".to_string())),
        ("explanation".to_string(), JsonValue::Str("A".to_string())),
    ]);
    let pretty = example.to_pretty_string();
    let config = Config::with_prefix_schema("Tell a joke.", Example::new(example))
        .describe("joke", "the joke")
        .suffix("Thanks.");
    let text = config.to_instruction().content;
    let c = locate_payload(&text, OutputFormat::Json);
    assert!(c.fenced);
    assert_eq!(c.text, pretty);
}
