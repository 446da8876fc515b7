use structured_output::{
    assemble_response, Config, Example, JsonValue, ParseError, ValidationOptions, ValidationOutcome,
};

fn config(strict: Option<bool>) -> Config {
    let c = Config::with_schema(Example::new(JsonValue::Null)).validate(true);
    match strict {
        Some(b) => c.validation_options(ValidationOptions { require_all_required_properties: b }),
        None => c,
    }
}

#[test]
fn strict_policy_fails_on_violation() {
    let msgs = vec!["\"explanation\" is a required property".to_string()];
    let r = assemble_response(&config(Some(true)), true, 5u8, "raw", ValidationOutcome::Checked(msgs));
    assert_eq!(
        r.unwrap_err(),
        ParseError::ValidationError(
            "Validation failed: [\"\\\"explanation\\\" is a required property\"]".to_string()
        )
    );
}

#[test]
fn lenient_policy_passes_messages_on() {
    let msgs = vec!["\"explanation\" is a required property".to_string()];
    let r = assemble_response(&config(Some(false)), true, 5u8, "raw", ValidationOutcome::Checked(msgs.clone()))
        .unwrap();
    assert_eq!(r.data, 5u8);
    assert_eq!(r.raw_response, "raw");
    assert_eq!(r.validation_messages, Some(msgs));
}

#[test]
fn missing_options_are_lenient() {
    let msgs = vec!["m".to_string()];
    let r = assemble_response(&config(None), true, 1u8, "raw", ValidationOutcome::Checked(msgs.clone()));
    assert_eq!(r.unwrap().validation_messages, Some(msgs));
}

#[test]
fn no_violation_gives_no_messages() {
    let r = assemble_response(&config(Some(true)), true, 1u8, "raw", ValidationOutcome::Checked(vec![]));
    assert_eq!(r.unwrap().validation_messages, None);
}

#[test]
fn validation_off_ignores_outcome() {
    let c = Config::with_schema(Example::new(JsonValue::Null));
    let r = assemble_response(&c, true, 1u8, "raw", ValidationOutcome::Checked(vec!["m".to_string()]));
    assert_eq!(r.unwrap().validation_messages, None);
    let r = assemble_response(&config(Some(true)), false, 1u8, "raw", ValidationOutcome::Checked(vec!["m".to_string()]));
    assert_eq!(r.unwrap().validation_messages, None);
}

#[test]
fn serialization_failure_is_an_error() {
    let r = assemble_response(&config(Some(false)), true, 1u8, "raw", ValidationOutcome::SerializationFailed("boom".to_string()));
    assert_eq!(
        r.unwrap_err(),
        ParseError::ValidationError("Serialization for validation failed: boom".to_string())
    );
}

#[test]
fn error_messages() {
    assert_eq!(ParseError::Extraction("x".to_string()).message(), "Data extraction error: x");
    assert_eq!(ParseError::ValidationError("x".to_string()).message(), "Validation error: x");
    assert_eq!(ParseError::XmlParse("x".to_string()).message(), "XML parsing error: x");
    assert_eq!(ParseError::Other("x".to_string()).message(), "Error: x");
}

#[test]
fn default_options_are_strict() {
    assert!(ValidationOptions::default().require_all_required_properties);
}
