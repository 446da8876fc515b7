use structured_output::{detect_string_format, quote_json, StringFormat};

#[test]
fn numeric_string_detection() {
    assert_eq!(detect_string_format("123"), Some(StringFormat::NumericString));
    assert_eq!(detect_string_format("-9223372036854775808"), Some(StringFormat::NumericString));
    assert_eq!(detect_string_format("+7"), Some(StringFormat::NumericString));
    assert_eq!(detect_string_format("9223372036854775808"), None);
    assert_eq!(detect_string_format("-"), None);
    assert_eq!(detect_string_format(""), None);
}

#[test]
fn email_uri_date_time_detection() {
    assert_eq!(detect_string_format("me@example.com"), Some(StringFormat::Email));
    assert_eq!(detect_string_format("http://example"), Some(StringFormat::Uri));
    assert_eq!(detect_string_format("2023-12-01"), Some(StringFormat::Date));
    assert_eq!(detect_string_format("2023-1a-01"), None);
    assert_eq!(detect_string_format("10:20:30"), Some(StringFormat::Time));
    assert_eq!(detect_string_format("10:20"), None);
}

#[test]
fn quoting_escapes() {
    assert_eq!(quote_json("a\"b\\c\n"), "\"a\\\"b\\\\c\\n\"");
}
