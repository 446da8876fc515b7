use vstd::prelude::*;

use crate::config::{Config, OutputFormat, ValidationOptions};
use crate::extract::{fenced_block, locate_payload, payload, Candidate};

verus! {

/// Why a reply could not be turned into a response.
#[derive(Clone, Debug, PartialEq)]
pub enum ParseError {
    /// The payload could not be decoded.
    Extraction(String),
    /// The value could not be checked, or broke the schema under the strict policy.
    ValidationError(String),
    /// The XML payload could not be decoded.
    XmlParse(String),
    /// The format's decoder is not available.
    UnsupportedFormat(String),
    Other(String),
}

impl ParseError {
    /// The human-readable message of the error.
    pub fn message(&self) -> (r: String)
        ensures
            r@ == match self {
                ParseError::Extraction(m) => "Data extraction error: "@ + m@,
                ParseError::ValidationError(m) => "Validation error: "@ + m@,
                ParseError::XmlParse(m) => "XML parsing error: "@ + m@,
                ParseError::UnsupportedFormat(m) => "Error: "@ + m@,
                ParseError::Other(m) => "Error: "@ + m@,
            },
    {
        let (head, m) = match self {
            ParseError::Extraction(m) => ("Data extraction error: ", m),
            ParseError::ValidationError(m) => ("Validation error: ", m),
            ParseError::XmlParse(m) => ("XML parsing error: ", m),
            ParseError::UnsupportedFormat(m) => ("Error: ", m),
            ParseError::Other(m) => ("Error: ", m),
        };
        let mut r = head.to_string();
        r.append(m.as_str());
        r
    }
}

/// A value recovered from a reply.
#[derive(Clone, Debug, PartialEq)]
pub struct Response<T> {
    pub data: T,
    pub raw_response: String,
    /// Advisory schema violations; none when validation was off or passed.
    pub validation_messages: Option<Vec<String>>,
}

/// The formats whose decoders are available. JSON always is.
#[derive(Clone, Copy, Debug, PartialEq, Eq, Structural)]
pub struct FormatSupport {
    pub yaml: bool,
    pub xml: bool,
}

pub open spec fn supports(s: FormatSupport, f: OutputFormat) -> bool {
    match f {
        OutputFormat::Json => true,
        OutputFormat::JsonArray => true,
        OutputFormat::Yaml => s.yaml,
        OutputFormat::Xml => s.xml,
    }
}

impl FormatSupport {
    pub fn all() -> (r: Self)
        ensures
            r.yaml && r.xml,
    {
        FormatSupport { yaml: true, xml: true }
    }

    pub fn json_only() -> (r: Self)
        ensures
            !r.yaml && !r.xml,
    {
        FormatSupport { yaml: false, xml: false }
    }

    pub fn supports(&self, format: OutputFormat) -> (r: bool)
        ensures
            r == supports(*self, format),
    {
        match format {
            OutputFormat::Json | OutputFormat::JsonArray => true,
            OutputFormat::Yaml => self.yaml,
            OutputFormat::Xml => self.xml,
        }
    }
}

pub open spec fn format_label(f: OutputFormat) -> Seq<char> {
    match f {
        OutputFormat::Json => "Json"@,
        OutputFormat::JsonArray => "JsonArray"@,
        OutputFormat::Yaml => "Yaml"@,
        OutputFormat::Xml => "Xml"@,
    }
}

fn format_label_text(f: OutputFormat) -> (r: &'static str)
    ensures
        r@ == format_label(f),
{
    match f {
        OutputFormat::Json => "Json",
        OutputFormat::JsonArray => "JsonArray",
        OutputFormat::Yaml => "Yaml",
        OutputFormat::Xml => "Xml",
    }
}

pub open spec fn unsupported_message(f: OutputFormat) -> Seq<char> {
    "Unsupported format: "@ + format_label(f) + ", enable required feature"@
}

/// The first step of parsing a reply: refuses a format whose decoder is not
/// available, whatever the reply holds; else locates the payload to decode.
pub fn prepare_extraction(reply: &str, format: OutputFormat, support: FormatSupport) -> (r: Result<
    Candidate,
    ParseError,
>)
    ensures
        supports(support, format) ==> r is Ok && r->Ok_0.text@ == payload(reply@, format)
            && r->Ok_0.fenced == fenced_block(reply@, format) is Some,
        !supports(support, format) ==> r is Err && r->Err_0 is UnsupportedFormat
            && r->Err_0->UnsupportedFormat_0@ == unsupported_message(format),
{
    if !support.supports(format) {
        let mut m = "Unsupported format: ".to_string();
        m.append(format_label_text(format));
        m.append(", enable required feature");
        return Err(ParseError::UnsupportedFormat(m));
    }
    Ok(locate_payload(reply, format))
}

/// The error for a payload that its decoder refused with `message`.
pub fn decode_error(format: OutputFormat, fenced: bool, message: &str) -> (r: ParseError)
    ensures
        match format {
            OutputFormat::Xml => r is XmlParse && r->XmlParse_0@ == if fenced {
                message@
            } else {
                "Unable to extract XML: "@ + message@
            },
            OutputFormat::Yaml => r is Extraction && r->Extraction_0@ == "Unable to extract YAML: "@
                + message@,
            _ => r is Extraction && r->Extraction_0@ == "Unable to extract JSON data: "@ + message@,
        },
{
    match format {
        OutputFormat::Xml => {
            if fenced {
                ParseError::XmlParse(message.to_string())
            } else {
                let mut m = "Unable to extract XML: ".to_string();
                m.append(message);
                ParseError::XmlParse(m)
            }
        },
        OutputFormat::Yaml => {
            let mut m = "Unable to extract YAML: ".to_string();
            m.append(message);
            ParseError::Extraction(m)
        },
        _ => {
            let mut m = "Unable to extract JSON data: ".to_string();
            m.append(message);
            ParseError::Extraction(m)
        },
    }
}

/// What checking a decoded value against the schema gave.
#[derive(Clone, Debug, PartialEq)]
pub enum ValidationOutcome {
    /// The value could not be turned back into a value tree.
    SerializationFailed(String),
    /// The violations found, possibly none.
    Checked(Vec<String>),
}

/// The debug listing of messages: each quoted, comma-separated, in brackets.
pub uninterp spec fn debug_list(m: Seq<Seq<char>>) -> Seq<char>;

/// Relies on the `Debug` format of `Vec<String>`, a function of the strings alone.
#[verifier::external_body]
fn debug_messages(m: &Vec<String>) -> (r: String)
    ensures
        r@ == debug_list(m.deep_view()),
{
    format!("{:?}", m)
}

/// Whether violations are fatal: only when options say so.
pub open spec fn is_strict(o: Option<ValidationOptions>) -> bool {
    match o {
        Some(v) => v.require_all_required_properties,
        None => false,
    }
}

/// Whether a decoded value is to be checked: validation is on and a
/// validator was compiled.
pub fn needs_validation(config: &Config, has_validator: bool) -> (r: bool)
    ensures
        r == (config.validate && has_validator),
{
    config.validate && has_validator
}

/// Builds the response for a decoded value. When validation applies, no
/// violation gives a plain response; violations are an error under the
/// strict policy and advisory messages otherwise.
pub fn assemble_response<T>(
    config: &Config,
    has_validator: bool,
    data: T,
    raw: &str,
    outcome: ValidationOutcome,
) -> (r: Result<Response<T>, ParseError>)
    ensures
        !(config.validate && has_validator) ==> r is Ok && r->Ok_0.data == data
            && r->Ok_0.raw_response@ == raw@ && r->Ok_0.validation_messages is None,
        config.validate && has_validator ==> match outcome {
            ValidationOutcome::SerializationFailed(e) => r is Err && r->Err_0 is ValidationError
                && r->Err_0->ValidationError_0@ == "Serialization for validation failed: "@ + e@,
            ValidationOutcome::Checked(ms) => if ms@.len() == 0 {
                r is Ok && r->Ok_0.data == data && r->Ok_0.raw_response@ == raw@
                    && r->Ok_0.validation_messages is None
            } else if is_strict(config.validation_options) {
                r is Err && r->Err_0 is ValidationError && r->Err_0->ValidationError_0@
                    == "Validation failed: "@ + debug_list(ms.deep_view())
            } else {
                r is Ok && r->Ok_0.data == data && r->Ok_0.raw_response@ == raw@
                    && r->Ok_0.validation_messages == Some(ms)
            },
        },
{
    if !needs_validation(config, has_validator) {
        return Ok(Response { data, raw_response: raw.to_string(), validation_messages: None });
    }
    match outcome {
        ValidationOutcome::SerializationFailed(e) => {
            let mut m = "Serialization for validation failed: ".to_string();
            m.append(e.as_str());
            Err(ParseError::ValidationError(m))
        },
        ValidationOutcome::Checked(ms) => {
            if ms.len() == 0 {
                return Ok(
                    Response { data, raw_response: raw.to_string(), validation_messages: None },
                );
            }
            let strict = match config.validation_options {
                Some(o) => o.require_all_required_properties,
                None => false,
            };
            if strict {
                let mut m = "Validation failed: ".to_string();
                let listing = debug_messages(&ms);
                m.append(listing.as_str());
                Err(ParseError::ValidationError(m))
            } else {
                Ok(Response { data, raw_response: raw.to_string(), validation_messages: Some(ms) })
            }
        },
    }
}

} // verus!
