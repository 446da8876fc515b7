//! Instructions that tell a text-generating model what shape of data to
//! return, built from an example value, and the recovery of that data from
//! the model's free-form reply.
//!
//! `value` holds the value tree of an example and its JSON renderings,
//! `schema` infers a schema from it, `instruction` renders the instruction
//! text, `extract` locates the payload in a reply, and `response` decides
//! between a response and an error.

pub mod config;
pub mod descriptions;
pub mod extract;
pub mod instruction;
pub mod response;
pub mod schema;
pub mod value;

pub use config::{Config, Example, OutputFormat, ValidationOptions};
pub use extract::{locate_payload, Candidate};
pub use instruction::Instruction;
pub use response::{
    assemble_response, decode_error, needs_validation, prepare_extraction, FormatSupport,
    ParseError, Response, ValidationOutcome,
};
pub use schema::{detect_string_format, infer, SchemaNode, StringFormat};
pub use value::{quote_json, JsonNumber, JsonValue, NumberKind};
