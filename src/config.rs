use vstd::prelude::*;

use indexmap::IndexMap;

use crate::descriptions::{
    description_entries, entries_after_insert, insert_description, new_descriptions,
};
use crate::value::JsonValue;

verus! {

/// The shape of data the model is asked to return.
#[derive(Clone, Copy, Debug, PartialEq, Eq, Structural)]
pub enum OutputFormat {
    Json,
    JsonArray,
    Yaml,
    Xml,
}

impl Default for OutputFormat {
    fn default() -> (r: Self)
        ensures
            r == OutputFormat::Json,
    {
        OutputFormat::Json
    }
}

/// Whether schema violations are fatal or advisory.
#[derive(Clone, Copy, Debug, PartialEq, Eq, Structural)]
pub struct ValidationOptions {
    pub require_all_required_properties: bool,
}

impl Default for ValidationOptions {
    fn default() -> (r: Self)
        ensures
            r.require_all_required_properties,
    {
        ValidationOptions { require_all_required_properties: true }
    }
}

/// An example value: its value tree, and its YAML text where it could be written.
#[derive(Debug, PartialEq)]
pub struct Example {
    pub value: JsonValue,
    pub yaml: Option<String>,
}

impl Example {
    pub fn new(value: JsonValue) -> (r: Self)
        ensures
            r.value == value,
            r.yaml is None,
    {
        Example { value, yaml: None }
    }

    pub fn with_yaml(value: JsonValue, yaml: String) -> (r: Self)
        ensures
            r.value == value,
            r.yaml == Some(yaml),
    {
        Example { value, yaml: Some(yaml) }
    }
}

/// What an instruction is built from.
#[derive(Debug)]
pub struct Config {
    pub prefix: Option<String>,
    pub suffix: Option<String>,
    pub format: OutputFormat,
    /// The example value (the sample of the expected shape).
    pub schema: Option<Example>,
    /// Field descriptions, in insertion order.
    pub descriptions: Option<IndexMap<String, String>>,
    pub validate: bool,
    pub validation_options: Option<ValidationOptions>,
}

/// The description entries of a configuration; none when it has no map.
pub open spec fn entries_of(d: Option<IndexMap<String, String>>) -> Seq<(Seq<char>, Seq<char>)> {
    match d {
        Some(m) => description_entries(m),
        None => Seq::empty(),
    }
}

impl Default for Config {
    fn default() -> (r: Self)
        ensures
            r.prefix is None,
            r.suffix is None,
            r.format == OutputFormat::Json,
            r.schema is None,
            r.descriptions is None,
            !r.validate,
            r.validation_options is None,
    {
        Config {
            prefix: None,
            suffix: None,
            format: OutputFormat::Json,
            schema: None,
            descriptions: None,
            validate: false,
            validation_options: None,
        }
    }
}

impl Config {
    /// A configuration with an example only.
    pub fn with_schema(schema: Example) -> (r: Self)
        ensures
            r.prefix is None,
            r.suffix is None,
            r.format == OutputFormat::Json,
            r.schema == Some(schema),
            r.descriptions is None,
            !r.validate,
            r.validation_options is None,
    {
        Config {
            prefix: None,
            suffix: None,
            format: OutputFormat::Json,
            schema: Some(schema),
            descriptions: None,
            validate: false,
            validation_options: None,
        }
    }

    /// A configuration with a prefix and an example.
    pub fn with_prefix_schema(prefix: &str, schema: Example) -> (r: Self)
        ensures
            r.prefix is Some && r.prefix->0@ == prefix@,
            r.suffix is None,
            r.format == OutputFormat::Json,
            r.schema == Some(schema),
            r.descriptions is None,
            !r.validate,
            r.validation_options is None,
    {
        Config {
            prefix: Some(prefix.to_string()),
            suffix: None,
            format: OutputFormat::Json,
            schema: Some(schema),
            descriptions: None,
            validate: false,
            validation_options: None,
        }
    }

    pub fn prefix(self, prefix: &str) -> (r: Self)
        ensures
            r.prefix is Some && r.prefix->0@ == prefix@,
            r.suffix == self.suffix,
            r.format == self.format,
            r.schema == self.schema,
            r.descriptions == self.descriptions,
            r.validate == self.validate,
            r.validation_options == self.validation_options,
    {
        Config { prefix: Some(prefix.to_string()), ..self }
    }

    pub fn suffix(self, suffix: &str) -> (r: Self)
        ensures
            r.prefix == self.prefix,
            r.suffix is Some && r.suffix->0@ == suffix@,
            r.format == self.format,
            r.schema == self.schema,
            r.descriptions == self.descriptions,
            r.validate == self.validate,
            r.validation_options == self.validation_options,
    {
        Config { suffix: Some(suffix.to_string()), ..self }
    }

    pub fn format(self, format: OutputFormat) -> (r: Self)
        ensures
            r.prefix == self.prefix,
            r.suffix == self.suffix,
            r.format == format,
            r.schema == self.schema,
            r.descriptions == self.descriptions,
            r.validate == self.validate,
            r.validation_options == self.validation_options,
    {
        Config { format, ..self }
    }

    /// Sets the description of a field: a field described again keeps its
    /// place in the order and takes the new text; a new one goes last.
    pub fn describe(self, field: &str, description: &str) -> (r: Self)
        ensures
            r.prefix == self.prefix,
            r.suffix == self.suffix,
            r.format == self.format,
            r.schema == self.schema,
            r.descriptions is Some,
            entries_of(r.descriptions) == entries_after_insert(
                entries_of(self.descriptions),
                field@,
                description@,
            ),
            r.validate == self.validate,
            r.validation_options == self.validation_options,
    {
        let Config { prefix, suffix, format, schema, descriptions, validate, validation_options } =
            self;
        let mut m = match descriptions {
            Some(m) => m,
            None => new_descriptions(),
        };
        insert_description(&mut m, field.to_string(), description.to_string());
        Config {
            prefix,
            suffix,
            format,
            schema,
            descriptions: Some(m),
            validate,
            validation_options,
        }
    }

    pub fn validate(self, enable: bool) -> (r: Self)
        ensures
            r.prefix == self.prefix,
            r.suffix == self.suffix,
            r.format == self.format,
            r.schema == self.schema,
            r.descriptions == self.descriptions,
            r.validate == enable,
            r.validation_options == self.validation_options,
    {
        Config { validate: enable, ..self }
    }

    pub fn validation_options(self, options: ValidationOptions) -> (r: Self)
        ensures
            r.prefix == self.prefix,
            r.suffix == self.suffix,
            r.format == self.format,
            r.schema == self.schema,
            r.descriptions == self.descriptions,
            r.validate == self.validate,
            r.validation_options == Some(options),
    {
        Config { validation_options: Some(options), ..self }
    }
}

} // verus!
