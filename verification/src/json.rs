//! JSON values and JSON Schema validation, by `serde_json` and `jsonschema`.

use vstd::prelude::*;
use vstd::multiset::Multiset;

verus! {

#[verifier::external_type_specification]
#[verifier::external_body]
pub struct ExValue(serde_json::Value);

#[verifier::external_type_specification]
#[verifier::external_body]
pub struct ExResource(jsonschema::Resource);

#[verifier::external_type_specification]
#[verifier::external_body]
pub struct ExValidationOptions(jsonschema::ValidationOptions);

#[verifier::external_type_specification]
#[verifier::external_body]
pub struct ExValidator(jsonschema::Validator);

/// Whether `serde_json::from_str` reads a JSON value from the text.
pub uninterp spec fn json_parses(text: Seq<char>) -> bool;

/// The text of the error `serde_json::from_str` gives for a text it
/// refuses.
pub uninterp spec fn json_error(text: Seq<char>) -> Seq<char>;

/// Whether `jsonschema::Resource::from_contents` accepts the JSON value of
/// the text.
pub uninterp spec fn resource_ok(text: Seq<char>) -> bool;

/// The text of the error `jsonschema::Resource::from_contents` gives.
pub uninterp spec fn resource_error(text: Seq<char>) -> Seq<char>;

/// Whether `jsonschema::ValidationOptions::build` (for draft 7, with the
/// resources, by address and JSON text, added in order) accepts the schema
/// of the text. Building registers every resource and fails when any of
/// them fails, so whether it succeeds does not depend on the order in
/// which the resources are taken.
pub uninterp spec fn schema_builds(resources: Seq<(Seq<char>, Seq<char>)>, schema: Seq<char>) -> bool;

/// What validating the JSON value of `text` against the built schema
/// gives (`jsonschema::Validator::apply`, in the basic output format):
/// nothing when it conforms, otherwise the descriptions of the errors,
/// counted with repeats and in no stated order.
pub uninterp spec fn schema_errors(resources: Seq<(Seq<char>, Seq<char>)>, schema: Seq<char>, text: Seq<char>) -> Option<Multiset<Seq<char>>>;

/// A JSON value, with the text it was read from.
pub struct Json {
    value: serde_json::Value,
    text: Ghost<Seq<char>>,
}

impl View for Json {
    type V = Seq<char>;

    closed spec fn view(&self) -> Seq<char> {
        self.text@
    }
}

/// Calls `serde_json::from_str` for a `serde_json::Value`: it succeeds
/// exactly on the texts that `json_parses` holds of, and otherwise gives the
/// error's text.
#[verifier::external_body]
fn from_str(text: &str) -> (r: Result<serde_json::Value, String>)
    ensures
        r is Ok <==> json_parses(text@),
        r matches Err(e) ==> e@ == json_error(text@),
{
    serde_json::from_str::<serde_json::Value>(text).map_err(|e| e.to_string())
}

/// Reads a JSON value.
pub fn parse_json(text: &str) -> (r: Result<Json, String>)
    ensures
        r is Ok <==> json_parses(text@),
        r matches Ok(j) ==> j@ == text@,
        r matches Err(e) ==> e@ == json_error(text@),
{
    match from_str(text) {
        Ok(value) => Ok(Json { value, text: Ghost(text@) }),
        Err(e) => Err(e),
    }
}

/// Calls `jsonschema::Resource::from_contents` on a copy of the value.
#[verifier::external_body]
fn resource_of(j: &Json) -> (r: Result<jsonschema::Resource, String>)
    ensures
        r is Ok <==> resource_ok(j@),
        r matches Err(e) ==> e@ == resource_error(j@),
{
    jsonschema::Resource::from_contents(j.value.clone()).map_err(|e| e.to_string())
}

/// Options for building a schema, with the resources added to them.
pub struct SchemaOptions {
    options: jsonschema::ValidationOptions,
    resources: Ghost<Seq<(Seq<char>, Seq<char>)>>,
}

impl View for SchemaOptions {
    type V = Seq<(Seq<char>, Seq<char>)>;

    closed spec fn view(&self) -> Seq<(Seq<char>, Seq<char>)> {
        self.resources@
    }
}

/// Calls `jsonschema::draft7::options`.
#[verifier::external_body]
fn draft7_options() -> jsonschema::ValidationOptions {
    jsonschema::draft7::options()
}

/// Calls `jsonschema::ValidationOptions::with_resource`.
#[verifier::external_body]
fn with_resource(options: &mut jsonschema::ValidationOptions, url: &str, resource: jsonschema::Resource) {
    options.with_resource(url.to_string(), resource);
}

impl SchemaOptions {
    /// Options for draft 7, with no resources.
    pub fn new() -> (r: SchemaOptions)
        ensures
            r@ == Seq::<(Seq<char>, Seq<char>)>::empty(),
    {
        SchemaOptions { options: draft7_options(), resources: Ghost(Seq::empty()) }
    }

    /// Adds the schema `j` as a resource at `url`; the error when it is not
    /// one.
    pub fn add(&mut self, url: &str, j: &Json) -> (r: Result<(), String>)
        ensures
            r is Ok <==> resource_ok(j@),
            r is Ok ==> final(self)@ == old(self)@.push((url@, j@)),
            r matches Err(e) ==> e@ == resource_error(j@) && final(self)@ == old(self)@,
    {
        match resource_of(j) {
            Ok(resource) => {
                with_resource(&mut self.options, url, resource);
                self.resources = Ghost(self.resources@.push((url@, j@)));
                Ok(())
            },
            Err(e) => Err(e),
        }
    }
}

/// A built schema, with the resources and the text it was built from.
pub struct Schema {
    validator: jsonschema::Validator,
    source: Ghost<(Seq<(Seq<char>, Seq<char>)>, Seq<char>)>,
}

impl View for Schema {
    type V = (Seq<(Seq<char>, Seq<char>)>, Seq<char>);

    closed spec fn view(&self) -> (Seq<(Seq<char>, Seq<char>)>, Seq<char>) {
        self.source@
    }
}

/// Calls `jsonschema::ValidationOptions::build`. Which error it reports
/// when several resources are bad can change from run to run, so only
/// whether it succeeds is stated.
#[verifier::external_body]
fn build(options: &SchemaOptions, schema: &Json) -> (r: Option<jsonschema::Validator>)
    ensures
        r is Some <==> schema_builds(options@, schema@),
{
    options.options.build(&schema.value).ok()
}

/// The error given when a schema cannot be built.
pub open spec fn build_failed() -> Seq<char> {
    "the schema cannot be built"@
}

/// Builds the schema `schema` with the options' resources.
pub fn build_schema(options: &SchemaOptions, schema: &Json) -> (r: Result<Schema, String>)
    ensures
        r is Ok <==> schema_builds(options@, schema@),
        r matches Ok(s) ==> s@ == (options@, schema@),
        r matches Err(e) ==> e@ == build_failed(),
{
    match build(options, schema) {
        Some(validator) => Ok(Schema { validator, source: Ghost((options@, schema@)) }),
        None => {
            proof {
                reveal_strlit("the schema cannot be built");
            }
            Err(String::from_str("the schema cannot be built"))
        },
    }
}

/// Calls `jsonschema::Validator::apply` and takes the basic output:
/// nothing when the value conforms, otherwise the description of each
/// error (their order is not stated).
#[verifier::external_body]
pub(crate) fn validate(schema: &Schema, j: &Json) -> (r: Option<Vec<String>>)
    ensures
        match r {
            None => schema_errors(schema@.0, schema@.1, j@) is None,
            Some(v) => schema_errors(schema@.0, schema@.1, j@) == Some(crate::lints::strings_view(v@).to_multiset()),
        },
{
    match schema.validator.apply(&j.value).basic() {
        jsonschema::BasicOutput::Valid(_) => None,
        jsonschema::BasicOutput::Invalid(errors) => Some(errors.into_iter().map(|d| d.error_description().to_string()).collect()),
    }
}

} // verus!
