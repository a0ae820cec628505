//! Holding a document against its schema.
//!
//! A schema arrives as text. It is parsed, compiled and applied to the
//! document by `serde_json` and `jsonschema`; what is decided here is what
//! their answers mean: which error a failure is, and how the violations of a
//! document are reported.

use vstd::prelude::*;

verus! {

/// Why a document was not accepted.
#[derive(Debug)]
pub enum SchemaError {
    /// The schema is no JSON text; the message says where it breaks.
    SchemaNotJson(String),
    /// The schema is JSON but no schema; the message says why.
    SchemaInvalid(String),
    /// The document breaks the schema; one message for each violation.
    DocumentInvalid(Vec<String>),
}

/// The JSON value that `text` denotes, or `None` where it denotes none.
pub uninterp spec fn json_of(text: Seq<char>) -> Option<serde_json::Value>;

/// `serde_json::from_str`: the value that `text` denotes, or the parser's
/// message where it denotes none.
#[verifier::external_body]
fn json_from_str(text: &str) -> (outcome: Result<serde_json::Value, String>)
    ensures
        outcome is Ok <==> json_of(text@) is Some,
        outcome is Ok ==> json_of(text@) == Some(outcome->Ok_0),
{
    match serde_json::from_str::<serde_json::Value>(text) {
        Ok(value) => Ok(value),
        Err(error) => Err(error.to_string()),
    }
}

/// A schema that `jsonschema` has compiled.
#[verifier::external_body]
struct CompiledSchema {
    validator: jsonschema::Validator,
}

/// `jsonschema::Validator::new`: `schema` compiled, or the compiler's
/// message where it is no schema.
#[verifier::external_body]
fn compile_schema(schema: &serde_json::Value) -> (outcome: Result<CompiledSchema, String>) {
    match jsonschema::Validator::new(schema) {
        Ok(validator) => Ok(CompiledSchema { validator }),
        Err(error) => Err(error.to_string()),
    }
}

/// `Validator::iter_errors`: the messages of the violations of the schema
/// that `instance` holds, none where it holds none. Nothing is promised of
/// their order.
#[verifier::external_body]
fn schema_violations(compiled: &CompiledSchema, instance: &serde_json::Value) -> (found: Vec<
    String,
>) {
    compiled.validator.iter_errors(instance).map(|e| e.to_string()).collect()
}

/// The texts of `messages`.
pub open spec fn texts(messages: Seq<String>) -> Seq<Seq<char>> {
    messages.map_values(|m: String| m@)
}

/// The texts `parts` in a row, with `between` between each two.
pub open spec fn joined(parts: Seq<Seq<char>>, between: Seq<char>) -> Seq<char>
    decreases parts.len(),
{
    if parts.len() == 0 {
        Seq::empty()
    } else if parts.len() == 1 {
        parts[0]
    } else {
        joined(parts.drop_last(), between) + between + parts.last()
    }
}

/// The report of the violations `messages`: a heading, then each message on
/// a line of its own behind a dash.
pub open spec fn report_spec(messages: Seq<Seq<char>>) -> Seq<char> {
    "schema validation failed:\n- "@ + joined(messages, "\n- "@)
}

/// Reads `text` as JSON.
pub fn parse_json(text: &str) -> (outcome: Result<serde_json::Value, String>)
    ensures
        outcome is Ok <==> json_of(text@) is Some,
        outcome is Ok ==> json_of(text@) == Some(outcome->Ok_0),
{
    json_from_str(text)
}

/// The report of the violations `messages`.
pub fn violation_report(messages: &Vec<String>) -> (report: String)
    ensures
        report@ == report_spec(texts(messages@)),
{
    let mut report = String::from_str("schema validation failed:\n- ");
    let ghost heading = report@;
    let ghost all = texts(messages@);
    let mut i: usize = 0;
    proof {
        assert(all.subrange(0, 0) =~= Seq::<Seq<char>>::empty());
        assert(report@ =~= heading + joined(all.subrange(0, 0), "\n- "@));
    }
    while i < messages.len()
        invariant
            i <= messages.len(),
            all == texts(messages@),
            heading == "schema validation failed:\n- "@,
            report@ == heading + joined(all.subrange(0, i as int), "\n- "@),
        decreases messages.len() - i,
    {
        let ghost before = report@;
        if i > 0 {
            report.append("\n- ");
        }
        report.append(messages[i].as_str());
        proof {
            let done = all.subrange(0, i as int);
            let more = all.subrange(0, i + 1);
            assert(more.drop_last() =~= done);
            assert(more.last() == messages@[i as int]@);
            if i == 0 {
                assert(joined(done, "\n- "@) =~= Seq::<char>::empty());
                assert(joined(more, "\n- "@) == more[0]);
                assert(report@ =~= heading + joined(more, "\n- "@));
            } else {
                assert(joined(more, "\n- "@) == joined(done, "\n- "@) + "\n- "@ + more.last());
                assert(report@ =~= heading + joined(more, "\n- "@));
            }
        }
        i = i + 1;
    }
    proof {
        assert(all.subrange(0, messages.len() as int) =~= all);
    }
    report
}

/// What the violations `found` by the validator mean: none is acceptance,
/// and any is an invalid document with all of them.
pub fn judge(found: Vec<String>) -> (outcome: Result<(), SchemaError>)
    ensures
        found@.len() == 0 ==> outcome is Ok,
        found@.len() > 0 ==> outcome == Err::<(), SchemaError>(
            SchemaError::DocumentInvalid(found),
        ),
{
    if found.len() == 0 {
        Ok(())
    } else {
        Err(SchemaError::DocumentInvalid(found))
    }
}

/// Holds the document `json` against the schema that `schema_text` gives.
///
/// A text that is no JSON is refused as such, before the document is looked
/// at, and so is a JSON value that is no schema. Otherwise the outcome is
/// what [`judge`] makes of the validator's answer: acceptance, or an invalid
/// document with at least one violation.
pub fn validate_json_against_schema(json: &serde_json::Value, schema_text: &str) -> (outcome:
    Result<(), SchemaError>)
    ensures
        json_of(schema_text@) is None <==> outcome matches Err(SchemaError::SchemaNotJson(_)),
        outcome matches Err(SchemaError::DocumentInvalid(messages)) ==> messages@.len() > 0,
{
    match json_from_str(schema_text) {
        Err(message) => Err(SchemaError::SchemaNotJson(message)),
        Ok(schema) => match compile_schema(&schema) {
            Err(message) => Err(SchemaError::SchemaInvalid(message)),
            Ok(compiled) => judge(schema_violations(&compiled, json)),
        },
    }
}

} // verus!
