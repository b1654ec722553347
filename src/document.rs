//! The step after rendering: the document text is read as YAML (a superset
//! of JSON) and written out again as JSON, pretty JSON or YAML.

use crate::error::{Failure, FailureView};
use crate::scan::{render, render_spec};
use crate::source::{Inputs, Outcome, Step};
use crate::quote::texts;
use vstd::prelude::*;

verus! {

/// Whether serde_yaml reads `s` as a single YAML document.
pub uninterp spec fn yaml_accepts(s: Seq<char>) -> bool;

/// Relies on `serde_yaml::from_str` into a `serde_yaml::Value`: whether it
/// succeeds depends on the text alone.
#[verifier::external_body]
fn parse_yaml(s: &str) -> (r: Result<serde_yaml::Value, serde_yaml::Error>)
    ensures
        r is Ok <==> yaml_accepts(s@),
{
    serde_yaml::from_str(s)
}

/// Relies on `serde_json::to_string` on a `serde_yaml::Value`.
#[verifier::external_body]
fn write_json(v: &serde_yaml::Value) -> (r: Result<String, serde_json::Error>) {
    serde_json::to_string(v)
}

/// Relies on `serde_json::to_string_pretty` on a `serde_yaml::Value`.
#[verifier::external_body]
fn write_pretty_json(v: &serde_yaml::Value) -> (r: Result<String, serde_json::Error>) {
    serde_json::to_string_pretty(v)
}

/// Relies on `serde_yaml::to_string` on a `serde_yaml::Value`.
#[verifier::external_body]
fn write_yaml(v: &serde_yaml::Value) -> (r: Result<String, serde_yaml::Error>) {
    serde_yaml::to_string(v)
}

/// The forms a document can be written out in.
#[derive(Clone, Copy, Debug, PartialEq, Eq, Structural)]
pub enum Output {
    Json,
    PrettyJson,
    Yaml,
}

/// What holds of the written document `r`, given the outcome of rendering.
/// The writers take the parsed `serde_yaml::Value`, which is carried
/// opaquely, so the text they write is left to them:
/// a render that fails or waits is passed on as it is; a rendered text that
/// is not YAML fails with a YAML error; otherwise the document is written,
/// or the writer's own error comes back.
pub open spec fn written_from(rendered: Outcome<Seq<char>>, out: Output, r: Outcome<Seq<char>>) -> bool {
    match rendered {
        Outcome::Done(text) => if !yaml_accepts(text) {
            r matches Outcome::Fail(FailureView::Yaml(_))
        } else if out == Output::Yaml {
            r is Done || r matches Outcome::Fail(FailureView::Yaml(_))
        } else {
            r is Done || r matches Outcome::Fail(FailureView::Json(_))
        },
        _ => r == rendered,
    }
}

/// Reads `text` as YAML and writes it out as `out` says.
pub fn convert(text: &str, out: Output) -> (r: Result<String, Failure>)
    ensures
        written_from(Outcome::Done(text@), out, match r {
            Ok(s) => Outcome::Done(s@),
            Err(e) => Outcome::Fail(e@),
        }),
{
    match parse_yaml(text) {
        Err(e) => Err(Failure::Yaml(e)),
        Ok(v) => match out {
            Output::Json => match write_json(&v) {
                Ok(s) => Ok(s),
                Err(e) => Err(Failure::Json(e)),
            },
            Output::PrettyJson => match write_pretty_json(&v) {
                Ok(s) => Ok(s),
                Err(e) => Err(Failure::Json(e)),
            },
            Output::Yaml => match write_yaml(&v) {
                Ok(s) => Ok(s),
                Err(e) => Err(Failure::Yaml(e)),
            },
        },
    }
}

fn render_and_write(args: &Vec<String>, inputs: &Inputs, out: Output) -> (r: Step<String>)
    ensures
        written_from(render_spec(texts(args@), inputs@), out, r@),
{
    match render(args, inputs) {
        Step::Done(Ok(text)) => Step::Done(convert(text.as_str(), out)),
        other => other,
    }
}

/// Renders the template `args[0]` with the values `args[1..]` and writes the
/// document as compact JSON.
pub fn format(args: &Vec<String>, inputs: &Inputs) -> (r: Step<String>)
    ensures
        written_from(render_spec(texts(args@), inputs@), Output::Json, r@),
{
    render_and_write(args, inputs, Output::Json)
}

/// Renders the template `args[0]` with the values `args[1..]` and writes the
/// document as indented JSON.
pub fn format_pretty(args: &Vec<String>, inputs: &Inputs) -> (r: Step<String>)
    ensures
        written_from(render_spec(texts(args@), inputs@), Output::PrettyJson, r@),
{
    render_and_write(args, inputs, Output::PrettyJson)
}

/// Renders the template `args[0]` with the values `args[1..]` and writes the
/// document as YAML.
pub fn format_yaml(args: &Vec<String>, inputs: &Inputs) -> (r: Step<String>)
    ensures
        written_from(render_spec(texts(args@), inputs@), Output::Yaml, r@),
{
    render_and_write(args, inputs, Output::Yaml)
}

} // verus!
