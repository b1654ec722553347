//! The errors of a render, and the text that describes each of them.

use crate::text::{append, char_literal, debug_char, decimal, decimal_text, push_char};
use vstd::prelude::*;
use vstd::string::to_string_from_display_ensures;

verus! {

/// Why a render, or the document step after it, failed.
#[derive(Debug)]
pub enum Failure {
    /// Writing the document as JSON failed.
    Json(serde_json::Error),
    /// Reading the document as YAML, or writing it as YAML, failed.
    Yaml(serde_yaml::Error),
    /// The template or the values are not acceptable.
    Jf(String),
    /// A file or the stream could not be read; the text says why.
    Io(String),
}

/// The mathematical value of an [`Failure`].
pub enum FailureView {
    Json(serde_json::Error),
    Yaml(serde_yaml::Error),
    Jf(Seq<char>),
    Io(Seq<char>),
}

impl View for Failure {
    type V = FailureView;

    open spec fn view(&self) -> FailureView {
        match self {
            Failure::Json(e) => FailureView::Json(*e),
            Failure::Yaml(e) => FailureView::Yaml(*e),
            Failure::Jf(m) => FailureView::Jf(m@),
            Failure::Io(m) => FailureView::Io(m@),
        }
    }
}

/// The process exit code that stands for each kind of error.
pub open spec fn exit_code(e: FailureView) -> i32 {
    match e {
        FailureView::Jf(_) => 1,
        FailureView::Json(_) => 2,
        FailureView::Yaml(_) => 3,
        FailureView::Io(_) => 4,
    }
}

/// The prefix that names the stage of each kind of error in its message.
pub open spec fn stage_prefix(e: FailureView) -> Seq<char> {
    match e {
        FailureView::Jf(_) => "jf: "@,
        FailureView::Json(_) => "json: "@,
        FailureView::Yaml(_) => "yaml: "@,
        FailureView::Io(_) => "io: "@,
    }
}

impl Failure {
    /// The exit code of a process that ends with this error.
    pub fn returncode(&self) -> (r: i32)
        ensures
            r == exit_code(self@),
    {
        match self {
            Failure::Jf(_) => 1,
            Failure::Json(_) => 2,
            Failure::Yaml(_) => 3,
            Failure::Io(_) => 4,
        }
    }

    /// The human-readable message: the stage, then what went wrong; for an
    /// error of serde, what its `Display` writes.
    pub fn message(&self) -> (r: String)
        ensures
            stage_prefix(self@).is_prefix_of(r@),
            self@ matches FailureView::Jf(m) ==> r@ == "jf: "@ + m,
            self@ matches FailureView::Io(m) ==> r@ == "io: "@ + m,
            *self matches Failure::Json(e) ==> exists|d: String|
                #[trigger] to_string_from_display_ensures::<serde_json::Error>(&e, d) && r@ == "json: "@
                    + d@,
            *self matches Failure::Yaml(e) ==> exists|d: String|
                #[trigger] to_string_from_display_ensures::<serde_yaml::Error>(&e, d) && r@ == "yaml: "@
                    + d@,
    {
        match self {
            Failure::Jf(m) => prefixed("jf: ", m.as_str()),
            Failure::Io(m) => prefixed("io: ", m.as_str()),
            Failure::Json(e) => {
                let d = e.to_string();
                let r = prefixed("json: ", d.as_str());
                assert(exists|x: String|
                    #[trigger] to_string_from_display_ensures::<serde_json::Error>(e, x) && r@ == "json: "@
                        + x@);
                r
            },
            Failure::Yaml(e) => {
                let d = e.to_string();
                let r = prefixed("yaml: ", d.as_str());
                assert(exists|x: String|
                    #[trigger] to_string_from_display_ensures::<serde_yaml::Error>(e, x) && r@ == "yaml: "@
                        + x@);
                r
            },
        }
    }
}

// The messages of the failures of a render, one spec function each; the
// functions below them build the same text and return the failure.

/// `p` followed by `d`.
fn prefixed(p: &str, d: &str) -> (r: String)
    ensures
        r@ == p@ + d@,
        p@.is_prefix_of(r@),
{
    let mut r = String::from_str(p);
    append(&mut r, d);
    assert(p@ =~= r@.subrange(0, p@.len() as int));
    r
}

/// `"template ended with incomplete placeholder"`
pub open spec fn incomplete_text() -> Seq<char> {
    "template ended with incomplete placeholder"@
}

pub open spec fn optional_default_text(name: Seq<char>, col: nat) -> Seq<char> {
    "optional placeholder '"@ + name + "' at column "@ + decimal_text(col)
        + " cannot have a default value"@
}

pub open spec fn optional_nullable_text(name: Seq<char>, col: nat) -> Seq<char> {
    "optional placeholder '"@ + name + "' at column "@ + decimal_text(col)
        + " cannot also be nullable"@
}

pub open spec fn nullable_unclosed_text(name: Seq<char>, col: nat) -> Seq<char> {
    "nullable placeholder '"@ + name + "' at column "@ + decimal_text(col)
        + " must end with '?)'"@
}

pub open spec fn missing_name_text(col: nat) -> Seq<char> {
    "placeholder missing name at column "@ + decimal_text(col)
}

pub open spec fn no_value_text(name: Seq<char>, ch: char, col: nat) -> Seq<char> {
    "no value for placeholder '%("@ + name + ")"@ + seq![ch] + "' at column "@ + decimal_text(
        col,
    )
}

pub open spec fn expandable_default_text(name: Seq<char>, col: nat) -> Seq<char> {
    "expandable placeholder '"@ + name + "' at column "@ + decimal_text(col)
        + " cannot have a default value"@
}

pub open spec fn invalid_named_text(name: Seq<char>, stars: Seq<char>, ch: char, col: nat) -> Seq<
    char,
> {
    "invalid named placeholder '%("@ + name + ")"@ + stars + seq![ch] + "' at column "@
        + decimal_text(col) + ", use '%("@ + name + ")"@ + stars + "q' for quoted strings and '%("@
        + name + ")"@ + stars + "s' for other values"@
}

pub open spec fn invalid_name_char_text(ch: char, col: nat) -> Seq<char> {
    "invalid character "@ + char_literal(ch) + " in placeholder name at column "@ + decimal_text(
        col,
    ) + ", use numbers, letters and underscores only"@
}

pub open spec fn invalid_value_syntax_text(n: nat) -> Seq<char> {
    "invalid syntax for value no. "@ + decimal_text(n)
        + ", use 'NAME=VALUE' or 'NAME@FILE' syntax"@
}

pub open spec fn missing_value_text(col: nat) -> Seq<char> {
    "placeholder missing value at column "@ + decimal_text(col)
}

pub open spec fn positional_after_named_text(ch: char, col: nat) -> Seq<char> {
    "positional placeholder '%"@ + seq![ch] + "' at column "@ + decimal_text(col)
        + " was used after named placeholders, use named placeholder syntax '%(NAME)"@ + seq![ch]
        + "' instead"@
}

pub open spec fn invalid_placeholder_text(stars: Seq<char>, ch: char, col: nat) -> Seq<char> {
    "invalid placeholder '%"@ + stars + seq![ch] + "' at column "@ + decimal_text(col)
        + ", use one of '%"@ + stars + "s' or '%"@ + stars + "q', or escape it using '%%'"@
}

pub open spec fn not_enough_arguments_text() -> Seq<char> {
    "not enough arguments, expected at least one"@
}

pub open spec fn too_many_values_text() -> Seq<char> {
    "too many positional values, not enough positional placeholders"@
}

pub open spec fn end_of_input_text() -> Seq<char> {
    "unexpected end of input"@
}

pub open spec fn invalid_argument_text(arg: Seq<char>) -> Seq<char> {
    "invalid argument "@ + arg + ", try -h or --help"@
}

/// The template ends inside a placeholder.
pub fn incomplete_error() -> (e: Failure)
    ensures
        e@ == FailureView::Jf(incomplete_text()),
{
    let mut m = String::from_str("template ended with incomplete placeholder");
    assert(m@ =~= incomplete_text());
    Failure::Jf(m)
}

/// An optional placeholder was given a default.
pub fn optional_default_error(name: &String, col: usize) -> (e: Failure)
    ensures
        e@ == FailureView::Jf(optional_default_text(name@, col as nat)),
{
    let mut m = String::from_str("optional placeholder '");
    append(&mut m, name.as_str());
    append(&mut m, "' at column ");
    append(&mut m, decimal(col).as_str());
    append(&mut m, " cannot have a default value");
    assert(m@ =~= optional_default_text(name@, col as nat));
    Failure::Jf(m)
}

/// A placeholder was made both optional and nullable.
pub fn optional_nullable_error(name: &String, col: usize) -> (e: Failure)
    ensures
        e@ == FailureView::Jf(optional_nullable_text(name@, col as nat)),
{
    let mut m = String::from_str("optional placeholder '");
    append(&mut m, name.as_str());
    append(&mut m, "' at column ");
    append(&mut m, decimal(col).as_str());
    append(&mut m, " cannot also be nullable");
    assert(m@ =~= optional_nullable_text(name@, col as nat));
    Failure::Jf(m)
}

/// The nullable mark is not followed by the closing parenthesis.
pub fn nullable_unclosed_error(name: &String, col: usize) -> (e: Failure)
    ensures
        e@ == FailureView::Jf(nullable_unclosed_text(name@, col as nat)),
{
    let mut m = String::from_str("nullable placeholder '");
    append(&mut m, name.as_str());
    append(&mut m, "' at column ");
    append(&mut m, decimal(col).as_str());
    append(&mut m, " must end with '?)'");
    assert(m@ =~= nullable_unclosed_text(name@, col as nat));
    Failure::Jf(m)
}

/// A named placeholder has an empty name.
pub fn missing_name_error(col: usize) -> (e: Failure)
    ensures
        e@ == FailureView::Jf(missing_name_text(col as nat)),
{
    let mut m = String::from_str("placeholder missing name at column ");
    append(&mut m, decimal(col).as_str());
    assert(m@ =~= missing_name_text(col as nat));
    Failure::Jf(m)
}

/// A required named placeholder has no value and no default.
pub fn no_value_error(name: &String, ch: char, col: usize) -> (e: Failure)
    ensures
        e@ == FailureView::Jf(no_value_text(name@, ch, col as nat)),
{
    let mut m = String::from_str("no value for placeholder '%(");
    append(&mut m, name.as_str());
    append(&mut m, ")");
    push_char(&mut m, ch);
    append(&mut m, "' at column ");
    append(&mut m, decimal(col).as_str());
    assert(m@ =~= no_value_text(name@, ch, col as nat));
    Failure::Jf(m)
}

/// An expanding named placeholder was given a default.
pub fn expandable_default_error(name: &String, col: usize) -> (e: Failure)
    ensures
        e@ == FailureView::Jf(expandable_default_text(name@, col as nat)),
{
    let mut m = String::from_str("expandable placeholder '");
    append(&mut m, name.as_str());
    append(&mut m, "' at column ");
    append(&mut m, decimal(col).as_str());
    append(&mut m, " cannot have a default value");
    assert(m@ =~= expandable_default_text(name@, col as nat));
    Failure::Jf(m)
}

/// A named placeholder ends in something other than `q` or `s`.
pub fn invalid_named_error(name: &String, stars: &str, ch: char, col: usize) -> (e: Failure)
    ensures
        e@ == FailureView::Jf(invalid_named_text(name@, stars@, ch, col as nat)),
{
    let mut m = String::from_str("invalid named placeholder '%(");
    append(&mut m, name.as_str());
    append(&mut m, ")");
    append(&mut m, stars);
    push_char(&mut m, ch);
    append(&mut m, "' at column ");
    append(&mut m, decimal(col).as_str());
    append(&mut m, ", use '%(");
    append(&mut m, name.as_str());
    append(&mut m, ")");
    append(&mut m, stars);
    append(&mut m, "q' for quoted strings and '%(");
    append(&mut m, name.as_str());
    append(&mut m, ")");
    append(&mut m, stars);
    append(&mut m, "s' for other values");
    assert(m@ =~= invalid_named_text(name@, stars@, ch, col as nat));
    Failure::Jf(m)
}

/// A placeholder name holds a character that names may not hold.
pub fn invalid_name_char_error(ch: char, col: usize) -> (e: Failure)
    ensures
        e@ == FailureView::Jf(invalid_name_char_text(ch, col as nat)),
{
    let mut m = String::from_str("invalid character ");
    append(&mut m, debug_char(ch).as_str());
    append(&mut m, " in placeholder name at column ");
    append(&mut m, decimal(col).as_str());
    append(&mut m, ", use numbers, letters and underscores only");
    assert(m@ =~= invalid_name_char_text(ch, col as nat));
    Failure::Jf(m)
}

/// A value given for named placeholders is neither `NAME=VALUE` nor `NAME@FILE`.
pub fn invalid_value_syntax_error(n: usize) -> (e: Failure)
    ensures
        e@ == FailureView::Jf(invalid_value_syntax_text(n as nat)),
{
    let mut m = String::from_str("invalid syntax for value no. ");
    append(&mut m, decimal(n).as_str());
    append(&mut m, ", use 'NAME=VALUE' or 'NAME@FILE' syntax");
    assert(m@ =~= invalid_value_syntax_text(n as nat));
    Failure::Jf(m)
}

/// A placeholder found no value to consume.
pub fn missing_value_error(col: usize) -> (e: Failure)
    ensures
        e@ == FailureView::Jf(missing_value_text(col as nat)),
{
    let mut m = String::from_str("placeholder missing value at column ");
    append(&mut m, decimal(col).as_str());
    assert(m@ =~= missing_value_text(col as nat));
    Failure::Jf(m)
}

/// A positional placeholder comes after a named one.
pub fn positional_after_named_error(ch: char, col: usize) -> (e: Failure)
    ensures
        e@ == FailureView::Jf(positional_after_named_text(ch, col as nat)),
{
    let mut m = String::from_str("positional placeholder '%");
    push_char(&mut m, ch);
    append(&mut m, "' at column ");
    append(&mut m, decimal(col).as_str());
    append(&mut m, " was used after named placeholders, use named placeholder syntax '%(NAME)");
    push_char(&mut m, ch);
    append(&mut m, "' instead");
    assert(m@ =~= positional_after_named_text(ch, col as nat));
    Failure::Jf(m)
}

/// A `%` is followed by something that starts no placeholder.
pub fn invalid_placeholder_error(stars: &str, ch: char, col: usize) -> (e: Failure)
    ensures
        e@ == FailureView::Jf(invalid_placeholder_text(stars@, ch, col as nat)),
{
    let mut m = String::from_str("invalid placeholder '%");
    append(&mut m, stars);
    push_char(&mut m, ch);
    append(&mut m, "' at column ");
    append(&mut m, decimal(col).as_str());
    append(&mut m, ", use one of '%");
    append(&mut m, stars);
    append(&mut m, "s' or '%");
    append(&mut m, stars);
    append(&mut m, "q', or escape it using '%%'");
    assert(m@ =~= invalid_placeholder_text(stars@, ch, col as nat));
    Failure::Jf(m)
}

/// No template was given.
pub fn not_enough_arguments_error() -> (e: Failure)
    ensures
        e@ == FailureView::Jf(not_enough_arguments_text()),
{
    let mut m = String::from_str("not enough arguments, expected at least one");
    assert(m@ =~= not_enough_arguments_text());
    Failure::Jf(m)
}

/// Positional values are left over after the template.
pub fn too_many_values_error() -> (e: Failure)
    ensures
        e@ == FailureView::Jf(too_many_values_text()),
{
    let mut m = String::from_str("too many positional values, not enough positional placeholders");
    assert(m@ =~= too_many_values_text());
    Failure::Jf(m)
}

/// A command-line option is not known.
pub fn invalid_argument_error(arg: &String) -> (e: Failure)
    ensures
        e@ == FailureView::Jf(invalid_argument_text(arg@)),
{
    let mut m = String::from_str("invalid argument ");
    append(&mut m, arg.as_str());
    append(&mut m, ", try -h or --help");
    assert(m@ =~= invalid_argument_text(arg@));
    Failure::Jf(m)
}

/// The stream ended where a value was to be read from it.
pub fn end_of_input_error() -> (e: Failure)
    ensures
        e@ == FailureView::Io(end_of_input_text()),
{
    Failure::Io(String::from_str("unexpected end of input"))
}

} // verus!
