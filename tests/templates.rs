use jf::{Failure, Inputs, Request, Step};

fn strings(items: &[&str]) -> Vec<String> {
    items.iter().map(|s| s.to_string()).collect()
}

/// A text with quotes, backslashes and line breaks, as a usage text has.
const USAGE: &str = "USAGE\n  jf TEMPLATE [VALUE]... [NAME=VALUE]...\n\n  \"%q\" quotes, \\ escapes\n";

/// The files that the tests' templates read, with what reading them gives.
const FILES: [(&str, Result<&str, &str>); 3] = [
    ("README.md", Ok("# jf\n")),
    ("./src/usage.txt", Ok(USAGE)),
    ("/usr/bin/env", Err("stream did not contain valid UTF-8")),
];

/// Runs `f` until it finishes, answering its requests for files from
/// `FILES`; the stream is empty.
fn run<T>(f: impl Fn(&Inputs) -> Step<T>) -> Result<T, Failure> {
    let mut inputs = Inputs::with_stream(Vec::new());
    loop {
        match f(&inputs) {
            Step::Done(r) => return r,
            Step::Need(Request::File(p)) => {
                let (_, content) = FILES
                    .iter()
                    .find(|(path, _)| *path == p)
                    .expect("a file the tests know");
                let content = content.map(|c| c.to_string()).map_err(|e| e.to_string());
                inputs.add_file(p, content);
            }
            Step::Need(other) => panic!("unexpected request {other:?}"),
        }
    }
}

fn format(items: &[&str]) -> Result<String, Failure> {
    let args = strings(items);
    run(|inputs| jf::document::format(&args, inputs))
}

fn format_pretty(items: &[&str]) -> Result<String, Failure> {
    let args = strings(items);
    run(|inputs| jf::document::format_pretty(&args, inputs))
}

fn format_yaml(items: &[&str]) -> Result<String, Failure> {
    let args = strings(items);
    run(|inputs| jf::document::format_yaml(&args, inputs))
}

fn render(items: &[&str]) -> Result<String, Failure> {
    let args = strings(items);
    run(|inputs| jf::render(&args, inputs))
}

fn partial(template: &str, args: &[&str], stream: &[&str]) -> Result<String, Failure> {
    let args = strings(args);
    let inputs = Inputs::with_stream(strings(stream));
    jf::format_partial(template, &args, 0, &inputs)
        .done()
        .expect("the stream is complete")
        .map(|p| p.text)
}

fn error(r: Result<String, Failure>) -> String {
    r.unwrap_err().message()
}

#[test]
fn test_format_positional() {
    let args = [
        r#"{"1": %s, one: %q, "true": %s, "truestr": %q, foo: %s, bar: %q, esc: "%%"}"#,
        "1",
        "1",
        "true",
        "true",
        "foo",
        "bar",
    ];

    assert_eq!(
        format(&args).unwrap(),
        r#"{"1":1,"one":"1","true":true,"truestr":"true","foo":"foo","bar":"bar","esc":"%"}"#
    );
}

#[test]
fn test_format_from_stdin() {
    let res = partial(r#"{%q: %-s, %q: %-s, %q: %-s}"#, &["one", "two", "three"], &["1", "2", "3"]).unwrap();
    assert_eq!(res, r#"{"one": 1, "two": 2, "three": 3}"#);

    let res = partial(
        r#"{"1": %-s, one: %q, "true": %s, truestr: %-q, foo: %-s, bar: %q, esc: "%%"}"#,
        &["1", "true", "bar"],
        &["1", "true", "foo"],
    )
    .unwrap();
    assert_eq!(
        res,
        r#"{"1": 1, one: "1", "true": true, truestr: "true", foo: foo, bar: "bar", esc: "%"}"#
    );
}

#[test]
fn test_format_expand_items_from_stdin() {
    let res = partial(
        r#"[start, %*-s, mid, %*s, end]"#,
        &["2", "false", "bar"],
        &["1", "true", "foo"],
    )
    .unwrap();
    assert_eq!(res, r#"[start, 1,true,foo, mid, 2,false,bar, end]"#);
}

#[test]
fn test_format_expand_pairs_from_stdin() {
    let res = partial(
        r#"{args: {%**q}, stdin: {%**-q}}"#,
        &["three", "3"],
        &["one", "1", "two", "2"],
    )
    .unwrap();
    assert_eq!(
        res,
        r#"{args: {"three":"3"}, stdin: {"one":"1","two":"2"}}"#
    );
}

#[test]
fn test_format_merge_arrays() {
    assert_eq!(format(&["[%(a)*s, %(b)*s]"]).unwrap(), "[]");
    assert_eq!(format(&["[%(a)*s, %(b)*s]", "a=1", "a=2"]).unwrap(), "[1,2]");
    assert_eq!(format(&["[%(a)*s, %(b)*s]", "b=1", "b=2"]).unwrap(), "[1,2]");
    assert_eq!(
        format(&["[%(a)*s, %(b)*s]", "a=1", "b=2", "a=3", "b=4"]).unwrap(),
        "[1,3,2,4]"
    );
}

#[test]
fn test_format_merge_objs() {
    assert_eq!(format(&["{%(a)*s, %(b)*s}"]).unwrap(), "{}");
    assert_eq!(format(&["{%(a)**s, %(b)**s}", "a=1", "a=2"]).unwrap(), r#"{"1":2}"#);
    assert_eq!(format(&["{%(a)**s, %(b)**s}", "b=1", "b=2"]).unwrap(), r#"{"1":2}"#);
    assert_eq!(
        format(&["{%(a)**s, %(b)**s}", "a=1", "b=2", "a=3", "b=4"]).unwrap(),
        r#"{"1":3,"2":4}"#
    );
}

#[test]
fn test_format_named() {
    let args = [
        r#"{"1": %(1)s, one: %(1)q, "true": %(true)s, "truestr": %(true)q, foo: %(foo)s, bar: %(bar)q, esc: "%%"}"#,
        "1=1",
        "true=true",
        "foo=foo",
        "bar=bar",
    ];

    assert_eq!(
        format(&args).unwrap(),
        r#"{"1":1,"one":"1","true":true,"truestr":"true","foo":"foo","bar":"bar","esc":"%"}"#
    );

    assert_eq!(
        format(&[r#"{1: %(1=1)s, one: %(1=one)q}"#]).unwrap(),
        r#"{"1":1,"one":"one"}"#
    )
}

#[test]
fn test_format_both() {
    assert_eq!(
        format(&[r#"{positional: %q, named: %(named)s}"#, "foo", "named=bar"]).unwrap(),
        r#"{"positional":"foo","named":"bar"}"#
    );
}

#[test]
fn test_format_named_from_file_path() {
    assert_eq!(
        format(&["%(NAME)q", "NAME@./src/usage.txt"]).unwrap(),
        serde_json::to_string(USAGE).unwrap()
    );
}

#[test]
fn test_format_named_from_stdin() {
    let res = partial("{%(FOO)q: %(BAR)q}", &["FOO@-", "BAR@-"], &["foo", "bar"]).unwrap();
    assert_eq!(res, r#"{"foo": "bar"}"#);
}

#[test]
fn test_format_named_with_default() {
    let args = [
        r#"{"1": %(1=1)s, one: %(1=1)q, foo: %(foo=default)q, empty: %(bar=)q, esc: %(x=(\))q, multi=: %(a=b=c)q}"#,
        "foo=bar",
    ];
    assert_eq!(
        format(&args).unwrap(),
        r#"{"1":1,"one":"1","foo":"bar","empty":"","esc":"()","multi=":"b=c"}"#
    );
}

#[test]
fn test_format_named_with_default_from_file() {
    assert_eq!(
        format(&["%(foo@./src/usage.txt)q"]).unwrap(),
        serde_json::to_string(USAGE).unwrap()
    );
    assert_eq!(format(&["%(foo@./src/usage.txt)q", "foo=bar"]).unwrap(), r#""bar""#);
}

#[test]
fn test_format_named_with_default_from_stdin() {
    let res = partial("%(foo@-)q", &[], &["foo"]).unwrap();
    assert_eq!(res, r#""foo""#);

    let res = partial("%(foo@-)q", &["foo=bar"], &["foo"]).unwrap();
    assert_eq!(res, r#""bar""#);
}

#[test]
fn test_unexpected_eof() {
    let err = error(partial("%(foo@-)q", &[], &[]));
    assert_eq!(err, "io: unexpected end of input");
}

#[test]
fn test_format_optional() {
    assert_eq!(
        format(&[r#"{foo: %(foo)?q, bar: %(bar)?q}"#, "foo=foo"]).unwrap(),
        r#"{"foo":"foo","bar":null}"#
    );
    assert_eq!(
        format(&[r#"{foo: %(foo)?q, bar: %(bar)?q}"#, "bar=bar"]).unwrap(),
        r#"{"foo":null,"bar":"bar"}"#
    );
    let args = [
        r#"{"null": %(1)?s %(one)?q, "2": %(2)?s %(two)?q, three: %(3)?s %(three)?q}"#,
        "2=2",
        "three=3",
    ];
    assert_eq!(
        format(&args).unwrap(),
        r#"{"null":null,"2":2,"three":"3"}"#
    );
}

#[test]
fn test_format_expand_positional_items() {
    assert_eq!(format(&[r#"[%*s]"#]).unwrap(), r#"[]"#);
    assert_eq!(
        format(&[r#"{foo: [1, %*s, 4]}"#, "2", "3"]).unwrap(),
        r#"{"foo":[1,2,3,4]}"#
    );
    assert_eq!(
        format(&[r#"{foo: [1, %*q, 4]}"#, "2", "3"]).unwrap(),
        r#"{"foo":[1,"2","3",4]}"#
    );
}

#[test]
fn test_format_expand_positional_pairs() {
    assert_eq!(format(&[r#"{%**s}"#]).unwrap(), r#"{}"#);
    assert_eq!(
        format(&[r#"{foo: bar, %**s, 2: 2}"#, "1", "1"]).unwrap(),
        r#"{"foo":"bar","1":1,"2":2}"#
    );
    assert_eq!(
        format(&[r#"{foo: {%**q, 3: 3}}"#, "one", "1", "two", "2"]).unwrap(),
        r#"{"foo":{"one":"1","two":"2","3":3}}"#
    );
}

#[test]
fn test_format_named_items() {
    assert_eq!(format(&[r#"[%(foo)*s]"#]).unwrap(), r#"[]"#);
    let args = [
        r#"[%(foo)s, %(bar)q, %(foo)*s, %(bar)*q]"#,
        "foo=1",
        "foo=2",
        "bar=3",
        "bar=4",
    ];
    assert_eq!(format(&args).unwrap(), r#"[1,"3",1,2,"3","4"]"#);
}

#[test]
fn test_format_named_pairs() {
    assert_eq!(format(&[r#"{%(foo)**s}"#]).unwrap(), r#"{}"#);
    let args = [
        r#"{foo: %(foo)s, bar: %(bar)q, %(foo)**s, %(bar)**q}"#,
        "foo=one",
        "foo=1",
        "foo=two",
        "foo=2",
        "bar=three",
        "bar=3",
        "bar=four",
        "bar=4",
    ];
    assert_eq!(
        format(&args).unwrap(),
        r#"{"foo":"one","bar":"three","one":1,"two":2,"three":"3","four":"4"}"#
    );
}

#[test]
fn test_render() {
    assert_eq!(render(&["%*s", "1", "2", "3"]).unwrap(), "1,2,3");
    assert_eq!(render(&["%s   %q, (%s)", "1", "2", "3"]).unwrap(), r#"1   "2", (3)"#);
}

#[test]
fn test_yaml() {
    assert_eq!(
        format_yaml(&["{a: b, c: d, e: [f, g]}"]).unwrap(),
        "a: b\nc: d\ne:\n- f\n- g\n"
    );
}

#[test]
fn test_pretty_json() {
    assert_eq!(
        format_pretty(&["{a: b, c: d, e: [f, g]}"]).unwrap(),
        "{\n  \"a\": \"b\",\n  \"c\": \"d\",\n  \"e\": [\n    \"f\",\n    \"g\"\n  ]\n}"
    );
}

#[test]
fn test_optional_placeholder_with_default_value_error() {
    assert_eq!(
        error(format(&[r#"%(foo=bar)?q"#])),
        "jf: optional placeholder 'foo' at column 10 cannot have a default value"
    );
}

#[test]
fn test_nullable_placeholder_must_end_with_error() {
    assert_eq!(
        error(format(&[r#"%(foo?bar)q"#])),
        "jf: nullable placeholder 'foo' at column 5 must end with '?)'"
    );
}

#[test]
fn test_named_expandable_placeholder_with_default_value_error() {
    assert_eq!(
        error(format(&[r#"%(foo=default)*q"#])),
        "jf: expandable placeholder 'foo' at column 15 cannot have a default value"
    );
    assert_eq!(
        error(format(&[r#"%(foo=default)**q"#])),
        "jf: expandable placeholder 'foo' at column 16 cannot have a default value"
    );
}

#[test]
fn test_missing_name_error() {
    assert_eq!(
        error(format(&[r#"%()s"#])),
        "jf: placeholder missing name at column 3"
    );
    assert_eq!(
        error(format(&[r#"%(=foo)q"#])),
        "jf: placeholder missing name at column 7"
    );
}

#[test]
fn test_missing_value_error() {
    let args = [
        r#"{"1": %s, one: %q, "true": %s, "truestr": %q, foo: %s, bar: %q, esc: %%}"#,
        "1",
        "1",
        "true",
        "true",
        "foo",
    ];
    assert_eq!(
        error(format(&args)),
        "jf: placeholder missing value at column 61"
    );
    assert_eq!(
        error(format(&[r#"{%**q}"#, "1"])),
        "jf: placeholder missing value at column 4"
    );
}

#[test]
fn test_too_many_values_error() {
    let args = [
        r#"{"1": %s, one: %q, "true": %s, "truestr": %q, foo: %s, bar: %q, esc: %%}"#,
        "1",
        "1",
        "true",
        "true",
        "foo",
        "bar",
        "baz",
    ];
    assert_eq!(
        error(format(&args)),
        "jf: too many positional values, not enough positional placeholders"
    );
}

#[test]
fn test_invalid_placeholder_error() {
    assert_eq!(
        error(format(&["%z"])),
        "jf: invalid placeholder '%z' at column 1, use one of '%s' or '%q', or escape it using '%%'"
    );
    assert_eq!(
        error(format(&["%*z"])),
        "jf: invalid placeholder '%*z' at column 2, use one of '%*s' or '%*q', or escape it using '%%'"
    );
    assert_eq!(
        error(format(&["%**z"])),
        "jf: invalid placeholder '%**z' at column 3, use one of '%**s' or '%**q', or escape it using '%%'"
    );
}

#[test]
fn test_incomplete_placeholder_error() {
    for arg in [
        "%",
        "%-",
        "%(",
        "%()",
        "%(foo",
        "%(foo)",
        "%(foo)?",
        "%(foo)*",
        "%(foo)**",
        "%(foo=",
        "%(foo=bar",
        "%(foo@README.md",
        "%(foo=bar)",
        "%(foo@README.md)",
        "%(foo=bar)*",
        "%(foo@README.md)*",
        "%(foo=bar)**",
        "%(foo@README.md)**",
    ] {
        assert_eq!(
            error(format(&[arg])),
            "jf: template ended with incomplete placeholder"
        );
    }
}

#[test]
fn test_not_enough_arguments_error() {
    let usage_err = error(format(&[]));
    assert!(usage_err.contains("not enough arguments"));
}

#[test]
fn test_yaml_error() {
    assert_eq!(
        error(format(&["{}{}"])),
        "yaml: deserializing from YAML containing more than one document is not supported",
    );
}

#[test]
fn test_json_error() {
    assert_eq!(error(format(&["{null: null}"])), "json: key must be a string");
}

#[test]
fn test_io_error() {
    assert_eq!(
        error(format(&["%(devnull@/usr/bin/env)q"])),
        "io: stream did not contain valid UTF-8",
    )
}

#[test]
fn test_no_value_for_placeholder_name_error() {
    assert_eq!(
        error(format(&["%(foo)q", "bar=bar"])),
        "jf: no value for placeholder '%(foo)q' at column 6"
    );
    assert_eq!(
        error(format(&["%(foo)s", "bar=bar"])),
        "jf: no value for placeholder '%(foo)s' at column 6"
    );
    assert_eq!(
        error(format(&["%(foo=default)q: %(foo)q"])),
        "jf: no value for placeholder '%(foo)q' at column 23"
    );
    assert_eq!(
        error(format(&["%(foo=default)q: %(bar)s"])),
        "jf: no value for placeholder '%(bar)s' at column 23"
    );
}

#[test]
fn test_invalid_character_in_placeholder_name_error() {
    for ch in [' ', '\t', '\n', '\r', '\0', '\'', '"', '{', '}'].iter() {
        let template = format!("%(foo{ch}bar)s)");
        assert_eq!(
            error(format(&[template.as_str()])),
            format!("jf: invalid character {ch:?} in placeholder name at column 5, use numbers, letters and underscores only")
        );
    }
}

#[test]
fn test_positional_placeholder_was_used_as_named_placeholder_error() {
    assert_eq!(
        error(format(&["{foo: %(foo)q, bar: %q}", "foo=foo"])),
        "jf: positional placeholder '%q' at column 21 was used after named placeholders, use named placeholder syntax '%(NAME)q' instead"
    );
    assert_eq!(
        error(format(&["{foo: %(foo)s, bar: %s}", "foo=foo"])),
        "jf: positional placeholder '%s' at column 21 was used after named placeholders, use named placeholder syntax '%(NAME)s' instead"
    );
}

#[test]
fn test_invalid_syntax_for_value_of_named_placeholder_error() {
    assert_eq!(
        error(format(&["{foo: %(foo)q}", "foo"])),
        "jf: invalid syntax for value no. 1, use 'NAME=VALUE' or 'NAME@FILE' syntax"
    );
}

#[test]
fn test_invalid_named_placeholder_error() {
    assert_eq!(
        error(format(&["%(foo)x"])),
        "jf: invalid named placeholder '%(foo)x' at column 6, use '%(foo)q' for quoted strings and '%(foo)s' for other values"
    );
    assert_eq!(
        error(format(&["%(foo)-"])),
        "jf: invalid named placeholder '%(foo)-' at column 6, use '%(foo)q' for quoted strings and '%(foo)s' for other values"
    );
    assert_eq!(
        error(format(&["%(foo)*x"])),
        "jf: invalid named placeholder '%(foo)*x' at column 7, use '%(foo)*q' for quoted strings and '%(foo)*s' for other values"
    );
    assert_eq!(
        error(format(&["%(foo)*-"])),
        "jf: invalid named placeholder '%(foo)*-' at column 7, use '%(foo)*q' for quoted strings and '%(foo)*s' for other values"
    );
    assert_eq!(
        error(format(&["%(foo)**x"])),
        "jf: invalid named placeholder '%(foo)**x' at column 8, use '%(foo)**q' for quoted strings and '%(foo)**s' for other values"
    );
    assert_eq!(
        error(format(&["%(foo)**-"])),
        "jf: invalid named placeholder '%(foo)**-' at column 8, use '%(foo)**q' for quoted strings and '%(foo)**s' for other values"
    );
}

#[test]
fn test_usage_example() {
    assert_eq!(format(&["%s", "1"]).unwrap(), "1");
    assert_eq!(format(&["%q", "1"]).unwrap(), r#""1""#);
    assert_eq!(format(&["[%*s]", "1", "2", "3"]).unwrap(), "[1,2,3]");
    assert_eq!(
        format(&["{%**q}", "one", "1", "two", "2", "three", "3"]).unwrap(),
        r#"{"one":"1","two":"2","three":"3"}"#
    );
    assert_eq!(
        format(&[
            "{%q: %(value=default)q, %(bar)**q}",
            "foo",
            "value=bar",
            "bar=biz",
            "bar=baz",
        ])
        .unwrap(),
        r#"{"foo":"bar","biz":"baz"}"#
    );
    assert_eq!(
        format(&[
            "{str or bool: %(str)?q %(bool)?s, nullable: %(nullable?)q}",
            "str=true",
        ])
        .unwrap(),
        r#"{"str or bool":"true","nullable":null}"#
    );
    assert_eq!(
        format(&[
            r#"{1: %s, two: %q, 3: %(3)s, four: %(four=4)q, "%%": %(pct?)q}"#,
            "1",
            "2",
            "3=3",
        ])
        .unwrap(),
        r#"{"1":1,"two":"2","3":3,"four":"4","%":null}"#
    );
}
