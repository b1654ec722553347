use jf::scan::Expansion;
use jf::{Cli, Failure, Format, Inputs, Request, Step};

fn strings(items: &[&str]) -> Vec<String> {
    items.iter().map(|s| s.to_string()).collect()
}

fn closed() -> Inputs {
    Inputs::with_stream(Vec::new())
}

fn render(items: &[&str]) -> Result<String, Failure> {
    jf::render(&strings(items), &closed()).done().expect("nothing to read")
}

fn format(items: &[&str]) -> Result<String, Failure> {
    jf::document::format(&strings(items), &closed())
        .done()
        .expect("nothing to read")
}

fn message(r: Result<String, Failure>) -> String {
    r.unwrap_err().message()
}

#[test]
fn plain_template_is_its_own_text() {
    assert_eq!(render(&["a %% b, [c]"]).unwrap(), "a % b, [c]");
    let args = strings(&["x", "y"]);
    let p = jf::format_partial("a %% b, [c]", &args, 0, &closed())
        .done()
        .unwrap()
        .unwrap();
    assert_eq!(p.text, "a % b, [c]");
    assert_eq!(p.next_arg, 0);
    assert_eq!(p.next_chunk, 0);
    assert_eq!(p.last, None);
}

#[test]
fn partial_reports_a_dangling_percent() {
    let p = jf::format_partial("ab%", &Vec::new(), 0, &closed())
        .done()
        .unwrap()
        .unwrap();
    assert_eq!(p.text, "ab");
    assert_eq!(p.last, Some('%'));
}

#[test]
fn positional_values_in_order() {
    assert_eq!(render(&["a %s b %q c", "1", "x"]).unwrap(), r#"a 1 b "x" c"#);
    assert_eq!(render(&["%s%s%s", "c", "b", "a"]).unwrap(), "cba");
}

#[test]
fn fewer_values_fail_at_the_placeholder() {
    assert_eq!(
        message(render(&["ab %s cd %q", "1"])),
        "jf: placeholder missing value at column 10"
    );
}

#[test]
fn more_values_fail_with_arity() {
    assert_eq!(
        message(render(&["%s", "1", "2"])),
        "jf: too many positional values, not enough positional placeholders"
    );
}

#[test]
fn empty_expansions() {
    assert_eq!(render(&["[%*s]"]).unwrap(), "[]");
    assert_eq!(render(&["{%**q}"]).unwrap(), "{}");
    assert_eq!(render(&["[%*-s]"]).unwrap(), "[]");
    assert_eq!(render(&["[%(a)*s]"]).unwrap(), "[]");
}

#[test]
fn comma_after_an_empty_expansion_is_dropped() {
    assert_eq!(render(&["[%*s, 1]"]).unwrap(), "[ 1]");
    assert_eq!(render(&["[%*s, 1]", "0"]).unwrap(), "[0, 1]");
}

#[test]
fn odd_pairs_fail() {
    assert_eq!(
        message(render(&["%**s", "a", "b", "c"])),
        "jf: placeholder missing value at column 3"
    );
    assert_eq!(
        message(render(&["%(k)**s", "k=a"])),
        "jf: placeholder missing value at column 6"
    );
}

#[test]
fn odd_pairs_from_the_stream_fail() {
    let inputs = Inputs::with_stream(strings(&["a", "b", "c"]));
    let r = jf::render(&strings(&["{%**-q}"]), &inputs).done().unwrap();
    assert_eq!(message(r), "jf: placeholder missing value at column 5");
}

#[test]
fn escaped_defaults() {
    assert_eq!(render(&[r"%(a=x\)\\y)s"]).unwrap(), r"x)\y");
}

#[test]
fn unbound_named_placeholders() {
    assert_eq!(render(&["%(foo=dflt)q"]).unwrap(), r#""dflt""#);
    assert_eq!(render(&["%(foo=dflt)s"]).unwrap(), "dflt");
    assert_eq!(render(&["%(foo?)q"]).unwrap(), "null");
    assert_eq!(render(&["[%(foo)?q]"]).unwrap(), "[]");
    assert_eq!(
        message(render(&["%(foo)s"])),
        "jf: no value for placeholder '%(foo)s' at column 6"
    );
}

#[test]
fn bound_named_value_wins_over_default() {
    assert_eq!(render(&["%(foo=dflt)q", "foo=bar"]).unwrap(), r#""bar""#);
    assert_eq!(render(&["%(foo?)s %(foo)s", "foo=1", "foo=2"]).unwrap(), "1 1");
}

#[test]
fn quoted_value_reads_back() {
    for v in ["plain", "with \"quotes\"", "back\\slash", "line\nbreak\ttab", "\u{1}\u{1f}", "é ü"] {
        let doc = format(&["%q", v]).unwrap();
        let back: String = serde_json::from_str(&doc).unwrap();
        assert_eq!(back, v);
    }
}

#[test]
fn raw_values_are_read_as_yaml() {
    assert_eq!(format(&["%s", "42"]).unwrap(), "42");
    assert_eq!(format(&["%s", "true"]).unwrap(), "true");
    assert_eq!(format(&["%s", "-1.5"]).unwrap(), "-1.5");
}

#[test]
fn quoting_escapes_as_json() {
    assert_eq!(jf::quote::quote("a\"b\n"), "\"a\\\"b\\n\"");
    assert_eq!(jf::quote::quote("\u{7}"), "\"\\u0007\"");
    assert_eq!(jf::quote::quote(""), "\"\"");
}

#[test]
fn scenario_object() {
    assert_eq!(format(&["{1: %s, two: %q}", "1", "2"]).unwrap(), r#"{"1":1,"two":"2"}"#);
}

#[test]
fn scenario_items() {
    assert_eq!(format(&["[%*s]", "1", "2", "3"]).unwrap(), "[1,2,3]");
}

#[test]
fn scenario_pairs() {
    assert_eq!(
        format(&["{%**q}", "one", "1", "two", "2"]).unwrap(),
        r#"{"one":"1","two":"2"}"#
    );
}

#[test]
fn scenario_default() {
    assert_eq!(format(&["%(foo=default)q"]).unwrap(), r#""default""#);
    assert_eq!(format(&["%(foo=default)q", "foo=bar"]).unwrap(), r#""bar""#);
}

#[test]
fn scenario_unbound_to_null() {
    assert_eq!(format(&["%(foo?)q"]).unwrap(), "null");
    assert_eq!(format(&["%(foo)?q"]).unwrap(), "null");
}

#[test]
fn unicode_names() {
    assert_eq!(render(&["%(café)s", "café=1"]).unwrap(), "1");
}

#[test]
fn stream_is_asked_for_when_open() {
    let args = Vec::new();
    let mut inputs = Inputs::new();
    match jf::format_partial("%-s", &args, 0, &inputs) {
        Step::Need(Request::Chunk) => {}
        other => panic!("unexpected {other:?}"),
    }
    inputs.push_chunk(Ok("7".to_string()));
    let p = jf::format_partial("%-s", &args, 0, &inputs).done().unwrap().unwrap();
    assert_eq!(p.text, "7");
    assert_eq!(p.next_chunk, 1);
}

#[test]
fn stream_failure_is_an_io_error() {
    let mut inputs = Inputs::new();
    inputs.push_chunk(Err("boom".to_string()));
    let r = jf::render(&strings(&["%-s"]), &inputs).done().unwrap();
    assert_eq!(message(r), "io: boom");
}

#[test]
fn stream_end_leaves_a_placeholder_without_value() {
    let mut inputs = Inputs::new();
    inputs.close();
    let r = jf::render(&strings(&["%-q"]), &inputs).done().unwrap();
    assert_eq!(message(r), "jf: placeholder missing value at column 2");
}

#[test]
fn stream_failure_fails_an_expansion() {
    let mut inputs = Inputs::new();
    inputs.push_chunk(Ok("1".to_string()));
    inputs.push_chunk(Err("boom".to_string()));
    inputs.push_chunk(Ok("2".to_string()));
    inputs.close();
    let r = jf::render(&strings(&["[%*-s] %-s"]), &inputs).done().unwrap();
    assert_eq!(message(r), "io: boom");
    let r = jf::render(&strings(&["{%**-q}"]), &inputs).done().unwrap();
    assert_eq!(message(r), "io: boom");
}

#[test]
fn files_are_asked_for_and_used() {
    let args = strings(&["%(a@notes.txt)q"]);
    let mut inputs = closed();
    match jf::render(&args, &inputs) {
        Step::Need(Request::File(p)) => assert_eq!(p, "notes.txt"),
        other => panic!("unexpected {other:?}"),
    }
    inputs.add_file("notes.txt".to_string(), Ok("hi".to_string()));
    assert_eq!(jf::render(&args, &inputs).done().unwrap().unwrap(), r#""hi""#);
    let mut failing = closed();
    failing.add_file("notes.txt".to_string(), Err("No such file".to_string()));
    assert_eq!(message(jf::render(&args, &failing).done().unwrap()), "io: No such file");
}

#[test]
fn named_value_from_a_file() {
    let args = strings(&["%(a)s", "a@v.txt"]);
    let mut inputs = closed();
    inputs.add_file("v.txt".to_string(), Ok("3".to_string()));
    assert_eq!(jf::render(&args, &inputs).done().unwrap().unwrap(), "3");
}

#[test]
fn command_line_raw_and_formats() {
    let run = |argv: &[&str]| {
        jf::parse_and_process(&strings(argv), "1.2.3", "usage text", &closed())
            .done()
            .expect("nothing to read")
    };
    assert_eq!(run(&["-r", "%s-%s", "a", "b"]).unwrap(), "a-b");
    assert_eq!(run(&["{a: %q}", "b"]).unwrap(), r#"{"a":"b"}"#);
    assert_eq!(run(&["-y", "{a: %q}", "b"]).unwrap(), "a: b\n");
    assert_eq!(run(&["-p", "[%s]", "1"]).unwrap(), "[\n  1\n]");
    assert_eq!(run(&["--", "-r"]).unwrap(), r#""-r""#);
    assert_eq!(run(&["-h"]).unwrap(), "usage text");
    assert_eq!(run(&["--version"]).unwrap(), "jf 1.2.3");
    assert_eq!(
        message(run(&["--bogus"])),
        "jf: invalid argument --bogus, try -h or --help"
    );
    assert_eq!(
        message(run(&[])),
        "jf: not enough arguments, expected at least one"
    );
}

#[test]
fn command_line_reads_templates() {
    let argv = strings(&["-r", "-f", "t.txt", "x"]);
    let mut inputs = closed();
    match jf::parse_and_process(&argv, "1", "u", &inputs) {
        Step::Need(Request::File(p)) => assert_eq!(p, "t.txt"),
        other => panic!("unexpected {other:?}"),
    }
    inputs.add_file("t.txt".to_string(), Ok("<%s>".to_string()));
    assert_eq!(
        jf::parse_and_process(&argv, "1", "u", &inputs).done().unwrap().unwrap(),
        "<x>"
    );

    let argv = strings(&["-r", "-", "y"]);
    let mut inputs = closed();
    match jf::parse_and_process(&argv, "1", "u", &inputs) {
        Step::Need(Request::WholeStream) => {}
        other => panic!("unexpected {other:?}"),
    }
    inputs.set_whole(Ok("[%s]".to_string()));
    assert_eq!(
        jf::parse_and_process(&argv, "1", "u", &inputs).done().unwrap().unwrap(),
        "[y]"
    );
}

#[test]
fn command_line_parse() {
    let argv = strings(&["-p", "tmpl", "a", "b"]);
    match Cli::parse(&argv, &closed()).done().unwrap().unwrap() {
        Cli::Format(Format::PrettyJson, Some(t), rest) => {
            assert_eq!(t, "tmpl");
            assert_eq!(rest, strings(&["a", "b"]));
        }
        other => panic!("unexpected {other:?}"),
    }
}

#[test]
fn serde_errors_carry_their_text() {
    let m = message(format(&["{}{}"]));
    assert!(m.starts_with("yaml: "));
    assert!(m.len() > "yaml: ".len());
}

#[test]
fn exit_codes() {
    assert_eq!(render(&["%z"]).unwrap_err().returncode(), 1);
    assert_eq!(format(&["{null: null}"]).unwrap_err().returncode(), 2);
    assert_eq!(format(&["{}{}"]).unwrap_err().returncode(), 3);
    let mut inputs = Inputs::new();
    inputs.push_chunk(Err("boom".to_string()));
    let r = jf::render(&strings(&["%-s"]), &inputs).done().unwrap();
    assert_eq!(r.unwrap_err().returncode(), 4);
}

#[test]
fn stars_of_expansions() {
    assert_eq!(Expansion::Single.stars(), "");
    assert_eq!(Expansion::Items.stars(), "*");
    assert_eq!(Expansion::Pairs.stars(), "**");
}

#[test]
fn decimal_numbers() {
    assert_eq!(jf::text::decimal(0), "0");
    assert_eq!(jf::text::decimal(907), "907");
    assert_eq!(jf::text::decimal(usize::MAX), usize::MAX.to_string());
}
