//! The command line: options that choose the output form and where the
//! template comes from, then the template and its values.

use crate::document::{format_pretty, format_yaml, written_from, Output};
use crate::error::{invalid_argument_error, invalid_argument_text, Failure, FailureView};
use crate::quote::texts;
use crate::scan::{render, render_spec};
use crate::source::{
    file_entry, Halt, HaltView, Inputs, InputsView, Outcome, Request, RequestView, Step,
};
use crate::text::append;
use vstd::prelude::*;

verus! {

/// The form the result is written in.
#[derive(Clone, Copy, Debug, PartialEq, Eq, Structural)]
pub enum Format {
    /// The rendered text itself.
    Raw,
    Json,
    PrettyJson,
    Yaml,
}

/// What the command line asks for.
#[derive(Debug)]
pub enum Cli {
    Help,
    Version,
    /// Write the template, filled with the values, in this form.
    Format(Format, Option<String>, Vec<String>),
}

/// The mathematical value of a [`Cli`].
pub enum CliView {
    Help,
    Version,
    Format(Format, Option<Seq<char>>, Seq<Seq<char>>),
}

impl View for Cli {
    type V = CliView;

    open spec fn view(&self) -> CliView {
        match self {
            Cli::Help => CliView::Help,
            Cli::Version => CliView::Version,
            Cli::Format(f, t, a) => CliView::Format(
                *f,
                match t {
                    Some(s) => Some(s@),
                    None => None,
                },
                texts(a@),
            ),
        }
    }
}

/// The template `t` followed by the values `rest`, with the template read
/// from the file at path `t` when `is_file`.
pub open spec fn with_template(
    format: Format,
    t: Seq<char>,
    rest: Seq<Seq<char>>,
    is_file: bool,
    inp: InputsView,
) -> Result<CliView, HaltView> {
    if is_file {
        match file_entry(inp.files, t, 0) {
            Some(Ok(c)) => Ok(CliView::Format(format, Some(c), rest)),
            Some(Err(m)) => Err(HaltView::Fail(FailureView::Io(m))),
            None => Err(HaltView::Need(RequestView::File(t))),
        }
    } else {
        Ok(CliView::Format(format, Some(t), rest))
    }
}

/// Reading the command line `argv` from position `i`, with the output form
/// and the file flag chosen so far.
pub open spec fn parse_from(
    argv: Seq<Seq<char>>,
    i: nat,
    format: Format,
    is_file: bool,
    inp: InputsView,
) -> Result<CliView, HaltView>
    decreases argv.len() - i,
{
    if i >= argv.len() {
        Ok(CliView::Format(format, None, seq![]))
    } else {
        let a = argv[i as int];
        if a == "-h"@ || a == "--help"@ {
            Ok(CliView::Help)
        } else if a == "-v"@ || a == "--version"@ {
            Ok(CliView::Version)
        } else if a == "-r"@ || a == "--raw"@ {
            parse_from(argv, i + 1, Format::Raw, is_file, inp)
        } else if a == "-p"@ || a == "--pretty"@ {
            parse_from(argv, i + 1, Format::PrettyJson, is_file, inp)
        } else if a == "-y"@ || a == "--yaml"@ {
            parse_from(argv, i + 1, Format::Yaml, is_file, inp)
        } else if a == "-f"@ || a == "--file"@ {
            parse_from(argv, i + 1, format, true, inp)
        } else if a == "-"@ {
            match inp.whole {
                Some(Ok(t)) => Ok(CliView::Format(format, Some(t), argv.skip(i + 1 as int))),
                Some(Err(m)) => Err(HaltView::Fail(FailureView::Io(m))),
                None => Err(HaltView::Need(RequestView::WholeStream)),
            }
        } else if a == "--"@ {
            if i + 1 < argv.len() {
                with_template(format, argv[i + 1 as int], argv.skip(i + 2 as int), is_file, inp)
            } else {
                Ok(CliView::Format(format, None, seq![]))
            }
        } else if a.len() > 0 && a[0] == '-' {
            Err(HaltView::Fail(FailureView::Jf(invalid_argument_text(a))))
        } else {
            with_template(format, a, argv.skip(i + 1 as int), is_file, inp)
        }
    }
}

fn is_word(a: &String, w: &str) -> (r: bool)
    ensures
        r == (a@ == w@),
{
    let s = a.as_str();
    let n = s.unicode_len();
    if n != w.unicode_len() {
        return false;
    }
    let mut i: usize = 0;
    while i < n
        invariant
            s@ == a@,
            n == a@.len(),
            n == w@.len(),
            i <= n,
            forall|j: int| 0 <= j < i ==> a@[j] == w@[j],
        decreases n - i,
    {
        if s.get_char(i) != w.get_char(i) {
            return false;
        }
        i += 1;
    }
    assert(a@ =~= w@);
    true
}

fn rest_of(argv: &Vec<String>, from: usize) -> (r: Vec<String>)
    requires
        from <= argv@.len(),
    ensures
        texts(r@) == texts(argv@).skip(from as int),
{
    let mut r: Vec<String> = Vec::new();
    let mut i = from;
    while i < argv.len()
        invariant
            from <= i <= argv@.len(),
            texts(r@) == texts(argv@).subrange(from as int, i as int),
        decreases argv@.len() - i,
    {
        let ghost before = texts(r@);
        r.push(argv[i].clone());
        assert(texts(r@) =~= before.push(texts(argv@)[i as int]));
        i += 1;
        assert(texts(r@) =~= texts(argv@).subrange(from as int, i as int));
    }
    assert(texts(argv@).skip(from as int) =~= texts(argv@).subrange(from as int, argv@.len() as int));
    r
}

fn template_of(format: Format, t: &String, rest: Vec<String>, is_file: bool, inp: &Inputs) -> (r: Result<
    Cli,
    Halt,
>)
    ensures
        match with_template(format, t@, texts(rest@), is_file, inp@) {
            Ok(c) => r matches Ok(x) && x@ == c,
            Err(h) => r matches Err(x) && x@ == h,
        },
{
    if is_file {
        let mut i: usize = 0;
        while i < inp.files.len()
            invariant
                i <= inp@.files.len(),
                file_entry(inp@.files, t@, i as nat) == file_entry(inp@.files, t@, 0),
                is_file,
            decreases inp@.files.len() - i,
        {
            let entry = &inp.files[i];
            assert(inp@.files[i as int] == (entry.0@, crate::source::read_view(entry.1)));
            if entry.0 == *t {
                match &entry.1 {
                    Ok(c) => {
                        return Ok(Cli::Format(format, Some(c.clone()), rest));
                    },
                    Err(m) => {
                        return Err(Halt::Fail(Failure::Io(m.clone())));
                    },
                }
            }
            i += 1;
        }
        Err(Halt::Need(Request::File(t.clone())))
    } else {
        Ok(Cli::Format(format, Some(t.clone()), rest))
    }
}

impl Cli {
    /// Reads the command line `argv` (without the program's name).
    pub fn parse(argv: &Vec<String>, inputs: &Inputs) -> (r: Step<Cli>)
        ensures
            r@ == crate::source::outcome_of(
                parse_from(texts(argv@), 0, Format::Json, false, inputs@),
            ),
    {
        match parse_args(argv, inputs) {
            Ok(c) => Step::Done(Ok(c)),
            Err(Halt::Fail(e)) => Step::Done(Err(e)),
            Err(Halt::Need(q)) => Step::Need(q),
        }
    }

    /// Carries out what the command line asks for: the usage text, the
    /// version line, or the template written in the chosen form.
    pub fn process(self, version: &str, usage: &str, inputs: &Inputs) -> (r: Step<String>)
        ensures
            processed(self@, version@, usage@, inputs@, r@),
    {
        match self {
            Cli::Help => Step::Done(Ok(String::from_str(usage))),
            Cli::Version => {
                let mut s = String::from_str("jf ");
                append(&mut s, version);
                Step::Done(Ok(s))
            },
            Cli::Format(format, template, values) => {
                let mut args: Vec<String> = Vec::new();
                match template {
                    Some(t) => {
                        args.push(t);
                        let mut values = values;
                        args.append(&mut values);
                    },
                    None => {},
                }
                assert(texts(args@) =~= command_args(self@));
                match format {
                    Format::Raw => render(&args, inputs),
                    Format::Json => crate::document::format(&args, inputs),
                    Format::PrettyJson => format_pretty(&args, inputs),
                    Format::Yaml => format_yaml(&args, inputs),
                }
            },
        }
    }
}

/// The arguments handed to rendering: the template, if there is one, then
/// its values (which are only there after a template).
pub open spec fn command_args(c: CliView) -> Seq<Seq<char>> {
    match c {
        CliView::Format(_, Some(t), values) => seq![t] + values,
        _ => seq![],
    }
}

/// What carrying out `c` gives.
pub open spec fn processed(
    c: CliView,
    version: Seq<char>,
    usage: Seq<char>,
    inp: InputsView,
    r: Outcome<Seq<char>>,
) -> bool {
    match c {
        CliView::Help => r == Outcome::<Seq<char>>::Done(usage),
        CliView::Version => r == Outcome::<Seq<char>>::Done("jf "@ + version),
        CliView::Format(format, _, _) => {
            let rendered = render_spec(command_args(c), inp);
            match format {
                Format::Raw => r == rendered,
                Format::Json => written_from(rendered, Output::Json, r),
                Format::PrettyJson => written_from(rendered, Output::PrettyJson, r),
                Format::Yaml => written_from(rendered, Output::Yaml, r),
            }
        },
    }
}

fn parse_args(argv: &Vec<String>, inp: &Inputs) -> (r: Result<Cli, Halt>)
    ensures
        match parse_from(texts(argv@), 0, Format::Json, false, inp@) {
            Ok(c) => r matches Ok(x) && x@ == c,
            Err(h) => r matches Err(x) && x@ == h,
        },
{
    let ghost av = texts(argv@);
    let ghost whole = parse_from(av, 0, Format::Json, false, inp@);
    let mut format = Format::Json;
    let mut is_file = false;
    let mut i: usize = 0;
    while i < argv.len()
        invariant
            i <= argv@.len(),
            av == texts(argv@),
            whole == parse_from(av, 0, Format::Json, false, inp@),
            parse_from(av, i as nat, format, is_file, inp@) == whole,
        decreases argv@.len() - i,
    {
        let a = &argv[i];
        assert(av[i as int] == a@);
        if is_word(a, "-h") || is_word(a, "--help") {
            return Ok(Cli::Help);
        } else if is_word(a, "-v") || is_word(a, "--version") {
            return Ok(Cli::Version);
        } else if is_word(a, "-r") || is_word(a, "--raw") {
            format = Format::Raw;
        } else if is_word(a, "-p") || is_word(a, "--pretty") {
            format = Format::PrettyJson;
        } else if is_word(a, "-y") || is_word(a, "--yaml") {
            format = Format::Yaml;
        } else if is_word(a, "-f") || is_word(a, "--file") {
            is_file = true;
        } else if is_word(a, "-") {
            return match &inp.whole {
                Some(Ok(t)) => Ok(Cli::Format(format, Some(t.clone()), rest_of(argv, i + 1))),
                Some(Err(m)) => Err(Halt::Fail(Failure::Io(m.clone()))),
                None => Err(Halt::Need(Request::WholeStream)),
            };
        } else if is_word(a, "--") {
            if i + 1 < argv.len() {
                assert(av[i + 1] == argv@[i + 1]@);
                return template_of(format, &argv[i + 1], rest_of(argv, i + 2), is_file, inp);
            } else {
                let empty: Vec<String> = Vec::new();
                assert(texts(empty@) =~= seq![]);
                return Ok(Cli::Format(format, None, empty));
            }
        } else if a.as_str().unicode_len() > 0 && a.as_str().get_char(0) == '-' {
            return Err(Halt::Fail(invalid_argument_error(a)));
        } else {
            return template_of(format, a, rest_of(argv, i + 1), is_file, inp);
        }
        i += 1;
    }
    let empty: Vec<String> = Vec::new();
    assert(texts(empty@) =~= seq![]);
    Ok(Cli::Format(format, None, empty))
}

/// Reads the command line `argv` (without the program's name) and carries
/// out what it asks for.
pub fn parse_and_process(argv: &Vec<String>, version: &str, usage: &str, inputs: &Inputs) -> (r:
    Step<String>)
    ensures
        match parse_from(texts(argv@), 0, Format::Json, false, inputs@) {
            Ok(c) => processed(c, version@, usage@, inputs@, r@),
            Err(HaltView::Fail(f)) => r@ == Outcome::<Seq<char>>::Fail(f),
            Err(HaltView::Need(w)) => r@ == Outcome::<Seq<char>>::Need(w),
        },
{
    match Cli::parse(argv, inputs) {
        Step::Done(Ok(c)) => c.process(version, usage, inputs),
        Step::Done(Err(e)) => Step::Done(Err(e)),
        Step::Need(q) => Step::Need(q),
    }
}

} // verus!
