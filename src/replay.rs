//! Why running the engine again with more input is sound: an outcome that
//! did not wait for input stays the same once more input has been added.
//! A caller that answers each request and runs the engine again therefore
//! gets what a single pass that read its input on demand would give.

use crate::scan::{
    brace_from, lemma_named_advances, named_from, next_value, positional, scan, scan_from,
    stream_run, After, Expansion, Named, ScanState,
};
use crate::cli::{parse_from, Format};
use crate::scan::render_spec;
use crate::source::{
    collect_from, file_entry, peek, read_source, stream_path, HaltView, InputsView, Outcome,
};
use vstd::prelude::*;

verus! {

/// `n` holds everything `o` holds, and perhaps more: more chunks of a stream
/// that was still open, more files, the whole stream.
pub open spec fn extends(n: InputsView, o: InputsView) -> bool {
    &&& o.stream.len() <= n.stream.len()
    &&& n.stream.subrange(0, o.stream.len() as int) == o.stream
    &&& o.closed ==> n.closed && n.stream.len() == o.stream.len()
    &&& o.files.len() <= n.files.len()
    &&& n.files.subrange(0, o.files.len() as int) == o.files
    &&& o.whole is Some ==> n.whole == o.whole
}

/// A result that is not a request for input.
pub open spec fn settled<V>(r: Result<V, HaltView>) -> bool {
    !(r matches Err(HaltView::Need(_)))
}

proof fn lemma_peek_kept(o: InputsView, n: InputsView, k: nat)
    requires
        extends(n, o),
        !(peek(o, k) is Unknown),
    ensures
        peek(n, k) == peek(o, k),
{
    if k < o.stream.len() {
        assert(n.stream[k as int] == n.stream.subrange(0, o.stream.len() as int)[k as int]);
    }
}

proof fn lemma_file_kept(o: InputsView, n: InputsView, p: Seq<char>, i: nat)
    requires
        extends(n, o),
        file_entry(o.files, p, i) is Some,
    ensures
        file_entry(n.files, p, i) == file_entry(o.files, p, i),
    decreases o.files.len() - i,
{
    if i < o.files.len() {
        assert(n.files[i as int] == n.files.subrange(0, o.files.len() as int)[i as int]);
        if o.files[i as int].0 != p {
            lemma_file_kept(o, n, p, i + 1);
        }
    }
}

proof fn lemma_read_source_kept(o: InputsView, n: InputsView, p: Seq<char>, k: nat)
    requires
        extends(n, o),
        settled(read_source(p, o, k)),
    ensures
        read_source(p, n, k) == read_source(p, o, k),
{
    if p == stream_path() {
        lemma_peek_kept(o, n, k);
    } else {
        lemma_file_kept(o, n, p, 0);
    }
}

proof fn lemma_stream_run_kept(o: InputsView, n: InputsView, k: nat, acc: Seq<Seq<char>>)
    requires
        extends(n, o),
        settled(stream_run(o, k, acc)),
    ensures
        stream_run(n, k, acc) == stream_run(o, k, acc),
    decreases o.stream.len() - k,
{
    if k < o.stream.len() {
        assert(n.stream[k as int] == n.stream.subrange(0, o.stream.len() as int)[k as int]);
        if let Ok(t) = o.stream[k as int] {
            lemma_stream_run_kept(o, n, k + 1, acc.push(t));
        }
    }
}

proof fn lemma_collect_kept(
    args: Seq<Seq<char>>,
    v: nat,
    o: InputsView,
    n: InputsView,
    k: nat,
    acc: Seq<(Seq<char>, Seq<char>)>,
)
    requires
        extends(n, o),
        settled(collect_from(args, v, o, k, acc)),
    ensures
        collect_from(args, v, n, k, acc) == collect_from(args, v, o, k, acc),
    decreases args.len() - v,
{
    if v < args.len() {
        match crate::source::split_once(args[v as int], '=') {
            Some((name, value)) => {
                lemma_collect_kept(args, v + 1, o, n, k, acc.push((name, value)));
            },
            None => match crate::source::split_once(args[v as int], '@') {
                Some((name, path)) => {
                    lemma_read_source_kept(o, n, path, k);
                    if let Ok((text, k2)) = read_source(path, o, k) {
                        lemma_collect_kept(args, v + 1, o, n, k2, acc.push((name, text)));
                    }
                },
                None => {},
            },
        }
    }
}

proof fn lemma_named_kept(
    t: Seq<char>,
    j: nat,
    st: Named,
    b: Seq<(Seq<char>, Seq<char>)>,
    o: InputsView,
    n: InputsView,
    k: nat,
)
    requires
        extends(n, o),
        settled(named_from(t, j, st, b, o, k)),
    ensures
        named_from(t, j, st, b, n, k) == named_from(t, j, st, b, o, k),
    decreases t.len() - j,
{
    if j < t.len() {
        let ch = t[j as int];
        if ch == '=' && st.default is None {
            let (v, j2) = brace_from(t, j + 1, seq![], false);
            crate::scan::lemma_brace_advances(t, j + 1, seq![], false);
            lemma_named_kept(t, j2, Named { default: Some(v), after: After::Close, ..st }, b, o, n, k);
        } else if ch == '@' && st.default is None {
            let (p, j2) = brace_from(t, j + 1, seq![], false);
            crate::scan::lemma_brace_advances(t, j + 1, seq![], false);
            lemma_read_source_kept(o, n, p, k);
            if let Ok((v, k2)) = read_source(p, o, k) {
                lemma_named_kept(
                    t,
                    j2,
                    Named { default: Some(v), after: After::Close, ..st },
                    b,
                    o,
                    n,
                    k2,
                );
            }
        } else if ch == ')' {
            lemma_named_kept(t, j + 1, Named { after: After::Close, ..st }, b, o, n, k);
        } else if ch == '?' && st.after == After::Close {
            if st.default is None && !st.nullable {
                lemma_named_kept(t, j + 1, Named { optional: true, ..st }, b, o, n, k);
            }
        } else if ch == '?' && st.after == After::Name {
            if j + 1 < t.len() && t[j + 1 as int] == ')' {
                lemma_named_kept(t, j + 2, Named { nullable: true, after: After::Close, ..st }, b, o, n, k);
            }
        } else if ch == '*' && st.after == After::Close {
            lemma_named_kept(
                t,
                j + 1,
                Named { expansion: Expansion::Items, after: After::Star, ..st },
                b,
                o,
                n,
                k,
            );
        } else if ch == '*' && st.after == After::Star {
            lemma_named_kept(
                t,
                j + 1,
                Named { expansion: Expansion::Pairs, after: After::Star, ..st },
                b,
                o,
                n,
                k,
            );
        } else if (ch == 'q' || ch == 's') && (st.after == After::Close || st.after
            == After::Star) {
        } else if st.after == After::Name && crate::text::name_char(ch) {
            lemma_named_kept(t, j + 1, Named { name: st.name.push(ch), ..st }, b, o, n, k);
        }
    }
}

proof fn lemma_positional_kept(
    expansion: Expansion,
    from_stream: bool,
    quoted: bool,
    col: nat,
    args: Seq<Seq<char>>,
    a: nat,
    o: InputsView,
    n: InputsView,
    k: nat,
)
    requires
        extends(n, o),
        settled(positional(expansion, from_stream, quoted, col, args, a, o, k)),
    ensures
        positional(expansion, from_stream, quoted, col, args, a, n, k) == positional(
            expansion,
            from_stream,
            quoted,
            col,
            args,
            a,
            o,
            k,
        ),
{
    if from_stream {
        if expansion == Expansion::Single {
            lemma_peek_kept(o, n, k);
            assert(next_value(from_stream, col, args, a, n, k) == next_value(
                from_stream,
                col,
                args,
                a,
                o,
                k,
            ));
        } else {
            lemma_stream_run_kept(o, n, k, seq![]);
        }
    }
}

proof fn lemma_scan_kept(
    t: Seq<char>,
    i: nat,
    s: ScanState,
    args: Seq<Seq<char>>,
    o: InputsView,
    n: InputsView,
)
    requires
        extends(n, o),
        settled(scan_from(t, i, s, args, o)),
    ensures
        scan_from(t, i, s, args, n) == scan_from(t, i, s, args, o),
    decreases t.len() - i,
{
    if i < t.len() {
        let ch = t[i as int];
        if ch == '%' && s.pct {
            lemma_scan_kept(t, i + 1, ScanState { out: s.out.push('%'), pct: false, ..s }, args, o, n);
        } else if ch == '%' {
            lemma_scan_kept(t, i + 1, ScanState { pct: true, ..s }, args, o, n);
        } else if ch == '(' && s.pct {
            if !s.named {
                lemma_collect_kept(args, s.arg, o, n, s.chunk, seq![]);
            }
            let drained: Result<(Seq<(Seq<char>, Seq<char>)>, nat, nat), HaltView> = if s.named {
                Ok((s.bindings, s.arg, s.chunk))
            } else {
                match collect_from(args, s.arg, o, s.chunk, seq![]) {
                    Ok((b, k)) => Ok((b, args.len(), k)),
                    Err(h) => Err(h),
                }
            };
            if let Ok((b, a, k)) = drained {
                lemma_named_kept(t, i + 1, crate::scan::fresh_named(), b, o, n, k);
                lemma_named_advances(t, i + 1, crate::scan::fresh_named(), b, o, k);
                if let Ok((j, frag, k2, e)) = named_from(t, i + 1, crate::scan::fresh_named(), b, o, k) {
                    lemma_scan_kept(
                        t,
                        j,
                        ScanState {
                            out: s.out + frag,
                            pct: false,
                            named: true,
                            bindings: b,
                            empty: e,
                            arg: a,
                            chunk: k2,
                            ..s
                        },
                        args,
                        o,
                        n,
                    );
                }
            }
        } else if ch == '*' && s.pct && s.expansion == Expansion::Single {
            lemma_scan_kept(t, i + 1, ScanState { expansion: Expansion::Items, ..s }, args, o, n);
        } else if ch == '*' && s.pct && s.expansion == Expansion::Items {
            lemma_scan_kept(t, i + 1, ScanState { expansion: Expansion::Pairs, ..s }, args, o, n);
        } else if ch == '-' && s.pct {
            lemma_scan_kept(t, i + 1, ScanState { from_stream: true, ..s }, args, o, n);
        } else if ch == ',' && !s.pct && s.empty {
            lemma_scan_kept(t, i + 1, ScanState { empty: false, ..s }, args, o, n);
        } else if (ch == 's' || ch == 'q') && s.pct {
            if !s.named {
                lemma_positional_kept(s.expansion, s.from_stream, ch == 'q', i, args, s.arg, o, n, s.chunk);
                if let Ok((frag, a, k, e)) = positional(
                    s.expansion,
                    s.from_stream,
                    ch == 'q',
                    i,
                    args,
                    s.arg,
                    o,
                    s.chunk,
                ) {
                    lemma_scan_kept(
                        t,
                        i + 1,
                        ScanState {
                            out: s.out + frag,
                            pct: false,
                            expansion: Expansion::Single,
                            from_stream: false,
                            empty: e,
                            arg: a,
                            chunk: k,
                            ..s
                        },
                        args,
                        o,
                        n,
                    );
                }
            }
        } else if !s.pct {
            lemma_scan_kept(
                t,
                i + 1,
                ScanState {
                    out: s.out.push(ch),
                    pct: false,
                    expansion: Expansion::Single,
                    from_stream: false,
                    empty: false,
                    ..s
                },
                args,
                o,
                n,
            );
        }
    }
}

/// Adding input never changes a scan that did not wait for input: the
/// engine, run again once a request has been answered, ends as before or
/// goes further.
pub proof fn law_more_input_same_outcome(
    t: Seq<char>,
    args: Seq<Seq<char>>,
    start: nat,
    o: InputsView,
    n: InputsView,
)
    requires
        extends(n, o),
        settled(scan(t, args, start, o)),
    ensures
        scan(t, args, start, n) == scan(t, args, start, o),
{
    lemma_scan_kept(t, 0, crate::scan::initial_scan(start), args, o, n);
}

/// The outcome that a render or a command line settles on: anything but a
/// request for input.
pub open spec fn outcome_settled<V>(r: Outcome<V>) -> bool {
    !(r is Need)
}

/// Adding input never changes a render that did not wait for input.
pub proof fn law_more_input_same_render(args: Seq<Seq<char>>, o: InputsView, n: InputsView)
    requires
        extends(n, o),
        outcome_settled(render_spec(args, o)),
    ensures
        render_spec(args, n) == render_spec(args, o),
{
    if args.len() > 0 {
        lemma_scan_kept(args[0], 0, crate::scan::initial_scan(1), args, o, n);
    }
}

proof fn lemma_parse_kept(
    argv: Seq<Seq<char>>,
    i: nat,
    format: Format,
    is_file: bool,
    o: InputsView,
    n: InputsView,
)
    requires
        extends(n, o),
        settled(parse_from(argv, i, format, is_file, o)),
    ensures
        parse_from(argv, i, format, is_file, n) == parse_from(argv, i, format, is_file, o),
    decreases argv.len() - i,
{
    if i < argv.len() {
        let a = argv[i as int];
        if a == "-h"@ || a == "--help"@ || a == "-v"@ || a == "--version"@ {
        } else if a == "-r"@ || a == "--raw"@ {
            lemma_parse_kept(argv, i + 1, Format::Raw, is_file, o, n);
        } else if a == "-p"@ || a == "--pretty"@ {
            lemma_parse_kept(argv, i + 1, Format::PrettyJson, is_file, o, n);
        } else if a == "-y"@ || a == "--yaml"@ {
            lemma_parse_kept(argv, i + 1, Format::Yaml, is_file, o, n);
        } else if a == "-f"@ || a == "--file"@ {
            lemma_parse_kept(argv, i + 1, format, true, o, n);
        } else if a == "-"@ {
        } else if a == "--"@ {
            if i + 1 < argv.len() && is_file {
                lemma_file_kept(o, n, argv[i + 1 as int], 0);
            }
        } else if a.len() > 0 && a[0] == '-' {
        } else if is_file {
            lemma_file_kept(o, n, a, 0);
        }
    }
}

/// Adding input never changes how a command line that did not wait for
/// input is read.
pub proof fn law_more_input_same_command(argv: Seq<Seq<char>>, o: InputsView, n: InputsView)
    requires
        extends(n, o),
        settled(parse_from(argv, 0, Format::Json, false, o)),
    ensures
        parse_from(argv, 0, Format::Json, false, n) == parse_from(argv, 0, Format::Json, false, o),
{
    lemma_parse_kept(argv, 0, Format::Json, false, o, n);
}

} // verus!
