//! Where values come from: the positional values, the named values drained
//! from them, the external stream and the files.
//!
//! The engine never reads anything itself. It is handed an [`Inputs`] that
//! holds what has been read so far; when it needs more it stops with a
//! [`Request`], and it is run again once the answer has been added.

use crate::error::{
    end_of_input_error, end_of_input_text, invalid_value_syntax_error, invalid_value_syntax_text,
    Failure, FailureView,
};
use crate::quote::texts;
use crate::replay::extends;
use crate::text::{chars_of, string_of};
use vstd::prelude::*;

verus! {

/// What the engine has been given of the outside world.
pub struct Inputs {
    /// The chunks of the external stream read so far, in order; a chunk that
    /// could not be read holds the reason.
    pub stream: Vec<Result<String, String>>,
    /// Whether the stream has reported its end after these chunks.
    pub closed: bool,
    /// The files read so far: a path, and the contents or the reason they
    /// could not be read.
    pub files: Vec<(String, Result<String, String>)>,
    /// The whole stream read at once, when the template itself comes from
    /// it.
    pub whole: Option<Result<String, String>>,
}

/// The view of one read.
pub open spec fn read_view(r: Result<String, String>) -> Result<Seq<char>, Seq<char>> {
    match r {
        Ok(t) => Ok(t@),
        Err(m) => Err(m@),
    }
}

/// The mathematical value of an [`Inputs`].
pub struct InputsView {
    pub stream: Seq<Result<Seq<char>, Seq<char>>>,
    pub closed: bool,
    pub files: Seq<(Seq<char>, Result<Seq<char>, Seq<char>>)>,
    pub whole: Option<Result<Seq<char>, Seq<char>>>,
}

impl View for Inputs {
    type V = InputsView;

    open spec fn view(&self) -> InputsView {
        InputsView {
            stream: self.stream@.map_values(|r: Result<String, String>| read_view(r)),
            closed: self.closed,
            files: self.files@.map_values(
                |f: (String, Result<String, String>)| (f.0@, read_view(f.1)),
            ),
            whole: match self.whole {
                Some(w) => Some(read_view(w)),
                None => None,
            },
        }
    }
}

impl Inputs {
    /// Nothing read yet: the stream is still open and no file is known.
    pub fn new() -> (r: Inputs)
        ensures
            r@.stream.len() == 0,
            !r@.closed,
            r@.files.len() == 0,
            r@.whole is None,
    {
        Inputs { stream: Vec::new(), closed: false, files: Vec::new(), whole: None }
    }

    /// A stream that holds exactly these chunks and then ends; no file is
    /// known.
    pub fn with_stream(chunks: Vec<String>) -> (r: Inputs)
        ensures
            r@.stream == texts(chunks@).map_values(|t: Seq<char>| Ok::<Seq<char>, Seq<char>>(t)),
            r@.closed,
            r@.files.len() == 0,
            r@.whole is None,
    {
        let mut stream: Vec<Result<String, String>> = Vec::new();
        let mut i: usize = 0;
        while i < chunks.len()
            invariant
                i <= chunks@.len(),
                stream@.len() == i,
                forall|j: int| 0 <= j < i ==> stream@[j] == Ok::<String, String>(chunks@[j]),
            decreases chunks@.len() - i,
        {
            stream.push(Ok(chunks[i].clone()));
            i += 1;
        }
        let r = Inputs { stream, closed: true, files: Vec::new(), whole: None };
        assert(r@.stream =~= texts(chunks@).map_values(|t: Seq<char>| Ok::<Seq<char>, Seq<char>>(t)));
        assert(r@.files =~= seq![]);
        r
    }

    /// Adds the next chunk of the stream, or the reason it could not be read.
    pub fn push_chunk(&mut self, chunk: Result<String, String>)
        ensures
            final(self)@.stream == old(self)@.stream.push(read_view(chunk)),
            final(self)@.closed == old(self)@.closed,
            final(self)@.files == old(self)@.files,
            final(self)@.whole == old(self)@.whole,
            !old(self)@.closed ==> extends(final(self)@, old(self)@),
    {
        self.stream.push(chunk);
        assert(self@.stream =~= old(self)@.stream.push(read_view(chunk)));
        assert(self@.stream.subrange(0, old(self)@.stream.len() as int) =~= old(self)@.stream);
        assert(self@.files.subrange(0, old(self)@.files.len() as int) =~= old(self)@.files);
    }

    /// Records that the stream has ended.
    pub fn close(&mut self)
        ensures
            final(self)@.stream == old(self)@.stream,
            final(self)@.closed,
            final(self)@.files == old(self)@.files,
            final(self)@.whole == old(self)@.whole,
            extends(final(self)@, old(self)@),
    {
        self.closed = true;
        assert(self@.stream.subrange(0, old(self)@.stream.len() as int) =~= old(self)@.stream);
        assert(self@.files.subrange(0, old(self)@.files.len() as int) =~= old(self)@.files);
    }

    /// Records what reading the whole stream at once gave.
    pub fn set_whole(&mut self, content: Result<String, String>)
        ensures
            final(self)@.stream == old(self)@.stream,
            final(self)@.closed == old(self)@.closed,
            final(self)@.files == old(self)@.files,
            final(self)@.whole == Some(read_view(content)),
            old(self)@.whole is None ==> extends(final(self)@, old(self)@),
    {
        self.whole = Some(content);
        assert(self@.stream.subrange(0, old(self)@.stream.len() as int) =~= old(self)@.stream);
        assert(self@.files.subrange(0, old(self)@.files.len() as int) =~= old(self)@.files);
    }

    /// Adds what reading the file at `path` gave.
    pub fn add_file(&mut self, path: String, content: Result<String, String>)
        ensures
            final(self)@.stream == old(self)@.stream,
            final(self)@.closed == old(self)@.closed,
            final(self)@.files == old(self)@.files.push((path@, read_view(content))),
            final(self)@.whole == old(self)@.whole,
            extends(final(self)@, old(self)@),
    {
        self.files.push((path, content));
        assert(self@.files =~= old(self)@.files.push((path@, read_view(content))));
        assert(self@.stream.subrange(0, old(self)@.stream.len() as int) =~= old(self)@.stream);
        assert(self@.files.subrange(0, old(self)@.files.len() as int) =~= old(self)@.files);
    }
}

/// Something the engine must be given before it can go on.
#[derive(Debug)]
pub enum Request {
    /// The next chunk of the stream, or its end.
    Chunk,
    /// The contents of the file at this path.
    File(String),
    /// All of the stream at once.
    WholeStream,
}

/// The mathematical value of a [`Request`].
pub enum RequestView {
    Chunk,
    File(Seq<char>),
    WholeStream,
}

impl View for Request {
    type V = RequestView;

    open spec fn view(&self) -> RequestView {
        match self {
            Request::Chunk => RequestView::Chunk,
            Request::File(p) => RequestView::File(p@),
            Request::WholeStream => RequestView::WholeStream,
        }
    }
}

/// Why a step of the engine stopped short.
pub enum Halt {
    Fail(Failure),
    Need(Request),
}

/// The mathematical value of a [`Halt`].
pub enum HaltView {
    Fail(FailureView),
    Need(RequestView),
}

impl View for Halt {
    type V = HaltView;

    open spec fn view(&self) -> HaltView {
        match self {
            Halt::Fail(e) => HaltView::Fail(e@),
            Halt::Need(r) => HaltView::Need(r@),
        }
    }
}

/// Whether the exec result `r` is the spec result `s`, given what an `Ok`
/// must satisfy.
pub open spec fn agrees<T, V>(
    r: Result<T, Halt>,
    s: Result<V, HaltView>,
    ok: spec_fn(T, V) -> bool,
) -> bool {
    match s {
        Ok(v) => r is Ok && ok(r->Ok_0, v),
        Err(h) => r is Err && r->Err_0@ == h,
    }
}

/// What the stream holds at position `k`, as far as is known.
pub enum Peek {
    Chunk(Result<Seq<char>, Seq<char>>),
    End,
    Unknown,
}

pub open spec fn peek(inp: InputsView, k: nat) -> Peek {
    if k < inp.stream.len() {
        Peek::Chunk(inp.stream[k as int])
    } else if inp.closed {
        Peek::End
    } else {
        Peek::Unknown
    }
}

/// The first record of the file at `path`, from position `i` on.
pub open spec fn file_entry(
    files: Seq<(Seq<char>, Result<Seq<char>, Seq<char>>)>,
    path: Seq<char>,
    i: nat,
) -> Option<Result<Seq<char>, Seq<char>>>
    decreases files.len() - i,
{
    if i >= files.len() {
        None
    } else if files[i as int].0 == path {
        Some(files[i as int].1)
    } else {
        file_entry(files, path, i + 1)
    }
}

/// The path that names the external stream.
pub open spec fn stream_path() -> Seq<char> {
    seq!['-']
}

/// Reading the text at `path` (the stream for `-`, a file otherwise), with
/// the stream at chunk `k`: the text and the next chunk.
pub open spec fn read_source(path: Seq<char>, inp: InputsView, k: nat) -> Result<
    (Seq<char>, nat),
    HaltView,
> {
    if path == stream_path() {
        match peek(inp, k) {
            Peek::Chunk(Ok(t)) => Ok((t, k + 1)),
            Peek::Chunk(Err(m)) => Err(HaltView::Fail(FailureView::Io(m))),
            Peek::End => Err(HaltView::Fail(FailureView::Io(end_of_input_text()))),
            Peek::Unknown => Err(HaltView::Need(RequestView::Chunk)),
        }
    } else {
        match file_entry(inp.files, path, 0) {
            Some(Ok(t)) => Ok((t, k)),
            Some(Err(m)) => Err(HaltView::Fail(FailureView::Io(m))),
            None => Err(HaltView::Need(RequestView::File(path))),
        }
    }
}

fn is_stream_path(path: &String) -> (r: bool)
    ensures
        r == (path@ == stream_path()),
{
    let p = path.as_str();
    let r = p.unicode_len() == 1 && p.get_char(0) == '-';
    if r {
        assert(path@ =~= stream_path());
    }
    r
}

/// The text at `path`: the chunk `k` of the stream for `-`, a file otherwise.
pub fn read_text(path: &String, inp: &Inputs, k: usize) -> (r: Result<(String, usize), Halt>)
    requires
        k <= inp@.stream.len(),
    ensures
        agrees(
            r,
            read_source(path@, inp@, k as nat),
            |x: (String, usize), v: (Seq<char>, nat)| x.0@ == v.0 && x.1 as nat == v.1,
        ),
        r matches Ok(x) ==> x.1 <= inp@.stream.len(),
{
    if is_stream_path(path) {
        if k < inp.stream.len() {
            match &inp.stream[k] {
                Ok(t) => Ok((t.clone(), k + 1)),
                Err(m) => Err(Halt::Fail(Failure::Io(m.clone()))),
            }
        } else if inp.closed {
            Err(Halt::Fail(end_of_input_error()))
        } else {
            Err(Halt::Need(Request::Chunk))
        }
    } else {
        let mut i: usize = 0;
        while i < inp.files.len()
            invariant
                i <= inp@.files.len(),
                file_entry(inp@.files, path@, i as nat) == file_entry(inp@.files, path@, 0),
                path@ != stream_path(),
                k <= inp@.stream.len(),
            decreases inp@.files.len() - i,
        {
            assert(inp@.files[i as int] == (inp.files@[i as int].0@, read_view(
                inp.files@[i as int].1,
            )));
            let entry = &inp.files[i];
            if entry.0 == *path {
                assert(file_entry(inp@.files, path@, i as nat) == Some(read_view(entry.1)));
                match &entry.1 {
                    Ok(t) => {
                        return Ok((t.clone(), k));
                    },
                    Err(m) => {
                        return Err(Halt::Fail(Failure::Io(m.clone())));
                    },
                }
            }
            i += 1;
        }
        Err(Halt::Need(Request::File(path.clone())))
    }
}

/// `i` is the first position of `c` in `s`.
pub open spec fn first_at(s: Seq<char>, c: char, i: int) -> bool {
    0 <= i < s.len() && s[i] == c && forall|j: int| 0 <= j < i ==> s[j] != c
}

/// `s` cut at the first `c`: what stands before it and what follows it.
pub open spec fn split_once(s: Seq<char>, c: char) -> Option<(Seq<char>, Seq<char>)> {
    if exists|i: int| first_at(s, c, i) {
        let i = choose|i: int| first_at(s, c, i);
        Some((s.take(i), s.skip(i + 1)))
    } else {
        None
    }
}

/// Cuts `s` at the first `c`.
pub fn split_at_first(s: &String, c: char) -> (r: Option<(String, String)>)
    ensures
        match split_once(s@, c) {
            Some((a, b)) => r matches Some(x) && x.0@ == a && x.1@ == b,
            None => r is None,
        },
{
    let v = chars_of(s.as_str());
    let mut i: usize = 0;
    while i < v.len()
        invariant
            v@ == s@,
            i <= v@.len(),
            forall|j: int| 0 <= j < i ==> v@[j] != c,
        decreases v@.len() - i,
    {
        if v[i] == c {
            assert(first_at(s@, c, i as int));
            proof {
                let k = choose|k: int| first_at(s@, c, k);
                assert(k == i) by {
                    if k < i {
                        assert(v@[k] != c);
                    } else if k > i {
                        assert(s@[i as int] != c);
                    }
                }
            }
            let a = string_of(&v, 0, i);
            let b = string_of(&v, i + 1, v.len());
            assert(a@ =~= s@.take(i as int));
            assert(b@ =~= s@.skip(i + 1));
            return Some((a, b));
        }
        i += 1;
    }
    assert(!exists|k: int| first_at(s@, c, k));
    None
}

/// A named value: its name and its text.
pub type Binding = (String, String);

/// The views of the named values.
pub open spec fn bindings_view(b: Seq<Binding>) -> Seq<(Seq<char>, Seq<char>)> {
    b.map_values(|p: Binding| (p.0@, p.1@))
}

/// Draining the arguments from position `v` on into named values, appended to
/// `acc`, with the stream at chunk `k`: all named values and the next chunk.
pub open spec fn collect_from(
    args: Seq<Seq<char>>,
    v: nat,
    inp: InputsView,
    k: nat,
    acc: Seq<(Seq<char>, Seq<char>)>,
) -> Result<(Seq<(Seq<char>, Seq<char>)>, nat), HaltView>
    decreases args.len() - v,
{
    if v >= args.len() {
        Ok((acc, k))
    } else {
        match split_once(args[v as int], '=') {
            Some((name, value)) => collect_from(args, v + 1, inp, k, acc.push((name, value))),
            None => match split_once(args[v as int], '@') {
                Some((name, path)) => match read_source(path, inp, k) {
                    Ok((text, k2)) => collect_from(args, v + 1, inp, k2, acc.push((name, text))),
                    Err(h) => Err(h),
                },
                None => Err(HaltView::Fail(FailureView::Jf(invalid_value_syntax_text(v)))),
            },
        }
    }
}

/// Drains the arguments from position `from` on into named values, each
/// `NAME=VALUE`, or `NAME@PATH` for the text at `PATH`.
pub fn collect_named_values(args: &Vec<String>, from: usize, inp: &Inputs, k: usize) -> (r: Result<
    (Vec<Binding>, usize),
    Halt,
>)
    requires
        from <= args@.len(),
        k <= inp@.stream.len(),
    ensures
        agrees(
            r,
            collect_from(texts(args@), from as nat, inp@, k as nat, seq![]),
            |x: (Vec<Binding>, usize), v: (Seq<(Seq<char>, Seq<char>)>, nat)|
                bindings_view(x.0@) == v.0 && x.1 as nat == v.1,
        ),
        r matches Ok(x) ==> x.1 <= inp@.stream.len(),
{
    let ghost k0 = k as nat;
    let ghost whole = collect_from(texts(args@), from as nat, inp@, k0, seq![]);
    let mut bindings: Vec<Binding> = Vec::new();
    assert(bindings_view(bindings@) =~= seq![]);
    let mut chunk = k;
    let mut v = from;
    while v < args.len()
        invariant
            from <= v <= args@.len(),
            chunk <= inp@.stream.len(),
            collect_from(texts(args@), v as nat, inp@, chunk as nat, bindings_view(bindings@))
                == whole,
            whole == collect_from(texts(args@), from as nat, inp@, k0, seq![]),
            k0 == k as nat,
        decreases args@.len() - v,
    {
        let arg = &args[v];
        assert(texts(args@)[v as int] == arg@);
        let ghost b0 = bindings_view(bindings@);
        match split_at_first(arg, '=') {
            Some((name, value)) => {
                bindings.push((name, value));
            },
            None => match split_at_first(arg, '@') {
                Some((name, path)) => match read_text(&path, inp, chunk) {
                    Ok((text, k2)) => {
                        bindings.push((name, text));
                        chunk = k2;
                    },
                    Err(h) => {
                        return Err(h);
                    },
                },
                None => {
                    return Err(Halt::Fail(invalid_value_syntax_error(v)));
                },
            },
        }
        assert(bindings_view(bindings@) =~= b0.push(
            (bindings@.last().0@, bindings@.last().1@),
        ));
        v += 1;
    }
    Ok((bindings, chunk))
}

/// The values bound to `name`, from position `i` of the named values on,
/// after those in `acc`.
pub open spec fn values_from(
    b: Seq<(Seq<char>, Seq<char>)>,
    name: Seq<char>,
    i: nat,
    acc: Seq<Seq<char>>,
) -> Seq<Seq<char>>
    decreases b.len() - i,
{
    if i >= b.len() {
        acc
    } else if b[i as int].0 == name {
        values_from(b, name, i + 1, acc.push(b[i as int].1))
    } else {
        values_from(b, name, i + 1, acc)
    }
}

/// The values bound to `name`, in the order they were given.
pub open spec fn values_of(b: Seq<(Seq<char>, Seq<char>)>, name: Seq<char>) -> Seq<Seq<char>> {
    values_from(b, name, 0, seq![])
}

/// The values bound to `name`, in the order they were given.
pub fn lookup(bindings: &Vec<Binding>, name: &String) -> (r: Vec<String>)
    ensures
        texts(r@) == values_of(bindings_view(bindings@), name@),
{
    let mut r: Vec<String> = Vec::new();
    assert(texts(r@) =~= seq![]);
    let mut i: usize = 0;
    while i < bindings.len()
        invariant
            i <= bindings@.len(),
            values_from(bindings_view(bindings@), name@, i as nat, texts(r@)) == values_of(
                bindings_view(bindings@),
                name@,
            ),
        decreases bindings@.len() - i,
    {
        assert(bindings_view(bindings@)[i as int] == (bindings@[i as int].0@, bindings@[i as int].1@));
        if bindings[i].0 == *name {
            let ghost before = texts(r@);
            r.push(bindings[i].1.clone());
            assert(texts(r@) =~= before.push(bindings@[i as int].1@));
        }
        i += 1;
    }
    r
}

/// Where a run of the engine ended: with its result, or waiting for
/// something from the outside world.
#[derive(Debug)]
pub enum Step<T> {
    Done(Result<T, Failure>),
    Need(Request),
}

/// The mathematical value of a [`Step`].
pub enum Outcome<V> {
    Done(V),
    Fail(FailureView),
    Need(RequestView),
}

impl<T: View> View for Step<T> {
    type V = Outcome<T::V>;

    open spec fn view(&self) -> Outcome<T::V> {
        match self {
            Step::Done(Ok(v)) => Outcome::Done(v@),
            Step::Done(Err(e)) => Outcome::Fail(e@),
            Step::Need(q) => Outcome::Need(q@),
        }
    }
}

/// The outcome that a result of the engine's steps stands for.
pub open spec fn outcome_of<V>(r: Result<V, HaltView>) -> Outcome<V> {
    match r {
        Ok(v) => Outcome::Done(v),
        Err(HaltView::Fail(f)) => Outcome::Fail(f),
        Err(HaltView::Need(w)) => Outcome::Need(w),
    }
}

impl<T> Step<T> {
    /// The result, if the run finished.
    pub fn done(self) -> (r: Option<Result<T, Failure>>)
        ensures
            match self {
                Step::Done(x) => r == Some(x),
                Step::Need(_) => r is None,
            },
    {
        match self {
            Step::Done(x) => Some(x),
            Step::Need(_) => None,
        }
    }
}

} // verus!
