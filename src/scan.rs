//! The placeholder scanner and the substitution engine.
//!
//! The template is read once, left to right. Literal characters are copied;
//! `%%` stands for `%`; every other `%` starts a placeholder, which is
//! replaced by the values it names. The meaning of each character of a
//! placeholder depends on the one before it, so the scanner carries that
//! character (or what it stands for) from one step to the next.

use crate::error::{
    expandable_default_error, expandable_default_text, incomplete_error, incomplete_text,
    invalid_name_char_error, invalid_name_char_text, invalid_named_error, invalid_named_text,
    invalid_placeholder_error, invalid_placeholder_text, missing_name_error, missing_name_text,
    missing_value_error, missing_value_text, no_value_error, no_value_text,
    not_enough_arguments_error, not_enough_arguments_text, nullable_unclosed_error,
    nullable_unclosed_text, optional_default_error, optional_default_text,
    optional_nullable_error, optional_nullable_text, positional_after_named_error,
    positional_after_named_text, too_many_values_error, too_many_values_text, Failure,
    FailureView,
};
use crate::quote::{items_text, pairs_text, push_items, push_pairs, push_shown, shown, texts};
use crate::source::{
    agrees, bindings_view, collect_from, collect_named_values, lookup, peek, read_source, read_text,
    outcome_of, values_of, Binding, Halt, HaltView, Inputs, InputsView, Outcome, Peek, Request,
    RequestView, Step,
};
use crate::text::{append, chars_of, is_name_char, name_char, push_char};
use vstd::prelude::*;

verus! {

/// How many values one placeholder takes.
#[derive(Clone, Copy, Debug, PartialEq, Eq, Structural)]
pub enum Expansion {
    /// One value.
    Single,
    /// All the remaining values, as array items.
    Items,
    /// All the remaining values, as object pairs.
    Pairs,
}

/// The stars that select an expansion in the template.
pub open spec fn stars_text(e: Expansion) -> Seq<char> {
    match e {
        Expansion::Single => seq![],
        Expansion::Items => seq!['*'],
        Expansion::Pairs => seq!['*', '*'],
    }
}

impl Expansion {
    /// The stars that select this expansion in the template.
    pub fn stars(&self) -> (r: &'static str)
        ensures
            r@ == stars_text(*self),
    {
        proof {
            reveal_strlit("");
            reveal_strlit("*");
            reveal_strlit("**");
        }
        match self {
            Expansion::Single => "",
            Expansion::Items => "*",
            Expansion::Pairs => "**",
        }
    }
}

/// The text of a default value that runs from position `j`, after `val`; a
/// backslash takes the next character as it is, and an unescaped `)` ends
/// the value. The value, and the position after what was read.
pub open spec fn brace_from(t: Seq<char>, j: nat, val: Seq<char>, escaping: bool) -> (Seq<char>, nat)
    decreases t.len() - j,
{
    if j >= t.len() {
        (val, j)
    } else if escaping {
        brace_from(t, j + 1, val.push(t[j as int]), false)
    } else if t[j as int] == '\\' {
        brace_from(t, j + 1, val, true)
    } else if t[j as int] == ')' {
        (val, j + 1)
    } else {
        brace_from(t, j + 1, val.push(t[j as int]), false)
    }
}

/// Reading a default value never goes back.
pub proof fn lemma_brace_advances(t: Seq<char>, j: nat, val: Seq<char>, escaping: bool)
    requires
        j <= t.len(),
    ensures
        j <= brace_from(t, j, val, escaping).1 <= t.len(),
    decreases t.len() - j,
{
    if j < t.len() {
        if escaping {
            lemma_brace_advances(t, j + 1, val.push(t[j as int]), false);
        } else if t[j as int] == '\\' {
            lemma_brace_advances(t, j + 1, val, true);
        } else if t[j as int] != ')' {
            lemma_brace_advances(t, j + 1, val.push(t[j as int]), false);
        }
    }
}

/// Reads a default value from position `j`: the value, and the position
/// after the `)` that ends it (or the end of the template).
pub fn read_brace_value(t: &Vec<char>, j: usize) -> (r: (String, usize))
    requires
        j <= t@.len(),
    ensures
        (r.0@, r.1 as nat) == brace_from(t@, j as nat, seq![], false),
{
    let ghost whole = brace_from(t@, j as nat, seq![], false);
    let mut val = String::new();
    let mut escaping = false;
    let mut i = j;
    while i < t.len()
        invariant
            j <= i <= t@.len(),
            brace_from(t@, i as nat, val@, escaping) == whole,
            whole == brace_from(t@, j as nat, seq![], false),
        decreases t@.len() - i,
    {
        let ch = t[i];
        if escaping {
            push_char(&mut val, ch);
            escaping = false;
        } else if ch == '\\' {
            escaping = true;
        } else if ch == ')' {
            return (val, i + 1);
        } else {
            push_char(&mut val, ch);
        }
        i += 1;
    }
    (val, i)
}

/// The character that a named placeholder last saw, as far as it matters.
#[derive(Clone, Copy, Debug, PartialEq, Eq, Structural)]
pub enum After {
    /// Nothing but name characters: the name is being read.
    Name,
    /// A `)`, or what stands in for one (a default value, `?)`).
    Close,
    /// A `*` after the name.
    Star,
}

/// What a named placeholder has gathered so far.
pub struct Named {
    pub name: Seq<char>,
    pub default: Option<Seq<char>>,
    pub optional: bool,
    pub nullable: bool,
    pub expansion: Expansion,
    pub after: After,
}

/// A named placeholder before its first character.
pub open spec fn fresh_named() -> Named {
    Named {
        name: seq![],
        default: None,
        optional: false,
        nullable: false,
        expansion: Expansion::Single,
        after: After::Name,
    }
}

/// The result of a placeholder: the position after it, the text that
/// replaces it, the next chunk of the stream, and whether it expanded to
/// nothing.
pub type Placed = (nat, Seq<char>, nat, bool);

/// A failure of the template or the values, with its message.
pub open spec fn fail<T>(m: Seq<char>) -> Result<T, HaltView> {
    Err(HaltView::Fail(FailureView::Jf(m)))
}

/// Reading the rest of a named placeholder from position `j` (just after
/// `%(` at first), with the named values `b` and the stream at chunk `k`.
pub open spec fn named_from(
    t: Seq<char>,
    j: nat,
    st: Named,
    b: Seq<(Seq<char>, Seq<char>)>,
    inp: InputsView,
    k: nat,
) -> Result<Placed, HaltView>
    decreases t.len() - j,
{
    if j >= t.len() {
        fail(incomplete_text())
    } else {
        let ch = t[j as int];
        let col = j;
        if ch == '=' && st.default is None {
            let (v, j2) = brace_from(t, j + 1, seq![], false);
            proof {
                lemma_brace_advances(t, j + 1, seq![], false);
            }
            named_from(t, j2, Named { default: Some(v), after: After::Close, ..st }, b, inp, k)
        } else if ch == '@' && st.default is None {
            let (p, j2) = brace_from(t, j + 1, seq![], false);
            proof {
                lemma_brace_advances(t, j + 1, seq![], false);
            }
            match read_source(p, inp, k) {
                Ok((v, k2)) => named_from(
                    t,
                    j2,
                    Named { default: Some(v), after: After::Close, ..st },
                    b,
                    inp,
                    k2,
                ),
                Err(h) => Err(h),
            }
        } else if ch == ')' {
            named_from(t, j + 1, Named { after: After::Close, ..st }, b, inp, k)
        } else if ch == '?' && st.after == After::Close {
            if st.default is Some {
                fail(optional_default_text(st.name, col))
            } else if st.nullable {
                fail(optional_nullable_text(st.name, col))
            } else {
                named_from(t, j + 1, Named { optional: true, ..st }, b, inp, k)
            }
        } else if ch == '?' && st.after == After::Name {
            if j + 1 < t.len() && t[j + 1 as int] == ')' {
                named_from(t, j + 2, Named { nullable: true, after: After::Close, ..st }, b, inp, k)
            } else {
                fail(nullable_unclosed_text(st.name, col))
            }
        } else if ch == '*' && st.after == After::Close {
            named_from(
                t,
                j + 1,
                Named { expansion: Expansion::Items, after: After::Star, ..st },
                b,
                inp,
                k,
            )
        } else if ch == '*' && st.after == After::Star {
            named_from(
                t,
                j + 1,
                Named { expansion: Expansion::Pairs, after: After::Star, ..st },
                b,
                inp,
                k,
            )
        } else if (ch == 'q' || ch == 's') && st.after == After::Close {
            let vals = values_of(b, st.name);
            let chosen = if vals.len() > 0 {
                Some(vals[0])
            } else {
                st.default
            };
            if st.name.len() == 0 {
                fail(missing_name_text(col))
            } else if chosen is Some {
                Ok((j + 1, shown(chosen->0, ch == 'q'), k, false))
            } else if st.nullable {
                Ok((j + 1, "null"@, k, false))
            } else if st.optional {
                Ok((j + 1, seq![], k, false))
            } else {
                fail(no_value_text(st.name, ch, col))
            }
        } else if (ch == 'q' || ch == 's') && st.after == After::Star {
            let vals = values_of(b, st.name);
            if st.name.len() == 0 {
                fail(missing_name_text(col))
            } else if st.default is Some {
                fail(expandable_default_text(st.name, col))
            } else if st.expansion == Expansion::Pairs {
                if vals.len() % 2 == 1 {
                    fail(missing_value_text(col))
                } else {
                    Ok((j + 1, pairs_text(vals, ch == 'q'), k, vals.len() == 0))
                }
            } else {
                Ok((j + 1, items_text(vals, ch == 'q'), k, vals.len() == 0))
            }
        } else if st.after == After::Name && name_char(ch) {
            named_from(t, j + 1, Named { name: st.name.push(ch), ..st }, b, inp, k)
        } else if st.after != After::Name {
            fail(invalid_named_text(st.name, stars_text(st.expansion), ch, col))
        } else {
            fail(invalid_name_char_text(ch, col))
        }
    }
}

/// A named placeholder that is read to its end ends after it starts, within
/// the template.
pub proof fn lemma_named_advances(
    t: Seq<char>,
    j: nat,
    st: Named,
    b: Seq<(Seq<char>, Seq<char>)>,
    inp: InputsView,
    k: nat,
)
    requires
        j <= t.len(),
    ensures
        named_from(t, j, st, b, inp, k) matches Ok(r) ==> j < r.0 <= t.len(),
    decreases t.len() - j,
{
    if j < t.len() {
        let ch = t[j as int];
        if ch == '=' && st.default is None {
            let (v, j2) = brace_from(t, j + 1, seq![], false);
            lemma_brace_advances(t, j + 1, seq![], false);
            lemma_named_advances(t, j2, Named { default: Some(v), after: After::Close, ..st }, b, inp, k);
        } else if ch == '@' && st.default is None {
            let (p, j2) = brace_from(t, j + 1, seq![], false);
            lemma_brace_advances(t, j + 1, seq![], false);
            if let Ok((v, k2)) = read_source(p, inp, k) {
                lemma_named_advances(
                    t,
                    j2,
                    Named { default: Some(v), after: After::Close, ..st },
                    b,
                    inp,
                    k2,
                );
            }
        } else if ch == ')' {
            lemma_named_advances(t, j + 1, Named { after: After::Close, ..st }, b, inp, k);
        } else if ch == '?' && st.after == After::Close {
            lemma_named_advances(t, j + 1, Named { optional: true, ..st }, b, inp, k);
        } else if ch == '?' && st.after == After::Name {
            if j + 1 < t.len() {
                lemma_named_advances(
                    t,
                    j + 2,
                    Named { nullable: true, after: After::Close, ..st },
                    b,
                    inp,
                    k,
                );
            }
        } else if ch == '*' && st.after == After::Close {
            lemma_named_advances(
                t,
                j + 1,
                Named { expansion: Expansion::Items, after: After::Star, ..st },
                b,
                inp,
                k,
            );
        } else if ch == '*' && st.after == After::Star {
            lemma_named_advances(
                t,
                j + 1,
                Named { expansion: Expansion::Pairs, after: After::Star, ..st },
                b,
                inp,
                k,
            );
        } else if (ch == 'q' || ch == 's') && (st.after == After::Close || st.after
            == After::Star) {
        } else if st.after == After::Name && name_char(ch) {
            lemma_named_advances(t, j + 1, Named { name: st.name.push(ch), ..st }, b, inp, k);
        }
    }
}

/// The view of an optional string.
pub open spec fn opt_view(o: Option<String>) -> Option<Seq<char>> {
    match o {
        Some(s) => Some(s@),
        None => None,
    }
}

/// Reads the rest of a named placeholder from position `j` (just after
/// `%(`): the position after it, the text that replaces it, the next chunk of
/// the stream and whether it expanded to nothing.
pub fn read_named_placeholder(
    t: &Vec<char>,
    j: usize,
    b: &Vec<Binding>,
    inp: &Inputs,
    k: usize,
) -> (r: Result<(usize, String, usize, bool), Halt>)
    requires
        j <= t@.len(),
        k <= inp@.stream.len(),
    ensures
        agrees(
            r,
            named_from(t@, j as nat, fresh_named(), bindings_view(b@), inp@, k as nat),
            |x: (usize, String, usize, bool), v: Placed|
                x.0 as nat == v.0 && x.1@ == v.1 && x.2 as nat == v.2 && x.3 == v.3,
        ),
        r matches Ok(x) ==> j < x.0 <= t@.len() && x.2 <= inp@.stream.len(),
{
    let ghost bv = bindings_view(b@);
    let ghost whole = named_from(t@, j as nat, fresh_named(), bv, inp@, k as nat);
    let mut name = String::new();
    let mut default: Option<String> = None;
    let mut optional = false;
    let mut nullable = false;
    let mut expansion = Expansion::Single;
    let mut after = After::Name;
    let mut i = j;
    let mut chunk = k;
    while i < t.len()
        invariant
            j <= i <= t@.len(),
            chunk <= inp@.stream.len(),
            bv == bindings_view(b@),
            whole == named_from(t@, j as nat, fresh_named(), bv, inp@, k as nat),
            named_from(
                t@,
                i as nat,
                Named {
                    name: name@,
                    default: opt_view(default),
                    optional,
                    nullable,
                    expansion,
                    after,
                },
                bv,
                inp@,
                chunk as nat,
            ) == whole,
        decreases t@.len() - i,
    {
        let ch = t[i];
        let col = i;
        if ch == '=' && default.is_none() {
            let (v, i2) = read_brace_value(t, i + 1);
            proof {
                lemma_brace_advances(t@, (i + 1) as nat, seq![], false);
            }
            default = Some(v);
            after = After::Close;
            i = i2;
        } else if ch == '@' && default.is_none() {
            let (p, i2) = read_brace_value(t, i + 1);
            proof {
                lemma_brace_advances(t@, (i + 1) as nat, seq![], false);
            }
            match read_text(&p, inp, chunk) {
                Ok((v, k2)) => {
                    default = Some(v);
                    after = After::Close;
                    i = i2;
                    chunk = k2;
                },
                Err(h) => {
                    return Err(h);
                },
            }
        } else if ch == ')' {
            after = After::Close;
            i += 1;
        } else if ch == '?' && after == After::Close {
            if default.is_some() {
                return Err(Halt::Fail(optional_default_error(&name, col)));
            }
            if nullable {
                return Err(Halt::Fail(optional_nullable_error(&name, col)));
            }
            optional = true;
            i += 1;
        } else if ch == '?' && after == After::Name {
            if i + 1 < t.len() && t[i + 1] == ')' {
                nullable = true;
                after = After::Close;
                i += 2;
            } else {
                return Err(Halt::Fail(nullable_unclosed_error(&name, col)));
            }
        } else if ch == '*' && after == After::Close {
            expansion = Expansion::Items;
            after = After::Star;
            i += 1;
        } else if ch == '*' && after == After::Star {
            expansion = Expansion::Pairs;
            after = After::Star;
            i += 1;
        } else if (ch == 'q' || ch == 's') && after == After::Close {
            if name.as_str().unicode_len() == 0 {
                return Err(Halt::Fail(missing_name_error(col)));
            }
            let quoted = ch == 'q';
            let vals = lookup(b, &name);
            let mut frag = String::new();
            if vals.len() > 0 {
                push_shown(&mut frag, vals[0].as_str(), quoted);
                assert(texts(vals@)[0] == vals@[0]@);
            } else {
                match &default {
                    Some(d) => {
                        push_shown(&mut frag, d.as_str(), quoted);
                    },
                    None => {
                        if nullable {
                            frag = String::from_str("null");
                        } else if !optional {
                            return Err(Halt::Fail(no_value_error(&name, ch, col)));
                        }
                    },
                }
            }
            return Ok((i + 1, frag, chunk, false));
        } else if (ch == 'q' || ch == 's') && after == After::Star {
            if name.as_str().unicode_len() == 0 {
                return Err(Halt::Fail(missing_name_error(col)));
            }
            if default.is_some() {
                return Err(Halt::Fail(expandable_default_error(&name, col)));
            }
            let quoted = ch == 'q';
            let vals = lookup(b, &name);
            let mut frag = String::new();
            if expansion == Expansion::Pairs {
                if vals.len() % 2 == 1 {
                    return Err(Halt::Fail(missing_value_error(col)));
                }
                push_pairs(&mut frag, &vals, quoted);
            } else {
                push_items(&mut frag, &vals, quoted);
            }
            return Ok((i + 1, frag, chunk, vals.len() == 0));
        } else if after == After::Name && is_name_char(ch) {
            push_char(&mut name, ch);
            i += 1;
        } else if after != After::Name {
            return Err(Halt::Fail(invalid_named_error(&name, expansion.stars(), ch, col)));
        } else {
            return Err(Halt::Fail(invalid_name_char_error(ch, col)));
        }
    }
    Err(Halt::Fail(incomplete_error()))
}

/// The values that the stream holds from chunk `k` on, after `acc`, up to
/// its end: the values and the next chunk. A chunk that could not be read
/// fails the expansion with its reason.
pub open spec fn stream_run(inp: InputsView, k: nat, acc: Seq<Seq<char>>) -> Result<
    (Seq<Seq<char>>, nat),
    HaltView,
>
    decreases inp.stream.len() - k,
{
    if k < inp.stream.len() {
        match inp.stream[k as int] {
            Ok(t) => stream_run(inp, k + 1, acc.push(t)),
            Err(m) => Err(HaltView::Fail(FailureView::Io(m))),
        }
    } else if inp.closed {
        Ok((acc, k))
    } else {
        Err(HaltView::Need(RequestView::Chunk))
    }
}

/// Reads the values that the stream holds from chunk `k` on.
pub fn read_stream_values(inp: &Inputs, k: usize) -> (r: Result<(Vec<String>, usize), Halt>)
    requires
        k <= inp@.stream.len(),
    ensures
        agrees(
            r,
            stream_run(inp@, k as nat, seq![]),
            |x: (Vec<String>, usize), v: (Seq<Seq<char>>, nat)|
                texts(x.0@) == v.0 && x.1 as nat == v.1,
        ),
        r matches Ok(x) ==> x.1 <= inp@.stream.len(),
{
    let ghost whole = stream_run(inp@, k as nat, seq![]);
    let mut vals: Vec<String> = Vec::new();
    assert(texts(vals@) =~= seq![]);
    let mut i = k;
    while i < inp.stream.len()
        invariant
            k <= i <= inp@.stream.len(),
            whole == stream_run(inp@, k as nat, seq![]),
            stream_run(inp@, i as nat, texts(vals@)) == whole,
        decreases inp@.stream.len() - i,
    {
        match &inp.stream[i] {
            Ok(t) => {
                let ghost before = texts(vals@);
                vals.push(t.clone());
                assert(texts(vals@) =~= before.push(t@));
            },
            Err(m) => {
                return Err(Halt::Fail(Failure::Io(m.clone())));
            },
        }
        i += 1;
    }
    if inp.closed {
        Ok((vals, i))
    } else {
        Err(Halt::Need(Request::Chunk))
    }
}

/// The next positional value for a placeholder at column `col`: from the
/// stream at chunk `k`, or from `args` at position `a`. The value, the next
/// position and the next chunk.
pub open spec fn next_value(
    from_stream: bool,
    col: nat,
    args: Seq<Seq<char>>,
    a: nat,
    inp: InputsView,
    k: nat,
) -> Result<(Seq<char>, nat, nat), HaltView> {
    if from_stream {
        match peek(inp, k) {
            Peek::Chunk(Ok(t)) => Ok((t, a, k + 1)),
            Peek::Chunk(Err(m)) => Err(HaltView::Fail(FailureView::Io(m))),
            Peek::End => fail(missing_value_text(col)),
            Peek::Unknown => Err(HaltView::Need(RequestView::Chunk)),
        }
    } else if a < args.len() {
        Ok((args[a as int], a + 1, k))
    } else {
        fail(missing_value_text(col))
    }
}

/// Reads the next positional value for a placeholder at column `col`.
pub fn read(from_stream: bool, col: usize, args: &Vec<String>, a: usize, inp: &Inputs, k: usize) -> (r:
    Result<(String, usize, usize), Halt>)
    requires
        a <= args@.len(),
        k <= inp@.stream.len(),
    ensures
        agrees(
            r,
            next_value(from_stream, col as nat, texts(args@), a as nat, inp@, k as nat),
            |x: (String, usize, usize), v: (Seq<char>, nat, nat)|
                x.0@ == v.0 && x.1 as nat == v.1 && x.2 as nat == v.2,
        ),
        r matches Ok(x) ==> x.1 <= args@.len() && x.2 <= inp@.stream.len(),
{
    if from_stream {
        if k < inp.stream.len() {
            match &inp.stream[k] {
                Ok(t) => Ok((t.clone(), a, k + 1)),
                Err(m) => Err(Halt::Fail(Failure::Io(m.clone()))),
            }
        } else if inp.closed {
            Err(Halt::Fail(missing_value_error(col)))
        } else {
            Err(Halt::Need(Request::Chunk))
        }
    } else if a < args.len() {
        assert(texts(args@)[a as int] == args@[a as int]@);
        Ok((args[a].clone(), a + 1, k))
    } else {
        Err(Halt::Fail(missing_value_error(col)))
    }
}

/// The result of a positional placeholder: the text that replaces it, the
/// next positional value, the next chunk of the stream, and whether it
/// expanded to nothing.
pub type Consumed = (Seq<char>, nat, nat, bool);

/// A positional placeholder at column `col`, with the positional values
/// `args` at position `a` and the stream at chunk `k`.
pub open spec fn positional(
    expansion: Expansion,
    from_stream: bool,
    quoted: bool,
    col: nat,
    args: Seq<Seq<char>>,
    a: nat,
    inp: InputsView,
    k: nat,
) -> Result<Consumed, HaltView> {
    if expansion == Expansion::Single {
        match next_value(from_stream, col, args, a, inp, k) {
            Ok((v, a2, k2)) => Ok((shown(v, quoted), a2, k2, false)),
            Err(h) => Err(h),
        }
    } else {
        let run: Result<(Seq<Seq<char>>, nat, nat), HaltView> = if from_stream {
            match stream_run(inp, k, seq![]) {
                Ok((vals, k2)) => Ok((vals, a, k2)),
                Err(h) => Err(h),
            }
        } else {
            Ok((args.subrange(a as int, args.len() as int), args.len(), k))
        };
        match run {
            Err(h) => Err(h),
            Ok((vals, a2, k2)) => if expansion == Expansion::Pairs {
                if vals.len() % 2 == 1 {
                    fail(missing_value_text(col))
                } else {
                    Ok((pairs_text(vals, quoted), a2, k2, vals.len() == 0))
                }
            } else {
                Ok((items_text(vals, quoted), a2, k2, vals.len() == 0))
            },
        }
    }
}

/// Replaces a positional placeholder at column `col`: the text, the next
/// positional value, the next chunk and whether it expanded to nothing.
pub fn read_positional(
    expansion: Expansion,
    from_stream: bool,
    quoted: bool,
    col: usize,
    args: &Vec<String>,
    a: usize,
    inp: &Inputs,
    k: usize,
) -> (r: Result<(String, usize, usize, bool), Halt>)
    requires
        a <= args@.len(),
        k <= inp@.stream.len(),
    ensures
        agrees(
            r,
            positional(expansion, from_stream, quoted, col as nat, texts(args@), a as nat, inp@, k as nat),
            |x: (String, usize, usize, bool), v: Consumed|
                x.0@ == v.0 && x.1 as nat == v.1 && x.2 as nat == v.2 && x.3 == v.3,
        ),
        r matches Ok(x) ==> x.1 <= args@.len() && x.2 <= inp@.stream.len(),
{
    let mut frag = String::new();
    if expansion == Expansion::Single {
        match read(from_stream, col, args, a, inp, k) {
            Ok((v, a2, k2)) => {
                push_shown(&mut frag, v.as_str(), quoted);
                assert(frag@ =~= shown(v@, quoted));
                Ok((frag, a2, k2, false))
            },
            Err(h) => Err(h),
        }
    } else {
        let mut vals: Vec<String> = Vec::new();
        let mut a2 = a;
        let mut k2 = k;
        if from_stream {
            match read_stream_values(inp, k) {
                Ok((v, next)) => {
                    vals = v;
                    k2 = next;
                },
                Err(h) => {
                    return Err(h);
                },
            }
        } else {
            while a2 < args.len()
                invariant
                    a <= a2 <= args@.len(),
                    texts(vals@) == texts(args@).subrange(a as int, a2 as int),
                decreases args@.len() - a2,
            {
                let ghost before = texts(vals@);
                vals.push(args[a2].clone());
                assert(texts(vals@) =~= before.push(texts(args@)[a2 as int]));
                a2 += 1;
                assert(texts(vals@) =~= texts(args@).subrange(a as int, a2 as int));
            }
        }
        if expansion == Expansion::Pairs {
            if vals.len() % 2 == 1 {
                return Err(Halt::Fail(missing_value_error(col)));
            }
            push_pairs(&mut frag, &vals, quoted);
        } else {
            push_items(&mut frag, &vals, quoted);
        }
        Ok((frag, a2, k2, vals.len() == 0))
    }
}

/// Where the scanner stands between two characters of the template.
pub struct ScanState {
    /// The document written so far.
    pub out: Seq<char>,
    /// Whether a placeholder has been opened by a `%`.
    pub pct: bool,
    /// Whether named placeholders have begun: the remaining positional values
    /// have then been drained into `bindings`.
    pub named: bool,
    pub bindings: Seq<(Seq<char>, Seq<char>)>,
    /// The expansion selected by the stars after the `%`.
    pub expansion: Expansion,
    /// Whether a `-` after the `%` selected the stream.
    pub from_stream: bool,
    /// Whether the last placeholder expanded to nothing, so that a comma
    /// right after it is dropped.
    pub empty: bool,
    /// The next positional value.
    pub arg: nat,
    /// The next chunk of the stream.
    pub chunk: nat,
}

/// The scanner before the first character, with the positional values
/// starting at `start`.
pub open spec fn initial_scan(start: nat) -> ScanState {
    ScanState {
        out: seq![],
        pct: false,
        named: false,
        bindings: seq![],
        expansion: Expansion::Single,
        from_stream: false,
        empty: false,
        arg: start,
        chunk: 0,
    }
}

/// Scanning the template `t` from position `i`, in state `s`, with the
/// positional values `args` and the inputs `inp`: the state at the end.
pub open spec fn scan_from(
    t: Seq<char>,
    i: nat,
    s: ScanState,
    args: Seq<Seq<char>>,
    inp: InputsView,
) -> Result<ScanState, HaltView>
    decreases t.len() - i,
{
    if i >= t.len() {
        Ok(s)
    } else {
        let ch = t[i as int];
        if ch == '%' && s.pct {
            scan_from(t, i + 1, ScanState { out: s.out.push('%'), pct: false, ..s }, args, inp)
        } else if ch == '%' {
            scan_from(t, i + 1, ScanState { pct: true, ..s }, args, inp)
        } else if ch == '(' && s.pct {
            let drained: Result<(Seq<(Seq<char>, Seq<char>)>, nat, nat), HaltView> = if s.named {
                Ok((s.bindings, s.arg, s.chunk))
            } else {
                match collect_from(args, s.arg, inp, s.chunk, seq![]) {
                    Ok((b, k)) => Ok((b, args.len(), k)),
                    Err(h) => Err(h),
                }
            };
            match drained {
                Err(h) => Err(h),
                Ok((b, a, k)) => match named_from(t, i + 1, fresh_named(), b, inp, k) {
                    Err(h) => Err(h),
                    Ok((j, frag, k2, e)) => {
                        proof {
                            lemma_named_advances(t, i + 1, fresh_named(), b, inp, k);
                        }
                        scan_from(
                            t,
                            j,
                            ScanState {
                                out: s.out + frag,
                                pct: false,
                                named: true,
                                bindings: b,
                                empty: e,
                                arg: a,
                                chunk: k2,
                                ..s
                            },
                            args,
                            inp,
                        )
                    },
                },
            }
        } else if ch == '*' && s.pct && s.expansion == Expansion::Single {
            scan_from(t, i + 1, ScanState { expansion: Expansion::Items, ..s }, args, inp)
        } else if ch == '*' && s.pct && s.expansion == Expansion::Items {
            scan_from(t, i + 1, ScanState { expansion: Expansion::Pairs, ..s }, args, inp)
        } else if ch == '-' && s.pct {
            scan_from(t, i + 1, ScanState { from_stream: true, ..s }, args, inp)
        } else if ch == ',' && !s.pct && s.empty {
            scan_from(t, i + 1, ScanState { empty: false, ..s }, args, inp)
        } else if (ch == 's' || ch == 'q') && s.pct {
            if s.named {
                fail(positional_after_named_text(ch, i))
            } else {
                match positional(
                    s.expansion,
                    s.from_stream,
                    ch == 'q',
                    i,
                    args,
                    s.arg,
                    inp,
                    s.chunk,
                ) {
                    Err(h) => Err(h),
                    Ok((frag, a, k, e)) => scan_from(
                        t,
                        i + 1,
                        ScanState {
                            out: s.out + frag,
                            pct: false,
                            expansion: Expansion::Single,
                            from_stream: false,
                            empty: e,
                            arg: a,
                            chunk: k,
                            ..s
                        },
                        args,
                        inp,
                    ),
                }
            }
        } else if s.pct {
            fail(invalid_placeholder_text(stars_text(s.expansion), ch, i))
        } else {
            scan_from(
                t,
                i + 1,
                ScanState {
                    out: s.out.push(ch),
                    pct: false,
                    expansion: Expansion::Single,
                    from_stream: false,
                    empty: false,
                    ..s
                },
                args,
                inp,
            )
        }
    }
}

/// Scanning the whole template `t`, with the positional values starting at
/// `start`.
pub open spec fn scan(t: Seq<char>, args: Seq<Seq<char>>, start: nat, inp: InputsView) -> Result<
    ScanState,
    HaltView,
> {
    scan_from(t, 0, initial_scan(start), args, inp)
}

/// What a scan leaves: the document, the `%` it may have ended on, the next
/// positional value and the next chunk of the stream.
#[derive(Debug)]
pub struct Partial {
    pub text: String,
    pub last: Option<char>,
    pub next_arg: usize,
    /// The next chunk of the stream.
    pub next_chunk: usize,
}

/// The mathematical value of a [`Partial`].
pub struct PartialView {
    pub text: Seq<char>,
    pub last: Option<char>,
    pub next_arg: nat,
    pub next_chunk: nat,
}

impl View for Partial {
    type V = PartialView;

    open spec fn view(&self) -> PartialView {
        PartialView {
            text: self.text@,
            last: self.last,
            next_arg: self.next_arg as nat,
            next_chunk: self.next_chunk as nat,
        }
    }
}

/// What a scan that ended in state `s` leaves.
pub open spec fn partial_of(s: ScanState) -> PartialView {
    PartialView {
        text: s.out,
        last: if s.pct {
            Some('%')
        } else {
            None
        },
        next_arg: s.arg,
        next_chunk: s.chunk,
    }
}

/// The state that the scanner's variables stand for.
pub open spec fn state_of(
    out: String,
    pct: bool,
    named: bool,
    bindings: Seq<Binding>,
    expansion: Expansion,
    from_stream: bool,
    empty: bool,
    arg: usize,
    chunk: usize,
) -> ScanState {
    ScanState {
        out: out@,
        pct,
        named,
        bindings: bindings_view(bindings),
        expansion,
        from_stream,
        empty,
        arg: arg as nat,
        chunk: chunk as nat,
    }
}

fn scan_template(t: &Vec<char>, args: &Vec<String>, start: usize, inp: &Inputs) -> (r: Result<
    Partial,
    Halt,
>)
    requires
        start <= args@.len(),
    ensures
        agrees(
            r,
            scan(t@, texts(args@), start as nat, inp@),
            |p: Partial, s: ScanState| p@ == partial_of(s),
        ),
{
    let ghost whole = scan(t@, texts(args@), start as nat, inp@);
    let mut out = String::new();
    let mut pct = false;
    let mut named = false;
    let mut bindings: Vec<Binding> = Vec::new();
    let mut expansion = Expansion::Single;
    let mut from_stream = false;
    let mut empty = false;
    let mut arg = start;
    let mut chunk: usize = 0;
    let mut i: usize = 0;
    assert(state_of(out, pct, named, bindings@, expansion, from_stream, empty, arg, chunk)
        == initial_scan(start as nat)) by {
        assert(bindings_view(bindings@) =~= seq![]);
    }
    while i < t.len()
        invariant
            i <= t@.len(),
            arg <= args@.len(),
            chunk <= inp@.stream.len(),
            named ==> arg == args@.len(),
            whole == scan(t@, texts(args@), start as nat, inp@),
            scan_from(
                t@,
                i as nat,
                state_of(out, pct, named, bindings@, expansion, from_stream, empty, arg, chunk),
                texts(args@),
                inp@,
            ) == whole,
        decreases t@.len() - i,
    {
        let ch = t[i];
        if ch == '%' && pct {
            push_char(&mut out, '%');
            pct = false;
            i += 1;
        } else if ch == '%' {
            pct = true;
            i += 1;
        } else if ch == '(' && pct {
            if !named {
                match collect_named_values(args, arg, inp, chunk) {
                    Ok((b, k)) => {
                        bindings = b;
                        chunk = k;
                        arg = args.len();
                        named = true;
                    },
                    Err(h) => {
                        return Err(h);
                    },
                }
            }
            match read_named_placeholder(t, i + 1, &bindings, inp, chunk) {
                Ok((j, frag, k, e)) => {
                    append(&mut out, frag.as_str());
                    i = j;
                    chunk = k;
                    empty = e;
                    pct = false;
                },
                Err(h) => {
                    return Err(h);
                },
            }
        } else if ch == '*' && pct && expansion == Expansion::Single {
            expansion = Expansion::Items;
            i += 1;
        } else if ch == '*' && pct && expansion == Expansion::Items {
            expansion = Expansion::Pairs;
            i += 1;
        } else if ch == '-' && pct {
            from_stream = true;
            i += 1;
        } else if ch == ',' && !pct && empty {
            empty = false;
            i += 1;
        } else if (ch == 's' || ch == 'q') && pct {
            if named {
                return Err(Halt::Fail(positional_after_named_error(ch, i)));
            }
            match read_positional(expansion, from_stream, ch == 'q', i, args, arg, inp, chunk) {
                Ok((frag, a, k, e)) => {
                    append(&mut out, frag.as_str());
                    arg = a;
                    chunk = k;
                    empty = e;
                },
                Err(h) => {
                    return Err(h);
                },
            }
            expansion = Expansion::Single;
            from_stream = false;
            pct = false;
            i += 1;
        } else if pct {
            return Err(Halt::Fail(invalid_placeholder_error(expansion.stars(), ch, i)));
        } else {
            push_char(&mut out, ch);
            pct = false;
            expansion = Expansion::Single;
            from_stream = false;
            empty = false;
            i += 1;
        }
    }
    Ok(
        Partial {
            text: out,
            last: if pct {
                Some('%')
            } else {
                None
            },
            next_arg: arg,
            next_chunk: chunk,
        },
    )
}

/// Substitutes the values into `template`, with the positional values taken
/// from `args` starting at position `start` (positions count from the start of
/// `args`, as the error messages do).
pub fn format_partial(template: &str, args: &Vec<String>, start: usize, inputs: &Inputs) -> (r:
    Step<Partial>)
    requires
        start <= args@.len(),
    ensures
        r@ == outcome_of(
            match scan(template@, texts(args@), start as nat, inputs@) {
                Ok(s) => Ok(partial_of(s)),
                Err(h) => Err(h),
            },
        ),
{
    let t = chars_of(template);
    match scan_template(&t, args, start, inputs) {
        Ok(p) => Step::Done(Ok(p)),
        Err(Halt::Fail(e)) => Step::Done(Err(e)),
        Err(Halt::Need(q)) => Step::Need(q),
    }
}

/// Rendering the arguments: the first is the template, the others its
/// positional values.
pub open spec fn render_spec(args: Seq<Seq<char>>, inp: InputsView) -> Outcome<Seq<char>> {
    if args.len() == 0 {
        Outcome::Fail(FailureView::Jf(not_enough_arguments_text()))
    } else {
        match scan(args[0], args, 1, inp) {
            Ok(s) => if s.pct {
                Outcome::Fail(FailureView::Jf(incomplete_text()))
            } else if s.arg < args.len() {
                Outcome::Fail(FailureView::Jf(too_many_values_text()))
            } else {
                Outcome::Done(s.out)
            },
            Err(h) => outcome_of(Err(h)),
        }
    }
}

/// Renders the template `args[0]` with the values `args[1..]` into the raw
/// document text.
pub fn render(args: &Vec<String>, inputs: &Inputs) -> (r: Step<String>)
    ensures
        r@ == render_spec(texts(args@), inputs@),
{
    if args.len() == 0 {
        return Step::Done(Err(not_enough_arguments_error()));
    }
    assert(texts(args@)[0] == args@[0]@);
    let t = chars_of(args[0].as_str());
    match scan_template(&t, args, 1, inputs) {
        Ok(p) => {
            if p.last.is_some() {
                Step::Done(Err(incomplete_error()))
            } else if p.next_arg < args.len() {
                Step::Done(Err(too_many_values_error()))
            } else {
                Step::Done(Ok(p.text))
            }
        },
        Err(Halt::Fail(e)) => Step::Done(Err(e)),
        Err(Halt::Need(q)) => Step::Need(q),
    }
}

} // verus!
