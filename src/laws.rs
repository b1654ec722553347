//! Properties of the engine as a whole, proved from its specification.

use crate::error::{missing_value_text, no_value_text, too_many_values_text, FailureView};
use crate::quote::{items_text, json_quote, json_unquote, lemma_unquote_quote, pairs_text, shown};
use crate::scan::{
    brace_from, fresh_named, initial_scan, named_from, positional, render_spec, scan, scan_from,
    stream_run, After, Consumed, Expansion, Named, Placed, ScanState,
};
use crate::source::values_of;
use crate::text::name_char;
use crate::source::{HaltView, InputsView, Outcome};
use vstd::prelude::*;

verus! {

/// Expanding zero values is never an error and inserts nothing: items or
/// pairs over the positional values once they are all used up, or over a
/// stream that has ended.
pub proof fn law_empty_expansion(
    expansion: Expansion,
    quoted: bool,
    col: nat,
    args: Seq<Seq<char>>,
    inp: InputsView,
)
    requires
        expansion != Expansion::Single,
    ensures
        positional(expansion, false, quoted, col, args, args.len(), inp, 0) == Ok::<
            Consumed,
            HaltView,
        >((seq![], args.len(), 0, true)),
        inp.closed ==> positional(
            expansion,
            true,
            quoted,
            col,
            args,
            args.len(),
            inp,
            inp.stream.len(),
        ) == Ok::<Consumed, HaltView>((seq![], args.len(), inp.stream.len(), true)),
{
    assert(args.subrange(args.len() as int, args.len() as int) =~= seq![]);
    assert(items_text(seq![], quoted) == Seq::<char>::empty());
    assert(pairs_text(seq![], quoted) == Seq::<char>::empty());
}

/// Expanding an odd number of values into pairs fails with a missing value at
/// the placeholder's column.
pub proof fn law_odd_pairs(
    quoted: bool,
    col: nat,
    args: Seq<Seq<char>>,
    a: nat,
    inp: InputsView,
    k: nat,
)
    requires
        a <= args.len(),
        (args.len() - a) % 2 == 1,
    ensures
        positional(Expansion::Pairs, false, quoted, col, args, a, inp, k) == Err::<
            Consumed,
            HaltView,
        >(HaltView::Fail(FailureView::Jf(missing_value_text(col)))),
{
}

/// Reading a closed stream whose chunks from `k` on were all read gives one
/// value for each of them.
proof fn lemma_stream_all_read(inp: InputsView, k: nat, acc: Seq<Seq<char>>)
    requires
        inp.closed,
        k <= inp.stream.len(),
        forall|x: int| k <= x < inp.stream.len() ==> (#[trigger] inp.stream[x]) is Ok,
    ensures
        stream_run(inp, k, acc) matches Ok((vals, k2)) && vals.len() == acc.len() + (
        inp.stream.len() - k) && k2 == inp.stream.len(),
    decreases inp.stream.len() - k,
{
    if k < inp.stream.len() {
        assert(inp.stream[k as int] is Ok);
        lemma_stream_all_read(inp, k + 1, acc.push(inp.stream[k as int]->Ok_0));
    }
}

/// Expanding into pairs an odd number of values from a stream that has
/// ended fails with a missing value at the placeholder's column.
pub proof fn law_odd_pairs_from_stream(
    quoted: bool,
    col: nat,
    args: Seq<Seq<char>>,
    a: nat,
    inp: InputsView,
    k: nat,
)
    requires
        inp.closed,
        k <= inp.stream.len(),
        forall|x: int| k <= x < inp.stream.len() ==> (#[trigger] inp.stream[x]) is Ok,
        (inp.stream.len() - k) % 2 == 1,
    ensures
        positional(Expansion::Pairs, true, quoted, col, args, a, inp, k) == Err::<
            Consumed,
            HaltView,
        >(HaltView::Fail(FailureView::Jf(missing_value_text(col)))),
{
    lemma_stream_all_read(inp, k, seq![]);
}

/// The text that `t` stands for from position `i` to `j` when that stretch
/// holds no placeholder: each character stands for itself and `%%` for `%`.
pub open spec fn literal_from(t: Seq<char>, i: nat, j: nat) -> Option<Seq<char>>
    decreases j - i,
{
    if i >= j {
        Some(seq![])
    } else if t[i as int] == '%' {
        if i + 1 < j && t[i + 1 as int] == '%' {
            match literal_from(t, i + 2, j) {
                Some(u) => Some(seq!['%'] + u),
                None => None,
            }
        } else {
            None
        }
    } else {
        match literal_from(t, i + 1, j) {
            Some(u) => Some(seq![t[i as int]] + u),
            None => None,
        }
    }
}

/// The text that a template without placeholders stands for.
pub open spec fn unescaped(t: Seq<char>) -> Option<Seq<char>> {
    literal_from(t, 0, t.len())
}

/// A state in which the scanner copies characters: no placeholder is open,
/// and no comma is to be dropped.
pub open spec fn copying(s: ScanState) -> bool {
    !s.pct && !s.empty && s.expansion == Expansion::Single && !s.from_stream
}

/// Scanning a stretch without placeholders appends the text it stands for.
pub proof fn lemma_literal_scan(
    t: Seq<char>,
    i: nat,
    j: nat,
    s: ScanState,
    args: Seq<Seq<char>>,
    inp: InputsView,
)
    requires
        i <= j <= t.len(),
        literal_from(t, i, j) is Some,
        copying(s),
    ensures
        scan_from(t, i, s, args, inp) == scan_from(
            t,
            j,
            ScanState { out: s.out + literal_from(t, i, j)->0, ..s },
            args,
            inp,
        ),
    decreases j - i,
{
    if i >= j {
        assert(s.out + literal_from(t, i, j)->0 =~= s.out);
        assert(ScanState { out: s.out + literal_from(t, i, j)->0, ..s } == s);
    } else if t[i as int] == '%' {
        let s1 = ScanState { pct: true, ..s };
        let s2 = ScanState { out: s.out.push('%'), ..s };
        assert(scan_from(t, i, s, args, inp) == scan_from(t, i + 1, s1, args, inp));
        assert(ScanState { out: s1.out.push('%'), pct: false, ..s1 } == s2);
        assert(scan_from(t, i + 1, s1, args, inp) == scan_from(t, i + 2, s2, args, inp));
        lemma_literal_scan(t, i + 2, j, s2, args, inp);
        assert(s2.out + literal_from(t, i + 2, j)->0 =~= s.out + literal_from(t, i, j)->0);
    } else {
        let c = t[i as int];
        let s2 = ScanState { out: s.out.push(c), ..s };
        assert(ScanState {
            out: s.out.push(c),
            pct: false,
            expansion: Expansion::Single,
            from_stream: false,
            empty: false,
            ..s
        } == s2);
        assert(scan_from(t, i, s, args, inp) == scan_from(t, i + 1, s2, args, inp));
        lemma_literal_scan(t, i + 1, j, s2, args, inp);
        assert(s2.out + literal_from(t, i + 1, j)->0 =~= s.out + literal_from(t, i, j)->0);
    }
}

/// A template without placeholders renders as the text it stands for
/// (`%%` read as `%`), consumes no value and asks for nothing, whatever
/// values and inputs come with it; alone, it renders to that text.
pub proof fn law_plain_template(t: Seq<char>, args: Seq<Seq<char>>, start: nat, inp: InputsView)
    requires
        unescaped(t) is Some,
    ensures
        scan(t, args, start, inp) == Ok::<ScanState, HaltView>(
            ScanState { out: unescaped(t)->0, ..initial_scan(start) },
        ),
        render_spec(seq![t], inp) == Outcome::<Seq<char>>::Done(unescaped(t)->0),
{
    let s0 = initial_scan(start);
    lemma_literal_scan(t, 0, t.len(), s0, args, inp);
    assert(s0.out + unescaped(t)->0 =~= unescaped(t)->0);
    let s1 = initial_scan(1);
    lemma_literal_scan(t, 0, t.len(), s1, seq![t], inp);
    assert(s1.out + unescaped(t)->0 =~= unescaped(t)->0);
    assert(seq![t][0] == t);
}

/// The character that ends a positional placeholder.
pub open spec fn mode_char(quoted: bool) -> char {
    if quoted {
        'q'
    } else {
        's'
    }
}

/// The template made of the pieces `lits` with a positional placeholder
/// between each two: `%q` where `quoted` says so, `%s` elsewhere.
pub open spec fn positional_template(lits: Seq<Seq<char>>, quoted: Seq<bool>) -> Seq<char>
    decreases quoted.len(),
{
    if quoted.len() == 0 {
        lits[0]
    } else {
        lits[0] + seq!['%', mode_char(quoted[0])] + positional_template(
            lits.drop_first(),
            quoted.drop_first(),
        )
    }
}

/// What that template stands for when its placeholders take `vals` in
/// order.
pub open spec fn positional_rendering(
    lits: Seq<Seq<char>>,
    quoted: Seq<bool>,
    vals: Seq<Seq<char>>,
) -> Seq<char>
    decreases quoted.len(),
{
    if quoted.len() == 0 {
        unescaped(lits[0])->0
    } else {
        unescaped(lits[0])->0 + shown(vals[0], quoted[0]) + positional_rendering(
            lits.drop_first(),
            quoted.drop_first(),
            vals.drop_first(),
        )
    }
}

/// The column of the character that ends placeholder number `m` (counted
/// from zero) of that template.
pub open spec fn placeholder_column(lits: Seq<Seq<char>>, quoted: Seq<bool>, m: nat) -> nat
    decreases m,
{
    if m == 0 {
        lits[0].len() + 1
    } else {
        lits[0].len() + 2 + placeholder_column(lits.drop_first(), quoted.drop_first(), (m - 1) as nat)
    }
}

/// The pieces of a positional template: one more than the placeholders, and
/// none of them holds a placeholder.
pub open spec fn plain_pieces(lits: Seq<Seq<char>>, quoted: Seq<bool>) -> bool {
    &&& lits.len() == quoted.len() + 1
    &&& forall|p: int| 0 <= p < lits.len() ==> (#[trigger] unescaped(lits[p])) is Some
}

/// Whether a stretch stands for some text depends on its characters alone.
pub proof fn lemma_literal_shift(t: Seq<char>, i: nat, j: nat, u: Seq<char>)
    requires
        i <= j <= t.len(),
        u.len() == j - i,
        forall|k: int| 0 <= k < u.len() ==> t[i + k] == u[k],
    ensures
        literal_from(t, i, j) == literal_from(u, 0, u.len()),
    decreases j - i,
{
    if i < j {
        let u1 = u.drop_first();
        assert forall|k: int| 0 <= k < u1.len() implies t[(i + 1) + k] == u1[k] by {
            assert(t[i + (k + 1)] == u[k + 1]);
        }
        lemma_literal_shift(t, i + 1, j, u1);
        lemma_literal_drop(u, 1);
        if u[0] == '%' && u.len() > 1 && u[1] == '%' {
            let u2 = u.skip(2);
            assert forall|k: int| 0 <= k < u2.len() implies t[(i + 2) + k] == u2[k] by {
                assert(t[i + (k + 2)] == u[k + 2]);
            }
            lemma_literal_shift(t, i + 2, j, u2);
            lemma_literal_drop(u, 2);
        }
    }
}

/// Reading a sequence from position `d` is reading what is left once `d`
/// characters are dropped.
pub proof fn lemma_literal_drop(u: Seq<char>, d: nat)
    requires
        d <= u.len(),
    ensures
        literal_from(u, d, u.len()) == literal_from(u.skip(d as int), 0, (u.len() - d) as nat),
    decreases u.len() - d,
{
    let w = u.skip(d as int);
    if d < u.len() {
        lemma_literal_drop(u, d + 1);
        assert(u.skip(d + 1 as int) =~= w.skip(1));
        lemma_literal_drop(w, 1);
        if d + 2 <= u.len() {
            lemma_literal_drop(u, d + 2);
            assert(u.skip(d + 2 as int) =~= w.skip(2));
            lemma_literal_drop(w, 2);
        }
    }
}

/// Scanning a positional template from position `i` to the end, with the
/// positional values from `s.arg` on: each placeholder takes the next value,
/// or, where none is left, fails at its column.
pub proof fn lemma_positional_run(
    t: Seq<char>,
    i: nat,
    lits: Seq<Seq<char>>,
    quoted: Seq<bool>,
    s: ScanState,
    args: Seq<Seq<char>>,
    inp: InputsView,
)
    requires
        plain_pieces(lits, quoted),
        i <= t.len(),
        t.skip(i as int) == positional_template(lits, quoted),
        copying(s),
        !s.named,
        s.arg <= args.len(),
    ensures
        s.arg + quoted.len() <= args.len() ==> scan_from(t, i, s, args, inp) == Ok::<
            ScanState,
            HaltView,
        >(
            ScanState {
                out: s.out + positional_rendering(
                    lits,
                    quoted,
                    args.subrange(s.arg as int, s.arg + quoted.len() as int),
                ),
                arg: s.arg + quoted.len(),
                ..s
            },
        ),
        s.arg + quoted.len() > args.len() ==> scan_from(t, i, s, args, inp) == Err::<
            ScanState,
            HaltView,
        >(
            HaltView::Fail(
                FailureView::Jf(
                    missing_value_text(i + placeholder_column(lits, quoted, (args.len() - s.arg) as nat)),
                ),
            ),
        ),
    decreases quoted.len(),
{
    let l0 = lits[0];
    let n0 = l0.len();
    assert(unescaped(lits[0]) is Some);
    assert(t.skip(i as int).len() == t.len() - i);
    assert forall|k: int| 0 <= k < l0.len() implies t[i + k] == l0[k] by {
        assert(t.skip(i as int)[k] == t[i + k]);
        if quoted.len() > 0 {
            assert(positional_template(lits, quoted)[k] == l0[k]);
        }
    }
    lemma_literal_shift(t, i, i + n0, l0);
    lemma_literal_scan(t, i, i + n0, s, args, inp);
    let s1 = ScanState { out: s.out + unescaped(l0)->0, ..s };
    if quoted.len() == 0 {
        assert(i + n0 == t.len());
        assert(args.subrange(s.arg as int, s.arg as int) =~= seq![]);
        assert(s.out + positional_rendering(lits, quoted, seq![]) == s1.out);
        assert(ScanState { out: s1.out, arg: s.arg, ..s } == s1);
    } else {
        let q = quoted[0];
        let p = i + n0;
        assert(t.skip(i as int)[n0 as int] == '%');
        assert(t.skip(i as int)[n0 + 1 as int] == mode_char(q));
        assert(t[p as int] == '%');
        assert(t[p + 1 as int] == mode_char(q));
        let rest = positional_template(lits.drop_first(), quoted.drop_first());
        let whole = l0 + seq!['%', mode_char(q)] + rest;
        assert(positional_template(lits, quoted) == whole);
        assert(t.len() == p + 2 + rest.len());
        assert forall|k: int| 0 <= k < rest.len() implies t.skip(p + 2 as int)[k] == rest[k] by {
            assert(t.skip(i as int)[n0 + 2 + k] == whole[n0 + 2 + k]);
            assert(whole[n0 + 2 + k] == rest[k]);
        }
        assert(t.skip(p + 2 as int) =~= rest);
        let s2 = ScanState { pct: true, ..s1 };
        assert(scan_from(t, p, s1, args, inp) == scan_from(t, p + 1, s2, args, inp));
        let lits1 = lits.drop_first();
        let quoted1 = quoted.drop_first();
        assert(plain_pieces(lits1, quoted1)) by {
            assert forall|k: int| 0 <= k < lits1.len() implies (#[trigger] unescaped(lits1[k])) is Some by {
                assert(lits1[k] == lits[k + 1]);
                assert(unescaped(lits[k + 1]) is Some);
            }
        }
        if s.arg < args.len() {
            let v = args[s.arg as int];
            let s3 = ScanState { out: s1.out + shown(v, q), arg: s.arg + 1, ..s1 };
            assert(ScanState {
                out: s2.out + shown(v, q),
                pct: false,
                expansion: Expansion::Single,
                from_stream: false,
                empty: false,
                arg: s.arg + 1,
                chunk: s2.chunk,
                ..s2
            } == s3);
            assert(scan_from(t, p + 1, s2, args, inp) == scan_from(t, p + 2, s3, args, inp));
            lemma_positional_run(t, p + 2, lits1, quoted1, s3, args, inp);
            if s.arg + quoted.len() <= args.len() {
                let vs = args.subrange(s.arg as int, s.arg + quoted.len() as int);
                assert(vs[0] == v);
                assert(vs.drop_first() =~= args.subrange(s3.arg as int, s3.arg + quoted1.len() as int));
                assert(s3.out + positional_rendering(lits1, quoted1, vs.drop_first()) =~= s.out
                    + positional_rendering(lits, quoted, vs));
            }
        } else {
            assert(placeholder_column(lits, quoted, 0) == n0 + 1);
        }
    }
}

/// Scanning a positional template with the values taken from position
/// `start` of `args`: with enough values, each placeholder takes the next
/// one in order, the stream is left untouched and nothing fails; with too
/// few, the first placeholder without a value fails at its column.
pub proof fn law_positional_scan(
    lits: Seq<Seq<char>>,
    quoted: Seq<bool>,
    args: Seq<Seq<char>>,
    start: nat,
    inp: InputsView,
)
    requires
        plain_pieces(lits, quoted),
        start <= args.len(),
    ensures
        start + quoted.len() <= args.len() ==> scan(
            positional_template(lits, quoted),
            args,
            start,
            inp,
        ) == Ok::<ScanState, HaltView>(
            ScanState {
                out: positional_rendering(
                    lits,
                    quoted,
                    args.subrange(start as int, start + quoted.len() as int),
                ),
                arg: start + quoted.len(),
                ..initial_scan(start)
            },
        ),
        start + quoted.len() > args.len() ==> scan(positional_template(lits, quoted), args, start, inp)
            == Err::<ScanState, HaltView>(
            HaltView::Fail(
                FailureView::Jf(
                    missing_value_text(placeholder_column(lits, quoted, (args.len() - start) as nat)),
                ),
            ),
        ),
{
    let t = positional_template(lits, quoted);
    let s0 = initial_scan(start);
    assert(t.skip(0) =~= t);
    lemma_positional_run(t, 0, lits, quoted, s0, args, inp);
    assert(s0.out + positional_rendering(
        lits,
        quoted,
        args.subrange(start as int, start + quoted.len() as int),
    ) =~= positional_rendering(lits, quoted, args.subrange(start as int, start + quoted.len() as int)));
}

/// A template with as many positional placeholders as values renders each
/// placeholder with the next value, in order.
pub proof fn law_positional_in_order(
    lits: Seq<Seq<char>>,
    quoted: Seq<bool>,
    vals: Seq<Seq<char>>,
    inp: InputsView,
)
    requires
        plain_pieces(lits, quoted),
        vals.len() == quoted.len(),
    ensures
        render_spec(seq![positional_template(lits, quoted)] + vals, inp) == Outcome::<
            Seq<char>,
        >::Done(positional_rendering(lits, quoted, vals)),
{
    lemma_render_run(lits, quoted, vals, inp);
    let args = seq![positional_template(lits, quoted)] + vals;
    assert(args.subrange(1, 1 + quoted.len() as int) =~= vals);
}

/// Fewer values than positional placeholders: the first placeholder left
/// without a value fails with a missing value at its column.
pub proof fn law_missing_value(
    lits: Seq<Seq<char>>,
    quoted: Seq<bool>,
    vals: Seq<Seq<char>>,
    inp: InputsView,
)
    requires
        plain_pieces(lits, quoted),
        vals.len() < quoted.len(),
    ensures
        render_spec(seq![positional_template(lits, quoted)] + vals, inp) == Outcome::<
            Seq<char>,
        >::Fail(FailureView::Jf(missing_value_text(placeholder_column(lits, quoted, vals.len())))),
{
    lemma_render_run(lits, quoted, vals, inp);
}

/// More values than positional placeholders: an arity error.
pub proof fn law_too_many_values(
    lits: Seq<Seq<char>>,
    quoted: Seq<bool>,
    vals: Seq<Seq<char>>,
    inp: InputsView,
)
    requires
        plain_pieces(lits, quoted),
        vals.len() > quoted.len(),
    ensures
        render_spec(seq![positional_template(lits, quoted)] + vals, inp) == Outcome::<
            Seq<char>,
        >::Fail(FailureView::Jf(too_many_values_text())),
{
    lemma_render_run(lits, quoted, vals, inp);
}

proof fn lemma_render_run(
    lits: Seq<Seq<char>>,
    quoted: Seq<bool>,
    vals: Seq<Seq<char>>,
    inp: InputsView,
)
    requires
        plain_pieces(lits, quoted),
    ensures
        ({
            let args = seq![positional_template(lits, quoted)] + vals;
            let s0 = initial_scan(1);
            &&& args[0] == positional_template(lits, quoted)
            &&& args.len() == vals.len() + 1
            &&& 1 + quoted.len() <= args.len() ==> scan(args[0], args, 1, inp) == Ok::<
                ScanState,
                HaltView,
            >(
                ScanState {
                    out: positional_rendering(lits, quoted, args.subrange(1, 1 + quoted.len() as int)),
                    arg: 1 + quoted.len(),
                    ..s0
                },
            )
            &&& 1 + quoted.len() > args.len() ==> scan(args[0], args, 1, inp) == Err::<
                ScanState,
                HaltView,
            >(
                HaltView::Fail(
                    FailureView::Jf(missing_value_text(placeholder_column(lits, quoted, vals.len()))),
                ),
            )
        }),
{
    let t = positional_template(lits, quoted);
    let args = seq![t] + vals;
    let s0 = initial_scan(1);
    assert(args[0] == t);
    assert(t.skip(0) =~= t);
    lemma_positional_run(t, 0, lits, quoted, s0, args, inp);
    assert(s0.out + positional_rendering(lits, quoted, args.subrange(1, 1 + quoted.len() as int))
        =~= positional_rendering(lits, quoted, args.subrange(1, 1 + quoted.len() as int)));
}

/// A placeholder name: not empty, made of letters, digits and `_`.
pub open spec fn is_name(n: Seq<char>) -> bool {
    n.len() > 0 && forall|i: int| 0 <= i < n.len() ==> name_char(#[trigger] n[i])
}

/// How a default value is written inside a placeholder: `)` and `\\` each
/// after a backslash, every other character as it is.
pub open spec fn written_default(d: Seq<char>) -> Seq<char>
    decreases d.len(),
{
    if d.len() == 0 {
        seq![]
    } else if d[0] == ')' || d[0] == '\\' {
        seq!['\\', d[0]] + written_default(d.drop_first())
    } else {
        seq![d[0]] + written_default(d.drop_first())
    }
}

/// `t` holds `piece` from position `j` on.
pub open spec fn holds_at(t: Seq<char>, j: nat, piece: Seq<char>) -> bool {
    j + piece.len() <= t.len() && t.subrange(j as int, (j + piece.len()) as int) == piece
}

/// A named placeholder that has read nothing but a name so far.
pub open spec fn naming(name: Seq<char>) -> Named {
    Named { name, ..fresh_named() }
}

/// Reading the characters of a name adds them to the name.
pub proof fn lemma_read_name(
    t: Seq<char>,
    j: nat,
    name: Seq<char>,
    more: Seq<char>,
    b: Seq<(Seq<char>, Seq<char>)>,
    inp: InputsView,
    k: nat,
)
    requires
        holds_at(t, j, more),
        forall|i: int| 0 <= i < more.len() ==> name_char(#[trigger] more[i]),
    ensures
        named_from(t, j, naming(name), b, inp, k) == named_from(
            t,
            j + more.len(),
            naming(name + more),
            b,
            inp,
            k,
        ),
    decreases more.len(),
{
    if more.len() == 0 {
        assert(name + more =~= name);
    } else {
        let c = more[0];
        assert(t[j as int] == t.subrange(j as int, (j + more.len()) as int)[0]);
        assert(name_char(c));
        assert(Named { name: naming(name).name.push(c), ..naming(name) } == naming(name.push(c)));
        let rest = more.drop_first();
        assert(t.subrange((j + 1) as int, (j + 1 + rest.len()) as int) =~= rest) by {
            assert forall|i: int| 0 <= i < rest.len() implies t.subrange((j + 1) as int, (j + 1 + rest.len()) as int)[i] == rest[i] by {
                assert(t.subrange(j as int, (j + more.len()) as int)[i + 1] == more[i + 1]);
            }
        }
        assert forall|i: int| 0 <= i < rest.len() implies name_char(#[trigger] rest[i]) by {
            assert(name_char(more[i + 1]));
        }
        lemma_read_name(t, j + 1, name.push(c), rest, b, inp, k);
        assert(name.push(c) + rest =~= name + more);
    }
}

/// A part of what `t` holds from position `i` on.
proof fn lemma_holds_part(t: Seq<char>, i: nat, piece: Seq<char>, a: nat, b: nat)
    requires
        holds_at(t, i, piece),
        a <= b <= piece.len(),
    ensures
        holds_at(t, i + a, piece.subrange(a as int, b as int)),
{
    assert(t.subrange((i + a) as int, (i + a + (b - a)) as int) =~= piece.subrange(a as int, b as int))
        by {
        assert forall|x: int| 0 <= x < b - a implies t.subrange(
            (i + a) as int,
            (i + a + (b - a)) as int,
        )[x] == piece.subrange(a as int, b as int)[x] by {
            lemma_piece(t, i, piece, a + x);
        }
    }
}

/// Reading a written default value, up to its `)`, gives the value.
pub proof fn lemma_read_default(t: Seq<char>, i: nat, val: Seq<char>, d: Seq<char>)
    requires
        holds_at(t, i, written_default(d) + seq![')']),
    ensures
        brace_from(t, i, val, false) == (val + d, i + written_default(d).len() + 1),
    decreases d.len(),
{
    let w = written_default(d);
    let piece = w + seq![')'];
    lemma_piece(t, i, piece, 0);
    if d.len() == 0 {
        assert(val + d =~= val);
    } else {
        let c = d[0];
        let rest = d.drop_first();
        let wr = written_default(rest);
        if c == ')' || c == '\\' {
            lemma_piece(t, i, piece, 1);
            lemma_holds_part(t, i, piece, 2, piece.len());
            assert(piece.subrange(2, piece.len() as int) =~= wr + seq![')']);
            assert(brace_from(t, i, val, false) == brace_from(t, i + 1, val, true));
            assert(brace_from(t, i + 1, val, true) == brace_from(t, i + 2, val.push(c), false));
            lemma_read_default(t, i + 2, val.push(c), rest);
        } else {
            lemma_holds_part(t, i, piece, 1, piece.len());
            assert(piece.subrange(1, piece.len() as int) =~= wr + seq![')']);
            lemma_read_default(t, i + 1, val.push(c), rest);
        }
        assert(val.push(c) + rest =~= val + d);
    }
}

/// The characters of `piece` are at their places in `t`.
proof fn lemma_piece(t: Seq<char>, j: nat, piece: Seq<char>, x: int)
    requires
        holds_at(t, j, piece),
        0 <= x < piece.len(),
    ensures
        t[j + x] == piece[x],
{
    assert(t.subrange(j as int, (j + piece.len()) as int)[x] == piece[x]);
}

/// A named placeholder `%(NAME=DEFAULT)` ended by `q` or `s`, whose name has
/// no value: it renders the default, quoted as the placeholder says.
pub proof fn law_unbound_with_default(
    t: Seq<char>,
    j: nat,
    name: Seq<char>,
    d: Seq<char>,
    m: char,
    b: Seq<(Seq<char>, Seq<char>)>,
    inp: InputsView,
    k: nat,
)
    requires
        is_name(name),
        m == 'q' || m == 's',
        values_of(b, name).len() == 0,
        holds_at(t, j, name + seq!['='] + written_default(d) + seq![')', m]),
    ensures
        named_from(t, j, fresh_named(), b, inp, k) == Ok::<Placed, HaltView>(
            (j + name.len() + written_default(d).len() + 3, shown(d, m == 'q'), k, false),
        ),
{
    let w = written_default(d);
    let piece = name + seq!['='] + w + seq![')', m];
    let p = j + name.len();
    assert(piece.subrange(0, name.len() as int) =~= name);
    lemma_name_prefix(t, j, name, piece);
    assert(naming(seq![]) == fresh_named());
    lemma_read_name(t, j, seq![], name, b, inp, k);
    assert(seq![] + name =~= name);
    lemma_piece(t, j, piece, name.len() as int);
    assert(t[p as int] == '=');
    lemma_holds_part(t, j, piece, name.len() + 1, name.len() + 1 + w.len() + 1);
    assert(piece.subrange((name.len() + 1) as int, (name.len() + 1 + w.len() + 1) as int)
        =~= w + seq![')']);
    lemma_read_default(t, p + 1, seq![], d);
    assert(seq![] + d =~= d);
    let q = p + 2 + w.len();
    lemma_piece(t, j, piece, (name.len() + 2 + w.len()) as int);
    assert(t[q as int] == m);
    let st1 = Named { default: Some(d), after: After::Close, ..naming(name) };
    assert(named_from(t, p, naming(name), b, inp, k) == named_from(t, q, st1, b, inp, k));
    assert(named_from(t, q, st1, b, inp, k) == Ok::<Placed, HaltView>(
        (q + 1, shown(d, m == 'q'), k, false),
    ));
}

/// The name at the start of a placeholder is a name.
proof fn lemma_name_prefix(t: Seq<char>, j: nat, name: Seq<char>, piece: Seq<char>)
    requires
        holds_at(t, j, piece),
        name.len() <= piece.len(),
        piece.subrange(0, name.len() as int) == name,
    ensures
        holds_at(t, j, name),
{
    assert(t.subrange(j as int, (j + name.len()) as int) =~= name) by {
        assert forall|x: int| 0 <= x < name.len() implies t.subrange(j as int, (j + name.len()) as int)[x]
            == name[x] by {
            lemma_piece(t, j, piece, (x) as int);
        }
    }
}

/// A nullable named placeholder `%(NAME?)` ended by `q` or `s`, whose name
/// has no value: it renders `null`.
pub proof fn law_unbound_nullable(
    t: Seq<char>,
    j: nat,
    name: Seq<char>,
    m: char,
    b: Seq<(Seq<char>, Seq<char>)>,
    inp: InputsView,
    k: nat,
)
    requires
        is_name(name),
        m == 'q' || m == 's',
        values_of(b, name).len() == 0,
        holds_at(t, j, name + seq!['?', ')', m]),
    ensures
        named_from(t, j, fresh_named(), b, inp, k) == Ok::<Placed, HaltView>(
            (j + name.len() + 3, "null"@, k, false),
        ),
{
    let piece = name + seq!['?', ')', m];
    let p = j + name.len();
    assert(piece.subrange(0, name.len() as int) =~= name);
    lemma_name_prefix(t, j, name, piece);
    assert(naming(seq![]) == fresh_named());
    lemma_read_name(t, j, seq![], name, b, inp, k);
    assert(seq![] + name =~= name);
    assert(named_from(t, j, fresh_named(), b, inp, k) == named_from(t, p, naming(name), b, inp, k));
    lemma_piece(t, j, piece, name.len() as int);
    lemma_piece(t, j, piece, (name.len() + 1) as int);
    lemma_piece(t, j, piece, (name.len() + 2) as int);
    let st1 = Named { nullable: true, after: After::Close, ..naming(name) };
    assert(named_from(t, p, naming(name), b, inp, k) == named_from(t, p + 2, st1, b, inp, k));
    assert(named_from(t, p + 2, st1, b, inp, k) == Ok::<Placed, HaltView>(
        (p + 3, "null"@, k, false),
    ));
}

/// An optional named placeholder `%(NAME)?` ended by `q` or `s`, whose name
/// has no value: it renders nothing.
pub proof fn law_unbound_optional(
    t: Seq<char>,
    j: nat,
    name: Seq<char>,
    m: char,
    b: Seq<(Seq<char>, Seq<char>)>,
    inp: InputsView,
    k: nat,
)
    requires
        is_name(name),
        m == 'q' || m == 's',
        values_of(b, name).len() == 0,
        holds_at(t, j, name + seq![')', '?', m]),
    ensures
        named_from(t, j, fresh_named(), b, inp, k) == Ok::<Placed, HaltView>(
            (j + name.len() + 3, seq![], k, false),
        ),
{
    let piece = name + seq![')', '?', m];
    let p = j + name.len();
    assert(piece.subrange(0, name.len() as int) =~= name);
    lemma_name_prefix(t, j, name, piece);
    assert(naming(seq![]) == fresh_named());
    lemma_read_name(t, j, seq![], name, b, inp, k);
    assert(seq![] + name =~= name);
    assert(named_from(t, j, fresh_named(), b, inp, k) == named_from(t, p, naming(name), b, inp, k));
    lemma_piece(t, j, piece, name.len() as int);
    lemma_piece(t, j, piece, (name.len() + 1) as int);
    lemma_piece(t, j, piece, (name.len() + 2) as int);
    let st1 = Named { after: After::Close, ..naming(name) };
    let st2 = Named { optional: true, ..st1 };
    assert(named_from(t, p, naming(name), b, inp, k) == named_from(t, p + 1, st1, b, inp, k));
    assert(named_from(t, p + 1, st1, b, inp, k) == named_from(t, p + 2, st2, b, inp, k));
    assert(named_from(t, p + 2, st2, b, inp, k) == Ok::<Placed, HaltView>(
        (p + 3, seq![], k, false),
    ));
}

/// A plain named placeholder `%(NAME)` ended by `q` or `s`, whose name has
/// no value: it fails, naming the placeholder and its column.
pub proof fn law_unbound_required(
    t: Seq<char>,
    j: nat,
    name: Seq<char>,
    m: char,
    b: Seq<(Seq<char>, Seq<char>)>,
    inp: InputsView,
    k: nat,
)
    requires
        is_name(name),
        m == 'q' || m == 's',
        values_of(b, name).len() == 0,
        holds_at(t, j, name + seq![')', m]),
    ensures
        named_from(t, j, fresh_named(), b, inp, k) == Err::<Placed, HaltView>(
            HaltView::Fail(FailureView::Jf(no_value_text(name, m, j + name.len() + 1))),
        ),
{
    let piece = name + seq![')', m];
    let p = j + name.len();
    assert(piece.subrange(0, name.len() as int) =~= name);
    lemma_name_prefix(t, j, name, piece);
    assert(naming(seq![]) == fresh_named());
    lemma_read_name(t, j, seq![], name, b, inp, k);
    assert(seq![] + name =~= name);
    assert(named_from(t, j, fresh_named(), b, inp, k) == named_from(t, p, naming(name), b, inp, k));
    lemma_piece(t, j, piece, name.len() as int);
    lemma_piece(t, j, piece, (name.len() + 1) as int);
    let st1 = Named { after: After::Close, ..naming(name) };
    assert(named_from(t, p, naming(name), b, inp, k) == named_from(t, p + 1, st1, b, inp, k));
}

/// A named placeholder that expands, `%(NAME)*` or `%(NAME)**` ended by `q`
/// or `s`, whose name has no value: it inserts nothing and is no error.
pub proof fn law_unbound_expansion(
    t: Seq<char>,
    j: nat,
    name: Seq<char>,
    stars: Seq<char>,
    m: char,
    b: Seq<(Seq<char>, Seq<char>)>,
    inp: InputsView,
    k: nat,
)
    requires
        is_name(name),
        stars == seq!['*'] || stars == seq!['*', '*'],
        m == 'q' || m == 's',
        values_of(b, name).len() == 0,
        holds_at(t, j, name + seq![')'] + stars + seq![m]),
    ensures
        named_from(t, j, fresh_named(), b, inp, k) == Ok::<Placed, HaltView>(
            (j + name.len() + stars.len() + 2, seq![], k, true),
        ),
{
    let piece = name + seq![')'] + stars + seq![m];
    let p = j + name.len();
    assert(piece.subrange(0, name.len() as int) =~= name);
    lemma_name_prefix(t, j, name, piece);
    assert(naming(seq![]) == fresh_named());
    lemma_read_name(t, j, seq![], name, b, inp, k);
    assert(seq![] + name =~= name);
    assert(named_from(t, j, fresh_named(), b, inp, k) == named_from(t, p, naming(name), b, inp, k));
    lemma_piece(t, j, piece, name.len() as int);
    lemma_piece(t, j, piece, (name.len() + 1) as int);
    lemma_piece(t, j, piece, (name.len() + stars.len() + 1) as int);
    let st1 = Named { after: After::Close, ..naming(name) };
    let st2 = Named { expansion: Expansion::Items, after: After::Star, ..st1 };
    assert(named_from(t, p, naming(name), b, inp, k) == named_from(t, p + 1, st1, b, inp, k));
    assert(named_from(t, p + 1, st1, b, inp, k) == named_from(t, p + 2, st2, b, inp, k));
    assert(items_text(values_of(b, name), m == 'q') == Seq::<char>::empty());
    assert(pairs_text(values_of(b, name), m == 'q') == Seq::<char>::empty());
    if stars.len() == 1 {
        assert(named_from(t, p + 2, st2, b, inp, k) == Ok::<Placed, HaltView>(
            (p + 3, seq![], k, true),
        ));
    } else {
        lemma_piece(t, j, piece, (name.len() + 2) as int);
        let st3 = Named { expansion: Expansion::Pairs, ..st2 };
        assert(named_from(t, p + 2, st2, b, inp, k) == named_from(t, p + 3, st3, b, inp, k));
        assert(named_from(t, p + 3, st3, b, inp, k) == Ok::<Placed, HaltView>(
            (p + 4, seq![], k, true),
        ));
    }
}

/// `%q` with a value renders the JSON string literal of the value, which
/// reads back as exactly that value; `%s` with a value renders the value
/// itself, for the document reader to take as a number, a boolean or any
/// other YAML it spells.
pub proof fn law_round_trip(v: Seq<char>, inp: InputsView)
    ensures
        render_spec(seq![seq!['%', 'q'], v], inp) == Outcome::<Seq<char>>::Done(json_quote(v)),
        json_unquote(json_quote(v)) == Some(v),
        render_spec(seq![seq!['%', 's'], v], inp) == Outcome::<Seq<char>>::Done(v),
{
    let lits: Seq<Seq<char>> = seq![seq![], seq![]];
    assert(unescaped(seq![]) == Some(Seq::<char>::empty()));
    assert(plain_pieces(lits, seq![true])) by {
        assert forall|p: int| 0 <= p < lits.len() implies (#[trigger] unescaped(lits[p])) is Some by {
            assert(lits[p] == Seq::<char>::empty());
        }
    }
    assert(plain_pieces(lits, seq![false])) by {
        assert forall|p: int| 0 <= p < lits.len() implies (#[trigger] unescaped(lits[p])) is Some by {
            assert(lits[p] == Seq::<char>::empty());
        }
    }
    law_positional_in_order(lits, seq![true], seq![v], inp);
    law_positional_in_order(lits, seq![false], seq![v], inp);
    let rest = lits.drop_first();
    assert(rest[0] == Seq::<char>::empty());
    assert(seq![true].drop_first().len() == 0);
    assert(seq![false].drop_first().len() == 0);
    assert(seq![true][0] == true);
    assert(seq![false][0] == false);
    assert(seq![v][0] == v);
    assert(positional_template(rest, seq![true].drop_first()) == Seq::<char>::empty());
    assert(positional_template(rest, seq![false].drop_first()) == Seq::<char>::empty());
    assert(positional_rendering(rest, seq![true].drop_first(), seq![v].drop_first())
        == Seq::<char>::empty());
    assert(positional_rendering(rest, seq![false].drop_first(), seq![v].drop_first())
        == Seq::<char>::empty());
    assert(positional_template(lits, seq![true]) =~= seq!['%', 'q']);
    assert(positional_template(lits, seq![false]) =~= seq!['%', 's']);
    assert(seq![seq!['%', 'q']] + seq![v] =~= seq![seq!['%', 'q'], v]);
    assert(seq![seq!['%', 's']] + seq![v] =~= seq![seq!['%', 's'], v]);
    assert(positional_rendering(lits, seq![true], seq![v]) =~= json_quote(v));
    assert(positional_rendering(lits, seq![false], seq![v]) =~= v);
    lemma_unquote_quote(v);
}

} // verus!
