//! How values are written into the document: verbatim, or as JSON string
//! literals, alone or joined into array items and object pairs.

use crate::text::{append, digit_char, push_char};
use vstd::prelude::*;

verus! {

/// The lower-case hexadecimal digit for `d`, which is below sixteen.
pub open spec fn hex_digit(d: nat) -> char {
    if d < 10 {
        digit_char(d)
    } else if d == 10 {
        'a'
    } else if d == 11 {
        'b'
    } else if d == 12 {
        'c'
    } else if d == 13 {
        'd'
    } else if d == 14 {
        'e'
    } else {
        'f'
    }
}

/// How one character is written inside a JSON string literal: quotes and
/// backslashes are escaped, control characters take their short escape or a
/// `\u00XX` escape, and every other character stands as it is.
pub open spec fn escape_char(c: char) -> Seq<char> {
    if c == '"' {
        seq!['\\', '"']
    } else if c == '\\' {
        seq!['\\', '\\']
    } else if c == '\x08' {
        seq!['\\', 'b']
    } else if c == '\x0c' {
        seq!['\\', 'f']
    } else if c == '\n' {
        seq!['\\', 'n']
    } else if c == '\r' {
        seq!['\\', 'r']
    } else if c == '\t' {
        seq!['\\', 't']
    } else if (c as u32) < 0x20 {
        seq!['\\', 'u', '0', '0', hex_digit((c as u32 / 16) as nat), hex_digit((c as u32 % 16) as nat)]
    } else {
        seq![c]
    }
}

/// The characters of `s`, each escaped as in a JSON string literal.
pub open spec fn escaped(s: Seq<char>) -> Seq<char>
    decreases s.len(),
{
    if s.len() == 0 {
        seq![]
    } else {
        escape_char(s[0]) + escaped(s.drop_first())
    }
}

/// The JSON string literal whose value is `s`.
pub open spec fn json_quote(s: Seq<char>) -> Seq<char> {
    seq!['"'] + escaped(s) + seq!['"']
}

/// The value of a hexadecimal digit.
pub open spec fn hex_value(c: char) -> Option<nat> {
    if '0' <= c <= '9' {
        Some((c as u32 - '0' as u32) as nat)
    } else if 'a' <= c <= 'f' {
        Some((c as u32 - 'a' as u32 + 10) as nat)
    } else if 'A' <= c <= 'F' {
        Some((c as u32 - 'A' as u32 + 10) as nat)
    } else {
        None
    }
}

/// The character that a two-character escape `\e` of a JSON string stands
/// for.
pub open spec fn unescape_char(e: char) -> Option<char> {
    if e == '"' {
        Some('"')
    } else if e == '\\' {
        Some('\\')
    } else if e == '/' {
        Some('/')
    } else if e == 'b' {
        Some('\x08')
    } else if e == 'f' {
        Some('\x0c')
    } else if e == 'n' {
        Some('\n')
    } else if e == 'r' {
        Some('\r')
    } else if e == 't' {
        Some('\t')
    } else {
        None
    }
}

/// The number that the four hexadecimal digits of a `\uXXXX` escape at the
/// start of `u` (after the `\u`) write.
pub open spec fn hex4(u: Seq<char>) -> Option<nat> {
    if u.len() >= 6 && hex_value(u[2]) is Some && hex_value(u[3]) is Some && hex_value(u[4]) is Some
        && hex_value(u[5]) is Some {
        Some(
            4096 * hex_value(u[2])->0 + 256 * hex_value(u[3])->0 + 16 * hex_value(u[4])->0
                + hex_value(u[5])->0,
        )
    } else {
        None
    }
}

/// The code point of `c`.
pub open spec fn code_of(c: char) -> nat {
    c as u32 as nat
}

/// `c` in front of a decoded rest, if the rest decodes.
pub open spec fn prepend(c: char, rest: Option<Seq<char>>) -> Option<Seq<char>> {
    match rest {
        Some(r) => Some(seq![c] + r),
        None => None,
    }
}

/// The text that the inside of a JSON string literal stands for, if it is
/// well formed (`\u` escapes of surrogate pairs are not decoded).
pub open spec fn json_unescape(u: Seq<char>) -> Option<Seq<char>>
    decreases u.len(),
{
    if u.len() == 0 {
        Some(seq![])
    } else if u[0] == '\\' {
        if u.len() >= 2 && unescape_char(u[1]) is Some {
            prepend(unescape_char(u[1])->0, json_unescape(u.skip(2)))
        } else if u.len() >= 6 && u[1] == 'u' && hex4(u) is Some && exists|c: char|
            #[trigger] code_of(c) == hex4(u)->0 {
            prepend(choose|c: char| #[trigger] code_of(c) == hex4(u)->0, json_unescape(u.skip(6)))
        } else {
            None
        }
    } else if u[0] == '"' || (u[0] as u32) < 0x20 {
        None
    } else {
        prepend(u[0], json_unescape(u.drop_first()))
    }
}

/// The text that the JSON string literal `q` stands for, if it is one.
pub open spec fn json_unquote(q: Seq<char>) -> Option<Seq<char>> {
    if q.len() >= 2 && q[0] == '"' && q[q.len() - 1] == '"' {
        json_unescape(q.subrange(1, q.len() - 1))
    } else {
        None
    }
}

proof fn lemma_hex_digit(d: nat)
    requires
        d < 16,
    ensures
        hex_value(hex_digit(d)) == Some(d),
{
}

/// Decoding an escaped character gives the character back.
pub proof fn lemma_unescape_one(c: char, rest: Seq<char>)
    ensures
        json_unescape(escape_char(c) + rest) == prepend(c, json_unescape(rest)),
{
    let u = escape_char(c) + rest;
    let e = escape_char(c);
    if e.len() == 2 {
        assert(u.skip(2) =~= rest);
    } else if e.len() == 6 {
        let v = c as u32;
        lemma_hex_digit((v / 16) as nat);
        lemma_hex_digit((v % 16) as nat);
        assert(u.skip(6) =~= rest);
        assert(u[2] == '0' && u[3] == '0');
        assert(hex4(u) == Some(v as nat));
        assert(code_of(c) == hex4(u)->0);
        let y = choose|x: char| #[trigger] code_of(x) == hex4(u)->0;
        vstd::utf8::char_u32_cast(y, y as u32);
        vstd::utf8::char_u32_cast(c, c as u32);
        assert(y == c);
    } else {
        assert(u.drop_first() =~= rest);
    }
}

/// Decoding the escaped text gives the text back.
pub proof fn lemma_unescape_escaped(s: Seq<char>)
    ensures
        json_unescape(escaped(s)) == Some(s),
    decreases s.len(),
{
    if s.len() > 0 {
        lemma_unescape_escaped(s.drop_first());
        lemma_unescape_one(s[0], escaped(s.drop_first()));
        assert(seq![s[0]] + s.drop_first() =~= s);
    }
}

/// The JSON string literal of `s` reads back as `s`.
pub proof fn lemma_unquote_quote(s: Seq<char>)
    ensures
        json_unquote(json_quote(s)) == Some(s),
{
    let q = json_quote(s);
    assert(q.subrange(1, q.len() - 1) =~= escaped(s));
    lemma_unescape_escaped(s);
}

/// How a value stands in the document: as a JSON string literal when quoted,
/// verbatim otherwise.
pub open spec fn shown(v: Seq<char>, quoted: bool) -> Seq<char> {
    if quoted {
        json_quote(v)
    } else {
        v
    }
}

/// The values, each shown as `quoted` says, separated by commas.
pub open spec fn items_text(vals: Seq<Seq<char>>, quoted: bool) -> Seq<char>
    decreases vals.len(),
{
    if vals.len() == 0 {
        seq![]
    } else if vals.len() == 1 {
        shown(vals[0], quoted)
    } else {
        items_text(vals.drop_last(), quoted) + seq![','] + shown(vals.last(), quoted)
    }
}

/// One object pair: the key always quoted, the value as `quoted` says.
pub open spec fn pair_text(key: Seq<char>, value: Seq<char>, quoted: bool) -> Seq<char> {
    json_quote(key) + seq![':'] + shown(value, quoted)
}

/// The values taken two by two as key and value, separated by commas.
pub open spec fn pairs_text(vals: Seq<Seq<char>>, quoted: bool) -> Seq<char>
    decreases vals.len(),
{
    if vals.len() < 2 {
        seq![]
    } else if vals.len() < 4 {
        pair_text(vals[0], vals[1], quoted)
    } else {
        pairs_text(vals.subrange(0, vals.len() - 2), quoted) + seq![','] + pair_text(
            vals[vals.len() - 2],
            vals[vals.len() - 1],
            quoted,
        )
    }
}

/// The views of a sequence of strings.
pub open spec fn texts(v: Seq<String>) -> Seq<Seq<char>> {
    v.map_values(|s: String| s@)
}

/// Relies on `serde_json::to_string` on a `str`: it writes the JSON string
/// literal of its argument, escaping as [`escape_char`] says, into a `Vec`,
/// whose writes cannot fail.
#[verifier::external_body]
fn to_json_string(s: &str) -> (r: Result<String, serde_json::Error>)
    ensures
        r is Ok,
        r->Ok_0@ == json_quote(s@),
{
    serde_json::to_string(s)
}

/// The JSON string literal whose value is `s`.
pub fn quote(s: &str) -> (r: String)
    ensures
        r@ == json_quote(s@),
{
    match to_json_string(s) {
        Ok(t) => t,
        Err(_) => vstd::pervasive::unreached(),
    }
}

/// Appends `v` to `out`, quoted or verbatim.
pub fn push_shown(out: &mut String, v: &str, quoted: bool)
    ensures
        final(out)@ == old(out)@ + shown(v@, quoted),
{
    if quoted {
        let q = quote(v);
        append(out, q.as_str());
    } else {
        append(out, v);
    }
}

/// Appends the values to `out` as array items.
pub fn push_items(out: &mut String, vals: &Vec<String>, quoted: bool)
    ensures
        final(out)@ == old(out)@ + items_text(texts(vals@), quoted),
{
    let ghost start = out@;
    let mut i: usize = 0;
    while i < vals.len()
        invariant
            i <= vals@.len(),
            out@ == start + items_text(texts(vals@).subrange(0, i as int), quoted),
        decreases vals@.len() - i,
    {
        if i > 0 {
            push_char(out, ',');
        }
        push_shown(out, vals[i].as_str(), quoted);
        proof {
            let s = texts(vals@).subrange(0, i + 1);
            assert(s.drop_last() =~= texts(vals@).subrange(0, i as int));
            assert(s.last() == vals@[i as int]@);
            assert(out@ =~= start + items_text(s, quoted));
        }
        i += 1;
    }
    assert(texts(vals@).subrange(0, vals@.len() as int) =~= texts(vals@));
}

/// Appends the values to `out` as object pairs; their number is even.
pub fn push_pairs(out: &mut String, vals: &Vec<String>, quoted: bool)
    requires
        vals@.len() % 2 == 0,
    ensures
        final(out)@ == old(out)@ + pairs_text(texts(vals@), quoted),
{
    let ghost start = out@;
    let mut i: usize = 0;
    while i < vals.len()
        invariant
            i <= vals@.len(),
            i % 2 == 0,
            vals@.len() % 2 == 0,
            out@ == start + pairs_text(texts(vals@).subrange(0, i as int), quoted),
        decreases vals@.len() - i,
    {
        if i > 0 {
            push_char(out, ',');
        }
        push_shown(out, vals[i].as_str(), true);
        push_char(out, ':');
        push_shown(out, vals[i + 1].as_str(), quoted);
        proof {
            let s = texts(vals@).subrange(0, i + 2);
            assert(s.subrange(0, s.len() - 2) =~= texts(vals@).subrange(0, i as int));
            assert(s[s.len() - 2] == vals@[i as int]@);
            assert(s[s.len() - 1] == vals@[i + 1]@);
            assert(out@ =~= start + pairs_text(s, quoted));
        }
        i += 2;
    }
    assert(texts(vals@).subrange(0, vals@.len() as int) =~= texts(vals@));
}

} // verus!
