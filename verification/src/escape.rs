//! Escaping of free text for the JSON and TSV output formats.

use vstd::prelude::*;

use crate::strings::push_char;

verus! {

// ---------------------------------------------------------------------------
// JSON
// ---------------------------------------------------------------------------

/// The lower-case hexadecimal digit of `n` (`0 <= n < 16`).
pub open spec fn hex_digit(n: int) -> char {
    if n < 10 {
        ((n + 48) as int) as char
    } else {
        ((n + 87) as int) as char
    }
}

/// How one character is written inside a JSON string literal: quote,
/// backslash, newline, carriage return and tab get their short escapes, the
/// other control characters below U+0020 become `\u00XX` with lower-case hex
/// digits, and every other character stands for itself.
pub open spec fn json_escape_char(c: char) -> Seq<char> {
    if c == '"' {
        seq!['\\', '"']
    } else if c == '\\' {
        seq!['\\', '\\']
    } else if c == '\n' {
        seq!['\\', 'n']
    } else if c == '\r' {
        seq!['\\', 'r']
    } else if c == '\t' {
        seq!['\\', 't']
    } else if (c as int) < 0x20 {
        seq!['\\', 'u', '0', '0', hex_digit((c as int) / 16), hex_digit((c as int) % 16)]
    } else {
        seq![c]
    }
}

/// The JSON string-literal body for `s`: each character escaped in turn.
pub open spec fn json_escaped(s: Seq<char>) -> Seq<char>
    decreases s.len(),
{
    if s.len() == 0 {
        Seq::empty()
    } else {
        json_escaped(s.drop_last()) + json_escape_char(s.last())
    }
}

/// Escapes `s` for use between the quotes of a JSON string literal.
pub fn json_escape(s: &str) -> (res: String)
    ensures
        res@ == json_escaped(s@),
{
    broadcast use vstd::string::group_string_axioms;
    let mut out = String::new();
    for c in it: s.chars()
        invariant
            it.seq() == s@,
            out@ == json_escaped(s@.take(it.index())),
    {
        proof {
            lemma_char_is_scalar(c);
        }
        let ghost before = out@;
        if c == '"' {
            push_char(&mut out, '\\');
            push_char(&mut out, '"');
        } else if c == '\\' {
            push_char(&mut out, '\\');
            push_char(&mut out, '\\');
        } else if c == '\n' {
            push_char(&mut out, '\\');
            push_char(&mut out, 'n');
        } else if c == '\r' {
            push_char(&mut out, '\\');
            push_char(&mut out, 'r');
        } else if c == '\t' {
            push_char(&mut out, '\\');
            push_char(&mut out, 't');
        } else if (c as u32) < 0x20 {
            let code = c as u32;
            push_char(&mut out, '\\');
            push_char(&mut out, 'u');
            push_char(&mut out, '0');
            push_char(&mut out, '0');
            push_char(&mut out, hex_char(code / 16));
            push_char(&mut out, hex_char(code % 16));
        } else {
            push_char(&mut out, c);
        }
        assert(out@ == before + json_escape_char(c));
        assert(s@.take(it.index() + 1).drop_last() == s@.take(it.index()));
    }
    assert(s@.take(s@.len() as int) == s@);
    out
}

proof fn lemma_char_is_scalar(c: char)
    ensures
        0 <= (c as int) <= 0x10FFFF,
        (c as u32) as int == c as int,
{
}

/// The lower-case hexadecimal digit of `n`.
pub(crate) fn hex_char(n: u32) -> (c: char)
    requires
        n < 16,
    ensures
        c == hex_digit(n as int),
{
    if n < 10 {
        ((n + 48) as u8) as char
    } else {
        ((n + 87) as u8) as char
    }
}

// ---------------------------------------------------------------------------
// TSV
// ---------------------------------------------------------------------------

/// How one character is written in a TSV field: tab, newline and carriage
/// return become the two-character escapes `\t`, `\n`, `\r`; every other
/// character, other control characters included, stands for itself.
pub open spec fn tsv_escape_char(c: char) -> Seq<char> {
    if c == '\t' {
        seq!['\\', 't']
    } else if c == '\n' {
        seq!['\\', 'n']
    } else if c == '\r' {
        seq!['\\', 'r']
    } else {
        seq![c]
    }
}

/// The TSV field for `s`: each character escaped in turn.
pub open spec fn tsv_escaped(s: Seq<char>) -> Seq<char>
    decreases s.len(),
{
    if s.len() == 0 {
        Seq::empty()
    } else {
        tsv_escaped(s.drop_last()) + tsv_escape_char(s.last())
    }
}

/// Escapes `s` so that it stays a single TSV field on a single line.
pub fn tsv_escape(s: &str) -> (res: String)
    ensures
        res@ == tsv_escaped(s@),
{
    broadcast use vstd::string::group_string_axioms;
    let mut out = String::new();
    for c in it: s.chars()
        invariant
            it.seq() == s@,
            out@ == tsv_escaped(s@.take(it.index())),
    {
        let ghost before = out@;
        if c == '\t' {
            push_char(&mut out, '\\');
            push_char(&mut out, 't');
        } else if c == '\n' {
            push_char(&mut out, '\\');
            push_char(&mut out, 'n');
        } else if c == '\r' {
            push_char(&mut out, '\\');
            push_char(&mut out, 'r');
        } else {
            push_char(&mut out, c);
        }
        assert(out@ == before + tsv_escape_char(c));
        assert(s@.take(it.index() + 1).drop_last() == s@.take(it.index()));
    }
    assert(s@.take(s@.len() as int) == s@);
    out
}

// ---------------------------------------------------------------------------
// What a JSON reader makes of an escaped string
// ---------------------------------------------------------------------------

/// The value of a hexadecimal digit of either case, if `c` is one.
pub open spec fn hex_value(c: char) -> Option<int> {
    if '0' <= c && c <= '9' {
        Some((c as int) - 48)
    } else if 'a' <= c && c <= 'f' {
        Some((c as int) - 87)
    } else if 'A' <= c && c <= 'F' {
        Some((c as int) - 55)
    } else {
        None
    }
}

/// The character that a JSON short escape `\e` stands for.
pub open spec fn json_short_escape(e: char) -> Option<char> {
    if e == '"' {
        Some('"')
    } else if e == '\\' {
        Some('\\')
    } else if e == '/' {
        Some('/')
    } else if e == 'b' {
        Some('\x08')
    } else if e == 'f' {
        Some('\x0c')
    } else if e == 'n' {
        Some('\n')
    } else if e == 'r' {
        Some('\r')
    } else if e == 't' {
        Some('\t')
    } else {
        None
    }
}

/// The scalar value written by the four hexadecimal digits `t[1..5]` of a
/// `\uXXXX` escape, when they are digits and name a character outside the
/// surrogate range.
pub open spec fn json_unicode_escape(t: Seq<char>) -> Option<char> {
    if t.len() >= 5 && hex_value(t[1]) is Some && hex_value(t[2]) is Some
        && hex_value(t[3]) is Some && hex_value(t[4]) is Some {
        let v = hex_value(t[1]).unwrap() * 4096 + hex_value(t[2]).unwrap() * 256
            + hex_value(t[3]).unwrap() * 16 + hex_value(t[4]).unwrap();
        if v < 0xD800 || 0xE000 <= v {
            Some(v as char)
        } else {
            None
        }
    } else {
        None
    }
}

/// `Some(p + r)` when `o` is `Some(r)`.
pub open spec fn prepend(p: Seq<char>, o: Option<Seq<char>>) -> Option<Seq<char>> {
    match o {
        Some(r) => Some(p + r),
        None => None,
    }
}

/// What a JSON reader decodes from the body of a string literal, or `None`
/// where the body is not valid JSON: an unescaped quote, a raw control
/// character, or a backslash that starts no escape. (Escaped surrogate
/// halves are not decoded; nothing this library writes holds one.)
pub open spec fn json_string_decoded(t: Seq<char>) -> Option<Seq<char>>
    decreases t.len(),
{
    if t.len() == 0 {
        Some(Seq::empty())
    } else if t[0] == '"' || (t[0] as int) < 0x20 {
        None
    } else if t[0] == '\\' {
        if t.len() < 2 {
            None
        } else if json_short_escape(t[1]) is Some {
            prepend(seq![json_short_escape(t[1]).unwrap()], json_string_decoded(t.subrange(2, t.len() as int)))
        } else if t[1] == 'u' && json_unicode_escape(t.drop_first()) is Some && t.len() >= 6 {
            prepend(
                seq![json_unicode_escape(t.drop_first()).unwrap()],
                json_string_decoded(t.subrange(6, t.len() as int)),
            )
        } else {
            None
        }
    } else {
        prepend(seq![t[0]], json_string_decoded(t.drop_first()))
    }
}

pub(crate) proof fn lemma_hex_digit_value(n: int)
    requires
        0 <= n < 16,
    ensures
        hex_value(hex_digit(n)) == Some(n),
{
}

proof fn lemma_decode_one(c: char, r: Seq<char>)
    ensures
        json_string_decoded(json_escape_char(c) + r) == prepend(seq![c], json_string_decoded(r)),
{
    let t = json_escape_char(c) + r;
    if c == '"' || c == '\\' || c == '\n' || c == '\r' || c == '\t' {
        assert(t.subrange(2, t.len() as int) == r);
    } else if (c as int) < 0x20 {
        let v = c as int;
        lemma_hex_digit_value(v / 16);
        lemma_hex_digit_value(v % 16);
        assert(t.drop_first()[1] == '0');
        assert(t.subrange(6, t.len() as int) == r);
        assert(json_unicode_escape(t.drop_first()) == Some(c));
    } else {
        assert(t.drop_first() == r);
    }
}

proof fn lemma_decode_escaped(s: Seq<char>, r: Seq<char>)
    ensures
        json_string_decoded(json_escaped(s) + r) == prepend(s, json_string_decoded(r)),
    decreases s.len(),
{
    if s.len() == 0 {
        assert(json_escaped(s) + r == r);
        assert(s + r == r);
        match json_string_decoded(r) {
            Some(x) => assert(s + x == x),
            None => {},
        }
    } else {
        let init = s.drop_last();
        let rest = json_escape_char(s.last()) + r;
        assert(json_escaped(s) + r == json_escaped(init) + rest);
        lemma_decode_escaped(init, rest);
        lemma_decode_one(s.last(), r);
        match json_string_decoded(r) {
            Some(x) => assert(init + (seq![s.last()] + x) == s + x),
            None => {},
        }
    }
}

/// Every escaped text is a valid JSON string body, and a JSON reader decodes
/// it back to exactly the original text.
pub proof fn json_escape_round_trip(s: Seq<char>)
    ensures
        json_string_decoded(json_escaped(s)) == Some(s),
{
    lemma_decode_escaped(s, Seq::empty());
    assert(json_escaped(s) + Seq::<char>::empty() == json_escaped(s));
    assert(s + Seq::<char>::empty() == s);
}

proof fn lemma_escape_char_printable(c: char)
    ensures
        forall|i: int| 0 <= i < json_escape_char(c).len() ==> (#[trigger] json_escape_char(c)[i] as int) >= 0x20,
{
    if (c as int) < 0x20 && c != '\n' && c != '\r' && c != '\t' {
        let v = c as int;
        lemma_hex_digit_value(v / 16);
        lemma_hex_digit_value(v % 16);
    }
}

/// An escaped text holds no raw control character (below U+0020).
pub proof fn json_escape_has_no_control_chars(s: Seq<char>)
    ensures
        forall|i: int| 0 <= i < json_escaped(s).len() ==> (#[trigger] json_escaped(s)[i] as int) >= 0x20,
    decreases s.len(),
{
    if s.len() > 0 {
        json_escape_has_no_control_chars(s.drop_last());
        let c = s.last();
        let e = json_escape_char(c);
        lemma_escape_char_printable(c);
        assert forall|i: int| 0 <= i < json_escaped(s).len() implies (#[trigger] json_escaped(s)[i] as int) >= 0x20 by {
            let a = json_escaped(s.drop_last());
            if i >= a.len() {
                assert(json_escaped(s)[i] == e[i - a.len()]);
            } else {
                assert(json_escaped(s)[i] == a[i]);
            }
        }
    }
}

// ---------------------------------------------------------------------------
// What a TSV field can hold
// ---------------------------------------------------------------------------

/// Characters that would break a TSV row: the column separator and the two
/// line breaks.
pub open spec fn breaks_tsv_row(c: char) -> bool {
    c == '\t' || c == '\n' || c == '\r'
}

/// An escaped TSV field holds no tab, newline or carriage return, so it stays
/// one field of one row.
pub proof fn tsv_escape_keeps_one_field(s: Seq<char>)
    ensures
        forall|i: int| 0 <= i < tsv_escaped(s).len() ==> !breaks_tsv_row(#[trigger] tsv_escaped(s)[i]),
    decreases s.len(),
{
    if s.len() > 0 {
        tsv_escape_keeps_one_field(s.drop_last());
        let e = tsv_escape_char(s.last());
        assert forall|i: int| 0 <= i < tsv_escaped(s).len() implies !breaks_tsv_row(#[trigger] tsv_escaped(s)[i]) by {
            let a = tsv_escaped(s.drop_last());
            if i >= a.len() {
                assert(tsv_escaped(s)[i] == e[i - a.len()]);
            } else {
                assert(tsv_escaped(s)[i] == a[i]);
            }
        }
    }
}

/// What a reader of a TSV field makes of it: the two-character escapes
/// `\t`, `\n`, `\r` stand for tab, newline and carriage return; every other
/// character stands for itself.
pub open spec fn tsv_unescaped(t: Seq<char>) -> Seq<char>
    decreases t.len(),
{
    if t.len() == 0 {
        Seq::empty()
    } else if t.len() >= 2 && t[0] == '\\' && (t[1] == 't' || t[1] == 'n' || t[1] == 'r') {
        seq![if t[1] == 't' {
            '\t'
        } else if t[1] == 'n' {
            '\n'
        } else {
            '\r'
        }] + tsv_unescaped(t.subrange(2, t.len() as int))
    } else {
        seq![t[0]] + tsv_unescaped(t.drop_first())
    }
}

proof fn lemma_tsv_unescape_escaped(s: Seq<char>, r: Seq<char>)
    requires
        forall|i: int| 0 <= i < s.len() ==> #[trigger] s[i] != '\\',
    ensures
        tsv_unescaped(tsv_escaped(s) + r) == s + tsv_unescaped(r),
    decreases s.len(),
{
    if s.len() == 0 {
        assert(tsv_escaped(s) + r == r);
        assert(s + tsv_unescaped(r) == tsv_unescaped(r));
    } else {
        let init = s.drop_last();
        let c = s.last();
        assert(s[s.len() - 1] == c);
        let rest = tsv_escape_char(c) + r;
        assert(tsv_escaped(s) + r == tsv_escaped(init) + rest);
        assert forall|i: int| 0 <= i < init.len() implies #[trigger] init[i] != '\\' by {
            assert(init[i] == s[i]);
        }
        lemma_tsv_unescape_escaped(init, rest);
        if c == '\t' || c == '\n' || c == '\r' {
            assert(rest.subrange(2, rest.len() as int) == r);
        } else {
            assert(rest.drop_first() == r);
        }
        assert(init + (seq![c] + tsv_unescaped(r)) == s + tsv_unescaped(r));
    }
}

/// TSV escaping changes nothing but tabs, newlines and carriage returns: a
/// reader gets back the text from the field, whenever the text holds no
/// backslash of its own (with one, `\t` written in the text and an escaped
/// tab would read alike).
pub proof fn tsv_escape_reads_back(s: Seq<char>)
    requires
        forall|i: int| 0 <= i < s.len() ==> #[trigger] s[i] != '\\',
    ensures
        tsv_unescaped(tsv_escaped(s)) == s,
{
    lemma_tsv_unescape_escaped(s, Seq::empty());
    assert(tsv_escaped(s) + Seq::<char>::empty() == tsv_escaped(s));
    assert(tsv_unescaped(Seq::<char>::empty()) == Seq::<char>::empty());
    assert(s + Seq::<char>::empty() == s);
}

/// A text without tab, newline or carriage return is its own TSV field.
pub proof fn tsv_escape_keeps_plain_text(s: Seq<char>)
    requires
        forall|i: int| 0 <= i < s.len() ==> !breaks_tsv_row(#[trigger] s[i]),
    ensures
        tsv_escaped(s) == s,
    decreases s.len(),
{
    if s.len() > 0 {
        let init = s.drop_last();
        assert forall|i: int| 0 <= i < init.len() implies !breaks_tsv_row(#[trigger] init[i]) by {
            assert(init[i] == s[i]);
        }
        tsv_escape_keeps_plain_text(init);
        assert(s[s.len() - 1] == s.last());
        assert(init + seq![s.last()] == s);
    }
}

} // verus!
