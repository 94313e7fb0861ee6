//! A model of JSON documents and a reader for them, and the law that the
//! `json` output reads back as the document it describes.
//!
//! The reader follows the JSON grammar (RFC 8259) for everything the output
//! can hold: strings with every escape but surrogate pairs, arrays, objects,
//! and numbers without an exponent. Any text it accepts is valid JSON with
//! the value it returns.

use vstd::prelude::*;

use crate::barcode::label_of;
use crate::escape::{
    json_escape_char, json_escaped, json_short_escape, json_unicode_escape, lemma_hex_digit_value,
};
use crate::format::{
    decimal, digit_char, json_output, magnitude, one_decimal, point_json, points_json, result_json,
    results_json, str_field, Decoded, Point,
};

verus! {

/// A JSON value. A number is `n / 10^scale`, as written with `scale`
/// digits after the decimal point.
pub enum JsonValue {
    Str(Seq<char>),
    Num(int, nat),
    Arr(Seq<JsonValue>),
    Obj(Seq<(Seq<char>, JsonValue)>),
}

/// JSON insignificant whitespace.
pub open spec fn is_ws(c: char) -> bool {
    c == ' ' || c == '\t' || c == '\n' || c == '\r'
}

/// `t` without its leading whitespace.
pub open spec fn skip_ws(t: Seq<char>) -> Seq<char>
    decreases t.len(),
{
    if t.len() > 0 && is_ws(t[0]) {
        skip_ws(t.drop_first())
    } else {
        t
    }
}

/// `Some((p + s, r))` when `o` is `Some((s, r))`.
pub open spec fn prepend_text(p: Seq<char>, o: Option<(Seq<char>, Seq<char>)>) -> Option<(Seq<char>, Seq<char>)> {
    match o {
        Some((s, r)) => Some((p + s, r)),
        None => None,
    }
}

/// Reads the body of a string literal up to and including its closing
/// quote: the decoded text and what follows the quote. `None` on a raw
/// control character, a backslash that starts no escape, or a missing
/// closing quote.
pub open spec fn parse_string_body(t: Seq<char>) -> Option<(Seq<char>, Seq<char>)>
    decreases t.len(),
{
    if t.len() == 0 {
        None
    } else if t[0] == '"' {
        Some((Seq::empty(), t.drop_first()))
    } else if (t[0] as int) < 0x20 {
        None
    } else if t[0] == '\\' {
        if t.len() < 2 {
            None
        } else if json_short_escape(t[1]) is Some {
            prepend_text(seq![json_short_escape(t[1]).unwrap()], parse_string_body(t.subrange(2, t.len() as int)))
        } else if t[1] == 'u' && json_unicode_escape(t.drop_first()) is Some && t.len() >= 6 {
            prepend_text(
                seq![json_unicode_escape(t.drop_first()).unwrap()],
                parse_string_body(t.subrange(6, t.len() as int)),
            )
        } else {
            None
        }
    } else {
        prepend_text(seq![t[0]], parse_string_body(t.drop_first()))
    }
}

proof fn lemma_string_one(c: char, r: Seq<char>)
    ensures
        parse_string_body(json_escape_char(c) + r) == prepend_text(seq![c], parse_string_body(r)),
{
    let t = json_escape_char(c) + r;
    if c == '"' || c == '\\' || c == '\n' || c == '\r' || c == '\t' {
        assert(t.subrange(2, t.len() as int) == r);
    } else if (c as int) < 0x20 {
        let v = c as int;
        lemma_hex_digit_value(v / 16);
        lemma_hex_digit_value(v % 16);
        assert(t.drop_first()[1] == '0');
        assert(t.subrange(6, t.len() as int) == r);
        assert(json_unicode_escape(t.drop_first()) == Some(c));
    } else {
        assert(t.drop_first() == r);
    }
}

proof fn lemma_string_escaped(s: Seq<char>, r: Seq<char>)
    ensures
        parse_string_body(json_escaped(s) + r) == prepend_text(s, parse_string_body(r)),
    decreases s.len(),
{
    if s.len() == 0 {
        assert(json_escaped(s) + r == r);
        match parse_string_body(r) {
            Some((x, y)) => assert(s + x == x),
            None => {},
        }
    } else {
        let init = s.drop_last();
        let rest = json_escape_char(s.last()) + r;
        assert(json_escaped(s) + r == json_escaped(init) + rest);
        lemma_string_escaped(init, rest);
        lemma_string_one(s.last(), r);
        match parse_string_body(r) {
            Some((x, y)) => assert(init + (seq![s.last()] + x) == s + x),
            None => {},
        }
    }
}

/// An escaped text followed by a quote reads back as the text.
proof fn lemma_string_closed(s: Seq<char>, rest: Seq<char>)
    ensures
        parse_string_body(json_escaped(s) + seq!['"'] + rest) == Some::<(Seq<char>, Seq<char>)>((s, rest)),
{
    let q = seq!['"'] + rest;
    assert(json_escaped(s) + seq!['"'] + rest == json_escaped(s) + q);
    lemma_string_escaped(s, q);
    assert(q.drop_first() == rest);
    assert(s + Seq::<char>::empty() == s);
}

// ---------------------------------------------------------------------------
// Numbers
// ---------------------------------------------------------------------------

/// A decimal digit character.
pub open spec fn is_digit(c: char) -> bool {
    '0' <= c && c <= '9'
}

/// How many digits `t` starts with.
pub open spec fn digit_run(t: Seq<char>) -> nat
    decreases t.len(),
{
    if t.len() > 0 && is_digit(t[0]) {
        1 + digit_run(t.drop_first())
    } else {
        0
    }
}

/// The value of a run of decimal digits.
pub open spec fn digits_value(ds: Seq<char>) -> nat
    decreases ds.len(),
{
    if ds.len() == 0 {
        0
    } else {
        digits_value(ds.drop_last()) * 10 + ((ds.last() as int) - 48) as nat
    }
}

/// `10` to the power `k`.
pub open spec fn pow10(k: nat) -> nat
    decreases k,
{
    if k == 0 {
        1
    } else {
        10 * pow10((k - 1) as nat)
    }
}

/// Reads a number: an optional minus sign, an integer part without leading
/// zeros, and an optional fraction; and what follows it.
pub open spec fn parse_number(t: Seq<char>) -> Option<(JsonValue, Seq<char>)> {
    let neg = t.len() > 0 && t[0] == '-';
    let u = if neg {
        t.drop_first()
    } else {
        t
    };
    let n = digit_run(u);
    if n == 0 || (n > 1 && u[0] == '0') {
        None
    } else {
        let ip = digits_value(u.take(n as int));
        let r = u.skip(n as int);
        if r.len() > 0 && r[0] == '.' {
            let f = r.drop_first();
            let m = digit_run(f);
            if m == 0 {
                None
            } else {
                let mag = ip * pow10(m) + digits_value(f.take(m as int));
                Some((JsonValue::Num(if neg { -mag } else { mag as int }, m), f.skip(m as int)))
            }
        } else {
            Some((JsonValue::Num(if neg { -(ip as int) } else { ip as int }, 0), r))
        }
    }
}

proof fn lemma_digit_run_concat(a: Seq<char>, b: Seq<char>)
    requires
        forall|i: int| 0 <= i < a.len() ==> is_digit(#[trigger] a[i]),
    ensures
        digit_run(a + b) == a.len() + digit_run(b),
    decreases a.len(),
{
    if a.len() == 0 {
        assert(a + b == b);
    } else {
        assert((a + b).drop_first() == a.drop_first() + b);
        assert forall|i: int| 0 <= i < a.drop_first().len() implies is_digit(#[trigger] a.drop_first()[i]) by {
            assert(a.drop_first()[i] == a[i + 1]);
        }
        lemma_digit_run_concat(a.drop_first(), b);
    }
}

proof fn lemma_digit_char(d: int)
    requires
        0 <= d < 10,
    ensures
        is_digit(digit_char(d)),
        (digit_char(d) as int) - 48 == d,
        digit_char(d) == '0' <==> d == 0,
{
}

proof fn lemma_decimal(n: nat)
    ensures
        forall|i: int| 0 <= i < decimal(n).len() ==> is_digit(#[trigger] decimal(n)[i]),
        decimal(n).len() > 0,
        n >= 10 ==> decimal(n).len() > 1,
        digits_value(decimal(n)) == n,
        decimal(n).len() > 1 ==> decimal(n)[0] != '0',
    decreases n,
{
    let e = Seq::<char>::empty();
    assert(digits_value(e) == 0);
    if n < 10 {
        lemma_digit_char(n as int);
        assert(decimal(n).drop_last() =~= e);
        assert(decimal(n).last() == digit_char(n as int));
    } else {
        lemma_decimal(n / 10);
        lemma_digit_char((n % 10) as int);
        let a = decimal(n / 10);
        assert(decimal(n).drop_last() == a);
        assert(decimal(n).last() == digit_char((n % 10) as int));
        assert(decimal(n)[0] == a[0]);
        if n / 10 < 10 {
            lemma_digit_char((n / 10) as int);
        }
        assert forall|i: int| 0 <= i < decimal(n).len() implies is_digit(#[trigger] decimal(n)[i]) by {
            if i < a.len() {
                assert(decimal(n)[i] == a[i]);
            }
        }
    }
}

/// A number written with one decimal reads back as that number of tenths.
proof fn lemma_number(t: int, rest: Seq<char>)
    requires
        rest.len() > 0,
        !is_digit(rest[0]),
        rest[0] != '.',
    ensures
        parse_number(one_decimal(t) + rest) == Some::<(JsonValue, Seq<char>)>((JsonValue::Num(t, 1), rest)),
{
    let m = magnitude(t);
    let q = m / 10;
    let d = (m % 10) as int;
    let dq = decimal(q);
    let tail = seq!['.', digit_char(d)] + rest;
    let u = dq + tail;
    lemma_decimal(q);
    lemma_digit_char(d);
    let whole = one_decimal(t) + rest;
    if t < 0 {
        assert(whole == seq!['-'] + u);
        assert(whole.drop_first() == u);
    } else {
        assert(whole == u);
        assert(dq[0] != '-');
    }
    assert(tail[0] == '.');
    lemma_digit_run_concat(dq, tail);
    assert(u.take(dq.len() as int) == dq);
    assert(u.skip(dq.len() as int) == tail);
    let f = tail.drop_first();
    assert(f == seq![digit_char(d)] + rest);
    lemma_digit_run_concat(seq![digit_char(d)], rest);
    assert(f.take(1) == seq![digit_char(d)]);
    assert(seq![digit_char(d)].drop_last() =~= Seq::<char>::empty());
    assert(digits_value(Seq::<char>::empty()) == 0);
    assert(digits_value(seq![digit_char(d)]) == d);
    assert(f.skip(1) == rest);
    assert(pow10(1) == 10) by {
        assert(pow10(0) == 1);
    }
    assert(q * 10 + d == m);
}

// ---------------------------------------------------------------------------
// Values, arrays and objects
// ---------------------------------------------------------------------------

/// Reads one value after optional whitespace, and returns it with what
/// follows it.
pub open spec fn parse_value(t: Seq<char>) -> Option<(JsonValue, Seq<char>)>
    decreases t.len(), 0nat,
{
    let u = skip_ws(t);
    if u.len() == 0 || u.len() > t.len() {
        None
    } else if u[0] == '"' {
        match parse_string_body(u.drop_first()) {
            Some((s, r)) => Some((JsonValue::Str(s), r)),
            None => None,
        }
    } else if u[0] == '[' {
        parse_array_open(u.drop_first())
    } else if u[0] == '{' {
        parse_object_open(u.drop_first())
    } else {
        parse_number(u)
    }
}

/// Reads the rest of an array after its `[`.
pub open spec fn parse_array_open(t: Seq<char>) -> Option<(JsonValue, Seq<char>)>
    decreases t.len(), 2nat,
{
    let u = skip_ws(t);
    if u.len() > t.len() {
        None
    } else if u.len() > 0 && u[0] == ']' {
        Some((JsonValue::Arr(Seq::empty()), u.drop_first()))
    } else {
        match parse_elements(u) {
            Some((vs, r)) => Some((JsonValue::Arr(vs), r)),
            None => None,
        }
    }
}

/// Reads the elements of a non-empty array and its closing `]`.
pub open spec fn parse_elements(t: Seq<char>) -> Option<(Seq<JsonValue>, Seq<char>)>
    decreases t.len(), 1nat,
{
    let u = skip_ws(t);
    if u.len() > t.len() {
        None
    } else {
        match parse_value(u) {
            None => None,
            Some((v, r)) => {
                let w = skip_ws(r);
                if r.len() >= u.len() || w.len() == 0 || w.len() > r.len() {
                    None
                } else if w[0] == ']' {
                    Some((seq![v], w.drop_first()))
                } else if w[0] == ',' {
                    match parse_elements(w.drop_first()) {
                        Some((vs, r2)) => Some((seq![v] + vs, r2)),
                        None => None,
                    }
                } else {
                    None
                }
            },
        }
    }
}

/// Reads the rest of an object after its `{`.
pub open spec fn parse_object_open(t: Seq<char>) -> Option<(JsonValue, Seq<char>)>
    decreases t.len(), 2nat,
{
    let u = skip_ws(t);
    if u.len() > t.len() {
        None
    } else if u.len() > 0 && u[0] == '}' {
        Some((JsonValue::Obj(Seq::empty()), u.drop_first()))
    } else {
        match parse_members(u) {
            Some((ms, r)) => Some((JsonValue::Obj(ms), r)),
            None => None,
        }
    }
}

/// Reads the members of a non-empty object and its closing `}`.
pub open spec fn parse_members(t: Seq<char>) -> Option<(Seq<(Seq<char>, JsonValue)>, Seq<char>)>
    decreases t.len(), 1nat,
{
    let u = skip_ws(t);
    if u.len() > t.len() || u.len() == 0 || u[0] != '"' {
        None
    } else {
        match parse_string_body(u.drop_first()) {
            None => None,
            Some((k, r1)) => {
                let r2 = skip_ws(r1);
                if r1.len() >= u.len() || r2.len() == 0 || r2.len() > r1.len() || r2[0] != ':' {
                    None
                } else {
                    match parse_value(r2.drop_first()) {
                        None => None,
                        Some((v, r3)) => {
                            let r4 = skip_ws(r3);
                            if r3.len() >= r2.len() || r4.len() == 0 || r4.len() > r3.len() {
                                None
                            } else if r4[0] == '}' {
                                Some((seq![(k, v)], r4.drop_first()))
                            } else if r4[0] == ',' {
                                match parse_members(r4.drop_first()) {
                                    Some((ms, r5)) => Some((seq![(k, v)] + ms, r5)),
                                    None => None,
                                }
                            } else {
                                None
                            }
                        },
                    }
                }
            },
        }
    }
}

/// The value of a whole document: one value with nothing but whitespace
/// after it.
pub open spec fn parse_document(t: Seq<char>) -> Option<JsonValue> {
    match parse_value(t) {
        Some((v, r)) => if skip_ws(r).len() == 0 {
            Some(v)
        } else {
            None
        },
        None => None,
    }
}

// ---------------------------------------------------------------------------
// Reading the pieces the output is made of
// ---------------------------------------------------------------------------

proof fn lemma_skip_ws_len(t: Seq<char>)
    ensures
        skip_ws(t).len() <= t.len(),
    decreases t.len(),
{
    if t.len() > 0 && is_ws(t[0]) {
        lemma_skip_ws_len(t.drop_first());
    }
}

proof fn lemma_skip_space(t: Seq<char>)
    ensures
        skip_ws(seq![' '] + t) == skip_ws(t),
{
    assert((seq![' '] + t).drop_first() == t);
}

proof fn lemma_value_space(t: Seq<char>)
    ensures
        parse_value(seq![' '] + t) == parse_value(t),
{
    lemma_skip_space(t);
    lemma_skip_ws_len(t);
}

proof fn lemma_elements_space(t: Seq<char>)
    ensures
        parse_elements(seq![' '] + t) == parse_elements(t),
{
    lemma_skip_space(t);
    lemma_skip_ws_len(t);
}

proof fn lemma_members_space(t: Seq<char>)
    ensures
        parse_members(seq![' '] + t) == parse_members(t),
{
    lemma_skip_space(t);
    lemma_skip_ws_len(t);
}

/// A quoted escaped text reads as that string.
proof fn lemma_value_str(s: Seq<char>, rest: Seq<char>)
    ensures
        parse_value(seq!['"'] + json_escaped(s) + seq!['"'] + rest)
            == Some::<(JsonValue, Seq<char>)>((JsonValue::Str(s), rest)),
{
    let t = seq!['"'] + json_escaped(s) + seq!['"'] + rest;
    assert(skip_ws(t) == t);
    assert(t.drop_first() == json_escaped(s) + seq!['"'] + rest);
    lemma_string_closed(s, rest);
}

/// A number written with one decimal reads as that number of tenths.
proof fn lemma_value_num(x: int, rest: Seq<char>)
    requires
        rest.len() > 0,
        rest[0] == ',' || rest[0] == ']',
    ensures
        parse_value(one_decimal(x) + rest) == Some::<(JsonValue, Seq<char>)>((JsonValue::Num(x, 1), rest)),
{
    let t = one_decimal(x) + rest;
    lemma_decimal(magnitude(x) / 10);
    if x >= 0 {
        assert(t[0] == decimal(magnitude(x) / 10)[0]);
    }
    assert(skip_ws(t) == t);
    lemma_number(x, rest);
}

/// One step of reading array elements: a first element, then `]` or `,`.
proof fn lemma_elements_step(t: Seq<char>, v: JsonValue, r: Seq<char>)
    requires
        t.len() > 0,
        !is_ws(t[0]),
        parse_value(t) == Some::<(JsonValue, Seq<char>)>((v, r)),
        r.len() < t.len(),
        r.len() > 0,
        r[0] == ']' || r[0] == ',',
    ensures
        parse_elements(t) == if r[0] == ']' {
            Some((seq![v], r.drop_first()))
        } else {
            match parse_elements(r.drop_first()) {
                Some((vs, r2)) => Some((seq![v] + vs, r2)),
                None => None,
            }
        },
{
    assert(skip_ws(t) == t);
    assert(skip_ws(r) == r);
}

/// One step of reading object members: `"key":` and a value, then `}` or
/// `,`.
proof fn lemma_members_step(k: Seq<char>, val: Seq<char>, v: JsonValue, after: Seq<char>)
    requires
        parse_value(val) == Some::<(JsonValue, Seq<char>)>((v, after)),
        after.len() < val.len(),
        after.len() > 0,
        after[0] == '}' || after[0] == ',',
    ensures
        parse_members(seq!['"'] + json_escaped(k) + seq!['"', ':'] + val) == if after[0] == '}' {
            Some((seq![(k, v)], after.drop_first()))
        } else {
            match parse_members(after.drop_first()) {
                Some((ms, r5)) => Some((seq![(k, v)] + ms, r5)),
                None => None,
            }
        },
{
    let t = seq!['"'] + json_escaped(k) + seq!['"', ':'] + val;
    assert(skip_ws(t) == t);
    let r1 = seq![':'] + val;
    assert(t.drop_first() == json_escaped(k) + seq!['"'] + r1);
    lemma_string_closed(k, r1);
    assert(skip_ws(r1) == r1);
    assert(r1.drop_first() == val);
    assert(skip_ws(after) == after);
}

// ---------------------------------------------------------------------------
// The document the output describes
// ---------------------------------------------------------------------------

/// A corner point: `[x, y]`, each coordinate with one decimal.
pub open spec fn point_value(p: Point) -> JsonValue {
    JsonValue::Arr(seq![JsonValue::Num(p.x_tenths as int, 1), JsonValue::Num(p.y_tenths as int, 1)])
}

/// A detection: its format name and text, then its points when asked for.
pub open spec fn result_value(r: Decoded, include_points: bool) -> JsonValue {
    JsonValue::Obj(
        seq![("format"@, JsonValue::Str(label_of(r.format))), ("text"@, JsonValue::Str(r.text@))]
            + if include_points {
            seq![("points"@, JsonValue::Arr(r.points@.map_values(|p: Point| point_value(p))))]
        } else {
            Seq::empty()
        },
    )
}

/// The document for one file: an array holding one object with the file
/// name and the detections, in order.
pub open spec fn output_value(file: Seq<char>, rs: Seq<Decoded>, include_points: bool) -> JsonValue {
    JsonValue::Arr(
        seq![
            JsonValue::Obj(
                seq![
                    ("file"@, JsonValue::Str(file)),
                    ("results"@, JsonValue::Arr(rs.map_values(|r: Decoded| result_value(r, include_points)))),
                ],
            ),
        ],
    )
}

#[verifier::spinoff_prover]
#[verifier::rlimit(60)]
proof fn lemma_value_point(p: Point, rest: Seq<char>)
    requires
        rest.len() > 0,
        rest[0] == ',' || rest[0] == ']',
    ensures
        parse_value(point_json(p) + rest) == Some::<(JsonValue, Seq<char>)>((point_value(p), rest)),
{
    let x = p.x_tenths as int;
    let y = p.y_tenths as int;
    let t = point_json(p) + rest;
    let c = one_decimal(y) + seq![']'] + rest;
    let b = seq![',', ' '] + c;
    let a = one_decimal(x) + b;
    assert(t == seq!['['] + a);
    assert(skip_ws(t) == t);
    assert(t.drop_first() == a);
    lemma_decimal(magnitude(x) / 10);
    lemma_decimal(magnitude(y) / 10);
    if x >= 0 {
        assert(a[0] == decimal(magnitude(x) / 10)[0]);
    }
    if y >= 0 {
        assert(c[0] == decimal(magnitude(y) / 10)[0]);
    }
    assert(skip_ws(a) == a);
    lemma_value_num(x, b);
    lemma_elements_step(a, JsonValue::Num(x, 1), b);
    assert(b.drop_first() == seq![' '] + c);
    lemma_elements_space(c);
    assert(one_decimal(y) + seq![']'] + rest == one_decimal(y) + (seq![']'] + rest));
    lemma_value_num(y, seq![']'] + rest);
    lemma_elements_step(c, JsonValue::Num(y, 1), seq![']'] + rest);
    assert((seq![']'] + rest).drop_first() == rest);
    assert(seq![JsonValue::Num(x, 1)] + seq![JsonValue::Num(y, 1)] == seq![JsonValue::Num(x, 1), JsonValue::Num(y, 1)]);
}

proof fn lemma_points_front(ps: Seq<Point>)
    requires
        ps.len() >= 2,
    ensures
        points_json(ps) == point_json(ps[0]) + seq![',', ' '] + points_json(ps.drop_first()),
    decreases ps.len(),
{
    let init = ps.drop_last();
    if ps.len() == 2 {
        assert(init.len() == 1);
        assert(points_json(init) == point_json(ps[0]));
        assert(ps.drop_first().len() == 1);
        assert(points_json(ps.drop_first()) == point_json(ps[1]));
    } else {
        lemma_points_front(init);
        assert(init.drop_first() == ps.drop_first().drop_last());
        assert(ps.drop_first().last() == ps.last());
        assert(init[0] == ps[0]);
    }
}

#[verifier::spinoff_prover]
#[verifier::rlimit(60)]
proof fn lemma_points_elements(ps: Seq<Point>, rest: Seq<char>)
    requires
        ps.len() >= 1,
    ensures
        parse_elements(points_json(ps) + seq![']'] + rest)
            == Some::<(Seq<JsonValue>, Seq<char>)>((ps.map_values(|p: Point| point_value(p)), rest)),
        (points_json(ps) + seq![']'] + rest)[0] == '[',
    decreases ps.len(),
{
    let close = seq![']'] + rest;
    assert(close.drop_first() == rest);
    if ps.len() == 1 {
        assert(points_json(ps) == point_json(ps[0]));
        assert(points_json(ps) + seq![']'] + rest == point_json(ps[0]) + close);
        lemma_value_point(ps[0], close);
        lemma_elements_step(point_json(ps[0]) + close, point_value(ps[0]), close);
        assert(ps.map_values(|p: Point| point_value(p)) == seq![point_value(ps[0])]);
    } else {
        lemma_points_front(ps);
        let tail = ps.drop_first();
        let c = points_json(tail) + seq![']'] + rest;
        let b = seq![',', ' '] + c;
        assert(points_json(ps) + seq![']'] + rest == point_json(ps[0]) + b);
        lemma_value_point(ps[0], b);
        lemma_elements_step(point_json(ps[0]) + b, point_value(ps[0]), b);
        assert(b.drop_first() == seq![' '] + c);
        lemma_elements_space(c);
        lemma_points_elements(tail, rest);
        assert(seq![point_value(ps[0])] + tail.map_values(|p: Point| point_value(p))
            == ps.map_values(|p: Point| point_value(p)));
    }
}

/// The points array of a detection reads as the points.
#[verifier::spinoff_prover]
#[verifier::rlimit(60)]
proof fn lemma_value_points(ps: Seq<Point>, rest: Seq<char>)
    ensures
        parse_value(seq!['['] + points_json(ps) + seq![']'] + rest)
            == Some::<(JsonValue, Seq<char>)>((JsonValue::Arr(ps.map_values(|p: Point| point_value(p))), rest)),
{
    let t = seq!['['] + points_json(ps) + seq![']'] + rest;
    let a = points_json(ps) + seq![']'] + rest;
    assert(skip_ws(t) == t);
    assert(t.drop_first() == a);
    if ps.len() == 0 {
        assert(a == seq![']'] + rest);
        assert(skip_ws(a) == a);
        assert(a.drop_first() == rest);
        assert(ps.map_values(|p: Point| point_value(p)) == Seq::<JsonValue>::empty());
    } else {
        lemma_points_elements(ps, rest);
        assert(skip_ws(a) == a);
    }
}

/// A text with no quote, backslash or control character is its own escape.
proof fn lemma_plain_escaped(s: Seq<char>)
    requires
        forall|i: int| 0 <= i < s.len() ==> (#[trigger] s[i] as int) >= 0x20 && s[i] != '"' && s[i] != '\\',
    ensures
        json_escaped(s) == s,
    decreases s.len(),
{
    if s.len() > 0 {
        let init = s.drop_last();
        assert forall|i: int| 0 <= i < init.len() implies (#[trigger] init[i] as int) >= 0x20 && init[i] != '"'
            && init[i] != '\\' by {
            assert(init[i] == s[i]);
        }
        lemma_plain_escaped(init);
        assert(s[s.len() - 1] == s.last());
        assert(init + seq![s.last()] == s);
    }
}

proof fn lemma_keys_plain()
    ensures
        json_escaped("file"@) == "file"@,
        json_escaped("results"@) == "results"@,
        json_escaped("format"@) == "format"@,
        json_escaped("text"@) == "text"@,
        json_escaped("points"@) == "points"@,
{
    reveal_strlit("file");
    reveal_strlit("results");
    reveal_strlit("format");
    reveal_strlit("text");
    reveal_strlit("points");
    lemma_plain_escaped("file"@);
    lemma_plain_escaped("results"@);
    lemma_plain_escaped("format"@);
    lemma_plain_escaped("text"@);
    lemma_plain_escaped("points"@);
}

/// A `"key": "value"` member whose key is its own escape reads as the key and
/// the string.
proof fn lemma_field_member(key: Seq<char>, val: Seq<char>, after: Seq<char>)
    requires
        json_escaped(key) == key,
        after.len() > 0,
        after[0] == '}' || after[0] == ',',
    ensures
        parse_members(str_field(key, val) + after) == if after[0] == '}' {
            Some((seq![(key, JsonValue::Str(val))], after.drop_first()))
        } else {
            match parse_members(after.drop_first()) {
                Some((ms, r5)) => Some((seq![(key, JsonValue::Str(val))] + ms, r5)),
                None => None,
            }
        },
{
    let q = seq!['"'] + json_escaped(val) + seq!['"'] + after;
    let v = seq![' '] + q;
    assert(str_field(key, val) + after == seq!['"'] + json_escaped(key) + seq!['"', ':'] + v);
    lemma_value_space(q);
    lemma_value_str(val, after);
    lemma_members_step(key, v, JsonValue::Str(val), after);
}

#[verifier::spinoff_prover]
#[verifier::rlimit(60)]
proof fn lemma_value_result(r: Decoded, include_points: bool, rest: Seq<char>)
    requires
        rest.len() > 0,
        rest[0] == ',' || rest[0] == ']',
    ensures
        parse_value(result_json(r, include_points) + rest)
            == Some::<(JsonValue, Seq<char>)>((result_value(r, include_points), rest)),
{
    lemma_keys_plain();
    let sf1 = str_field("format"@, label_of(r.format));
    let sf2 = str_field("text"@, r.text@);
    let pts = if include_points {
        ", \"points\": ["@ + points_json(r.points@) + seq![']']
    } else {
        Seq::empty()
    };
    let close = seq!['}'] + rest;
    let m2 = sf2 + pts + close;
    let after1 = seq![',', ' '] + m2;
    let o = sf1 + after1;
    let t = result_json(r, include_points) + rest;
    assert(t == seq!['{'] + o);
    assert(skip_ws(t) == t);
    assert(t.drop_first() == o);
    assert(o[0] == '"');
    assert(skip_ws(o) == o);
    lemma_field_member("format"@, label_of(r.format), after1);
    assert(after1.drop_first() == seq![' '] + m2);
    lemma_members_space(m2);
    let after2 = pts + close;
    assert(m2 == sf2 + after2);
    assert(close.drop_first() == rest);
    let m1 = ("format"@, JsonValue::Str(label_of(r.format)));
    let mt = ("text"@, JsonValue::Str(r.text@));
    if include_points {
        reveal_strlit(", \"points\": [");
        reveal_strlit("points");
        let ps = r.points@;
        let q3 = seq!['['] + points_json(ps) + seq![']'] + close;
        let v3 = seq![' '] + q3;
        let m3 = seq!['"'] + json_escaped("points"@) + seq!['"', ':'] + v3;
        assert(after2 == seq![',', ' '] + m3);
        lemma_field_member("text"@, r.text@, after2);
        assert(after2.drop_first() == seq![' '] + m3);
        lemma_members_space(m3);
        lemma_value_space(q3);
        lemma_value_points(ps, close);
        let pv = JsonValue::Arr(ps.map_values(|p: Point| point_value(p)));
        lemma_members_step("points"@, v3, pv, close);
        assert(seq![m1] + (seq![mt] + seq![("points"@, pv)]) == seq![m1, mt] + seq![("points"@, pv)]);
    } else {
        assert(after2 == close);
        lemma_field_member("text"@, r.text@, after2);
        assert(seq![m1] + seq![mt] == seq![m1, mt] + Seq::empty());
    }
}

proof fn lemma_results_front(rs: Seq<Decoded>, include_points: bool)
    requires
        rs.len() >= 2,
    ensures
        results_json(rs, include_points) == result_json(rs[0], include_points) + seq![',', ' ']
            + results_json(rs.drop_first(), include_points),
    decreases rs.len(),
{
    let init = rs.drop_last();
    if rs.len() == 2 {
        assert(results_json(init, include_points) == result_json(rs[0], include_points));
        assert(rs.drop_first().len() == 1);
        assert(results_json(rs.drop_first(), include_points) == result_json(rs[1], include_points));
    } else {
        lemma_results_front(init, include_points);
        assert(init.drop_first() == rs.drop_first().drop_last());
        assert(rs.drop_first().last() == rs.last());
        assert(init[0] == rs[0]);
    }
}

#[verifier::spinoff_prover]
#[verifier::rlimit(60)]
proof fn lemma_results_elements(rs: Seq<Decoded>, include_points: bool, rest: Seq<char>)
    requires
        rs.len() >= 1,
    ensures
        parse_elements(results_json(rs, include_points) + seq![']'] + rest) == Some::<(Seq<JsonValue>, Seq<char>)>(
            (rs.map_values(|r: Decoded| result_value(r, include_points)), rest),
        ),
        (results_json(rs, include_points) + seq![']'] + rest)[0] == '{',
    decreases rs.len(),
{
    let close = seq![']'] + rest;
    assert(close.drop_first() == rest);
    if rs.len() == 1 {
        assert(results_json(rs, include_points) == result_json(rs[0], include_points));
        assert(results_json(rs, include_points) + seq![']'] + rest == result_json(rs[0], include_points) + close);
        lemma_value_result(rs[0], include_points, close);
        lemma_elements_step(result_json(rs[0], include_points) + close, result_value(rs[0], include_points), close);
        assert(rs.map_values(|r: Decoded| result_value(r, include_points)) == seq![result_value(rs[0], include_points)]);
    } else {
        lemma_results_front(rs, include_points);
        let tail = rs.drop_first();
        let c = results_json(tail, include_points) + seq![']'] + rest;
        let b = seq![',', ' '] + c;
        assert(results_json(rs, include_points) + seq![']'] + rest == result_json(rs[0], include_points) + b);
        lemma_value_result(rs[0], include_points, b);
        lemma_elements_step(result_json(rs[0], include_points) + b, result_value(rs[0], include_points), b);
        assert(b.drop_first() == seq![' '] + c);
        lemma_elements_space(c);
        lemma_results_elements(tail, include_points, rest);
        assert(seq![result_value(rs[0], include_points)] + tail.map_values(|r: Decoded| result_value(r, include_points))
            == rs.map_values(|r: Decoded| result_value(r, include_points)));
    }
}

#[verifier::spinoff_prover]
#[verifier::rlimit(60)]
proof fn lemma_value_results(rs: Seq<Decoded>, include_points: bool, rest: Seq<char>)
    ensures
        parse_value(seq!['['] + results_json(rs, include_points) + seq![']'] + rest) == Some::<(JsonValue, Seq<char>)>(
            (JsonValue::Arr(rs.map_values(|r: Decoded| result_value(r, include_points))), rest),
        ),
{
    let t = seq!['['] + results_json(rs, include_points) + seq![']'] + rest;
    let a = results_json(rs, include_points) + seq![']'] + rest;
    assert(skip_ws(t) == t);
    assert(t.drop_first() == a);
    if rs.len() == 0 {
        assert(a == seq![']'] + rest);
        assert(skip_ws(a) == a);
        assert(a.drop_first() == rest);
        assert(rs.map_values(|r: Decoded| result_value(r, include_points)) == Seq::<JsonValue>::empty());
    } else {
        lemma_results_elements(rs, include_points, rest);
        assert(skip_ws(a) == a);
    }
}

/// The `json` output for a file is a JSON document, and a JSON reader reads
/// it as the array holding one object: the file name under `"file"`, and
/// under `"results"` one object per detection, in order, with its format
/// name, its text and, when asked for, its corner points to one decimal.
#[verifier::spinoff_prover]
#[verifier::rlimit(60)]
pub proof fn json_output_reads_back(file: Seq<char>, rs: Seq<Decoded>, include_points: bool)
    ensures
        parse_document(json_output(file, rs, include_points)) == Some(output_value(file, rs, include_points)),
{
    lemma_keys_plain();
    reveal_strlit(", \"results\": [");
    reveal_strlit("results");
    let nl = seq!['\n'];
    let end = seq!['}', ']', '\n'];
    let q2 = seq!['['] + results_json(rs, include_points) + seq![']'] + end;
    let v2 = seq![' '] + q2;
    let m2 = seq!['"'] + json_escaped("results"@) + seq!['"', ':'] + v2;
    let after1 = seq![',', ' '] + m2;
    let o = str_field("file"@, file) + after1;
    let elems = seq!['{'] + o;
    let t = json_output(file, rs, include_points);
    assert(t == seq!['['] + elems);
    assert(skip_ws(t) == t);
    assert(t.drop_first() == elems);
    assert(skip_ws(elems) == elems);
    assert(elems.drop_first() == o);
    assert(skip_ws(o) == o);
    lemma_field_member("file"@, file, after1);
    assert(after1.drop_first() == seq![' '] + m2);
    lemma_members_space(m2);
    lemma_value_space(q2);
    lemma_value_results(rs, include_points, end);
    let rv = JsonValue::Arr(rs.map_values(|r: Decoded| result_value(r, include_points)));
    lemma_members_step("results"@, v2, rv, end);
    let close = seq![']', '\n'];
    assert(end.drop_first() == close);
    let obj = JsonValue::Obj(seq![("file"@, JsonValue::Str(file)), ("results"@, rv)]);
    assert(seq![("file"@, JsonValue::Str(file))] + seq![("results"@, rv)] == seq![
        ("file"@, JsonValue::Str(file)),
        ("results"@, rv),
    ]);
    assert(parse_value(elems) == Some::<(JsonValue, Seq<char>)>((obj, close)));
    lemma_elements_step(elems, obj, close);
    assert(close.drop_first() == nl);
    assert(skip_ws(Seq::<char>::empty()).len() == 0);
    assert(nl.drop_first() == Seq::<char>::empty());
    assert(skip_ws(nl) == skip_ws(Seq::<char>::empty()));
}

} // verus!
