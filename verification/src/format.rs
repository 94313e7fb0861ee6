//! Output formatters: txt, json, tsv.
//!
//! All formatters are byte-stable for a given input so callers can diff /
//! cache results: each appends to `out` exactly the text its specification
//! function gives for the file name and the detections.

use vstd::prelude::*;

use crate::barcode::{format_name, label_of, labels_are_upper_snake_case, BarcodeFormat};
use crate::escape::{
    json_escape, json_escape_has_no_control_chars, json_escaped, tsv_escape,
    tsv_escape_keeps_one_field,
    tsv_escaped,
};
use crate::strings::push_char;

verus! {

/// A corner point of a detection, each coordinate held in tenths of a pixel
/// (the precision the JSON output shows).
#[derive(Clone, Copy, Debug, PartialEq, Eq, Structural)]
pub struct Point {
    pub x_tenths: i64,
    pub y_tenths: i64,
}

/// One barcode found in an image.
#[derive(Clone, Debug)]
pub struct Decoded {
    pub format: BarcodeFormat,
    pub text: String,
    pub points: Vec<Point>,
}

// ---------------------------------------------------------------------------
// Numbers
// ---------------------------------------------------------------------------

/// The character of a decimal digit (`0 <= d < 10`).
pub open spec fn digit_char(d: int) -> char {
    ((d + 48) as int) as char
}

/// The character of a decimal digit.
fn digit(d: u64) -> (c: char)
    requires
        d < 10,
    ensures
        c == digit_char(d as int),
{
    ((d + 48) as u8) as char
}

/// The decimal digits of `n`, most significant first, without leading zeros.
pub open spec fn decimal(n: nat) -> Seq<char>
    decreases n,
{
    if n < 10 {
        seq![digit_char(n as int)]
    } else {
        decimal(n / 10) + seq![digit_char((n % 10) as int)]
    }
}

/// The magnitude of an integer.
pub open spec fn magnitude(t: int) -> nat {
    if t < 0 {
        (-t) as nat
    } else {
        t as nat
    }
}

/// A number given in tenths, written with exactly one decimal: `405` is
/// `40.5`, `-3` is `-0.3`, `0` is `0.0`.
pub open spec fn one_decimal(t: int) -> Seq<char> {
    let m = magnitude(t);
    (if t < 0 {
        seq!['-']
    } else {
        Seq::empty()
    }) + decimal(m / 10) + seq!['.', digit_char((m % 10) as int)]
}

fn push_decimal(out: &mut String, n: u64)
    ensures
        final(out)@ == old(out)@ + decimal(n as nat),
    decreases n,
{
    if n >= 10 {
        push_decimal(out, n / 10);
    }
    push_char(out, digit(n % 10));
}

/// Appends a number given in tenths with one decimal.
pub fn push_tenths(out: &mut String, t: i64)
    ensures
        final(out)@ == old(out)@ + one_decimal(t as int),
{
    let m: u64 = if t < 0 {
        push_char(out, '-');
        ((-(t + 1)) as u64) + 1
    } else {
        t as u64
    };
    assert(m as nat == magnitude(t as int));
    push_decimal(out, m / 10);
    push_char(out, '.');
    push_char(out, digit(m % 10));
}

// ---------------------------------------------------------------------------
// txt and tsv
// ---------------------------------------------------------------------------

/// One `txt` line: `<file>\t<FORMAT>\t<text>\n`, the text as it is.
pub open spec fn txt_row(file: Seq<char>, r: Decoded) -> Seq<char> {
    file + seq!['\t'] + label_of(r.format) + seq!['\t'] + r.text@ + seq!['\n']
}

/// The `txt` output for one file: one line per detection, in order.
pub open spec fn txt_output(file: Seq<char>, rs: Seq<Decoded>) -> Seq<char>
    decreases rs.len(),
{
    if rs.len() == 0 {
        Seq::empty()
    } else {
        txt_output(file, rs.drop_last()) + txt_row(file, rs.last())
    }
}

/// One `tsv` row: `<file>\t<FORMAT>\t<escaped text>\n`.
pub open spec fn tsv_row(file: Seq<char>, r: Decoded) -> Seq<char> {
    file + seq!['\t'] + label_of(r.format) + seq!['\t'] + tsv_escaped(r.text@) + seq!['\n']
}

/// The `tsv` output for one file: one row per detection, in order.
pub open spec fn tsv_output(file: Seq<char>, rs: Seq<Decoded>) -> Seq<char>
    decreases rs.len(),
{
    if rs.len() == 0 {
        Seq::empty()
    } else {
        tsv_output(file, rs.drop_last()) + tsv_row(file, rs.last())
    }
}

/// `txt` — one line per detection:
///   `<file>\t<FORMAT>\t<text>`
///
/// For multi-barcode images, one line per code is emitted (all sharing
/// the same `<file>`). Empty results produce no output.
pub fn emit_txt(out: &mut String, file: &str, results: &[Decoded])
    ensures
        final(out)@ == old(out)@ + txt_output(file@, results@),
        results@.len() == 0 ==> final(out)@ == old(out)@,
{
    let n = results.len();
    for i in 0..n
        invariant
            n == results@.len(),
            out@ == old(out)@ + txt_output(file@, results@.take(i as int)),
    {
        let ghost before = out@;
        let r = &results[i];
        out.append(file);
        push_char(out, '\t');
        out.append(format_name(r.format));
        push_char(out, '\t');
        out.append(r.text.as_str());
        push_char(out, '\n');
        assert(results@.take(i + 1).drop_last() == results@.take(i as int));
        assert(out@ == before + txt_row(file@, results@[i as int]));
    }
    assert(results@.take(n as int) == results@);
}

/// `tsv` — three columns: `<file>\t<format>\t<text>`.
/// Points are not emitted in TSV (no clean column shape for an
/// arbitrary-length array); JSON is the format that carries them, and the
/// points switch, taken for a call shape alike to `emit_json`, changes nothing.
pub fn emit_tsv(out: &mut String, file: &str, results: &[Decoded], _include_points: bool)
    ensures
        final(out)@ == old(out)@ + tsv_output(file@, results@),
        results@.len() == 0 ==> final(out)@ == old(out)@,
{
    let n = results.len();
    for i in 0..n
        invariant
            n == results@.len(),
            out@ == old(out)@ + tsv_output(file@, results@.take(i as int)),
    {
        let ghost before = out@;
        let r = &results[i];
        out.append(file);
        push_char(out, '\t');
        out.append(format_name(r.format));
        push_char(out, '\t');
        let escaped = tsv_escape(r.text.as_str());
        out.append(escaped.as_str());
        push_char(out, '\n');
        assert(results@.take(i + 1).drop_last() == results@.take(i as int));
        assert(out@ == before + tsv_row(file@, results@[i as int]));
    }
    assert(results@.take(n as int) == results@);
}

// ---------------------------------------------------------------------------
// json
// ---------------------------------------------------------------------------

/// `"<key>": "<escaped value>"`; the key is written as it is.
pub open spec fn str_field(key: Seq<char>, val: Seq<char>) -> Seq<char> {
    seq!['"'] + key + seq!['"', ':', ' ', '"'] + json_escaped(val) + seq!['"']
}

/// `[<x>, <y>]`, each coordinate with one decimal.
pub open spec fn point_json(p: Point) -> Seq<char> {
    seq!['['] + one_decimal(p.x_tenths as int) + seq![',', ' '] + one_decimal(p.y_tenths as int) + seq![']']
}

/// The points of a detection, separated by `, `.
pub open spec fn points_json(ps: Seq<Point>) -> Seq<char>
    decreases ps.len(),
{
    if ps.len() == 0 {
        Seq::empty()
    } else if ps.len() == 1 {
        point_json(ps[0])
    } else {
        points_json(ps.drop_last()) + seq![',', ' '] + point_json(ps.last())
    }
}

/// One detection as a JSON object: format and text, then the points array
/// when `include_points` holds.
pub open spec fn result_json(r: Decoded, include_points: bool) -> Seq<char> {
    seq!['{'] + str_field("format"@, label_of(r.format)) + seq![',', ' '] + str_field("text"@, r.text@)
        + (if include_points {
        ", \"points\": ["@ + points_json(r.points@) + seq![']']
    } else {
        Seq::empty()
    }) + seq!['}']
}

/// The detections of a file, separated by `, `.
pub open spec fn results_json(rs: Seq<Decoded>, include_points: bool) -> Seq<char>
    decreases rs.len(),
{
    if rs.len() == 0 {
        Seq::empty()
    } else if rs.len() == 1 {
        result_json(rs[0], include_points)
    } else {
        results_json(rs.drop_last(), include_points) + seq![',', ' '] + result_json(rs.last(), include_points)
    }
}

/// The `json` output for one file: a one-element array holding the file
/// name and its detections, then a newline.
pub open spec fn json_output(file: Seq<char>, rs: Seq<Decoded>, include_points: bool) -> Seq<char> {
    seq!['[', '{'] + str_field("file"@, file) + ", \"results\": ["@ + results_json(rs, include_points)
        + seq![']', '}', ']', '\n']
}

/// Appends `"<key>": "<escaped value>"`.
pub fn write_str_obj(out: &mut String, key: &str, val: &str)
    ensures
        final(out)@ == old(out)@ + str_field(key@, val@),
{
    push_char(out, '"');
    out.append(key);
    push_char(out, '"');
    push_char(out, ':');
    push_char(out, ' ');
    push_char(out, '"');
    let escaped = json_escape(val);
    out.append(escaped.as_str());
    push_char(out, '"');
}

fn write_point(out: &mut String, p: Point)
    ensures
        final(out)@ == old(out)@ + point_json(p),
{
    push_char(out, '[');
    push_tenths(out, p.x_tenths);
    push_char(out, ',');
    push_char(out, ' ');
    push_tenths(out, p.y_tenths);
    push_char(out, ']');
}

fn write_points(out: &mut String, points: &Vec<Point>)
    ensures
        final(out)@ == old(out)@ + points_json(points@),
{
    let n = points.len();
    for j in 0..n
        invariant
            n == points@.len(),
            out@ == old(out)@ + points_json(points@.take(j as int)),
    {
        let ghost before = out@;
        if j > 0 {
            push_char(out, ',');
            push_char(out, ' ');
        }
        write_point(out, points[j]);
        let ghost pre = points@.take(j + 1);
        assert(pre.drop_last() == points@.take(j as int));
        assert(pre.last() == points@[j as int]);
    }
    assert(points@.take(n as int) == points@);
}

fn write_result(out: &mut String, r: &Decoded, include_points: bool)
    ensures
        final(out)@ == old(out)@ + result_json(*r, include_points),
{
    push_char(out, '{');
    write_str_obj(out, "format", format_name(r.format));
    push_char(out, ',');
    push_char(out, ' ');
    write_str_obj(out, "text", r.text.as_str());
    if include_points {
        out.append(", \"points\": [");
        write_points(out, &r.points);
        push_char(out, ']');
    }
    push_char(out, '}');
}

/// `json` — a JSON array with one object for the file:
/// ```json
/// [{"file": "qr.png", "results": [{"format": "QR_CODE", "text": "https://x-cmd.com", "points": [[40.5, 40.5], [250.5, 40.5], [250.5, 250.5], [40.5, 250.5]]}]}]
/// ```
///
/// The `points` array of each detection is written when `include_points`
/// holds (empty when the decoder gave no corner points). Every text and
/// file string is escaped.
pub fn emit_json(out: &mut String, file: &str, results: &[Decoded], include_points: bool)
    ensures
        final(out)@ == old(out)@ + json_output(file@, results@, include_points),
{
    push_char(out, '[');
    push_char(out, '{');
    write_str_obj(out, "file", file);
    out.append(", \"results\": [");
    let ghost head = out@;
    let n = results.len();
    for i in 0..n
        invariant
            n == results@.len(),
            out@ == head + results_json(results@.take(i as int), include_points),
    {
        let ghost before = out@;
        if i > 0 {
            push_char(out, ',');
            push_char(out, ' ');
        }
        write_result(out, &results[i], include_points);
        let ghost pre = results@.take(i + 1);
        assert(pre.drop_last() == results@.take(i as int));
        if i == 0 {
            assert(out@ == before + result_json(pre[0], include_points));
        } else {
            assert(out@ == before + seq![',', ' '] + result_json(pre.last(), include_points));
        }
    }
    assert(results@.take(n as int) == results@);
    push_char(out, ']');
    push_char(out, '}');
    push_char(out, ']');
    push_char(out, '\n');
}

// ---------------------------------------------------------------------------
// Row structure of txt and tsv
// ---------------------------------------------------------------------------

/// How many times `c` occurs in `s`.
pub open spec fn count_char(s: Seq<char>, c: char) -> nat
    decreases s.len(),
{
    if s.len() == 0 {
        0
    } else {
        count_char(s.drop_last(), c) + if s.last() == c {
            1nat
        } else {
            0nat
        }
    }
}

proof fn lemma_count_concat(a: Seq<char>, b: Seq<char>, c: char)
    ensures
        count_char(a + b, c) == count_char(a, c) + count_char(b, c),
    decreases b.len(),
{
    if b.len() == 0 {
        assert(a + b == a);
    } else {
        assert((a + b).drop_last() == a + b.drop_last());
        lemma_count_concat(a, b.drop_last(), c);
    }
}

proof fn lemma_count_absent(s: Seq<char>, c: char)
    requires
        forall|i: int| 0 <= i < s.len() ==> #[trigger] s[i] != c,
    ensures
        count_char(s, c) == 0,
    decreases s.len(),
{
    if s.len() > 0 {
        lemma_count_absent(s.drop_last(), c);
    }
}

proof fn lemma_count_one(d: char, c: char)
    ensures
        count_char(seq![d], c) == if d == c {
            1nat
        } else {
            0nat
        },
{
    assert(seq![d].drop_last().len() == 0);
    assert(seq![d].last() == d);
    assert(count_char(seq![d].drop_last(), c) == 0);
}

proof fn lemma_label_has_no_breaks(f: BarcodeFormat, c: char)
    requires
        c == '\t' || c == '\n' || c == '\r',
    ensures
        count_char(label_of(f), c) == 0,
{
    labels_are_upper_snake_case(f);
    lemma_count_absent(label_of(f), c);
}

/// The number of `c` in a row `file \t label \t field \n`.
proof fn lemma_row_count(file: Seq<char>, label: Seq<char>, field: Seq<char>, c: char)
    ensures
        count_char(file + seq!['\t'] + label + seq!['\t'] + field + seq!['\n'], c)
            == count_char(file, c) + count_char(label, c) + count_char(field, c)
            + 2 * count_char(seq!['\t'], c) + count_char(seq!['\n'], c),
{
    let tab = seq!['\t'];
    let nl = seq!['\n'];
    lemma_count_concat(file, tab, c);
    lemma_count_concat(file + tab, label, c);
    lemma_count_concat(file + tab + label, tab, c);
    lemma_count_concat(file + tab + label + tab, field, c);
    lemma_count_concat(file + tab + label + tab + field, nl, c);
}

/// With a file name free of tabs and newlines, the `tsv` output holds one
/// line per detection, and each line holds exactly three fields: there are
/// as many newlines as detections and twice as many tabs.
pub proof fn tsv_one_row_per_detection(file: Seq<char>, rs: Seq<Decoded>)
    requires
        forall|i: int| 0 <= i < file.len() ==> #[trigger] file[i] != '\t' && file[i] != '\n',
    ensures
        count_char(tsv_output(file, rs), '\n') == rs.len(),
        count_char(tsv_output(file, rs), '\t') == 2 * rs.len(),
    decreases rs.len(),
{
    if rs.len() > 0 {
        tsv_one_row_per_detection(file, rs.drop_last());
        let r = rs.last();
        let field = tsv_escaped(r.text@);
        tsv_escape_keeps_one_field(r.text@);
        lemma_count_absent(file, '\n');
        lemma_count_absent(file, '\t');
        lemma_count_absent(field, '\n');
        lemma_count_absent(field, '\t');
        lemma_label_has_no_breaks(r.format, '\n');
        lemma_label_has_no_breaks(r.format, '\t');
        lemma_count_one('\t', '\n');
        lemma_count_one('\t', '\t');
        lemma_count_one('\n', '\n');
        lemma_count_one('\n', '\t');
        lemma_row_count(file, label_of(r.format), field, '\n');
        lemma_row_count(file, label_of(r.format), field, '\t');
        lemma_count_concat(tsv_output(file, rs.drop_last()), tsv_row(file, r), '\n');
        lemma_count_concat(tsv_output(file, rs.drop_last()), tsv_row(file, r), '\t');
    }
}

/// When neither the file name nor any decoded text holds a newline, the
/// `txt` output holds exactly one line per detection.
pub proof fn txt_one_line_per_detection(file: Seq<char>, rs: Seq<Decoded>)
    requires
        forall|i: int| 0 <= i < file.len() ==> #[trigger] file[i] != '\n',
        forall|k: int, i: int| 0 <= k < rs.len() && 0 <= i < rs[k].text@.len() ==> #[trigger] rs[k].text@[i] != '\n',
    ensures
        count_char(txt_output(file, rs), '\n') == rs.len(),
    decreases rs.len(),
{
    if rs.len() > 0 {
        let init = rs.drop_last();
        assert forall|k: int, i: int| 0 <= k < init.len() && 0 <= i < init[k].text@.len() implies #[trigger] init[k].text@[i] != '\n' by {
            assert(init[k] == rs[k]);
        }
        txt_one_line_per_detection(file, init);
        let r = rs.last();
        assert forall|i: int| 0 <= i < r.text@.len() implies #[trigger] r.text@[i] != '\n' by {
            assert(rs[rs.len() - 1].text@[i] != '\n');
        }
        lemma_count_absent(file, '\n');
        lemma_count_absent(r.text@, '\n');
        lemma_label_has_no_breaks(r.format, '\n');
        lemma_count_one('\t', '\n');
        lemma_count_one('\n', '\n');
        lemma_row_count(file, label_of(r.format), r.text@, '\n');
        lemma_count_concat(txt_output(file, init), txt_row(file, r), '\n');
    }
}

// ---------------------------------------------------------------------------
// One JSON line per file
// ---------------------------------------------------------------------------

/// `s` holds no newline.
pub open spec fn no_newline(s: Seq<char>) -> bool {
    forall|i: int| 0 <= i < s.len() ==> #[trigger] s[i] != '\n'
}

proof fn lemma_decimal_no_newline(n: nat)
    ensures
        no_newline(decimal(n)),
    decreases n,
{
    if n >= 10 {
        lemma_decimal_no_newline(n / 10);
    }
}

proof fn lemma_point_no_newline(p: Point)
    ensures
        no_newline(point_json(p)),
{
    lemma_decimal_no_newline(magnitude(p.x_tenths as int) / 10);
    lemma_decimal_no_newline(magnitude(p.y_tenths as int) / 10);
}

proof fn lemma_points_no_newline(ps: Seq<Point>)
    ensures
        no_newline(points_json(ps)),
    decreases ps.len(),
{
    if ps.len() == 1 {
        lemma_point_no_newline(ps[0]);
    } else if ps.len() > 1 {
        lemma_points_no_newline(ps.drop_last());
        lemma_point_no_newline(ps.last());
    }
}

proof fn lemma_escaped_no_newline(s: Seq<char>)
    ensures
        no_newline(json_escaped(s)),
{
    json_escape_has_no_control_chars(s);
    assert forall|i: int| 0 <= i < json_escaped(s).len() implies #[trigger] json_escaped(s)[i] != '\n' by {
        assert((json_escaped(s)[i] as int) >= 0x20);
    }
}

proof fn lemma_field_no_newline(key: Seq<char>, val: Seq<char>)
    requires
        no_newline(key),
    ensures
        no_newline(str_field(key, val)),
{
    lemma_escaped_no_newline(val);
}

proof fn lemma_result_no_newline(r: Decoded, include_points: bool)
    ensures
        no_newline(result_json(r, include_points)),
{
    reveal_strlit("format");
    reveal_strlit("text");
    reveal_strlit(", \"points\": [");
    labels_are_upper_snake_case(r.format);
    lemma_field_no_newline("format"@, label_of(r.format));
    lemma_field_no_newline("text"@, r.text@);
    lemma_points_no_newline(r.points@);
}

proof fn lemma_results_no_newline(rs: Seq<Decoded>, include_points: bool)
    ensures
        no_newline(results_json(rs, include_points)),
    decreases rs.len(),
{
    if rs.len() == 1 {
        lemma_result_no_newline(rs[0], include_points);
    } else if rs.len() > 1 {
        lemma_results_no_newline(rs.drop_last(), include_points);
        lemma_result_no_newline(rs.last(), include_points);
    }
}

/// The `json` output for a file is one line: the only newline is the one
/// that ends it, whatever the file name and the decoded texts hold.
pub proof fn json_is_one_line(file: Seq<char>, rs: Seq<Decoded>, include_points: bool)
    ensures
        count_char(json_output(file, rs, include_points), '\n') == 1,
        json_output(file, rs, include_points).last() == '\n',
{
    reveal_strlit("file");
    reveal_strlit(", \"results\": [");
    lemma_field_no_newline("file"@, file);
    lemma_results_no_newline(rs, include_points);
    let body = seq!['[', '{'] + str_field("file"@, file) + ", \"results\": ["@ + results_json(rs, include_points)
        + seq![']', '}', ']'];
    assert(no_newline(body));
    assert(json_output(file, rs, include_points) == body + seq!['\n']);
    lemma_count_absent(body, '\n');
    lemma_count_one('\n', '\n');
    lemma_count_concat(body, seq!['\n'], '\n');
}

// ---------------------------------------------------------------------------
// Reading rows and fields back
// ---------------------------------------------------------------------------

/// The pieces of `t` between the occurrences of `c`, empty pieces included
/// (`a\tb\t` is `a`, `b` and the empty piece).
pub open spec fn split_at_char(t: Seq<char>, c: char) -> Seq<Seq<char>>
    decreases t.len(),
{
    if t.len() == 0 {
        seq![Seq::empty()]
    } else {
        let r = split_at_char(t.drop_first(), c);
        if t[0] == c {
            seq![Seq::empty()] + r
        } else {
            r.update(0, seq![t[0]] + r[0])
        }
    }
}

proof fn lemma_split_len(t: Seq<char>, c: char)
    ensures
        split_at_char(t, c).len() >= 1,
    decreases t.len(),
{
    if t.len() > 0 {
        lemma_split_len(t.drop_first(), c);
    }
}

/// A piece free of `c`, then `c`, then the rest: the piece comes first.
proof fn lemma_split_piece(x: Seq<char>, c: char, y: Seq<char>)
    requires
        forall|i: int| 0 <= i < x.len() ==> #[trigger] x[i] != c,
    ensures
        split_at_char(x + seq![c] + y, c) == seq![x] + split_at_char(y, c),
    decreases x.len(),
{
    let t = x + seq![c] + y;
    if x.len() == 0 {
        assert(t.drop_first() == y);
        assert(x == Seq::<char>::empty());
    } else {
        let x1 = x.drop_first();
        assert forall|i: int| 0 <= i < x1.len() implies #[trigger] x1[i] != c by {
            assert(x1[i] == x[i + 1]);
        }
        lemma_split_piece(x1, c, y);
        assert(t.drop_first() == x1 + seq![c] + y);
        assert(t[0] == x[0]);
        lemma_split_len(y, c);
        assert(seq![x[0]] + x1 == x);
        assert((seq![x1] + split_at_char(y, c)).update(0, seq![x[0]] + x1) == seq![x] + split_at_char(y, c));
    }
}

/// A piece free of `c` is the only piece.
proof fn lemma_split_whole(x: Seq<char>, c: char)
    requires
        forall|i: int| 0 <= i < x.len() ==> #[trigger] x[i] != c,
    ensures
        split_at_char(x, c) == seq![x],
    decreases x.len(),
{
    if x.len() == 0 {
        assert(x =~= Seq::<char>::empty());
    } else {
        let x1 = x.drop_first();
        assert forall|i: int| 0 <= i < x1.len() implies #[trigger] x1[i] != c by {
            assert(x1[i] == x[i + 1]);
        }
        lemma_split_whole(x1, c);
        assert(x[0] != c);
        assert(seq![x[0]] + x1 =~= x);
        assert(seq![x1].update(0, seq![x[0]] + x1) =~= seq![x]);
    }
}

/// A line of three fields, none holding a tab or a newline, splits at tabs
/// into those fields and holds no newline.
proof fn lemma_line_fields(file: Seq<char>, label: Seq<char>, field: Seq<char>)
    requires
        forall|i: int| 0 <= i < file.len() ==> #[trigger] file[i] != '\t' && file[i] != '\n',
        forall|i: int| 0 <= i < label.len() ==> #[trigger] label[i] != '\t' && label[i] != '\n',
        forall|i: int| 0 <= i < field.len() ==> #[trigger] field[i] != '\t' && field[i] != '\n',
    ensures
        split_at_char(file + seq!['\t'] + label + seq!['\t'] + field, '\t') == seq![file, label, field],
        forall|i: int| 0 <= i < (file + seq!['\t'] + label + seq!['\t'] + field).len()
            ==> #[trigger] (file + seq!['\t'] + label + seq!['\t'] + field)[i] != '\n',
{
    let line = file + seq!['\t'] + label + seq!['\t'] + field;
    lemma_split_whole(field, '\t');
    lemma_split_piece(label, '\t', field);
    assert(file + seq!['\t'] + label + seq!['\t'] + field == file + seq!['\t'] + (label + seq!['\t'] + field));
    lemma_split_piece(file, '\t', label + seq!['\t'] + field);
    assert(seq![file] + (seq![label] + seq![field]) == seq![file, label, field]);
    assert forall|i: int| 0 <= i < line.len() implies #[trigger] line[i] != '\n' by {
        if i < file.len() {
            assert(line[i] == file[i]);
        } else if i > file.len() && i < file.len() + 1 + label.len() {
            assert(line[i] == label[i - file.len() - 1]);
        } else if i > file.len() + label.len() + 1 {
            assert(line[i] == field[i - file.len() - label.len() - 2]);
        }
    }
}

proof fn lemma_label_clean(f: BarcodeFormat)
    ensures
        forall|i: int| 0 <= i < label_of(f).len() ==> #[trigger] label_of(f)[i] != '\t' && label_of(f)[i] != '\n',
{
    labels_are_upper_snake_case(f);
}

proof fn lemma_tsv_front(file: Seq<char>, rs: Seq<Decoded>)
    requires
        rs.len() >= 1,
    ensures
        tsv_output(file, rs) == tsv_row(file, rs[0]) + tsv_output(file, rs.drop_first()),
    decreases rs.len(),
{
    if rs.len() == 1 {
        assert(rs.drop_last().len() == 0);
        assert(rs.drop_first().len() == 0);
        assert(tsv_output(file, rs.drop_last()) == Seq::<char>::empty());
    } else {
        lemma_tsv_front(file, rs.drop_last());
        assert(rs.drop_last().drop_first() == rs.drop_first().drop_last());
        assert(rs.drop_first().last() == rs.last());
    }
}

proof fn lemma_txt_front(file: Seq<char>, rs: Seq<Decoded>)
    requires
        rs.len() >= 1,
    ensures
        txt_output(file, rs) == txt_row(file, rs[0]) + txt_output(file, rs.drop_first()),
    decreases rs.len(),
{
    if rs.len() == 1 {
        assert(rs.drop_last().len() == 0);
        assert(rs.drop_first().len() == 0);
        assert(txt_output(file, rs.drop_last()) == Seq::<char>::empty());
    } else {
        lemma_txt_front(file, rs.drop_last());
        assert(rs.drop_last().drop_first() == rs.drop_first().drop_last());
        assert(rs.drop_first().last() == rs.last());
    }
}

/// Read back line by line and field by field, the `tsv` output gives, for
/// each detection in order, the file name, the format name and the escaped
/// text (which `tsv_escape_reads_back` turns back into the text), with
/// nothing after the last newline; provided the file name holds no tab or
/// newline.
pub proof fn tsv_reads_back(file: Seq<char>, rs: Seq<Decoded>)
    requires
        forall|i: int| 0 <= i < file.len() ==> #[trigger] file[i] != '\t' && file[i] != '\n',
    ensures
        split_at_char(tsv_output(file, rs), '\n').len() == rs.len() + 1,
        split_at_char(tsv_output(file, rs), '\n')[rs.len() as int] == Seq::<char>::empty(),
        forall|k: int| 0 <= k < rs.len() ==> split_at_char(#[trigger] split_at_char(tsv_output(file, rs), '\n')[k], '\t')
            == seq![file, label_of(rs[k].format), tsv_escaped(rs[k].text@)],
    decreases rs.len(),
{
    if rs.len() == 0 {
        assert(tsv_output(file, rs) == Seq::<char>::empty());
    } else {
        let r = rs[0];
        let tail = rs.drop_first();
        tsv_reads_back(file, tail);
        lemma_tsv_front(file, rs);
        let field = tsv_escaped(r.text@);
        tsv_escape_keeps_one_field(r.text@);
        lemma_label_clean(r.format);
        lemma_line_fields(file, label_of(r.format), field);
        let line = file + seq!['\t'] + label_of(r.format) + seq!['\t'] + field;
        assert(tsv_row(file, r) + tsv_output(file, tail) == line + seq!['\n'] + tsv_output(file, tail));
        lemma_split_piece(line, '\n', tsv_output(file, tail));
        let lines = split_at_char(tsv_output(file, rs), '\n');
        assert forall|k: int| 0 <= k < rs.len() implies split_at_char(#[trigger] lines[k], '\t')
            == seq![file, label_of(rs[k].format), tsv_escaped(rs[k].text@)] by {
            if k > 0 {
                assert(lines[k] == split_at_char(tsv_output(file, tail), '\n')[k - 1]);
                assert(rs[k] == tail[k - 1]);
            }
        }
    }
}

/// Read back line by line and field by field, the `txt` output gives, for
/// each detection in order, the file name, the format name and the text;
/// provided neither the file name nor any text holds a tab or a newline.
pub proof fn txt_reads_back(file: Seq<char>, rs: Seq<Decoded>)
    requires
        forall|i: int| 0 <= i < file.len() ==> #[trigger] file[i] != '\t' && file[i] != '\n',
        forall|k: int, i: int| 0 <= k < rs.len() && 0 <= i < rs[k].text@.len() ==> #[trigger] rs[k].text@[i] != '\t'
            && rs[k].text@[i] != '\n',
    ensures
        split_at_char(txt_output(file, rs), '\n').len() == rs.len() + 1,
        split_at_char(txt_output(file, rs), '\n')[rs.len() as int] == Seq::<char>::empty(),
        forall|k: int| 0 <= k < rs.len() ==> split_at_char(#[trigger] split_at_char(txt_output(file, rs), '\n')[k], '\t')
            == seq![file, label_of(rs[k].format), rs[k].text@],
    decreases rs.len(),
{
    if rs.len() == 0 {
        assert(txt_output(file, rs) == Seq::<char>::empty());
    } else {
        let r = rs[0];
        let tail = rs.drop_first();
        assert forall|k: int, i: int| 0 <= k < tail.len() && 0 <= i < tail[k].text@.len() implies #[trigger] tail[k].text@[i]
            != '\t' && tail[k].text@[i] != '\n' by {
            assert(tail[k] == rs[k + 1]);
        }
        txt_reads_back(file, tail);
        lemma_txt_front(file, rs);
        assert forall|i: int| 0 <= i < r.text@.len() implies #[trigger] r.text@[i] != '\t' && r.text@[i] != '\n' by {
            assert(rs[0].text@[i] != '\t');
        }
        lemma_label_clean(r.format);
        lemma_line_fields(file, label_of(r.format), r.text@);
        let line = file + seq!['\t'] + label_of(r.format) + seq!['\t'] + r.text@;
        assert(txt_row(file, r) + txt_output(file, tail) == line + seq!['\n'] + txt_output(file, tail));
        lemma_split_piece(line, '\n', txt_output(file, tail));
        let lines = split_at_char(txt_output(file, rs), '\n');
        assert forall|k: int| 0 <= k < rs.len() implies split_at_char(#[trigger] lines[k], '\t')
            == seq![file, label_of(rs[k].format), rs[k].text@] by {
            if k > 0 {
                assert(lines[k] == split_at_char(txt_output(file, tail), '\n')[k - 1]);
                assert(rs[k] == tail[k - 1]);
            }
        }
    }
}

} // verus!
