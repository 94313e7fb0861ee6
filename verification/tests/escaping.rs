//! Escaping, numbers and the shapes of the three output formats.

use zxing::format::push_tenths;
use zxing::{emit_json, emit_tsv, emit_txt, json_escape, tsv_escape, write_str_obj};
use zxing::{BarcodeFormat, Decoded, Point};

fn detection(format: BarcodeFormat, text: &str, points: Vec<Point>) -> Decoded {
    Decoded { format, text: text.to_string(), points }
}

#[test]
fn json_escape_short_escapes() {
    assert_eq!(json_escape("a\"b\\c\nd\re\tf"), "a\\\"b\\\\c\\nd\\re\\tf");
}

#[test]
fn json_escape_other_control_chars_as_unicode() {
    assert_eq!(json_escape("\u{0}\u{1f}\u{8}x"), "\\u0000\\u001f\\u0008x");
    assert_eq!(json_escape("\u{1b}"), "\\u001b");
}

#[test]
fn json_escape_leaves_other_text_alone() {
    assert_eq!(json_escape("héllo 中文 / \u{7f}"), "héllo 中文 / \u{7f}");
    assert_eq!(json_escape(""), "");
}

#[test]
fn json_escape_round_trips_on_sample() {
    let text = "q\"u\\o\nte\t\u{1}end";
    let escaped = json_escape(text);
    let quoted = format!("\"{escaped}\"");
    let decoded = decode_json_string(&quoted);
    assert_eq!(decoded, text);
    assert!(escaped.chars().all(|c| (c as u32) >= 0x20));
}

/// A small JSON string reader, enough for the escapes the library writes.
fn decode_json_string(s: &str) -> String {
    let inner: Vec<char> = s[1..s.len() - 1].chars().collect();
    let mut out = String::new();
    let mut i = 0;
    while i < inner.len() {
        if inner[i] == '\\' {
            match inner[i + 1] {
                'n' => out.push('\n'),
                'r' => out.push('\r'),
                't' => out.push('\t'),
                '"' => out.push('"'),
                '\\' => out.push('\\'),
                'u' => {
                    let hex: String = inner[i + 2..i + 6].iter().collect();
                    out.push(char::from_u32(u32::from_str_radix(&hex, 16).unwrap()).unwrap());
                    i += 4;
                }
                other => panic!("unexpected escape {other}"),
            }
            i += 2;
        } else {
            out.push(inner[i]);
            i += 1;
        }
    }
    out
}

#[test]
fn tsv_escape_only_touches_tab_newline_return() {
    assert_eq!(tsv_escape("a\tb\nc\rd"), "a\\tb\\nc\\rd");
    assert_eq!(tsv_escape("x\u{1}y\"z\\"), "x\u{1}y\"z\\");
    assert_eq!(tsv_escape(""), "");
}

#[test]
fn write_str_obj_escapes_value_not_key() {
    let mut out = String::from("<");
    write_str_obj(&mut out, "k\"", "v\"");
    assert_eq!(out, "<\"k\"\": \"v\\\"\"");
}

#[test]
fn tenths_render_with_one_decimal() {
    let cases: Vec<(i64, &str)> = vec![
        (405, "40.5"),
        (0, "0.0"),
        (7, "0.7"),
        (10, "1.0"),
        (2505, "250.5"),
        (-3, "-0.3"),
        (-125, "-12.5"),
        (i64::MAX, "922337203685477580.7"),
        (i64::MIN, "-922337203685477580.8"),
    ];
    for (t, want) in cases {
        let mut out = String::new();
        push_tenths(&mut out, t);
        assert_eq!(out, want);
        // The same as Rust's own one-decimal formatting of the value.
        if t.unsigned_abs() < 1_000_000 {
            assert_eq!(out, format!("{:.1}", t as f64 / 10.0));
        }
    }
}

#[test]
fn json_full_shape_with_points() {
    let mut out = String::new();
    let results = vec![
        detection(
            BarcodeFormat::QR_CODE,
            "https://x-cmd.com",
            vec![
                Point { x_tenths: 405, y_tenths: 405 },
                Point { x_tenths: 2505, y_tenths: 405 },
                Point { x_tenths: 2505, y_tenths: 2505 },
                Point { x_tenths: 405, y_tenths: 2505 },
            ],
        ),
        detection(BarcodeFormat::EAN_13, "4006381333931", vec![]),
    ];
    emit_json(&mut out, "qr.png", &results, true);
    assert_eq!(
        out,
        "[{\"file\": \"qr.png\", \"results\": [{\"format\": \"QR_CODE\", \"text\": \"https://x-cmd.com\", \"points\": [[40.5, 40.5], [250.5, 40.5], [250.5, 250.5], [40.5, 250.5]]}, {\"format\": \"EAN_13\", \"text\": \"4006381333931\", \"points\": []}]}]\n"
    );
}

#[test]
fn json_empty_results_and_escaped_file() {
    let mut out = String::new();
    emit_json(&mut out, "a\"b.png", &[], true);
    assert_eq!(out, "[{\"file\": \"a\\\"b.png\", \"results\": []}]\n");
}

#[test]
fn json_appends_to_what_is_there() {
    let mut out = String::from("prev\n");
    emit_json(&mut out, "x", &[], false);
    assert_eq!(out, "prev\n[{\"file\": \"x\", \"results\": []}]\n");
}

#[test]
fn txt_multi_detection_and_empty() {
    let mut out = String::new();
    let results = vec![
        detection(BarcodeFormat::QR_CODE, "hello world", vec![]),
        detection(BarcodeFormat::EAN_13, "4006381333931", vec![]),
    ];
    emit_txt(&mut out, "multi.png", &results);
    assert_eq!(out, "multi.png\tQR_CODE\thello world\nmulti.png\tEAN_13\t4006381333931\n");
    let mut empty = String::new();
    emit_txt(&mut empty, "none.png", &[]);
    assert_eq!(empty, "");
}

#[test]
fn txt_keeps_text_as_it_is() {
    let mut out = String::new();
    emit_txt(&mut out, "f", &[detection(BarcodeFormat::CODE_128, "a\tb", vec![])]);
    assert_eq!(out, "f\tCODE_128\ta\tb\n");
}

#[test]
fn tsv_rows_have_three_fields() {
    let mut out = String::new();
    let results = vec![
        detection(BarcodeFormat::QR_CODE, "a\tb\nc", vec![]),
        detection(BarcodeFormat::DXFilmEdge, "r\rs", vec![]),
        detection(BarcodeFormat::UPC_A, "", vec![]),
    ];
    emit_tsv(&mut out, "img.png", &results, true);
    assert_eq!(out.matches('\n').count(), 3);
    assert_eq!(out.matches('\t').count(), 6);
    for line in out.lines() {
        assert_eq!(line.split('\t').count(), 3);
    }
    assert_eq!(
        out,
        "img.png\tQR_CODE\ta\\tb\\nc\nimg.png\tDXFILM_EDGE\tr\\rs\nimg.png\tUPC_A\t\n"
    );
    let mut again = String::new();
    emit_tsv(&mut again, "img.png", &results, false);
    assert_eq!(again, out);
}

#[test]
fn json_is_a_single_line_even_with_newlines_in_text() {
    let mut out = String::new();
    let results = vec![
        detection(BarcodeFormat::QR_CODE, "line1\nline2\r\n", vec![Point { x_tenths: -5, y_tenths: 10 }]),
        detection(BarcodeFormat::AZTEC, "\u{1}", vec![]),
    ];
    emit_json(&mut out, "dir\nname.png", &results, true);
    assert_eq!(out.matches('\n').count(), 1);
    assert!(out.ends_with('\n'));
    assert!(out.contains("\"points\": [[-0.5, 1.0]]"));
}

#[test]
fn txt_one_line_per_detection_without_newlines() {
    let mut out = String::new();
    let results = vec![
        detection(BarcodeFormat::QR_CODE, "a", vec![]),
        detection(BarcodeFormat::QR_CODE, "b", vec![]),
        detection(BarcodeFormat::EAN_8, "c", vec![]),
    ];
    emit_txt(&mut out, "x.png", &results);
    assert_eq!(out.lines().count(), 3);
    assert_eq!(out.matches('\n').count(), 3);
}

/// A small JSON value for reading the output back.
#[derive(Debug, PartialEq)]
enum Json {
    Str(String),
    Num(f64),
    Arr(Vec<Json>),
    Obj(Vec<(String, Json)>),
}

fn read_json(s: &str) -> Json {
    let cs: Vec<char> = s.chars().collect();
    let mut i = 0;
    let v = read_value(&cs, &mut i);
    while i < cs.len() && cs[i].is_whitespace() {
        i += 1;
    }
    assert_eq!(i, cs.len(), "trailing text");
    v
}

fn skip(cs: &[char], i: &mut usize) {
    while *i < cs.len() && matches!(cs[*i], ' ' | '\t' | '\n' | '\r') {
        *i += 1;
    }
}

fn read_value(cs: &[char], i: &mut usize) -> Json {
    skip(cs, i);
    match cs[*i] {
        '"' => {
            let start = *i;
            *i += 1;
            while cs[*i] != '"' {
                if cs[*i] == '\\' {
                    *i += 1;
                }
                *i += 1;
            }
            *i += 1;
            let lit: String = cs[start..*i].iter().collect();
            Json::Str(decode_json_string(&lit))
        }
        '[' => {
            *i += 1;
            let mut out = Vec::new();
            skip(cs, i);
            if cs[*i] == ']' {
                *i += 1;
                return Json::Arr(out);
            }
            loop {
                out.push(read_value(cs, i));
                skip(cs, i);
                let c = cs[*i];
                *i += 1;
                if c == ']' {
                    return Json::Arr(out);
                }
                assert_eq!(c, ',');
            }
        }
        '{' => {
            *i += 1;
            let mut out = Vec::new();
            skip(cs, i);
            if cs[*i] == '}' {
                *i += 1;
                return Json::Obj(out);
            }
            loop {
                let key = match read_value(cs, i) {
                    Json::Str(k) => k,
                    other => panic!("key {other:?}"),
                };
                skip(cs, i);
                assert_eq!(cs[*i], ':');
                *i += 1;
                out.push((key, read_value(cs, i)));
                skip(cs, i);
                let c = cs[*i];
                *i += 1;
                if c == '}' {
                    return Json::Obj(out);
                }
                assert_eq!(c, ',');
            }
        }
        _ => {
            let start = *i;
            while *i < cs.len() && (cs[*i] == '-' || cs[*i] == '.' || cs[*i].is_ascii_digit()) {
                *i += 1;
            }
            let lit: String = cs[start..*i].iter().collect();
            Json::Num(lit.parse().unwrap())
        }
    }
}

#[test]
fn json_output_reads_back_as_the_document() {
    let mut out = String::new();
    let results = vec![
        detection(
            BarcodeFormat::QR_CODE,
            "say \"hi\"\n\t\\",
            vec![Point { x_tenths: 405, y_tenths: -12 }, Point { x_tenths: 0, y_tenths: 7 }],
        ),
        detection(BarcodeFormat::EAN_8, "", vec![]),
    ];
    emit_json(&mut out, "a \"q\".png", &results, true);
    let s = |x: &str| Json::Str(x.to_string());
    let expected = Json::Arr(vec![Json::Obj(vec![
        ("file".to_string(), s("a \"q\".png")),
        (
            "results".to_string(),
            Json::Arr(vec![
                Json::Obj(vec![
                    ("format".to_string(), s("QR_CODE")),
                    ("text".to_string(), s("say \"hi\"\n\t\\")),
                    (
                        "points".to_string(),
                        Json::Arr(vec![
                            Json::Arr(vec![Json::Num(40.5), Json::Num(-1.2)]),
                            Json::Arr(vec![Json::Num(0.0), Json::Num(0.7)]),
                        ]),
                    ),
                ]),
                Json::Obj(vec![
                    ("format".to_string(), s("EAN_8")),
                    ("text".to_string(), s("")),
                    ("points".to_string(), Json::Arr(vec![])),
                ]),
            ]),
        ),
    ])]);
    assert_eq!(read_json(&out), expected);
}
