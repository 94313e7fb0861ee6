//! The output formatters, as the command line uses them.

use zxing::{BarcodeFormat, Decoded, Point};

fn pt(x_tenths: i64, y_tenths: i64) -> Point {
    Point { x_tenths, y_tenths }
}

#[test]
fn txt_emits_one_line_per_detection() {
    let mut buf = String::new();
    let results = vec![Decoded {
        format: BarcodeFormat::QR_CODE,
        text: "https://x-cmd.com".to_string(),
        points: vec![pt(100, 100), pt(2000, 100), pt(2000, 2000), pt(100, 2000)],
    }];
    zxing::emit_txt(&mut buf, "qr.png", &results);
    assert_eq!(buf, "qr.png\tQR_CODE\thttps://x-cmd.com\n");
}

#[test]
fn json_emits_valid_shape() {
    let mut buf = String::new();
    let results = vec![Decoded {
        format: BarcodeFormat::EAN_13,
        text: "4006381333931".to_string(),
        points: vec![],
    }];
    zxing::emit_json(&mut buf, "ean.png", &results, false);
    assert_eq!(
        buf,
        "[{\"file\": \"ean.png\", \"results\": [{\"format\": \"EAN_13\", \"text\": \"4006381333931\"}]}]\n"
    );
}

#[test]
fn json_with_points_emits_empty_array() {
    let mut buf = String::new();
    let results = vec![Decoded {
        format: BarcodeFormat::QR_CODE,
        text: "hi".to_string(),
        points: vec![],
    }];
    zxing::emit_json(&mut buf, "qr.png", &results, true);
    let s = buf;
    assert!(
        s.contains("\"points\": []"),
        "expected empty points array in {s:?}"
    );
}

#[test]
fn tsv_escapes_tabs_and_newlines_in_text_field() {
    // Text contains a raw TAB — must be escaped to "\\t" so the row
    // stays a single TSV line.
    let mut buf = String::new();
    let results = vec![Decoded {
        format: BarcodeFormat::QR_CODE,
        text: "col1\tcol2\tcol3".to_string(),
        points: vec![],
    }];
    zxing::emit_tsv(&mut buf, "qr.png", &results, false);
    let s = buf;

    // Split on the two column separators and inspect just the text field.
    let mut cols = s.split('\t');
    assert_eq!(cols.next(), Some("qr.png"));
    assert_eq!(cols.next(), Some("QR_CODE"));
    let text_field = cols.next().unwrap_or("").trim_end_matches('\n');
    assert_eq!(
        text_field, "col1\\tcol2\\tcol3",
        "text field should escape internal tabs"
    );
    // No raw tabs in the text field.
    assert!(!text_field.contains('\t'));
}

#[test]
fn tsv_escapes_newlines_in_text_field() {
    let mut buf = String::new();
    let results = vec![Decoded {
        format: BarcodeFormat::QR_CODE,
        text: "line1\nline2".to_string(),
        points: vec![],
    }];
    zxing::emit_tsv(&mut buf, "qr.png", &results, false);
    let s = buf;
    assert!(
        s.contains("line1\\nline2"),
        "newlines should be escaped: {s:?}"
    );
}
