//! Hints, decoder passes and how their outcomes combine.

use zxing::decode::{absorb, build_hints, failed_pass_to_log, found_one, pass_hints, plan_passes};
use zxing::{BarcodeFormat, DecodeError, DecodeOptions, Decoded, Hints, Pass, PassOutcome};

fn opts(try_harder: bool, only: &[&str]) -> DecodeOptions {
    DecodeOptions { try_harder, only: only.iter().map(|s| s.to_string()).collect() }
}

fn found(text: &str) -> Decoded {
    Decoded { format: BarcodeFormat::QR_CODE, text: text.to_string(), points: vec![] }
}

#[test]
fn hints_without_only() {
    let h = build_hints(&opts(true, &[])).unwrap();
    assert!(h.try_harder);
    assert!(h.possible_formats.is_none());
    let h = build_hints(&opts(false, &[])).unwrap();
    assert!(!h.try_harder);
}

#[test]
fn hints_collect_distinct_formats_in_order() {
    let h = build_hints(&opts(false, &["ean-13", "QR", "qrcode", "ean13", "aztec"])).unwrap();
    assert_eq!(
        h.possible_formats,
        Some(vec![BarcodeFormat::EAN_13, BarcodeFormat::QR_CODE, BarcodeFormat::AZTEC])
    );
}

#[test]
fn hints_report_first_unknown_value() {
    match build_hints(&opts(true, &["qr", "bogus", "worse"])) {
        Err(DecodeError::UnknownFormat(s)) => assert_eq!(s, "bogus"),
        other => panic!("unexpected {other:?}"),
    }
}

#[test]
fn unknown_value_message_lists_choices() {
    let e = build_hints(&opts(true, &["nope"])).unwrap_err();
    assert_eq!(
        e.message(),
        "unknown --only value 'nope'; expected one of: qr, ean-13, ean-8, upc-a, upc-e, code-128, code-39, code-93, codabar, itf, pdf417, aztec, data-matrix, maxicode"
    );
    assert_eq!(DecodeError::FileNotFound.message(), "file not found");
    assert_eq!(DecodeError::PathNotUtf8.message(), "path is not valid UTF-8");
    assert_eq!(DecodeError::Detect("boom".to_string()).message(), "boom");
}

#[test]
fn passes_for_each_mode() {
    let multi = Hints { try_harder: false, possible_formats: Some(vec![BarcodeFormat::QR_CODE]) };
    assert_eq!(plan_passes(&multi), vec![Pass::Multi]);
    let open = Hints { try_harder: true, possible_formats: None };
    assert_eq!(plan_passes(&open), vec![Pass::Filtered(None)]);
    let some = Hints {
        try_harder: true,
        possible_formats: Some(vec![BarcodeFormat::EAN_8, BarcodeFormat::ITF]),
    };
    assert_eq!(
        plan_passes(&some),
        vec![Pass::Filtered(Some(BarcodeFormat::EAN_8)), Pass::Filtered(Some(BarcodeFormat::ITF))]
    );
}

#[test]
fn hints_per_pass() {
    let h = Hints {
        try_harder: true,
        possible_formats: Some(vec![BarcodeFormat::EAN_8, BarcodeFormat::ITF]),
    };
    let one = pass_hints(&h, Pass::Filtered(Some(BarcodeFormat::ITF)));
    assert!(one.try_harder);
    assert_eq!(one.possible_formats, Some(vec![BarcodeFormat::ITF]));
    let all = pass_hints(&h, Pass::Multi);
    assert_eq!(all.possible_formats, h.possible_formats);
    let none = pass_hints(&Hints { try_harder: false, possible_formats: None }, Pass::Filtered(None));
    assert!(none.possible_formats.is_none());
    assert!(!none.try_harder);
}

#[test]
fn outcomes_accumulate_and_failure_stops() {
    let mut acc = Vec::new();
    assert!(absorb(&mut acc, PassOutcome::Found(vec![found("a")])).is_ok());
    assert!(absorb(&mut acc, PassOutcome::NotFound).is_ok());
    assert!(absorb(&mut acc, PassOutcome::Found(vec![found("b"), found("c")])).is_ok());
    let texts: Vec<&str> = acc.iter().map(|d| d.text.as_str()).collect();
    assert_eq!(texts, vec!["a", "b", "c"]);
    match absorb(&mut acc, PassOutcome::Failed("broken".to_string())) {
        Err(DecodeError::Detect(m)) => assert_eq!(m, "broken"),
        other => panic!("unexpected {other:?}"),
    }
    assert_eq!(acc.len(), 3);
}

#[test]
fn nothing_found_is_an_empty_success() {
    let mut acc: Vec<Decoded> = Vec::new();
    for _ in 0..3 {
        assert!(absorb(&mut acc, PassOutcome::NotFound).is_ok());
    }
    assert!(acc.is_empty());
}

#[test]
fn filtered_pass_outcome_holds_one_code() {
    match found_one(found("x")) {
        PassOutcome::Found(v) => {
            assert_eq!(v.len(), 1);
            assert_eq!(v[0].text, "x");
        }
        other => panic!("unexpected {other:?}"),
    }
}

#[test]
fn filtered_decode_returns_at_most_one_code_per_pass() {
    let h = build_hints(&opts(true, &["qr", "ean-13", "QR"])).unwrap();
    let passes = plan_passes(&h);
    assert_eq!(passes.len(), 2);
    let mut acc = Vec::new();
    for (i, _) in passes.iter().enumerate() {
        let outcome = if i == 0 { found_one(found("a")) } else { found_one(found("b")) };
        absorb(&mut acc, outcome).unwrap();
    }
    assert!(acc.len() <= passes.len());
}

#[test]
fn failed_filter_pass_logging() {
    let failed = PassOutcome::Failed("e".to_string());
    assert_eq!(
        failed_pass_to_log(Pass::Filtered(Some(BarcodeFormat::ITF)), &failed, false),
        Some(BarcodeFormat::ITF)
    );
    assert_eq!(failed_pass_to_log(Pass::Filtered(Some(BarcodeFormat::ITF)), &failed, true), None);
    assert_eq!(failed_pass_to_log(Pass::Filtered(None), &failed, false), None);
    assert_eq!(failed_pass_to_log(Pass::Multi, &failed, false), None);
    assert_eq!(failed_pass_to_log(Pass::Filtered(Some(BarcodeFormat::ITF)), &PassOutcome::NotFound, false), None);
}
