//! Symbology names and `--only` values.

use zxing::{format_name, parse_format, BarcodeFormat};

const ALL: [BarcodeFormat; 22] = [
    BarcodeFormat::AZTEC,
    BarcodeFormat::CODABAR,
    BarcodeFormat::CODE_39,
    BarcodeFormat::CODE_93,
    BarcodeFormat::CODE_128,
    BarcodeFormat::DATA_MATRIX,
    BarcodeFormat::EAN_8,
    BarcodeFormat::EAN_13,
    BarcodeFormat::ITF,
    BarcodeFormat::MAXICODE,
    BarcodeFormat::PDF_417,
    BarcodeFormat::QR_CODE,
    BarcodeFormat::MICRO_QR_CODE,
    BarcodeFormat::RECTANGULAR_MICRO_QR_CODE,
    BarcodeFormat::RSS_14,
    BarcodeFormat::RSS_EXPANDED,
    BarcodeFormat::TELEPEN,
    BarcodeFormat::UPC_A,
    BarcodeFormat::UPC_E,
    BarcodeFormat::UPC_EAN_EXTENSION,
    BarcodeFormat::DXFilmEdge,
    BarcodeFormat::UNSUPORTED_FORMAT,
];

#[test]
fn names_are_variant_names() {
    assert_eq!(format_name(BarcodeFormat::QR_CODE), "QR_CODE");
    assert_eq!(format_name(BarcodeFormat::EAN_13), "EAN_13");
    assert_eq!(format_name(BarcodeFormat::RECTANGULAR_MICRO_QR_CODE), "RECTANGULAR_MICRO_QR_CODE");
    assert_eq!(format_name(BarcodeFormat::DXFilmEdge), "DXFILM_EDGE");
    assert_eq!(format_name(BarcodeFormat::UNSUPORTED_FORMAT), "UNSUPORTED_FORMAT");
}

#[test]
fn names_are_distinct_upper_snake_case() {
    let names: Vec<&str> = ALL.iter().map(|f| format_name(*f)).collect();
    for (i, a) in names.iter().enumerate() {
        assert!(!a.is_empty());
        assert!(a.chars().all(|c| c.is_ascii_uppercase() || c.is_ascii_digit() || c == '_'));
        for b in &names[i + 1..] {
            assert_ne!(a, b);
        }
    }
}

#[test]
fn only_values_and_aliases() {
    let table: Vec<(&str, BarcodeFormat)> = vec![
        ("qr", BarcodeFormat::QR_CODE),
        ("qrcode", BarcodeFormat::QR_CODE),
        ("qr-code", BarcodeFormat::QR_CODE),
        ("micro-qr", BarcodeFormat::MICRO_QR_CODE),
        ("mqr", BarcodeFormat::MICRO_QR_CODE),
        ("micro_qr", BarcodeFormat::MICRO_QR_CODE),
        ("rectangular-micro-qr", BarcodeFormat::RECTANGULAR_MICRO_QR_CODE),
        ("rmqr", BarcodeFormat::RECTANGULAR_MICRO_QR_CODE),
        ("ean-13", BarcodeFormat::EAN_13),
        ("ean13", BarcodeFormat::EAN_13),
        ("ean_13", BarcodeFormat::EAN_13),
        ("ean-8", BarcodeFormat::EAN_8),
        ("upc-a", BarcodeFormat::UPC_A),
        ("upce", BarcodeFormat::UPC_E),
        ("code-128", BarcodeFormat::CODE_128),
        ("code39", BarcodeFormat::CODE_39),
        ("code_93", BarcodeFormat::CODE_93),
        ("codabar", BarcodeFormat::CODABAR),
        ("itf", BarcodeFormat::ITF),
        ("pdf417", BarcodeFormat::PDF_417),
        ("pdf-417", BarcodeFormat::PDF_417),
        ("aztec", BarcodeFormat::AZTEC),
        ("data-matrix", BarcodeFormat::DATA_MATRIX),
        ("datamatrix", BarcodeFormat::DATA_MATRIX),
        ("maxicode", BarcodeFormat::MAXICODE),
        ("maxi-code", BarcodeFormat::MAXICODE),
        ("rss-14", BarcodeFormat::RSS_14),
        ("rssexpanded", BarcodeFormat::RSS_EXPANDED),
        ("telepen", BarcodeFormat::TELEPEN),
    ];
    for (s, f) in table {
        assert_eq!(parse_format(s), Some(f), "{s}");
    }
}

#[test]
fn only_values_ignore_ascii_case() {
    assert_eq!(parse_format("QR"), Some(BarcodeFormat::QR_CODE));
    assert_eq!(parse_format("Ean-13"), Some(BarcodeFormat::EAN_13));
    assert_eq!(parse_format("DATA_MATRIX"), Some(BarcodeFormat::DATA_MATRIX));
}

#[test]
fn unknown_only_values() {
    assert_eq!(parse_format(""), None);
    assert_eq!(parse_format("qr_code"), None);
    assert_eq!(parse_format("upc-ean-extension"), None);
    assert_eq!(parse_format(" qr"), None);
    assert_eq!(parse_format("qr "), None);
}
