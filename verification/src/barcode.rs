//! The barcode symbologies the decoder knows, their output names, and the
//! names accepted by `--only`.

use vstd::prelude::*;

use crate::strings::{ascii_lower, ascii_lower_char, str_eq, to_ascii_lowercase};

verus! {

/// A barcode symbology, one variant for each format the decoder can report.
#[allow(non_camel_case_types)]
#[derive(Clone, Copy, Debug, PartialEq, Eq, Hash, Structural)]
pub enum BarcodeFormat {
    AZTEC,
    CODABAR,
    CODE_39,
    CODE_93,
    CODE_128,
    DATA_MATRIX,
    EAN_8,
    EAN_13,
    ITF,
    MAXICODE,
    PDF_417,
    QR_CODE,
    MICRO_QR_CODE,
    RECTANGULAR_MICRO_QR_CODE,
    RSS_14,
    RSS_EXPANDED,
    TELEPEN,
    UPC_A,
    UPC_E,
    UPC_EAN_EXTENSION,
    DXFilmEdge,
    UNSUPORTED_FORMAT,
}

/// The name under which a symbology appears in every output format: the
/// variant's own name in upper snake case (`DXFilmEdge` is spelled
/// `DXFILM_EDGE`).
pub open spec fn label_of(f: BarcodeFormat) -> Seq<char> {
    match f {
        BarcodeFormat::AZTEC => "AZTEC"@,
        BarcodeFormat::CODABAR => "CODABAR"@,
        BarcodeFormat::CODE_39 => "CODE_39"@,
        BarcodeFormat::CODE_93 => "CODE_93"@,
        BarcodeFormat::CODE_128 => "CODE_128"@,
        BarcodeFormat::DATA_MATRIX => "DATA_MATRIX"@,
        BarcodeFormat::EAN_8 => "EAN_8"@,
        BarcodeFormat::EAN_13 => "EAN_13"@,
        BarcodeFormat::ITF => "ITF"@,
        BarcodeFormat::MAXICODE => "MAXICODE"@,
        BarcodeFormat::PDF_417 => "PDF_417"@,
        BarcodeFormat::QR_CODE => "QR_CODE"@,
        BarcodeFormat::MICRO_QR_CODE => "MICRO_QR_CODE"@,
        BarcodeFormat::RECTANGULAR_MICRO_QR_CODE => "RECTANGULAR_MICRO_QR_CODE"@,
        BarcodeFormat::RSS_14 => "RSS_14"@,
        BarcodeFormat::RSS_EXPANDED => "RSS_EXPANDED"@,
        BarcodeFormat::TELEPEN => "TELEPEN"@,
        BarcodeFormat::UPC_A => "UPC_A"@,
        BarcodeFormat::UPC_E => "UPC_E"@,
        BarcodeFormat::UPC_EAN_EXTENSION => "UPC_EAN_EXTENSION"@,
        BarcodeFormat::DXFilmEdge => "DXFILM_EDGE"@,
        BarcodeFormat::UNSUPORTED_FORMAT => "UNSUPORTED_FORMAT"@,
    }
}

/// The symbology that an `--only` value names, if any. The value is compared
/// after ASCII lower-casing, so `QR`, `Qr` and `qr` are the same name.
pub open spec fn format_named(s: Seq<char>) -> Option<BarcodeFormat> {
    let l = ascii_lower(s);
    if l == "qr"@ || l == "qrcode"@ || l == "qr-code"@ {
        Some(BarcodeFormat::QR_CODE)
    } else if l == "micro-qr"@ || l == "mqr"@ || l == "micro_qr"@ {
        Some(BarcodeFormat::MICRO_QR_CODE)
    } else if l == "rectangular-micro-qr"@ || l == "rmqr"@ {
        Some(BarcodeFormat::RECTANGULAR_MICRO_QR_CODE)
    } else if l == "ean-13"@ || l == "ean13"@ || l == "ean_13"@ {
        Some(BarcodeFormat::EAN_13)
    } else if l == "ean-8"@ || l == "ean8"@ || l == "ean_8"@ {
        Some(BarcodeFormat::EAN_8)
    } else if l == "upc-a"@ || l == "upca"@ || l == "upc_a"@ {
        Some(BarcodeFormat::UPC_A)
    } else if l == "upc-e"@ || l == "upce"@ || l == "upc_e"@ {
        Some(BarcodeFormat::UPC_E)
    } else if l == "code-128"@ || l == "code128"@ || l == "code_128"@ {
        Some(BarcodeFormat::CODE_128)
    } else if l == "code-39"@ || l == "code39"@ || l == "code_39"@ {
        Some(BarcodeFormat::CODE_39)
    } else if l == "code-93"@ || l == "code93"@ || l == "code_93"@ {
        Some(BarcodeFormat::CODE_93)
    } else if l == "codabar"@ {
        Some(BarcodeFormat::CODABAR)
    } else if l == "itf"@ {
        Some(BarcodeFormat::ITF)
    } else if l == "pdf417"@ || l == "pdf-417"@ || l == "pdf_417"@ {
        Some(BarcodeFormat::PDF_417)
    } else if l == "aztec"@ {
        Some(BarcodeFormat::AZTEC)
    } else if l == "data-matrix"@ || l == "datamatrix"@ || l == "data_matrix"@ {
        Some(BarcodeFormat::DATA_MATRIX)
    } else if l == "maxicode"@ || l == "maxi-code"@ {
        Some(BarcodeFormat::MAXICODE)
    } else if l == "rss-14"@ || l == "rss14"@ {
        Some(BarcodeFormat::RSS_14)
    } else if l == "rss-expanded"@ || l == "rssexpanded"@ {
        Some(BarcodeFormat::RSS_EXPANDED)
    } else if l == "telepen"@ {
        Some(BarcodeFormat::TELEPEN)
    } else {
        None
    }
}

/// The output name of a symbology.
pub fn format_label(f: BarcodeFormat) -> (res: &'static str)
    ensures
        res@ == label_of(f),
{
    match f {
        BarcodeFormat::AZTEC => "AZTEC",
        BarcodeFormat::CODABAR => "CODABAR",
        BarcodeFormat::CODE_39 => "CODE_39",
        BarcodeFormat::CODE_93 => "CODE_93",
        BarcodeFormat::CODE_128 => "CODE_128",
        BarcodeFormat::DATA_MATRIX => "DATA_MATRIX",
        BarcodeFormat::EAN_8 => "EAN_8",
        BarcodeFormat::EAN_13 => "EAN_13",
        BarcodeFormat::ITF => "ITF",
        BarcodeFormat::MAXICODE => "MAXICODE",
        BarcodeFormat::PDF_417 => "PDF_417",
        BarcodeFormat::QR_CODE => "QR_CODE",
        BarcodeFormat::MICRO_QR_CODE => "MICRO_QR_CODE",
        BarcodeFormat::RECTANGULAR_MICRO_QR_CODE => "RECTANGULAR_MICRO_QR_CODE",
        BarcodeFormat::RSS_14 => "RSS_14",
        BarcodeFormat::RSS_EXPANDED => "RSS_EXPANDED",
        BarcodeFormat::TELEPEN => "TELEPEN",
        BarcodeFormat::UPC_A => "UPC_A",
        BarcodeFormat::UPC_E => "UPC_E",
        BarcodeFormat::UPC_EAN_EXTENSION => "UPC_EAN_EXTENSION",
        BarcodeFormat::DXFilmEdge => "DXFILM_EDGE",
        BarcodeFormat::UNSUPORTED_FORMAT => "UNSUPORTED_FORMAT",
    }
}

/// Format a `BarcodeFormat` for human / JSON output.
pub fn format_name(f: BarcodeFormat) -> (res: &'static str)
    ensures
        res@ == label_of(f),
{
    format_label(f)
}

/// Parses an `--only` value: the names that `format_named` lists, in any
/// ASCII case; `None` for anything else.
pub fn parse_format(s: &str) -> (res: Option<BarcodeFormat>)
    ensures
        res == format_named(s@),
{
    let lower = to_ascii_lowercase(s);
    let l = lower.as_str();
    if str_eq(l, "qr") || str_eq(l, "qrcode") || str_eq(l, "qr-code") {
        Some(BarcodeFormat::QR_CODE)
    } else if str_eq(l, "micro-qr") || str_eq(l, "mqr") || str_eq(l, "micro_qr") {
        Some(BarcodeFormat::MICRO_QR_CODE)
    } else if str_eq(l, "rectangular-micro-qr") || str_eq(l, "rmqr") {
        Some(BarcodeFormat::RECTANGULAR_MICRO_QR_CODE)
    } else if str_eq(l, "ean-13") || str_eq(l, "ean13") || str_eq(l, "ean_13") {
        Some(BarcodeFormat::EAN_13)
    } else if str_eq(l, "ean-8") || str_eq(l, "ean8") || str_eq(l, "ean_8") {
        Some(BarcodeFormat::EAN_8)
    } else if str_eq(l, "upc-a") || str_eq(l, "upca") || str_eq(l, "upc_a") {
        Some(BarcodeFormat::UPC_A)
    } else if str_eq(l, "upc-e") || str_eq(l, "upce") || str_eq(l, "upc_e") {
        Some(BarcodeFormat::UPC_E)
    } else if str_eq(l, "code-128") || str_eq(l, "code128") || str_eq(l, "code_128") {
        Some(BarcodeFormat::CODE_128)
    } else if str_eq(l, "code-39") || str_eq(l, "code39") || str_eq(l, "code_39") {
        Some(BarcodeFormat::CODE_39)
    } else if str_eq(l, "code-93") || str_eq(l, "code93") || str_eq(l, "code_93") {
        Some(BarcodeFormat::CODE_93)
    } else if str_eq(l, "codabar") {
        Some(BarcodeFormat::CODABAR)
    } else if str_eq(l, "itf") {
        Some(BarcodeFormat::ITF)
    } else if str_eq(l, "pdf417") || str_eq(l, "pdf-417") || str_eq(l, "pdf_417") {
        Some(BarcodeFormat::PDF_417)
    } else if str_eq(l, "aztec") {
        Some(BarcodeFormat::AZTEC)
    } else if str_eq(l, "data-matrix") || str_eq(l, "datamatrix") || str_eq(l, "data_matrix") {
        Some(BarcodeFormat::DATA_MATRIX)
    } else if str_eq(l, "maxicode") || str_eq(l, "maxi-code") {
        Some(BarcodeFormat::MAXICODE)
    } else if str_eq(l, "rss-14") || str_eq(l, "rss14") {
        Some(BarcodeFormat::RSS_14)
    } else if str_eq(l, "rss-expanded") || str_eq(l, "rssexpanded") {
        Some(BarcodeFormat::RSS_EXPANDED)
    } else if str_eq(l, "telepen") {
        Some(BarcodeFormat::TELEPEN)
    } else {
        None
    }
}

/// A character that can appear in an upper-snake-case name.
pub open spec fn is_upper_snake_char(c: char) -> bool {
    ('A' <= c && c <= 'Z') || ('0' <= c && c <= '9') || c == '_'
}

/// What the spelling of the output names shows: each is a non-empty
/// upper-snake-case word, and no other symbology has the same name.
proof fn lemma_label_facts(f: BarcodeFormat)
    ensures
        label_of(f).len() > 0,
        forall|i: int| 0 <= i < label_of(f).len() ==> is_upper_snake_char(#[trigger] label_of(f)[i]),
        forall|g: BarcodeFormat| #[trigger] label_of(g) == label_of(f) ==> g == f,
{
    reveal_strlit("AZTEC");
    reveal_strlit("CODABAR");
    reveal_strlit("CODE_39");
    reveal_strlit("CODE_93");
    reveal_strlit("CODE_128");
    reveal_strlit("DATA_MATRIX");
    reveal_strlit("EAN_8");
    reveal_strlit("EAN_13");
    reveal_strlit("ITF");
    reveal_strlit("MAXICODE");
    reveal_strlit("PDF_417");
    reveal_strlit("QR_CODE");
    reveal_strlit("MICRO_QR_CODE");
    reveal_strlit("RECTANGULAR_MICRO_QR_CODE");
    reveal_strlit("RSS_14");
    reveal_strlit("RSS_EXPANDED");
    reveal_strlit("TELEPEN");
    reveal_strlit("UPC_A");
    reveal_strlit("UPC_E");
    reveal_strlit("UPC_EAN_EXTENSION");
    reveal_strlit("DXFILM_EDGE");
    reveal_strlit("UNSUPORTED_FORMAT");
    assert forall|g: BarcodeFormat| #[trigger] label_of(g) == label_of(f) implies g == f by {
        let a = label_of(f);
        let b = label_of(g);
        assert(a.len() == b.len());
        assert(a[0] == b[0]);
        assert(a[a.len() - 1] == b[b.len() - 1]);
        assert(a[a.len() - 2] == b[b.len() - 2]);
    }
}

/// Every output name is a non-empty UPPER_SNAKE_CASE word: upper-case ASCII
/// letters, digits and underscores only.
pub proof fn labels_are_upper_snake_case(f: BarcodeFormat)
    ensures
        label_of(f).len() > 0,
        forall|i: int| 0 <= i < label_of(f).len() ==> is_upper_snake_char(#[trigger] label_of(f)[i]),
{
    lemma_label_facts(f);
}

/// Distinct symbologies have distinct output names, so a name in the output
/// identifies the symbology.
pub proof fn labels_identify_formats(f: BarcodeFormat, g: BarcodeFormat)
    requires
        label_of(f) == label_of(g),
    ensures
        f == g,
{
    lemma_label_facts(f);
}

/// `--only` values that differ only in ASCII case name the same symbology.
pub proof fn only_values_ignore_ascii_case(a: Seq<char>, b: Seq<char>)
    requires
        ascii_lower(a) == ascii_lower(b),
    ensures
        format_named(a) == format_named(b),
{
}

/// An output name as an `--only` value: lower case, underscores written as
/// dashes (`EAN_13` is `ean-13`).
pub open spec fn dashed(l: Seq<char>) -> Seq<char> {
    Seq::new(l.len(), |i: int| if l[i] == '_' { '-' } else { ascii_lower_char(l[i]) })
}

/// The symbologies whose output name, written as an `--only` value, names
/// them: all but the micro QR variants (asked for as `micro-qr`, `mqr`,
/// `rmqr`, ...) and the three that `--only` cannot ask for.
pub open spec fn named_by_label(f: BarcodeFormat) -> bool {
    !(f is MICRO_QR_CODE || f is RECTANGULAR_MICRO_QR_CODE || f is UPC_EAN_EXTENSION || f is DXFilmEdge
        || f is UNSUPORTED_FORMAT)
}

#[verifier::spinoff_prover]
#[verifier::rlimit(40)]
/// The output name of a symbology, in lower case with dashes, is an
/// `--only` value for that same symbology: `code-39` asks for what is
/// reported as `CODE_39`, `upc-e` for what is reported as `UPC_E`.
pub proof fn only_names_follow_labels(f: BarcodeFormat)
    requires
        named_by_label(f),
    ensures
        format_named(dashed(label_of(f))) == Some(f),
{
    reveal_strlit("AZTEC");
    reveal_strlit("aztec");
    reveal_strlit("qr");
    reveal_strlit("qrcode");
    reveal_strlit("qr-code");
    reveal_strlit("micro-qr");
    reveal_strlit("mqr");
    reveal_strlit("micro_qr");
    reveal_strlit("rectangular-micro-qr");
    reveal_strlit("rmqr");
    reveal_strlit("ean-13");
    reveal_strlit("ean13");
    reveal_strlit("ean_13");
    reveal_strlit("ean-8");
    reveal_strlit("ean8");
    reveal_strlit("ean_8");
    reveal_strlit("upc-a");
    reveal_strlit("upca");
    reveal_strlit("upc_a");
    reveal_strlit("upc-e");
    reveal_strlit("upce");
    reveal_strlit("upc_e");
    reveal_strlit("code-128");
    reveal_strlit("code128");
    reveal_strlit("code_128");
    reveal_strlit("code-39");
    reveal_strlit("code39");
    reveal_strlit("code_39");
    reveal_strlit("code-93");
    reveal_strlit("code93");
    reveal_strlit("code_93");
    reveal_strlit("codabar");
    reveal_strlit("itf");
    reveal_strlit("pdf417");
    reveal_strlit("pdf-417");
    reveal_strlit("pdf_417");
    reveal_strlit("CODABAR");
    reveal_strlit("CODE_39");
    reveal_strlit("CODE_93");
    reveal_strlit("CODE_128");
    reveal_strlit("DATA_MATRIX");
    reveal_strlit("data-matrix");
    reveal_strlit("EAN_8");
    reveal_strlit("EAN_13");
    reveal_strlit("ITF");
    reveal_strlit("MAXICODE");
    reveal_strlit("maxicode");
    reveal_strlit("datamatrix");
    reveal_strlit("data_matrix");
    reveal_strlit("PDF_417");
    reveal_strlit("QR_CODE");
    reveal_strlit("RSS_14");
    reveal_strlit("rss-14");
    reveal_strlit("maxi-code");
    reveal_strlit("RSS_EXPANDED");
    reveal_strlit("rss-expanded");
    reveal_strlit("rss14");
    reveal_strlit("TELEPEN");
    reveal_strlit("telepen");
    reveal_strlit("rssexpanded");
    reveal_strlit("UPC_A");
    reveal_strlit("UPC_E");
    let d = dashed(label_of(f));
    match f {
        BarcodeFormat::AZTEC => {
            assert(d =~= "aztec"@);
            assert(ascii_lower(d) =~= d);
            assert("aztec"@[0] != "ean13"@[0]);
            assert("aztec"@[0] != "ean-8"@[0]);
            assert("aztec"@[0] != "ean_8"@[0]);
            assert("aztec"@[0] != "upc-a"@[0]);
            assert("aztec"@[0] != "upc_a"@[0]);
            assert("aztec"@[0] != "upc-e"@[0]);
            assert("aztec"@[0] != "upc_e"@[0]);
        },
        BarcodeFormat::CODABAR => {
            assert(d =~= "codabar"@);
            assert(ascii_lower(d) =~= d);
            assert("codabar"@[0] != "qr-code"@[0]);
            assert("codabar"@[3] != "code128"@[3]);
            assert("codabar"@[3] != "code-39"@[3]);
            assert("codabar"@[3] != "code_39"@[3]);
            assert("codabar"@[3] != "code-93"@[3]);
            assert("codabar"@[3] != "code_93"@[3]);
        },
        BarcodeFormat::CODE_39 => {
            assert(d =~= "code-39"@);
            assert(ascii_lower(d) =~= d);
            assert("code-39"@[0] != "qr-code"@[0]);
            assert("code-39"@[4] != "code128"@[4]);
        },
        BarcodeFormat::CODE_93 => {
            assert(d =~= "code-93"@);
            assert(ascii_lower(d) =~= d);
            assert("code-93"@[0] != "qr-code"@[0]);
            assert("code-93"@[4] != "code128"@[4]);
            assert("code-93"@[5] != "code-39"@[5]);
            assert("code-93"@[4] != "code_39"@[4]);
        },
        BarcodeFormat::CODE_128 => {
            assert(d =~= "code-128"@);
            assert(ascii_lower(d) =~= d);
            assert("code-128"@[0] != "micro-qr"@[0]);
            assert("code-128"@[0] != "micro_qr"@[0]);
        },
        BarcodeFormat::DATA_MATRIX => {
            assert(d =~= "data-matrix"@);
            assert(ascii_lower(d) =~= d);
        },
        BarcodeFormat::EAN_8 => {
            assert(d =~= "ean-8"@);
            assert(ascii_lower(d) =~= d);
            assert("ean-8"@[3] != "ean13"@[3]);
        },
        BarcodeFormat::EAN_13 => {
            assert(d =~= "ean-13"@);
            assert(ascii_lower(d) =~= d);
            assert("ean-13"@[0] != "qrcode"@[0]);
        },
        BarcodeFormat::ITF => {
            assert(d =~= "itf"@);
            assert(ascii_lower(d) =~= d);
            assert("itf"@[0] != "mqr"@[0]);
        },
        BarcodeFormat::MAXICODE => {
            assert(d =~= "maxicode"@);
            assert(ascii_lower(d) =~= d);
            assert("maxicode"@[1] != "micro-qr"@[1]);
            assert("maxicode"@[1] != "micro_qr"@[1]);
            assert("maxicode"@[0] != "code-128"@[0]);
            assert("maxicode"@[0] != "code_128"@[0]);
        },
        BarcodeFormat::PDF_417 => {
            assert(d =~= "pdf-417"@);
            assert(ascii_lower(d) =~= d);
            assert("pdf-417"@[0] != "qr-code"@[0]);
            assert("pdf-417"@[0] != "code128"@[0]);
            assert("pdf-417"@[0] != "code-39"@[0]);
            assert("pdf-417"@[0] != "code_39"@[0]);
            assert("pdf-417"@[0] != "code-93"@[0]);
            assert("pdf-417"@[0] != "code_93"@[0]);
            assert("pdf-417"@[0] != "codabar"@[0]);
        },
        BarcodeFormat::QR_CODE => {
            assert(d =~= "qr-code"@);
            assert(ascii_lower(d) =~= d);
        },
        BarcodeFormat::MICRO_QR_CODE => {},
        BarcodeFormat::RECTANGULAR_MICRO_QR_CODE => {},
        BarcodeFormat::RSS_14 => {
            assert(d =~= "rss-14"@);
            assert(ascii_lower(d) =~= d);
            assert("rss-14"@[0] != "qrcode"@[0]);
            assert("rss-14"@[0] != "ean-13"@[0]);
            assert("rss-14"@[0] != "ean_13"@[0]);
            assert("rss-14"@[0] != "code39"@[0]);
            assert("rss-14"@[0] != "code93"@[0]);
            assert("rss-14"@[0] != "pdf417"@[0]);
        },
        BarcodeFormat::RSS_EXPANDED => {
            assert(d =~= "rss-expanded"@);
            assert(ascii_lower(d) =~= d);
        },
        BarcodeFormat::TELEPEN => {
            assert(d =~= "telepen"@);
            assert(ascii_lower(d) =~= d);
            assert("telepen"@[0] != "qr-code"@[0]);
            assert("telepen"@[0] != "code128"@[0]);
            assert("telepen"@[0] != "code-39"@[0]);
            assert("telepen"@[0] != "code_39"@[0]);
            assert("telepen"@[0] != "code-93"@[0]);
            assert("telepen"@[0] != "code_93"@[0]);
            assert("telepen"@[0] != "codabar"@[0]);
            assert("telepen"@[0] != "pdf-417"@[0]);
            assert("telepen"@[0] != "pdf_417"@[0]);
        },
        BarcodeFormat::UPC_A => {
            assert(d =~= "upc-a"@);
            assert(ascii_lower(d) =~= d);
            assert("upc-a"@[0] != "ean13"@[0]);
            assert("upc-a"@[0] != "ean-8"@[0]);
            assert("upc-a"@[0] != "ean_8"@[0]);
        },
        BarcodeFormat::UPC_E => {
            assert(d =~= "upc-e"@);
            assert(ascii_lower(d) =~= d);
            assert("upc-e"@[0] != "ean13"@[0]);
            assert("upc-e"@[0] != "ean-8"@[0]);
            assert("upc-e"@[0] != "ean_8"@[0]);
            assert("upc-e"@[4] != "upc-a"@[4]);
            assert("upc-e"@[3] != "upc_a"@[3]);
        },
        BarcodeFormat::UPC_EAN_EXTENSION => {},
        BarcodeFormat::DXFilmEdge => {},
        BarcodeFormat::UNSUPORTED_FORMAT => {},
    }
}

/// `--only` never asks for the extension, DX film edge or unsupported
/// formats.
pub proof fn only_names_searchable_formats(s: Seq<char>)
    ensures
        format_named(s) matches Some(f) ==> !(f is UPC_EAN_EXTENSION || f is DXFilmEdge || f is UNSUPORTED_FORMAT),
{
}

/// An output name as an `--only` value run together: lower case, with the
/// underscores left out (`EAN_13` is `ean13`).
pub open spec fn joined(l: Seq<char>) -> Seq<char>
    decreases l.len(),
{
    if l.len() == 0 {
        Seq::empty()
    } else {
        joined(l.drop_last()) + if l.last() == '_' {
            Seq::empty()
        } else {
            seq![ascii_lower_char(l.last())]
        }
    }
}

/// The run-together spelling of each output name.
proof fn lemma_joined_labels(f: BarcodeFormat)
    requires
        named_by_label(f),
    ensures
        f == BarcodeFormat::AZTEC ==> joined(label_of(f)) == "aztec"@,
        f == BarcodeFormat::CODABAR ==> joined(label_of(f)) == "codabar"@,
        f == BarcodeFormat::CODE_39 ==> joined(label_of(f)) == "code39"@,
        f == BarcodeFormat::CODE_93 ==> joined(label_of(f)) == "code93"@,
        f == BarcodeFormat::CODE_128 ==> joined(label_of(f)) == "code128"@,
        f == BarcodeFormat::DATA_MATRIX ==> joined(label_of(f)) == "datamatrix"@,
        f == BarcodeFormat::EAN_8 ==> joined(label_of(f)) == "ean8"@,
        f == BarcodeFormat::EAN_13 ==> joined(label_of(f)) == "ean13"@,
        f == BarcodeFormat::ITF ==> joined(label_of(f)) == "itf"@,
        f == BarcodeFormat::MAXICODE ==> joined(label_of(f)) == "maxicode"@,
        f == BarcodeFormat::PDF_417 ==> joined(label_of(f)) == "pdf417"@,
        f == BarcodeFormat::QR_CODE ==> joined(label_of(f)) == "qrcode"@,
        f == BarcodeFormat::RSS_14 ==> joined(label_of(f)) == "rss14"@,
        f == BarcodeFormat::RSS_EXPANDED ==> joined(label_of(f)) == "rssexpanded"@,
        f == BarcodeFormat::TELEPEN ==> joined(label_of(f)) == "telepen"@,
        f == BarcodeFormat::UPC_A ==> joined(label_of(f)) == "upca"@,
        f == BarcodeFormat::UPC_E ==> joined(label_of(f)) == "upce"@,
{
    match f {
        BarcodeFormat::AZTEC => {
            reveal_strlit("AZTEC");
            reveal_strlit("aztec");
            reveal_strlit("a");
            reveal_strlit("az");
            reveal_strlit("azt");
            reveal_strlit("azte");
            reveal_strlit("aztec");
            let l = label_of(f);
            assert(joined(l.take(0)) == Seq::<char>::empty());
            assert(joined(l.take(1)) == "a"@) by { if 1 > 0 { assert(l.take(1).drop_last() == l.take(0 as int)); } }
            assert(joined(l.take(2)) == "az"@) by { if 2 > 0 { assert(l.take(2).drop_last() == l.take(1 as int)); } }
            assert(joined(l.take(3)) == "azt"@) by { if 3 > 0 { assert(l.take(3).drop_last() == l.take(2 as int)); } }
            assert(joined(l.take(4)) == "azte"@) by { if 4 > 0 { assert(l.take(4).drop_last() == l.take(3 as int)); } }
            assert(joined(l.take(5)) == "aztec"@) by { if 5 > 0 { assert(l.take(5).drop_last() == l.take(4 as int)); } }
            assert(l.take(5) == l);
        },
        BarcodeFormat::CODABAR => {
            reveal_strlit("CODABAR");
            reveal_strlit("codabar");
            reveal_strlit("c");
            reveal_strlit("co");
            reveal_strlit("cod");
            reveal_strlit("coda");
            reveal_strlit("codab");
            reveal_strlit("codaba");
            reveal_strlit("codabar");
            let l = label_of(f);
            assert(joined(l.take(0)) == Seq::<char>::empty());
            assert(joined(l.take(1)) == "c"@) by { if 1 > 0 { assert(l.take(1).drop_last() == l.take(0 as int)); } }
            assert(joined(l.take(2)) == "co"@) by { if 2 > 0 { assert(l.take(2).drop_last() == l.take(1 as int)); } }
            assert(joined(l.take(3)) == "cod"@) by { if 3 > 0 { assert(l.take(3).drop_last() == l.take(2 as int)); } }
            assert(joined(l.take(4)) == "coda"@) by { if 4 > 0 { assert(l.take(4).drop_last() == l.take(3 as int)); } }
            assert(joined(l.take(5)) == "codab"@) by { if 5 > 0 { assert(l.take(5).drop_last() == l.take(4 as int)); } }
            assert(joined(l.take(6)) == "codaba"@) by { if 6 > 0 { assert(l.take(6).drop_last() == l.take(5 as int)); } }
            assert(joined(l.take(7)) == "codabar"@) by { if 7 > 0 { assert(l.take(7).drop_last() == l.take(6 as int)); } }
            assert(l.take(7) == l);
        },
        BarcodeFormat::CODE_39 => {
            reveal_strlit("CODE_39");
            reveal_strlit("code39");
            reveal_strlit("c");
            reveal_strlit("co");
            reveal_strlit("cod");
            reveal_strlit("code");
            reveal_strlit("code3");
            reveal_strlit("code39");
            let l = label_of(f);
            assert(joined(l.take(0)) == Seq::<char>::empty());
            assert(joined(l.take(1)) == "c"@) by { if 1 > 0 { assert(l.take(1).drop_last() == l.take(0 as int)); } }
            assert(joined(l.take(2)) == "co"@) by { if 2 > 0 { assert(l.take(2).drop_last() == l.take(1 as int)); } }
            assert(joined(l.take(3)) == "cod"@) by { if 3 > 0 { assert(l.take(3).drop_last() == l.take(2 as int)); } }
            assert(joined(l.take(4)) == "code"@) by { if 4 > 0 { assert(l.take(4).drop_last() == l.take(3 as int)); } }
            assert(joined(l.take(5)) == "code"@) by { if 5 > 0 { assert(l.take(5).drop_last() == l.take(4 as int)); } }
            assert(joined(l.take(6)) == "code3"@) by { if 6 > 0 { assert(l.take(6).drop_last() == l.take(5 as int)); } }
            assert(joined(l.take(7)) == "code39"@) by { if 7 > 0 { assert(l.take(7).drop_last() == l.take(6 as int)); } }
            assert(l.take(7) == l);
        },
        BarcodeFormat::CODE_93 => {
            reveal_strlit("CODE_93");
            reveal_strlit("code93");
            reveal_strlit("c");
            reveal_strlit("co");
            reveal_strlit("cod");
            reveal_strlit("code");
            reveal_strlit("code9");
            reveal_strlit("code93");
            let l = label_of(f);
            assert(joined(l.take(0)) == Seq::<char>::empty());
            assert(joined(l.take(1)) == "c"@) by { if 1 > 0 { assert(l.take(1).drop_last() == l.take(0 as int)); } }
            assert(joined(l.take(2)) == "co"@) by { if 2 > 0 { assert(l.take(2).drop_last() == l.take(1 as int)); } }
            assert(joined(l.take(3)) == "cod"@) by { if 3 > 0 { assert(l.take(3).drop_last() == l.take(2 as int)); } }
            assert(joined(l.take(4)) == "code"@) by { if 4 > 0 { assert(l.take(4).drop_last() == l.take(3 as int)); } }
            assert(joined(l.take(5)) == "code"@) by { if 5 > 0 { assert(l.take(5).drop_last() == l.take(4 as int)); } }
            assert(joined(l.take(6)) == "code9"@) by { if 6 > 0 { assert(l.take(6).drop_last() == l.take(5 as int)); } }
            assert(joined(l.take(7)) == "code93"@) by { if 7 > 0 { assert(l.take(7).drop_last() == l.take(6 as int)); } }
            assert(l.take(7) == l);
        },
        BarcodeFormat::CODE_128 => {
            reveal_strlit("CODE_128");
            reveal_strlit("code128");
            reveal_strlit("c");
            reveal_strlit("co");
            reveal_strlit("cod");
            reveal_strlit("code");
            reveal_strlit("code1");
            reveal_strlit("code12");
            reveal_strlit("code128");
            let l = label_of(f);
            assert(joined(l.take(0)) == Seq::<char>::empty());
            assert(joined(l.take(1)) == "c"@) by { if 1 > 0 { assert(l.take(1).drop_last() == l.take(0 as int)); } }
            assert(joined(l.take(2)) == "co"@) by { if 2 > 0 { assert(l.take(2).drop_last() == l.take(1 as int)); } }
            assert(joined(l.take(3)) == "cod"@) by { if 3 > 0 { assert(l.take(3).drop_last() == l.take(2 as int)); } }
            assert(joined(l.take(4)) == "code"@) by { if 4 > 0 { assert(l.take(4).drop_last() == l.take(3 as int)); } }
            assert(joined(l.take(5)) == "code"@) by { if 5 > 0 { assert(l.take(5).drop_last() == l.take(4 as int)); } }
            assert(joined(l.take(6)) == "code1"@) by { if 6 > 0 { assert(l.take(6).drop_last() == l.take(5 as int)); } }
            assert(joined(l.take(7)) == "code12"@) by { if 7 > 0 { assert(l.take(7).drop_last() == l.take(6 as int)); } }
            assert(joined(l.take(8)) == "code128"@) by { if 8 > 0 { assert(l.take(8).drop_last() == l.take(7 as int)); } }
            assert(l.take(8) == l);
        },
        BarcodeFormat::DATA_MATRIX => {
            reveal_strlit("DATA_MATRIX");
            reveal_strlit("datamatrix");
            reveal_strlit("d");
            reveal_strlit("da");
            reveal_strlit("dat");
            reveal_strlit("data");
            reveal_strlit("datam");
            reveal_strlit("datama");
            reveal_strlit("datamat");
            reveal_strlit("datamatr");
            reveal_strlit("datamatri");
            reveal_strlit("datamatrix");
            let l = label_of(f);
            assert(joined(l.take(0)) == Seq::<char>::empty());
            assert(joined(l.take(1)) == "d"@) by { if 1 > 0 { assert(l.take(1).drop_last() == l.take(0 as int)); } }
            assert(joined(l.take(2)) == "da"@) by { if 2 > 0 { assert(l.take(2).drop_last() == l.take(1 as int)); } }
            assert(joined(l.take(3)) == "dat"@) by { if 3 > 0 { assert(l.take(3).drop_last() == l.take(2 as int)); } }
            assert(joined(l.take(4)) == "data"@) by { if 4 > 0 { assert(l.take(4).drop_last() == l.take(3 as int)); } }
            assert(joined(l.take(5)) == "data"@) by { if 5 > 0 { assert(l.take(5).drop_last() == l.take(4 as int)); } }
            assert(joined(l.take(6)) == "datam"@) by { if 6 > 0 { assert(l.take(6).drop_last() == l.take(5 as int)); } }
            assert(joined(l.take(7)) == "datama"@) by { if 7 > 0 { assert(l.take(7).drop_last() == l.take(6 as int)); } }
            assert(joined(l.take(8)) == "datamat"@) by { if 8 > 0 { assert(l.take(8).drop_last() == l.take(7 as int)); } }
            assert(joined(l.take(9)) == "datamatr"@) by { if 9 > 0 { assert(l.take(9).drop_last() == l.take(8 as int)); } }
            assert(joined(l.take(10)) == "datamatri"@) by { if 10 > 0 { assert(l.take(10).drop_last() == l.take(9 as int)); } }
            assert(joined(l.take(11)) == "datamatrix"@) by { if 11 > 0 { assert(l.take(11).drop_last() == l.take(10 as int)); } }
            assert(l.take(11) == l);
        },
        BarcodeFormat::EAN_8 => {
            reveal_strlit("EAN_8");
            reveal_strlit("ean8");
            reveal_strlit("e");
            reveal_strlit("ea");
            reveal_strlit("ean");
            reveal_strlit("ean8");
            let l = label_of(f);
            assert(joined(l.take(0)) == Seq::<char>::empty());
            assert(joined(l.take(1)) == "e"@) by { if 1 > 0 { assert(l.take(1).drop_last() == l.take(0 as int)); } }
            assert(joined(l.take(2)) == "ea"@) by { if 2 > 0 { assert(l.take(2).drop_last() == l.take(1 as int)); } }
            assert(joined(l.take(3)) == "ean"@) by { if 3 > 0 { assert(l.take(3).drop_last() == l.take(2 as int)); } }
            assert(joined(l.take(4)) == "ean"@) by { if 4 > 0 { assert(l.take(4).drop_last() == l.take(3 as int)); } }
            assert(joined(l.take(5)) == "ean8"@) by { if 5 > 0 { assert(l.take(5).drop_last() == l.take(4 as int)); } }
            assert(l.take(5) == l);
        },
        BarcodeFormat::EAN_13 => {
            reveal_strlit("EAN_13");
            reveal_strlit("ean13");
            reveal_strlit("e");
            reveal_strlit("ea");
            reveal_strlit("ean");
            reveal_strlit("ean1");
            reveal_strlit("ean13");
            let l = label_of(f);
            assert(joined(l.take(0)) == Seq::<char>::empty());
            assert(joined(l.take(1)) == "e"@) by { if 1 > 0 { assert(l.take(1).drop_last() == l.take(0 as int)); } }
            assert(joined(l.take(2)) == "ea"@) by { if 2 > 0 { assert(l.take(2).drop_last() == l.take(1 as int)); } }
            assert(joined(l.take(3)) == "ean"@) by { if 3 > 0 { assert(l.take(3).drop_last() == l.take(2 as int)); } }
            assert(joined(l.take(4)) == "ean"@) by { if 4 > 0 { assert(l.take(4).drop_last() == l.take(3 as int)); } }
            assert(joined(l.take(5)) == "ean1"@) by { if 5 > 0 { assert(l.take(5).drop_last() == l.take(4 as int)); } }
            assert(joined(l.take(6)) == "ean13"@) by { if 6 > 0 { assert(l.take(6).drop_last() == l.take(5 as int)); } }
            assert(l.take(6) == l);
        },
        BarcodeFormat::ITF => {
            reveal_strlit("ITF");
            reveal_strlit("itf");
            reveal_strlit("i");
            reveal_strlit("it");
            reveal_strlit("itf");
            let l = label_of(f);
            assert(joined(l.take(0)) == Seq::<char>::empty());
            assert(joined(l.take(1)) == "i"@) by { if 1 > 0 { assert(l.take(1).drop_last() == l.take(0 as int)); } }
            assert(joined(l.take(2)) == "it"@) by { if 2 > 0 { assert(l.take(2).drop_last() == l.take(1 as int)); } }
            assert(joined(l.take(3)) == "itf"@) by { if 3 > 0 { assert(l.take(3).drop_last() == l.take(2 as int)); } }
            assert(l.take(3) == l);
        },
        BarcodeFormat::MAXICODE => {
            reveal_strlit("MAXICODE");
            reveal_strlit("maxicode");
            reveal_strlit("m");
            reveal_strlit("ma");
            reveal_strlit("max");
            reveal_strlit("maxi");
            reveal_strlit("maxic");
            reveal_strlit("maxico");
            reveal_strlit("maxicod");
            reveal_strlit("maxicode");
            let l = label_of(f);
            assert(joined(l.take(0)) == Seq::<char>::empty());
            assert(joined(l.take(1)) == "m"@) by { if 1 > 0 { assert(l.take(1).drop_last() == l.take(0 as int)); } }
            assert(joined(l.take(2)) == "ma"@) by { if 2 > 0 { assert(l.take(2).drop_last() == l.take(1 as int)); } }
            assert(joined(l.take(3)) == "max"@) by { if 3 > 0 { assert(l.take(3).drop_last() == l.take(2 as int)); } }
            assert(joined(l.take(4)) == "maxi"@) by { if 4 > 0 { assert(l.take(4).drop_last() == l.take(3 as int)); } }
            assert(joined(l.take(5)) == "maxic"@) by { if 5 > 0 { assert(l.take(5).drop_last() == l.take(4 as int)); } }
            assert(joined(l.take(6)) == "maxico"@) by { if 6 > 0 { assert(l.take(6).drop_last() == l.take(5 as int)); } }
            assert(joined(l.take(7)) == "maxicod"@) by { if 7 > 0 { assert(l.take(7).drop_last() == l.take(6 as int)); } }
            assert(joined(l.take(8)) == "maxicode"@) by { if 8 > 0 { assert(l.take(8).drop_last() == l.take(7 as int)); } }
            assert(l.take(8) == l);
        },
        BarcodeFormat::PDF_417 => {
            reveal_strlit("PDF_417");
            reveal_strlit("pdf417");
            reveal_strlit("p");
            reveal_strlit("pd");
            reveal_strlit("pdf");
            reveal_strlit("pdf4");
            reveal_strlit("pdf41");
            reveal_strlit("pdf417");
            let l = label_of(f);
            assert(joined(l.take(0)) == Seq::<char>::empty());
            assert(joined(l.take(1)) == "p"@) by { if 1 > 0 { assert(l.take(1).drop_last() == l.take(0 as int)); } }
            assert(joined(l.take(2)) == "pd"@) by { if 2 > 0 { assert(l.take(2).drop_last() == l.take(1 as int)); } }
            assert(joined(l.take(3)) == "pdf"@) by { if 3 > 0 { assert(l.take(3).drop_last() == l.take(2 as int)); } }
            assert(joined(l.take(4)) == "pdf"@) by { if 4 > 0 { assert(l.take(4).drop_last() == l.take(3 as int)); } }
            assert(joined(l.take(5)) == "pdf4"@) by { if 5 > 0 { assert(l.take(5).drop_last() == l.take(4 as int)); } }
            assert(joined(l.take(6)) == "pdf41"@) by { if 6 > 0 { assert(l.take(6).drop_last() == l.take(5 as int)); } }
            assert(joined(l.take(7)) == "pdf417"@) by { if 7 > 0 { assert(l.take(7).drop_last() == l.take(6 as int)); } }
            assert(l.take(7) == l);
        },
        BarcodeFormat::QR_CODE => {
            reveal_strlit("QR_CODE");
            reveal_strlit("qrcode");
            reveal_strlit("q");
            reveal_strlit("qr");
            reveal_strlit("qrc");
            reveal_strlit("qrco");
            reveal_strlit("qrcod");
            reveal_strlit("qrcode");
            let l = label_of(f);
            assert(joined(l.take(0)) == Seq::<char>::empty());
            assert(joined(l.take(1)) == "q"@) by { if 1 > 0 { assert(l.take(1).drop_last() == l.take(0 as int)); } }
            assert(joined(l.take(2)) == "qr"@) by { if 2 > 0 { assert(l.take(2).drop_last() == l.take(1 as int)); } }
            assert(joined(l.take(3)) == "qr"@) by { if 3 > 0 { assert(l.take(3).drop_last() == l.take(2 as int)); } }
            assert(joined(l.take(4)) == "qrc"@) by { if 4 > 0 { assert(l.take(4).drop_last() == l.take(3 as int)); } }
            assert(joined(l.take(5)) == "qrco"@) by { if 5 > 0 { assert(l.take(5).drop_last() == l.take(4 as int)); } }
            assert(joined(l.take(6)) == "qrcod"@) by { if 6 > 0 { assert(l.take(6).drop_last() == l.take(5 as int)); } }
            assert(joined(l.take(7)) == "qrcode"@) by { if 7 > 0 { assert(l.take(7).drop_last() == l.take(6 as int)); } }
            assert(l.take(7) == l);
        },
        BarcodeFormat::MICRO_QR_CODE => {},
        BarcodeFormat::RECTANGULAR_MICRO_QR_CODE => {},
        BarcodeFormat::RSS_14 => {
            reveal_strlit("RSS_14");
            reveal_strlit("rss14");
            reveal_strlit("r");
            reveal_strlit("rs");
            reveal_strlit("rss");
            reveal_strlit("rss1");
            reveal_strlit("rss14");
            let l = label_of(f);
            assert(joined(l.take(0)) == Seq::<char>::empty());
            assert(joined(l.take(1)) == "r"@) by { if 1 > 0 { assert(l.take(1).drop_last() == l.take(0 as int)); } }
            assert(joined(l.take(2)) == "rs"@) by { if 2 > 0 { assert(l.take(2).drop_last() == l.take(1 as int)); } }
            assert(joined(l.take(3)) == "rss"@) by { if 3 > 0 { assert(l.take(3).drop_last() == l.take(2 as int)); } }
            assert(joined(l.take(4)) == "rss"@) by { if 4 > 0 { assert(l.take(4).drop_last() == l.take(3 as int)); } }
            assert(joined(l.take(5)) == "rss1"@) by { if 5 > 0 { assert(l.take(5).drop_last() == l.take(4 as int)); } }
            assert(joined(l.take(6)) == "rss14"@) by { if 6 > 0 { assert(l.take(6).drop_last() == l.take(5 as int)); } }
            assert(l.take(6) == l);
        },
        BarcodeFormat::RSS_EXPANDED => {
            reveal_strlit("RSS_EXPANDED");
            reveal_strlit("rssexpanded");
            reveal_strlit("r");
            reveal_strlit("rs");
            reveal_strlit("rss");
            reveal_strlit("rsse");
            reveal_strlit("rssex");
            reveal_strlit("rssexp");
            reveal_strlit("rssexpa");
            reveal_strlit("rssexpan");
            reveal_strlit("rssexpand");
            reveal_strlit("rssexpande");
            reveal_strlit("rssexpanded");
            let l = label_of(f);
            assert(joined(l.take(0)) == Seq::<char>::empty());
            assert(joined(l.take(1)) == "r"@) by { if 1 > 0 { assert(l.take(1).drop_last() == l.take(0 as int)); } }
            assert(joined(l.take(2)) == "rs"@) by { if 2 > 0 { assert(l.take(2).drop_last() == l.take(1 as int)); } }
            assert(joined(l.take(3)) == "rss"@) by { if 3 > 0 { assert(l.take(3).drop_last() == l.take(2 as int)); } }
            assert(joined(l.take(4)) == "rss"@) by { if 4 > 0 { assert(l.take(4).drop_last() == l.take(3 as int)); } }
            assert(joined(l.take(5)) == "rsse"@) by { if 5 > 0 { assert(l.take(5).drop_last() == l.take(4 as int)); } }
            assert(joined(l.take(6)) == "rssex"@) by { if 6 > 0 { assert(l.take(6).drop_last() == l.take(5 as int)); } }
            assert(joined(l.take(7)) == "rssexp"@) by { if 7 > 0 { assert(l.take(7).drop_last() == l.take(6 as int)); } }
            assert(joined(l.take(8)) == "rssexpa"@) by { if 8 > 0 { assert(l.take(8).drop_last() == l.take(7 as int)); } }
            assert(joined(l.take(9)) == "rssexpan"@) by { if 9 > 0 { assert(l.take(9).drop_last() == l.take(8 as int)); } }
            assert(joined(l.take(10)) == "rssexpand"@) by { if 10 > 0 { assert(l.take(10).drop_last() == l.take(9 as int)); } }
            assert(joined(l.take(11)) == "rssexpande"@) by { if 11 > 0 { assert(l.take(11).drop_last() == l.take(10 as int)); } }
            assert(joined(l.take(12)) == "rssexpanded"@) by { if 12 > 0 { assert(l.take(12).drop_last() == l.take(11 as int)); } }
            assert(l.take(12) == l);
        },
        BarcodeFormat::TELEPEN => {
            reveal_strlit("TELEPEN");
            reveal_strlit("telepen");
            reveal_strlit("t");
            reveal_strlit("te");
            reveal_strlit("tel");
            reveal_strlit("tele");
            reveal_strlit("telep");
            reveal_strlit("telepe");
            reveal_strlit("telepen");
            let l = label_of(f);
            assert(joined(l.take(0)) == Seq::<char>::empty());
            assert(joined(l.take(1)) == "t"@) by { if 1 > 0 { assert(l.take(1).drop_last() == l.take(0 as int)); } }
            assert(joined(l.take(2)) == "te"@) by { if 2 > 0 { assert(l.take(2).drop_last() == l.take(1 as int)); } }
            assert(joined(l.take(3)) == "tel"@) by { if 3 > 0 { assert(l.take(3).drop_last() == l.take(2 as int)); } }
            assert(joined(l.take(4)) == "tele"@) by { if 4 > 0 { assert(l.take(4).drop_last() == l.take(3 as int)); } }
            assert(joined(l.take(5)) == "telep"@) by { if 5 > 0 { assert(l.take(5).drop_last() == l.take(4 as int)); } }
            assert(joined(l.take(6)) == "telepe"@) by { if 6 > 0 { assert(l.take(6).drop_last() == l.take(5 as int)); } }
            assert(joined(l.take(7)) == "telepen"@) by { if 7 > 0 { assert(l.take(7).drop_last() == l.take(6 as int)); } }
            assert(l.take(7) == l);
        },
        BarcodeFormat::UPC_A => {
            reveal_strlit("UPC_A");
            reveal_strlit("upca");
            reveal_strlit("u");
            reveal_strlit("up");
            reveal_strlit("upc");
            reveal_strlit("upca");
            let l = label_of(f);
            assert(joined(l.take(0)) == Seq::<char>::empty());
            assert(joined(l.take(1)) == "u"@) by { if 1 > 0 { assert(l.take(1).drop_last() == l.take(0 as int)); } }
            assert(joined(l.take(2)) == "up"@) by { if 2 > 0 { assert(l.take(2).drop_last() == l.take(1 as int)); } }
            assert(joined(l.take(3)) == "upc"@) by { if 3 > 0 { assert(l.take(3).drop_last() == l.take(2 as int)); } }
            assert(joined(l.take(4)) == "upc"@) by { if 4 > 0 { assert(l.take(4).drop_last() == l.take(3 as int)); } }
            assert(joined(l.take(5)) == "upca"@) by { if 5 > 0 { assert(l.take(5).drop_last() == l.take(4 as int)); } }
            assert(l.take(5) == l);
        },
        BarcodeFormat::UPC_E => {
            reveal_strlit("UPC_E");
            reveal_strlit("upce");
            reveal_strlit("u");
            reveal_strlit("up");
            reveal_strlit("upc");
            reveal_strlit("upce");
            let l = label_of(f);
            assert(joined(l.take(0)) == Seq::<char>::empty());
            assert(joined(l.take(1)) == "u"@) by { if 1 > 0 { assert(l.take(1).drop_last() == l.take(0 as int)); } }
            assert(joined(l.take(2)) == "up"@) by { if 2 > 0 { assert(l.take(2).drop_last() == l.take(1 as int)); } }
            assert(joined(l.take(3)) == "upc"@) by { if 3 > 0 { assert(l.take(3).drop_last() == l.take(2 as int)); } }
            assert(joined(l.take(4)) == "upc"@) by { if 4 > 0 { assert(l.take(4).drop_last() == l.take(3 as int)); } }
            assert(joined(l.take(5)) == "upce"@) by { if 5 > 0 { assert(l.take(5).drop_last() == l.take(4 as int)); } }
            assert(l.take(5) == l);
        },
        BarcodeFormat::UPC_EAN_EXTENSION => {},
        BarcodeFormat::DXFilmEdge => {},
        BarcodeFormat::UNSUPORTED_FORMAT => {},
    }
}

/// The output name of a symbology, in lower case and run together, is an
/// `--only` value for that same symbology: `code39` asks for what is
/// reported as `CODE_39`, `pdf417` for what is reported as `PDF_417`.
#[verifier::spinoff_prover]
#[verifier::rlimit(60)]
pub proof fn joined_only_names_follow_labels(f: BarcodeFormat)
    requires
        named_by_label(f),
    ensures
        format_named(joined(label_of(f))) == Some(f),
{
    lemma_joined_labels(f);
    reveal_strlit("qr");
    reveal_strlit("qrcode");
    reveal_strlit("qr-code");
    reveal_strlit("micro-qr");
    reveal_strlit("mqr");
    reveal_strlit("micro_qr");
    reveal_strlit("rectangular-micro-qr");
    reveal_strlit("rmqr");
    reveal_strlit("ean-13");
    reveal_strlit("ean13");
    reveal_strlit("ean_13");
    reveal_strlit("ean-8");
    reveal_strlit("ean8");
    reveal_strlit("ean_8");
    reveal_strlit("upc-a");
    reveal_strlit("upca");
    reveal_strlit("upc_a");
    reveal_strlit("upc-e");
    reveal_strlit("upce");
    reveal_strlit("upc_e");
    reveal_strlit("code-128");
    reveal_strlit("code128");
    reveal_strlit("code_128");
    reveal_strlit("code-39");
    reveal_strlit("code39");
    reveal_strlit("code_39");
    reveal_strlit("code-93");
    reveal_strlit("code93");
    reveal_strlit("code_93");
    reveal_strlit("codabar");
    reveal_strlit("itf");
    reveal_strlit("pdf417");
    reveal_strlit("pdf-417");
    reveal_strlit("pdf_417");
    reveal_strlit("aztec");
    reveal_strlit("data-matrix");
    reveal_strlit("datamatrix");
    reveal_strlit("data_matrix");
    reveal_strlit("maxicode");
    reveal_strlit("maxi-code");
    reveal_strlit("rss-14");
    reveal_strlit("rss14");
    reveal_strlit("rss-expanded");
    reveal_strlit("rssexpanded");
    reveal_strlit("telepen");
    let j = joined(label_of(f));
    match f {
        BarcodeFormat::AZTEC => {
            assert(ascii_lower(j) =~= j);
            assert("aztec"@[0] != "ean13"@[0]);
            assert("aztec"@[0] != "ean-8"@[0]);
            assert("aztec"@[0] != "ean_8"@[0]);
            assert("aztec"@[0] != "upc-a"@[0]);
            assert("aztec"@[0] != "upc_a"@[0]);
            assert("aztec"@[0] != "upc-e"@[0]);
            assert("aztec"@[0] != "upc_e"@[0]);
        },
        BarcodeFormat::CODABAR => {
            assert(ascii_lower(j) =~= j);
            assert("codabar"@[0] != "qr-code"@[0]);
            assert("codabar"@[3] != "code128"@[3]);
            assert("codabar"@[3] != "code-39"@[3]);
            assert("codabar"@[3] != "code_39"@[3]);
            assert("codabar"@[3] != "code-93"@[3]);
            assert("codabar"@[3] != "code_93"@[3]);
        },
        BarcodeFormat::CODE_39 => {
            assert(ascii_lower(j) =~= j);
            assert("code39"@[0] != "qrcode"@[0]);
            assert("code39"@[0] != "ean-13"@[0]);
            assert("code39"@[0] != "ean_13"@[0]);
        },
        BarcodeFormat::CODE_93 => {
            assert(ascii_lower(j) =~= j);
            assert("code93"@[0] != "qrcode"@[0]);
            assert("code93"@[0] != "ean-13"@[0]);
            assert("code93"@[0] != "ean_13"@[0]);
            assert("code93"@[4] != "code39"@[4]);
        },
        BarcodeFormat::CODE_128 => {
            assert(ascii_lower(j) =~= j);
            assert("code128"@[0] != "qr-code"@[0]);
        },
        BarcodeFormat::DATA_MATRIX => {
            assert(ascii_lower(j) =~= j);
        },
        BarcodeFormat::EAN_8 => {
            assert(ascii_lower(j) =~= j);
            assert("ean8"@[0] != "rmqr"@[0]);
        },
        BarcodeFormat::EAN_13 => {
            assert(ascii_lower(j) =~= j);
        },
        BarcodeFormat::ITF => {
            assert(ascii_lower(j) =~= j);
            assert("itf"@[0] != "mqr"@[0]);
        },
        BarcodeFormat::MAXICODE => {
            assert(ascii_lower(j) =~= j);
            assert("maxicode"@[1] != "micro-qr"@[1]);
            assert("maxicode"@[1] != "micro_qr"@[1]);
            assert("maxicode"@[0] != "code-128"@[0]);
            assert("maxicode"@[0] != "code_128"@[0]);
        },
        BarcodeFormat::PDF_417 => {
            assert(ascii_lower(j) =~= j);
            assert("pdf417"@[0] != "qrcode"@[0]);
            assert("pdf417"@[0] != "ean-13"@[0]);
            assert("pdf417"@[0] != "ean_13"@[0]);
            assert("pdf417"@[0] != "code39"@[0]);
            assert("pdf417"@[0] != "code93"@[0]);
        },
        BarcodeFormat::QR_CODE => {
            assert(ascii_lower(j) =~= j);
        },
        BarcodeFormat::MICRO_QR_CODE => {},
        BarcodeFormat::RECTANGULAR_MICRO_QR_CODE => {},
        BarcodeFormat::RSS_14 => {
            assert(ascii_lower(j) =~= j);
            assert("rss14"@[0] != "ean13"@[0]);
            assert("rss14"@[0] != "ean-8"@[0]);
            assert("rss14"@[0] != "ean_8"@[0]);
            assert("rss14"@[0] != "upc-a"@[0]);
            assert("rss14"@[0] != "upc_a"@[0]);
            assert("rss14"@[0] != "upc-e"@[0]);
            assert("rss14"@[0] != "upc_e"@[0]);
            assert("rss14"@[0] != "aztec"@[0]);
        },
        BarcodeFormat::RSS_EXPANDED => {
            assert(ascii_lower(j) =~= j);
            assert("rssexpanded"@[0] != "data-matrix"@[0]);
            assert("rssexpanded"@[0] != "data_matrix"@[0]);
        },
        BarcodeFormat::TELEPEN => {
            assert(ascii_lower(j) =~= j);
            assert("telepen"@[0] != "qr-code"@[0]);
            assert("telepen"@[0] != "code128"@[0]);
            assert("telepen"@[0] != "code-39"@[0]);
            assert("telepen"@[0] != "code_39"@[0]);
            assert("telepen"@[0] != "code-93"@[0]);
            assert("telepen"@[0] != "code_93"@[0]);
            assert("telepen"@[0] != "codabar"@[0]);
            assert("telepen"@[0] != "pdf-417"@[0]);
            assert("telepen"@[0] != "pdf_417"@[0]);
        },
        BarcodeFormat::UPC_A => {
            assert(ascii_lower(j) =~= j);
            assert("upca"@[0] != "rmqr"@[0]);
            assert("upca"@[0] != "ean8"@[0]);
        },
        BarcodeFormat::UPC_E => {
            assert(ascii_lower(j) =~= j);
            assert("upce"@[0] != "rmqr"@[0]);
            assert("upce"@[0] != "ean8"@[0]);
            assert("upce"@[3] != "upca"@[3]);
        },
        BarcodeFormat::UPC_EAN_EXTENSION => {},
        BarcodeFormat::DXFilmEdge => {},
        BarcodeFormat::UNSUPORTED_FORMAT => {},
    }
}
} // verus!
