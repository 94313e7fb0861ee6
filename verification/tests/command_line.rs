//! The command line, path lists and exit status.

use zxing::cli::{exit_status, render_results, split_path_list, EXIT_USAGE};
use zxing::{BarcodeFormat, Decoded};
use zxing::{parse_args, Command, OutputFormat, UsageError, VERSION_INFO};

fn args(a: &[&str]) -> Vec<String> {
    a.iter().map(|s| s.to_string()).collect()
}

#[test]
fn dec_with_defaults() {
    match parse_args(&args(&["dec", "qr.png"])).unwrap() {
        Command::Decode(r) => {
            assert_eq!(r.output, OutputFormat::Txt);
            assert!(r.try_harder);
            assert!(r.only.is_empty());
            assert!(!r.null_separated);
            assert!(r.files_from.is_none());
            assert!(!r.quiet);
            assert_eq!(r.images, args(&["qr.png"]));
        }
        other => panic!("unexpected {other:?}"),
    }
}

#[test]
fn dec_with_every_option() {
    let cl = args(&[
        "dec", "-f", "json", "--only", "qr", "a.png", "--fast", "--only", "ean-13", "-0", "--files-from", "-",
        "-q", "b.png",
    ]);
    match parse_args(&cl).unwrap() {
        Command::Decode(r) => {
            assert_eq!(r.output, OutputFormat::Json);
            assert!(!r.try_harder);
            assert_eq!(r.only, args(&["qr", "ean-13"]));
            assert!(r.null_separated);
            assert_eq!(r.files_from.as_deref(), Some("-"));
            assert!(r.quiet);
            assert_eq!(r.images, args(&["a.png", "b.png"]));
        }
        other => panic!("unexpected {other:?}"),
    }
}

#[test]
fn last_of_fast_and_try_harder_wins() {
    match parse_args(&args(&["dec", "--fast", "--try-harder", "--format", "tsv", "x"])).unwrap() {
        Command::Decode(r) => {
            assert!(r.try_harder);
            assert_eq!(r.output, OutputFormat::Tsv);
        }
        other => panic!("unexpected {other:?}"),
    }
}

#[test]
fn help_and_version() {
    assert!(matches!(parse_args(&args(&["-h"])), Ok(Command::Help)));
    assert!(matches!(parse_args(&args(&["--help"])), Ok(Command::Help)));
    assert!(matches!(parse_args(&args(&["-V"])), Ok(Command::Version)));
    assert!(matches!(parse_args(&args(&["dec", "x.png", "--version"])), Ok(Command::Version)));
    assert!(matches!(parse_args(&args(&["dec", "--bogus", "-h"])), Err(UsageError::UnknownOption(_))));
    assert!(VERSION_INFO.starts_with("zxing "));
}

#[test]
fn usage_errors() {
    assert!(matches!(parse_args(&args(&[])), Err(UsageError::MissingSubcommand)));
    match parse_args(&args(&["decode", "x"])) {
        Err(e @ UsageError::UnknownSubcommand(_)) => {
            assert_eq!(e.message(), "unknown subcommand 'decode'; expected 'dec'")
        }
        other => panic!("unexpected {other:?}"),
    }
    match parse_args(&args(&["dec", "--points", "x"])) {
        Err(e @ UsageError::UnknownOption(_)) => assert_eq!(e.message(), "unknown option '--points'"),
        other => panic!("unexpected {other:?}"),
    }
    match parse_args(&args(&["dec", "x", "--only"])) {
        Err(e @ UsageError::MissingValue(_)) => assert_eq!(e.message(), "option '--only' needs a value"),
        other => panic!("unexpected {other:?}"),
    }
    match parse_args(&args(&["dec", "-f", "yaml", "x"])) {
        Err(e @ UsageError::UnknownOutputFormat(_)) => {
            assert_eq!(e.message(), "unknown --format value 'yaml'; expected one of: txt, json, tsv")
        }
        other => panic!("unexpected {other:?}"),
    }
    match parse_args(&args(&["dec", "-q"])) {
        Err(e @ UsageError::NoImages) => assert_eq!(e.message(), "no image given"),
        other => panic!("unexpected {other:?}"),
    }
    assert_eq!(UsageError::MissingSubcommand.message(), "missing subcommand; expected 'dec'");
}

#[test]
fn dash_alone_is_an_image_and_files_from_alone_is_enough() {
    match parse_args(&args(&["dec", "-"])).unwrap() {
        Command::Decode(r) => assert_eq!(r.images, args(&["-"])),
        other => panic!("unexpected {other:?}"),
    }
    match parse_args(&args(&["dec", "--files-from", "list.txt"])).unwrap() {
        Command::Decode(r) => {
            assert!(r.images.is_empty());
            assert_eq!(r.files_from.as_deref(), Some("list.txt"));
        }
        other => panic!("unexpected {other:?}"),
    }
}

#[test]
fn path_lists() {
    assert_eq!(split_path_list("a.png\nb.png\n", false), args(&["a.png", "b.png"]));
    assert_eq!(split_path_list("\n\na b.png\n\nc", false), args(&["a b.png", "c"]));
    assert_eq!(split_path_list("a\0b\nc\0", true), args(&["a", "b\nc"]));
    assert_eq!(split_path_list("", false), Vec::<String>::new());
    for p in split_path_list("x\n\ny\n", false) {
        assert!(!p.is_empty() && !p.contains('\n'));
    }
}

#[test]
fn exit_statuses() {
    assert_eq!(exit_status(true, false), 0);
    assert_eq!(exit_status(true, true), 0);
    assert_eq!(exit_status(false, false), 1);
    assert_eq!(exit_status(false, true), 2);
    assert_eq!(EXIT_USAGE, 64);
}

#[test]
fn render_results_per_format() {
    let results = vec![Decoded { format: BarcodeFormat::QR_CODE, text: "a\tb".to_string(), points: vec![] }];
    let mut txt = String::new();
    render_results(&mut txt, OutputFormat::Txt, "f.png", &results);
    assert_eq!(txt, "f.png\tQR_CODE\ta\tb\n");
    let mut tsv = String::new();
    render_results(&mut tsv, OutputFormat::Tsv, "f.png", &results);
    assert_eq!(tsv, "f.png\tQR_CODE\ta\\tb\n");
    let mut json = String::new();
    render_results(&mut json, OutputFormat::Json, "f.png", &results);
    assert_eq!(
        json,
        "[{\"file\": \"f.png\", \"results\": [{\"format\": \"QR_CODE\", \"text\": \"a\\tb\", \"points\": []}]}]\n"
    );
}
