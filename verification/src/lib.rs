//! Verified core of the `zxing` barcode-decoding command line tool.
//!
//! The library holds everything the tool decides: the catalogue of barcode
//! symbologies and their names, the parsing of the command line and of
//! `--only` values, the plan of decoder passes and how their outcomes
//! combine, the escaping rules and the byte-exact rendering of the `txt`,
//! `json` and `tsv` output formats, and the exit status of a run.
//! Reading images and files and writing to the terminal are left to the
//! binary.

pub mod barcode;
pub mod cli;
pub mod decode;
pub mod escape;
pub mod format;
pub mod json;
pub mod strings;

pub use barcode::{format_name, parse_format, BarcodeFormat};
pub use cli::{parse_args, Command, DecodeRequest, OutputFormat, UsageError, VERSION_INFO};
pub use decode::{DecodeError, DecodeOptions, Hints, Pass, PassOutcome};
pub use escape::{json_escape, tsv_escape};
pub use format::{emit_json, emit_tsv, emit_txt, write_str_obj, Decoded, Point};
