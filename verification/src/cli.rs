//! The command line: `zxing dec [OPTIONS] <IMAGE>...`, the path lists of
//! `--files-from`, and the exit status of a run.

use vstd::prelude::*;

use crate::format::{emit_json, emit_tsv, emit_txt, json_output, tsv_output, txt_output, Decoded};
use crate::strings::{push_char, str_eq};

verus! {

/// The version line printed by `--version`.
pub const VERSION_INFO: &'static str = "zxing 0.1.0";

/// The exit status of a usage error (bad flag, missing image, ...).
pub const EXIT_USAGE: u8 = 64;

/// The three output formats.
#[derive(Clone, Copy, Debug, PartialEq, Eq, Structural)]
pub enum OutputFormat {
    Txt,
    Json,
    Tsv,
}

/// A `dec` invocation, with its options.
#[derive(Clone, Debug)]
pub struct DecodeRequest {
    pub output: OutputFormat,
    pub try_harder: bool,
    pub only: Vec<String>,
    pub null_separated: bool,
    pub files_from: Option<String>,
    pub quiet: bool,
    pub images: Vec<String>,
}

/// What the command line asks for.
#[derive(Clone, Debug)]
pub enum Command {
    Help,
    Version,
    Decode(DecodeRequest),
}

/// Why a command line is refused.
#[derive(Clone, Debug)]
pub enum UsageError {
    /// No subcommand was given.
    MissingSubcommand,
    /// The first argument is not `dec`.
    UnknownSubcommand(String),
    /// An argument starting with `-` that is no option.
    UnknownOption(String),
    /// An option that takes a value came last.
    MissingValue(String),
    /// `--format` names no output format.
    UnknownOutputFormat(String),
    /// Neither an image nor `--files-from` was given.
    NoImages,
}

/// The contents of a `DecodeRequest`, as plain values.
pub struct RequestModel {
    pub output: OutputFormat,
    pub try_harder: bool,
    pub only: Seq<Seq<char>>,
    pub null_separated: bool,
    pub files_from: Option<Seq<char>>,
    pub quiet: bool,
    pub images: Seq<Seq<char>>,
}

/// The contents of a `Command`, as plain values.
pub enum CommandModel {
    Help,
    Version,
    Decode(RequestModel),
}

/// The contents of a `UsageError`, as plain values.
pub enum UsageModel {
    MissingSubcommand,
    UnknownSubcommand(Seq<char>),
    UnknownOption(Seq<char>),
    MissingValue(Seq<char>),
    UnknownOutputFormat(Seq<char>),
    NoImages,
}

/// The views of a list of strings.
pub open spec fn strings_view(v: Seq<String>) -> Seq<Seq<char>> {
    v.map_values(|s: String| s@)
}

impl DecodeRequest {
    pub open spec fn model(&self) -> RequestModel {
        RequestModel {
            output: self.output,
            try_harder: self.try_harder,
            only: strings_view(self.only@),
            null_separated: self.null_separated,
            files_from: match self.files_from {
                Some(f) => Some(f@),
                None => None,
            },
            quiet: self.quiet,
            images: strings_view(self.images@),
        }
    }
}

impl Command {
    pub open spec fn model(&self) -> CommandModel {
        match self {
            Command::Help => CommandModel::Help,
            Command::Version => CommandModel::Version,
            Command::Decode(r) => CommandModel::Decode(r.model()),
        }
    }
}

impl UsageError {
    pub open spec fn model(&self) -> UsageModel {
        match self {
            UsageError::MissingSubcommand => UsageModel::MissingSubcommand,
            UsageError::UnknownSubcommand(s) => UsageModel::UnknownSubcommand(s@),
            UsageError::UnknownOption(s) => UsageModel::UnknownOption(s@),
            UsageError::MissingValue(s) => UsageModel::MissingValue(s@),
            UsageError::UnknownOutputFormat(s) => UsageModel::UnknownOutputFormat(s@),
            UsageError::NoImages => UsageModel::NoImages,
        }
    }
}

/// The output format a `--format` value names.
pub open spec fn output_format_named(v: Seq<char>) -> Option<OutputFormat> {
    if v == "txt"@ {
        Some(OutputFormat::Txt)
    } else if v == "json"@ {
        Some(OutputFormat::Json)
    } else if v == "tsv"@ {
        Some(OutputFormat::Tsv)
    } else {
        None
    }
}

/// The options before any argument is read: `txt` output, trying harder,
/// everything else off or empty.
pub open spec fn default_request() -> RequestModel {
    RequestModel {
        output: OutputFormat::Txt,
        try_harder: true,
        only: Seq::empty(),
        null_separated: false,
        files_from: None,
        quiet: false,
        images: Seq::empty(),
    }
}

/// Whether an argument asks for the help text.
pub open spec fn is_help_flag(a: Seq<char>) -> bool {
    a == "-h"@ || a == "--help"@
}

/// Whether an argument asks for the version line.
pub open spec fn is_version_flag(a: Seq<char>) -> bool {
    a == "-V"@ || a == "--version"@
}

/// Whether an argument is an option that takes the next argument as value.
pub open spec fn takes_value(a: Seq<char>) -> bool {
    a == "-f"@ || a == "--format"@ || a == "--only"@ || a == "--files-from"@
}

/// The command once every argument of `dec` has been read.
pub open spec fn finish_request(st: RequestModel) -> Result<CommandModel, UsageModel> {
    if st.images.len() == 0 && st.files_from is None {
        Err(UsageModel::NoImages)
    } else {
        Ok(CommandModel::Decode(st))
    }
}

/// Reads the arguments of `dec` from index `i` on, with the options read so
/// far in `st`. `-h`/`--help` and `-V`/`--version` win wherever they stand;
/// an option that takes a value consumes the next argument; `--try-harder`
/// and `--fast` set the same switch, the last one counting; every other
/// argument that starts with `-` (but `-` alone) is an unknown option; the
/// rest are image paths, in order.
pub open spec fn scan_args(args: Seq<Seq<char>>, i: int, st: RequestModel) -> Result<CommandModel, UsageModel>
    decreases args.len() - i,
{
    if i < 0 || i >= args.len() {
        finish_request(st)
    } else {
        let a = args[i];
        if is_help_flag(a) {
            Ok(CommandModel::Help)
        } else if is_version_flag(a) {
            Ok(CommandModel::Version)
        } else if a == "--try-harder"@ {
            scan_args(args, i + 1, RequestModel { try_harder: true, ..st })
        } else if a == "--fast"@ {
            scan_args(args, i + 1, RequestModel { try_harder: false, ..st })
        } else if a == "-0"@ || a == "--null"@ {
            scan_args(args, i + 1, RequestModel { null_separated: true, ..st })
        } else if a == "-q"@ || a == "--quiet"@ {
            scan_args(args, i + 1, RequestModel { quiet: true, ..st })
        } else if takes_value(a) {
            if i + 1 >= args.len() {
                Err(UsageModel::MissingValue(a))
            } else {
                let v = args[i + 1];
                if a == "--only"@ {
                    scan_args(args, i + 2, RequestModel { only: st.only.push(v), ..st })
                } else if a == "--files-from"@ {
                    scan_args(args, i + 2, RequestModel { files_from: Some(v), ..st })
                } else {
                    match output_format_named(v) {
                        Some(o) => scan_args(args, i + 2, RequestModel { output: o, ..st }),
                        None => Err(UsageModel::UnknownOutputFormat(v)),
                    }
                }
            }
        } else if a.len() > 1 && a[0] == '-' {
            Err(UsageModel::UnknownOption(a))
        } else {
            scan_args(args, i + 1, RequestModel { images: st.images.push(a), ..st })
        }
    }
}

/// What a command line (without the program name) asks for: `dec` and its
/// arguments, or help or the version when asked for first.
pub open spec fn command_of(args: Seq<Seq<char>>) -> Result<CommandModel, UsageModel> {
    if args.len() == 0 {
        Err(UsageModel::MissingSubcommand)
    } else if is_help_flag(args[0]) {
        Ok(CommandModel::Help)
    } else if is_version_flag(args[0]) {
        Ok(CommandModel::Version)
    } else if args[0] == "dec"@ {
        scan_args(args, 1, default_request())
    } else {
        Err(UsageModel::UnknownSubcommand(args[0]))
    }
}

/// The views of a result of `parse_args`.
pub open spec fn parsed_view(r: Result<Command, UsageError>) -> Result<CommandModel, UsageModel> {
    match r {
        Ok(c) => Ok(c.model()),
        Err(e) => Err(e.model()),
    }
}

fn output_format(v: &str) -> (res: Option<OutputFormat>)
    ensures
        res == output_format_named(v@),
{
    if str_eq(v, "txt") {
        Some(OutputFormat::Txt)
    } else if str_eq(v, "json") {
        Some(OutputFormat::Json)
    } else if str_eq(v, "tsv") {
        Some(OutputFormat::Tsv)
    } else {
        None
    }
}

fn starts_with_dash(a: &str) -> (res: bool)
    ensures
        res == (a@.len() > 1 && a@[0] == '-'),
{
    let n = a.unicode_len();
    n > 1 && a.get_char(0) == '-'
}

/// Parses the command line, the program name left out.
pub fn parse_args(args: &Vec<String>) -> (res: Result<Command, UsageError>)
    ensures
        parsed_view(res) == command_of(strings_view(args@)),
{
    let ghost view = strings_view(args@);
    let n = args.len();
    if n == 0 {
        return Err(UsageError::MissingSubcommand);
    }
    assert(view[0] == args@[0]@);
    let first = args[0].as_str();
    if str_eq(first, "-h") || str_eq(first, "--help") {
        return Ok(Command::Help);
    }
    if str_eq(first, "-V") || str_eq(first, "--version") {
        return Ok(Command::Version);
    }
    if !str_eq(first, "dec") {
        return Err(UsageError::UnknownSubcommand(args[0].clone()));
    }
    let mut req = DecodeRequest {
        output: OutputFormat::Txt,
        try_harder: true,
        only: Vec::new(),
        null_separated: false,
        files_from: None,
        quiet: false,
        images: Vec::new(),
    };
    assert(strings_view(req.only@) =~= Seq::<Seq<char>>::empty());
    assert(strings_view(req.images@) =~= Seq::<Seq<char>>::empty());
    assert(req.model() == default_request());
    let mut i: usize = 1;
    while i < n
        invariant
            n == args@.len(),
            view == strings_view(args@),
            1 <= i <= n,
            command_of(view) == scan_args(view, i as int, req.model()),
        decreases n - i,
    {
        let a = args[i].as_str();
        assert(view[i as int] == a@);
        let ghost st = req.model();
        if str_eq(a, "-h") || str_eq(a, "--help") {
            return Ok(Command::Help);
        } else if str_eq(a, "-V") || str_eq(a, "--version") {
            return Ok(Command::Version);
        } else if str_eq(a, "--try-harder") {
            req.try_harder = true;
            i = i + 1;
        } else if str_eq(a, "--fast") {
            req.try_harder = false;
            i = i + 1;
        } else if str_eq(a, "-0") || str_eq(a, "--null") {
            req.null_separated = true;
            i = i + 1;
        } else if str_eq(a, "-q") || str_eq(a, "--quiet") {
            req.quiet = true;
            i = i + 1;
        } else if str_eq(a, "-f") || str_eq(a, "--format") || str_eq(a, "--only") || str_eq(a, "--files-from") {
            if i + 1 >= n {
                return Err(UsageError::MissingValue(args[i].clone()));
            }
            let v = &args[i + 1];
            assert(view[i + 1] == v@);
            if str_eq(a, "--only") {
                req.only.push(v.clone());
                assert(strings_view(req.only@) == st.only.push(v@));
            } else if str_eq(a, "--files-from") {
                req.files_from = Some(v.clone());
            } else {
                match output_format(v.as_str()) {
                    Some(o) => {
                        req.output = o;
                    },
                    None => {
                        return Err(UsageError::UnknownOutputFormat(v.clone()));
                    },
                }
            }
            i = i + 2;
        } else if starts_with_dash(a) {
            return Err(UsageError::UnknownOption(args[i].clone()));
        } else {
            req.images.push(args[i].clone());
            assert(strings_view(req.images@) == st.images.push(a@));
            i = i + 1;
        }
    }
    if req.images.len() == 0 && req.files_from.is_none() {
        return Err(UsageError::NoImages);
    }
    Ok(Command::Decode(req))
}

// ---------------------------------------------------------------------------
// Path lists
// ---------------------------------------------------------------------------

/// The state of splitting a path list: the paths completed so far and the
/// one being read.
pub open spec fn split_step(acc: (Seq<Seq<char>>, Seq<char>), c: char, sep: char) -> (Seq<Seq<char>>, Seq<char>) {
    if c == sep {
        if acc.1.len() > 0 {
            (acc.0.push(acc.1), Seq::empty())
        } else {
            acc
        }
    } else {
        (acc.0, acc.1.push(c))
    }
}

/// Splitting the characters of `s` in order.
pub open spec fn split_state(s: Seq<char>, sep: char) -> (Seq<Seq<char>>, Seq<char>)
    decreases s.len(),
{
    if s.len() == 0 {
        (Seq::empty(), Seq::empty())
    } else {
        split_step(split_state(s.drop_last(), sep), s.last(), sep)
    }
}

/// The paths of a path list: the pieces between separators, empty pieces
/// dropped, in order.
pub open spec fn split_paths(s: Seq<char>, sep: char) -> Seq<Seq<char>> {
    let st = split_state(s, sep);
    if st.1.len() > 0 {
        st.0.push(st.1)
    } else {
        st.0
    }
}

/// The separator of a path list: NUL with `--null`, newline otherwise.
pub open spec fn path_separator(null_separated: bool) -> char {
    if null_separated {
        '\0'
    } else {
        '\n'
    }
}

/// Splits the contents of a `--files-from` list into paths: one per line, or
/// NUL-separated with `--null`; empty entries are skipped.
pub fn split_path_list(content: &str, null_separated: bool) -> (res: Vec<String>)
    ensures
        strings_view(res@) == split_paths(content@, path_separator(null_separated)),
{
    broadcast use vstd::string::group_string_axioms;
    let sep = if null_separated { '\0' } else { '\n' };
    let mut done: Vec<String> = Vec::new();
    let mut cur = String::new();
    for c in it: content.chars()
        invariant
            it.seq() == content@,
            sep == path_separator(null_separated),
            (strings_view(done@), cur@) == split_state(content@.take(it.index()), sep),
    {
        let ghost pre = content@.take(it.index() + 1);
        assert(pre.drop_last() == content@.take(it.index()));
        let ghost before = strings_view(done@);
        if c == sep {
            if cur.unicode_len() > 0 {
                let piece = cur;
                done.push(piece);
                cur = String::new();
                assert(strings_view(done@) == before.push(piece@));
            }
        } else {
            push_char(&mut cur, c);
        }
    }
    assert(content@.take(content@.len() as int) == content@);
    if cur.unicode_len() > 0 {
        let ghost before = strings_view(done@);
        let piece = cur;
        done.push(piece);
        assert(strings_view(done@) == before.push(piece@));
    }
    done
}

// ---------------------------------------------------------------------------
// Exit status
// ---------------------------------------------------------------------------

/// The exit status of a run over all its images: 0 when at least one image
/// decoded at least one barcode, otherwise 2 when an image could not be read
/// or decoded, otherwise 1 (every image scanned, no barcode found, which is
/// not an error).
pub open spec fn run_status(decoded_any: bool, failed_any: bool) -> u8 {
    if decoded_any {
        0
    } else if failed_any {
        2
    } else {
        1
    }
}

/// The exit status of a run; see `run_status`.
pub fn exit_status(decoded_any: bool, failed_any: bool) -> (res: u8)
    ensures
        res == run_status(decoded_any, failed_any),
        res != EXIT_USAGE,
{
    if decoded_any {
        0
    } else if failed_any {
        2
    } else {
        1
    }
}

/// A usage error as the line printed for it.
pub open spec fn usage_message(e: UsageModel) -> Seq<char> {
    match e {
        UsageModel::MissingSubcommand => "missing subcommand; expected 'dec'"@,
        UsageModel::UnknownSubcommand(s) => "unknown subcommand '"@ + s + "'; expected 'dec'"@,
        UsageModel::UnknownOption(s) => "unknown option '"@ + s + "'"@,
        UsageModel::MissingValue(s) => "option '"@ + s + "' needs a value"@,
        UsageModel::UnknownOutputFormat(s) => "unknown --format value '"@ + s + "'; expected one of: txt, json, tsv"@,
        UsageModel::NoImages => "no image given"@,
    }
}

impl UsageError {
    /// The line printed for this error.
    pub fn message(&self) -> (res: String)
        ensures
            res@ == usage_message(self.model()),
    {
        match self {
            UsageError::MissingSubcommand => String::from_str("missing subcommand; expected 'dec'"),
            UsageError::UnknownSubcommand(s) => {
                let mut m = String::from_str("unknown subcommand '");
                m.append(s.as_str());
                m.append("'; expected 'dec'");
                m
            },
            UsageError::UnknownOption(s) => {
                let mut m = String::from_str("unknown option '");
                m.append(s.as_str());
                m.append("'");
                m
            },
            UsageError::MissingValue(s) => {
                let mut m = String::from_str("option '");
                m.append(s.as_str());
                m.append("' needs a value");
                m
            },
            UsageError::UnknownOutputFormat(s) => {
                let mut m = String::from_str("unknown --format value '");
                m.append(s.as_str());
                m.append("'; expected one of: txt, json, tsv");
                m
            },
            UsageError::NoImages => String::from_str("no image given"),
        }
    }
}

proof fn lemma_split_state_clean(s: Seq<char>, sep: char)
    ensures
        forall|k: int| 0 <= k < split_state(s, sep).0.len() ==> (#[trigger] split_state(s, sep).0[k]).len() > 0
            && !split_state(s, sep).0[k].contains(sep),
        !split_state(s, sep).1.contains(sep),
    decreases s.len(),
{
    if s.len() > 0 {
        lemma_split_state_clean(s.drop_last(), sep);
        let acc = split_state(s.drop_last(), sep);
        let c = s.last();
        if c != sep {
            assert forall|j: int| 0 <= j < acc.1.push(c).len() implies acc.1.push(c)[j] != sep by {
                if j < acc.1.len() {
                    assert(acc.1.push(c)[j] == acc.1[j]);
                }
            }
        } else {
            assert(!Seq::<char>::empty().contains(sep));
        }
    }
}

/// Every path taken from a path list is non-empty and holds no separator.
pub proof fn split_paths_are_clean(s: Seq<char>, sep: char)
    ensures
        forall|k: int| 0 <= k < split_paths(s, sep).len() ==> (#[trigger] split_paths(s, sep)[k]).len() > 0
            && !split_paths(s, sep)[k].contains(sep),
{
    lemma_split_state_clean(s, sep);
}

// ---------------------------------------------------------------------------
// Output of one image
// ---------------------------------------------------------------------------

/// What the command line prints for one decoded image in the chosen output
/// format. JSON always carries the corner points.
pub open spec fn rendered(output: OutputFormat, file: Seq<char>, results: Seq<Decoded>) -> Seq<char> {
    match output {
        OutputFormat::Txt => txt_output(file, results),
        OutputFormat::Json => json_output(file, results, true),
        OutputFormat::Tsv => tsv_output(file, results),
    }
}

/// Appends the output for one decoded image in the chosen format.
pub fn render_results(out: &mut String, output: OutputFormat, file: &str, results: &[Decoded])
    ensures
        final(out)@ == old(out)@ + rendered(output, file@, results@),
{
    match output {
        OutputFormat::Txt => emit_txt(out, file, results),
        OutputFormat::Json => emit_json(out, file, results, true),
        OutputFormat::Tsv => emit_tsv(out, file, results, true),
    }
}

// ---------------------------------------------------------------------------
// Short and long spellings
// ---------------------------------------------------------------------------

/// The option spellings are all different words.
proof fn lemma_option_spellings_differ()
    ensures
        "-h"@ != "--help"@,
        "-h"@ != "-V"@,
        "-h"@ != "--version"@,
        "-h"@ != "--try-harder"@,
        "-h"@ != "--fast"@,
        "-h"@ != "-0"@,
        "-h"@ != "--null"@,
        "-h"@ != "-q"@,
        "-h"@ != "--quiet"@,
        "-h"@ != "-f"@,
        "-h"@ != "--format"@,
        "-h"@ != "--only"@,
        "-h"@ != "--files-from"@,
        "--help"@ != "-V"@,
        "--help"@ != "--version"@,
        "--help"@ != "--try-harder"@,
        "--help"@ != "--fast"@,
        "--help"@ != "-0"@,
        "--help"@ != "--null"@,
        "--help"@ != "-q"@,
        "--help"@ != "--quiet"@,
        "--help"@ != "-f"@,
        "--help"@ != "--format"@,
        "--help"@ != "--only"@,
        "--help"@ != "--files-from"@,
        "-V"@ != "--version"@,
        "-V"@ != "--try-harder"@,
        "-V"@ != "--fast"@,
        "-V"@ != "-0"@,
        "-V"@ != "--null"@,
        "-V"@ != "-q"@,
        "-V"@ != "--quiet"@,
        "-V"@ != "-f"@,
        "-V"@ != "--format"@,
        "-V"@ != "--only"@,
        "-V"@ != "--files-from"@,
        "--version"@ != "--try-harder"@,
        "--version"@ != "--fast"@,
        "--version"@ != "-0"@,
        "--version"@ != "--null"@,
        "--version"@ != "-q"@,
        "--version"@ != "--quiet"@,
        "--version"@ != "-f"@,
        "--version"@ != "--format"@,
        "--version"@ != "--only"@,
        "--version"@ != "--files-from"@,
        "--try-harder"@ != "--fast"@,
        "--try-harder"@ != "-0"@,
        "--try-harder"@ != "--null"@,
        "--try-harder"@ != "-q"@,
        "--try-harder"@ != "--quiet"@,
        "--try-harder"@ != "-f"@,
        "--try-harder"@ != "--format"@,
        "--try-harder"@ != "--only"@,
        "--try-harder"@ != "--files-from"@,
        "--fast"@ != "-0"@,
        "--fast"@ != "--null"@,
        "--fast"@ != "-q"@,
        "--fast"@ != "--quiet"@,
        "--fast"@ != "-f"@,
        "--fast"@ != "--format"@,
        "--fast"@ != "--only"@,
        "--fast"@ != "--files-from"@,
        "-0"@ != "--null"@,
        "-0"@ != "-q"@,
        "-0"@ != "--quiet"@,
        "-0"@ != "-f"@,
        "-0"@ != "--format"@,
        "-0"@ != "--only"@,
        "-0"@ != "--files-from"@,
        "--null"@ != "-q"@,
        "--null"@ != "--quiet"@,
        "--null"@ != "-f"@,
        "--null"@ != "--format"@,
        "--null"@ != "--only"@,
        "--null"@ != "--files-from"@,
        "-q"@ != "--quiet"@,
        "-q"@ != "-f"@,
        "-q"@ != "--format"@,
        "-q"@ != "--only"@,
        "-q"@ != "--files-from"@,
        "--quiet"@ != "-f"@,
        "--quiet"@ != "--format"@,
        "--quiet"@ != "--only"@,
        "--quiet"@ != "--files-from"@,
        "-f"@ != "--format"@,
        "-f"@ != "--only"@,
        "-f"@ != "--files-from"@,
        "--format"@ != "--only"@,
        "--format"@ != "--files-from"@,
        "--only"@ != "--files-from"@,
{
    reveal_strlit("-h");
    reveal_strlit("--help");
    reveal_strlit("-V");
    reveal_strlit("--version");
    reveal_strlit("--try-harder");
    reveal_strlit("--fast");
    reveal_strlit("-0");
    reveal_strlit("--null");
    reveal_strlit("-q");
    reveal_strlit("--quiet");
    reveal_strlit("-f");
    reveal_strlit("--format");
    reveal_strlit("--only");
    reveal_strlit("--files-from");
    assert("-h"@[1] != "-V"@[1]);
    assert("-h"@[1] != "-0"@[1]);
    assert("-h"@[1] != "-q"@[1]);
    assert("-h"@[1] != "-f"@[1]);
    assert("--help"@[2] != "--fast"@[2]);
    assert("--help"@[2] != "--null"@[2]);
    assert("--help"@[2] != "--only"@[2]);
    assert("-V"@[1] != "-0"@[1]);
    assert("-V"@[1] != "-q"@[1]);
    assert("-V"@[1] != "-f"@[1]);
    assert("--try-harder"@[2] != "--files-from"@[2]);
    assert("--fast"@[2] != "--null"@[2]);
    assert("--fast"@[2] != "--only"@[2]);
    assert("-0"@[1] != "-q"@[1]);
    assert("-0"@[1] != "-f"@[1]);
    assert("--null"@[2] != "--only"@[2]);
    assert("-q"@[1] != "-f"@[1]);
    assert("-h"@.len() == 2);
    assert("--help"@.len() == 6);
    assert("-V"@.len() == 2);
    assert("--version"@.len() == 9);
    assert("--try-harder"@.len() == 12);
    assert("--fast"@.len() == 6);
    assert("-0"@.len() == 2);
    assert("--null"@.len() == 6);
    assert("-q"@.len() == 2);
    assert("--quiet"@.len() == 7);
    assert("-f"@.len() == 2);
    assert("--format"@.len() == 8);
    assert("--only"@.len() == 6);
    assert("--files-from"@.len() == 12);
}

/// Reading from index `i` depends on the arguments from `i` on alone: two
/// command lines that agree from `i` and from `j` on read alike from there.
proof fn lemma_scan_reads_from(a: Seq<Seq<char>>, b: Seq<Seq<char>>, i: int, j: int, st: RequestModel)
    requires
        0 <= i <= a.len(),
        0 <= j <= b.len(),
        a.skip(i) == b.skip(j),
    ensures
        scan_args(a, i, st) == scan_args(b, j, st),
    decreases a.len() - i,
{
    assert(a.skip(i).len() == b.skip(j).len());
    if i >= a.len() {
        assert(j >= b.len());
        assert(scan_args(a, i, st) == scan_args(b, j, st));
    }
    if i < a.len() {
        assert(b.skip(j).len() > 0);
        assert(a.skip(i)[0] == a[i]);
        assert(b.skip(j)[0] == b[j]);
        let x = a[i];
        assert(a.skip(i + 1) =~= a.skip(i).skip(1));
        assert(b.skip(j + 1) =~= b.skip(j).skip(1));
        if i + 2 <= a.len() {
            assert(a.skip(i + 2) =~= a.skip(i).skip(2));
            assert(b.skip(j + 2) =~= b.skip(j).skip(2));
        }
        assert(b[j] == x);
        if is_help_flag(x) || is_version_flag(x) {
            assert(scan_args(a, i, st) == scan_args(b, j, st));
        } else if x == "--try-harder"@ {
            lemma_scan_reads_from(a, b, i + 1, j + 1, RequestModel { try_harder: true, ..st });
            assert(scan_args(a, i, st) == scan_args(b, j, st));
        } else if x == "--fast"@ {
            lemma_scan_reads_from(a, b, i + 1, j + 1, RequestModel { try_harder: false, ..st });
        } else if x == "-0"@ || x == "--null"@ {
            lemma_scan_reads_from(a, b, i + 1, j + 1, RequestModel { null_separated: true, ..st });
        } else if x == "-q"@ || x == "--quiet"@ {
            lemma_scan_reads_from(a, b, i + 1, j + 1, RequestModel { quiet: true, ..st });
        } else if takes_value(x) {
            if i + 1 < a.len() {
                assert(a[i + 1] == a.skip(i)[1]);
                assert(b[j + 1] == b.skip(j)[1]);
                let v = a[i + 1];
                if x == "--only"@ {
                    lemma_scan_reads_from(a, b, i + 2, j + 2, RequestModel { only: st.only.push(v), ..st });
                } else if x == "--files-from"@ {
                    lemma_scan_reads_from(a, b, i + 2, j + 2, RequestModel { files_from: Some(v), ..st });
                } else {
                    match output_format_named(v) {
                        Some(o) => lemma_scan_reads_from(a, b, i + 2, j + 2, RequestModel { output: o, ..st }),
                        None => {},
                    }
                }
            }
        } else if !(x.len() > 1 && x[0] == '-') {
            lemma_scan_reads_from(a, b, i + 1, j + 1, RequestModel { images: st.images.push(x), ..st });
        }
    }
}

/// Reading `short` or `long` at index `i` of an otherwise equal command line
/// gives the same command.
pub open spec fn spellings_agree(args: Seq<Seq<char>>, i: int, st: RequestModel, short: Seq<char>, long: Seq<char>) -> bool {
    scan_args(args.update(i, short), i, st) == scan_args(args.update(i, long), i, st)
}

/// The short and the long spelling of each option are the same option,
/// wherever it stands among the arguments of `dec`: `-0` and `--null`,
/// `-q` and `--quiet`, `-f` and `--format`, `-h` and `--help`, `-V` and
/// `--version`. (An option that lacks its value is reported under the
/// spelling given.)
pub proof fn short_and_long_options_agree(args: Seq<Seq<char>>, i: int, st: RequestModel)
    requires
        0 <= i < args.len(),
    ensures
        spellings_agree(args, i, st, "-0"@, "--null"@),
        spellings_agree(args, i, st, "-q"@, "--quiet"@),
        i + 1 < args.len() ==> spellings_agree(args, i, st, "-f"@, "--format"@),
        i + 1 == args.len() ==> scan_args(args.update(i, "-f"@), i, st) == Err::<CommandModel, UsageModel>(
            UsageModel::MissingValue("-f"@),
        ) && scan_args(args.update(i, "--format"@), i, st) == Err::<CommandModel, UsageModel>(
            UsageModel::MissingValue("--format"@),
        ),
        spellings_agree(args, i, st, "-h"@, "--help"@),
        spellings_agree(args, i, st, "-V"@, "--version"@),
{
    lemma_option_spellings_differ();
    let n = args.len();
    let a0 = args.update(i, "-0"@);
    let b0 = args.update(i, "--null"@);
    assert(a0.skip(i + 1) =~= b0.skip(i + 1));
    lemma_scan_reads_from(a0, b0, i + 1, i + 1, RequestModel { null_separated: true, ..st });
    let a1 = args.update(i, "-q"@);
    let b1 = args.update(i, "--quiet"@);
    assert(a1.skip(i + 1) =~= b1.skip(i + 1));
    lemma_scan_reads_from(a1, b1, i + 1, i + 1, RequestModel { quiet: true, ..st });
    let a2 = args.update(i, "-f"@);
    let b2 = args.update(i, "--format"@);
    if i + 2 <= n {
        assert(a2.skip(i + 2) =~= b2.skip(i + 2));
    }
    if i + 1 < n {
        assert(a2[i + 1] == b2[i + 1]);
        match output_format_named(a2[i + 1]) {
            Some(o) => lemma_scan_reads_from(a2, b2, i + 2, i + 2, RequestModel { output: o, ..st }),
            None => {},
        }
    }
    assert(args.update(i, "-h"@)[i] == "-h"@);
    assert(args.update(i, "--help"@)[i] == "--help"@);
    assert(args.update(i, "-V"@)[i] == "-V"@);
    assert(args.update(i, "--version"@)[i] == "--version"@);
}

/// Help and version may also be asked for in place of the subcommand, in
/// either spelling.
pub proof fn help_and_version_spellings_agree(args: Seq<Seq<char>>)
    requires
        args.len() > 0,
    ensures
        command_of(args.update(0, "-h"@)) == command_of(args.update(0, "--help"@)),
        command_of(args.update(0, "-V"@)) == command_of(args.update(0, "--version"@)),
        command_of(args.update(0, "-h"@)) == Ok::<CommandModel, UsageModel>(CommandModel::Help),
        command_of(args.update(0, "-V"@)) == Ok::<CommandModel, UsageModel>(CommandModel::Version),
{
    lemma_option_spellings_differ();
}

/// `dec --null --files-from <list>` reads NUL-separated paths from the list.
pub proof fn null_separated_list_from_file(list: Seq<char>)
    ensures
        command_of(seq!["dec"@, "--null"@, "--files-from"@, list]) == Ok::<CommandModel, UsageModel>(
            CommandModel::Decode(RequestModel { null_separated: true, files_from: Some(list), ..default_request() }),
        ),
{
    lemma_option_spellings_differ();
    reveal_strlit("dec");
    reveal_strlit("-h");
    reveal_strlit("-V");
    reveal_strlit("--help");
    reveal_strlit("--version");
    let args = seq!["dec"@, "--null"@, "--files-from"@, list];
    assert(args.len() == 4);
    assert(args[0] == "dec"@);
    assert(args[1] == "--null"@);
    assert(args[2] == "--files-from"@);
    assert(args[3] == list);
    assert("dec"@.len() == 3);
    assert(!is_help_flag(args[0]) && !is_version_flag(args[0]));
    let st1 = RequestModel { null_separated: true, ..default_request() };
    let st2 = RequestModel { files_from: Some(list), ..st1 };
    assert(scan_args(args, 4, st2) == finish_request(st2));
    assert(scan_args(args, 2, st1) == scan_args(args, 4, st2));
    assert(scan_args(args, 1, default_request()) == scan_args(args, 2, st1));
}

/// Trying harder and `txt` output are the defaults: `dec --try-harder ...`,
/// `dec --fast --try-harder ...` and `dec -f txt ...` read as `dec ...`,
/// whatever follows.
pub proof fn defaults_need_no_option(rest: Seq<Seq<char>>)
    ensures
        command_of(seq!["dec"@, "--try-harder"@] + rest) == command_of(seq!["dec"@] + rest),
        command_of(seq!["dec"@, "--fast"@, "--try-harder"@] + rest) == command_of(seq!["dec"@] + rest),
        command_of(seq!["dec"@, "-f"@, "txt"@] + rest) == command_of(seq!["dec"@] + rest),
{
    lemma_option_spellings_differ();
    reveal_strlit("dec");
    reveal_strlit("txt");
    reveal_strlit("json");
    reveal_strlit("tsv");
    assert("dec"@.len() == 3);
    assert("txt"@.len() == 3);
    assert("json"@.len() == 4);
    assert("txt"@[0] != "tsv"@[0] || "txt"@[1] != "tsv"@[1]);
    let base = seq!["dec"@] + rest;
    let a = seq!["dec"@, "--try-harder"@] + rest;
    let b = seq!["dec"@, "--fast"@, "--try-harder"@] + rest;
    let c = seq!["dec"@, "-f"@, "txt"@] + rest;
    assert(base[0] == "dec"@ && a[0] == "dec"@ && b[0] == "dec"@ && c[0] == "dec"@);
    assert(a[1] == "--try-harder"@);
    assert(b[1] == "--fast"@ && b[2] == "--try-harder"@);
    assert(c[1] == "-f"@ && c[2] == "txt"@);
    reveal_strlit("-h");
    reveal_strlit("-V");
    reveal_strlit("--help");
    reveal_strlit("--version");
    assert("-h"@.len() == 2 && "-V"@.len() == 2 && "--help"@.len() == 6 && "--version"@.len() == 9);
    assert(!is_help_flag("dec"@) && !is_version_flag("dec"@));
    assert(a.skip(2) =~= base.skip(1));
    assert(b.skip(3) =~= base.skip(1));
    assert(c.skip(3) =~= base.skip(1));
    lemma_scan_reads_from(a, base, 2, 1, default_request());
    lemma_scan_reads_from(b, base, 3, 1, default_request());
    lemma_scan_reads_from(c, base, 3, 1, default_request());
    assert(RequestModel { try_harder: true, ..default_request() } == default_request());
    assert(RequestModel { output: OutputFormat::Txt, ..default_request() } == default_request());
    assert(output_format_named("txt"@) == Some(OutputFormat::Txt));
    assert(scan_args(b, 2, RequestModel { try_harder: false, ..default_request() }) == scan_args(b, 3, default_request()));
}

/// Everything that joins the pieces of a list back together.
pub open spec fn concat_all(ps: Seq<Seq<char>>) -> Seq<char>
    decreases ps.len(),
{
    if ps.len() == 0 {
        Seq::empty()
    } else {
        concat_all(ps.drop_last()) + ps.last()
    }
}

/// `s` with every `sep` taken out.
pub open spec fn without(s: Seq<char>, sep: char) -> Seq<char>
    decreases s.len(),
{
    if s.len() == 0 {
        Seq::empty()
    } else {
        without(s.drop_last(), sep) + if s.last() == sep {
            Seq::empty()
        } else {
            seq![s.last()]
        }
    }
}

proof fn lemma_split_state_keeps_text(s: Seq<char>, sep: char)
    ensures
        concat_all(split_state(s, sep).0) + split_state(s, sep).1 == without(s, sep),
    decreases s.len(),
{
    if s.len() > 0 {
        lemma_split_state_keeps_text(s.drop_last(), sep);
        let acc = split_state(s.drop_last(), sep);
        let c = s.last();
        if c == sep {
            if acc.1.len() > 0 {
                assert(acc.0.push(acc.1).drop_last() == acc.0);
                assert(concat_all(acc.0.push(acc.1)) == concat_all(acc.0) + acc.1);
            }
            assert(without(s.drop_last(), sep) + Seq::<char>::empty() == without(s.drop_last(), sep));
        } else {
            assert(concat_all(acc.0) + acc.1.push(c) == concat_all(acc.0) + acc.1 + seq![c]);
        }
    }
}

/// Splitting a path list loses nothing but separators: the paths, put back
/// together, are the list with its separators taken out.
pub proof fn split_paths_keep_every_character(s: Seq<char>, sep: char)
    ensures
        concat_all(split_paths(s, sep)) == without(s, sep),
{
    lemma_split_state_keeps_text(s, sep);
    let st = split_state(s, sep);
    if st.1.len() > 0 {
        assert(st.0.push(st.1).drop_last() == st.0);
    } else {
        assert(concat_all(st.0) + st.1 == concat_all(st.0));
    }
}

} // verus!
