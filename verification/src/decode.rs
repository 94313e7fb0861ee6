//! The decisions of a decode: which symbologies `--only` asks for, which
//! decoder passes run over an image, and how their outcomes combine.
//!
//! Loading an image and running the rxing readers on it is done by the
//! caller; the library tells it which passes to run, with which hints, and
//! folds each outcome into the result.

use vstd::prelude::*;

use crate::barcode::{format_named, parse_format, BarcodeFormat};
use crate::format::Decoded;

verus! {

/// What the user asked of the decoder.
#[derive(Debug, Clone)]
pub struct DecodeOptions {
    pub try_harder: bool,
    pub only: Vec<String>,
}

/// The hints handed to the decoder: whether to try harder, and the
/// symbologies to look for (`None`: all of them). A symbology appears at most
/// once in `possible_formats`.
#[derive(Debug, Clone)]
pub struct Hints {
    pub try_harder: bool,
    pub possible_formats: Option<Vec<BarcodeFormat>>,
}

/// Why an image could not be decoded.
#[derive(Debug, Clone)]
pub enum DecodeError {
    /// The image file does not exist.
    FileNotFound,
    /// The image path is not valid UTF-8.
    PathNotUtf8,
    /// An `--only` value names no symbology.
    UnknownFormat(String),
    /// The decoder failed for a reason other than finding no barcode.
    Detect(String),
}

/// `fs` with `f` added at the end unless it is already there.
pub open spec fn add_distinct(fs: Seq<BarcodeFormat>, f: BarcodeFormat) -> Seq<BarcodeFormat> {
    if fs.contains(f) {
        fs
    } else {
        fs.push(f)
    }
}

/// The symbologies that the `--only` values name, each once, in the order of
/// their first mention; or the index of the first value that names none.
pub open spec fn requested_formats(only: Seq<String>) -> Result<Seq<BarcodeFormat>, int>
    decreases only.len(),
{
    if only.len() == 0 {
        Ok(Seq::empty())
    } else {
        match requested_formats(only.drop_last()) {
            Err(i) => Err(i),
            Ok(fs) => match format_named(only.last()@) {
                Some(f) => Ok(add_distinct(fs, f)),
                None => Err(only.len() - 1),
            },
        }
    }
}

/// Builds the decoder hints for `opts`: `try_harder` as given, and, when
/// `--only` values are given, the set of symbologies they name. The first
/// value that names no symbology is reported as `UnknownFormat`.
pub fn build_hints(opts: &DecodeOptions) -> (res: Result<Hints, DecodeError>)
    ensures
        opts.only@.len() == 0 ==> (res matches Ok(h) && h.try_harder == opts.try_harder
            && h.possible_formats is None),
        opts.only@.len() > 0 ==> match requested_formats(opts.only@) {
            Ok(fs) => (res matches Ok(h) && h.try_harder == opts.try_harder
                && (h.possible_formats matches Some(v) && v@ == fs)),
            Err(i) => (res matches Err(DecodeError::UnknownFormat(s)) && s@ == opts.only@[i]@),
        },
{
    if opts.only.len() == 0 {
        return Ok(Hints { try_harder: opts.try_harder, possible_formats: None });
    }
    let mut set: Vec<BarcodeFormat> = Vec::new();
    let n = opts.only.len();
    for k in 0..n
        invariant
            n == opts.only@.len(),
            requested_formats(opts.only@.take(k as int)) == Ok::<Seq<BarcodeFormat>, int>(set@),
    {
        let s = &opts.only[k];
        let ghost pre = opts.only@.take(k + 1);
        assert(pre.drop_last() == opts.only@.take(k as int));
        match parse_format(s.as_str()) {
            None => {
                assert(requested_formats(pre) == Err::<Seq<BarcodeFormat>, int>(k as int));
                proof {
                    lemma_first_unknown_stays(opts.only@, k as int + 1);
                }
                return Err(DecodeError::UnknownFormat(s.clone()));
            },
            Some(f) => {
                if !contains_format(&set, f) {
                    set.push(f);
                }
            },
        }
    }
    assert(opts.only@.take(n as int) == opts.only@);
    Ok(Hints { try_harder: opts.try_harder, possible_formats: Some(set) })
}

/// Once a prefix of the `--only` values holds an unknown name, so does every
/// longer prefix, with the same first index.
proof fn lemma_first_unknown_stays(only: Seq<String>, k: int)
    requires
        0 <= k <= only.len(),
        requested_formats(only.take(k)) is Err,
    ensures
        requested_formats(only) == requested_formats(only.take(k)),
    decreases only.len() - k,
{
    if k < only.len() {
        assert(only.take(k + 1).drop_last() == only.take(k));
        lemma_first_unknown_stays(only, k + 1);
    } else {
        assert(only.take(k) == only);
    }
}

/// Whether `f` is among `fs`.
fn contains_format(fs: &Vec<BarcodeFormat>, f: BarcodeFormat) -> (res: bool)
    ensures
        res == fs@.contains(f),
{
    let n = fs.len();
    for i in 0..n
        invariant
            n == fs@.len(),
            forall|j: int| 0 <= j < i ==> fs@[j] != f,
    {
        if fs[i] == f {
            return true;
        }
    }
    false
}

// ---------------------------------------------------------------------------
// Decoder passes
// ---------------------------------------------------------------------------

/// One run of an rxing reader over the image.
#[derive(Debug, Clone, Copy, PartialEq, Eq, Structural)]
pub enum Pass {
    /// The filtered single-result reader (it upscales and tries rotated
    /// variants), restricted to one symbology or open to all of them.
    Filtered(Option<BarcodeFormat>),
    /// The multi-barcode reader.
    Multi,
}

/// The passes to run for the given hints, in order. Trying harder uses the
/// filtered reader, which returns one result per call: once per requested
/// symbology, or once open to all when none was requested. Otherwise the
/// multi-barcode reader runs once.
pub open spec fn planned_passes(try_harder: bool, formats: Option<Seq<BarcodeFormat>>) -> Seq<Pass> {
    if !try_harder {
        seq![Pass::Multi]
    } else {
        match formats {
            Some(fs) => fs.map_values(|f: BarcodeFormat| Pass::Filtered(Some(f))),
            None => seq![Pass::Filtered(None)],
        }
    }
}

/// The view of optional hint formats as a sequence.
pub open spec fn formats_view(formats: Option<Vec<BarcodeFormat>>) -> Option<Seq<BarcodeFormat>> {
    match formats {
        Some(v) => Some(v@),
        None => None,
    }
}

/// The passes that decoding an image with `hints` runs, in order.
pub fn plan_passes(hints: &Hints) -> (res: Vec<Pass>)
    ensures
        res@ == planned_passes(hints.try_harder, formats_view(hints.possible_formats)),
{
    let mut passes: Vec<Pass> = Vec::new();
    if !hints.try_harder {
        passes.push(Pass::Multi);
        return passes;
    }
    match &hints.possible_formats {
        None => {
            passes.push(Pass::Filtered(None));
        },
        Some(fs) => {
            let n = fs.len();
            for i in 0..n
                invariant
                    n == fs@.len(),
                    passes@ == fs@.take(i as int).map_values(|f: BarcodeFormat| Pass::Filtered(Some(f))),
            {
                passes.push(Pass::Filtered(Some(fs[i])));
                assert(fs@.take(i + 1) == fs@.take(i as int).push(fs@[i as int]));
            }
            assert(fs@.take(n as int) == fs@);
        },
    }
    passes
}

/// The hints for one pass: a pass restricted to one symbology looks for that
/// symbology alone; every other pass uses the hints as they are.
pub fn pass_hints(hints: &Hints, pass: Pass) -> (res: Hints)
    ensures
        res.try_harder == hints.try_harder,
        pass matches Pass::Filtered(Some(f)) ==> formats_view(res.possible_formats) == Some(seq![f]),
        !(pass matches Pass::Filtered(Some(_))) ==> formats_view(res.possible_formats) == formats_view(hints.possible_formats),
{
    match pass {
        Pass::Filtered(Some(f)) => {
            let mut only: Vec<BarcodeFormat> = Vec::new();
            only.push(f);
            Hints { try_harder: hints.try_harder, possible_formats: Some(only) }
        },
        _ => {
            let formats = match &hints.possible_formats {
                Some(fs) => Some(copy_formats(fs)),
                None => None,
            };
            Hints { try_harder: hints.try_harder, possible_formats: formats }
        },
    }
}

fn copy_formats(fs: &Vec<BarcodeFormat>) -> (res: Vec<BarcodeFormat>)
    ensures
        res@ == fs@,
{
    let mut out: Vec<BarcodeFormat> = Vec::new();
    let n = fs.len();
    for i in 0..n
        invariant
            n == fs@.len(),
            out@ == fs@.take(i as int),
    {
        out.push(fs[i]);
        assert(fs@.take(i + 1) == fs@.take(i as int).push(fs@[i as int]));
    }
    assert(fs@.take(n as int) == fs@);
    out
}

// ---------------------------------------------------------------------------
// Outcomes
// ---------------------------------------------------------------------------

/// What one pass reported.
#[derive(Debug, Clone)]
pub enum PassOutcome {
    /// The pass found these barcodes.
    Found(Vec<Decoded>),
    /// The pass found no barcode; this is not an error.
    NotFound,
    /// The pass failed, with the decoder's message.
    Failed(String),
}

/// The result of the passes whose outcomes are `os`, taken in order: the
/// barcodes they found, concatenated, or the message of the first failure
/// (the passes after it do not count).
pub open spec fn collected(os: Seq<PassOutcome>) -> Result<Seq<Decoded>, Seq<char>>
    decreases os.len(),
{
    if os.len() == 0 {
        Ok(Seq::empty())
    } else {
        match collected(os.drop_last()) {
            Err(m) => Err(m),
            Ok(acc) => match os.last() {
                PassOutcome::Found(v) => Ok(acc + v@),
                PassOutcome::NotFound => Ok(acc),
                PassOutcome::Failed(m) => Err(m@),
            },
        }
    }
}

/// Folds the outcome of one pass into the barcodes found so far. A failure
/// ends the decode with a `Detect` error and leaves `found` as it was.
pub fn absorb(found: &mut Vec<Decoded>, outcome: PassOutcome) -> (res: Result<(), DecodeError>)
    ensures
        match outcome {
            PassOutcome::Found(v) => res is Ok && final(found)@ == old(found)@ + v@,
            PassOutcome::NotFound => res is Ok && final(found)@ == old(found)@,
            PassOutcome::Failed(m) => (res matches Err(DecodeError::Detect(e)) && e@ == m@)
                && final(found)@ == old(found)@,
        },
{
    match outcome {
        PassOutcome::Found(v) => {
            let mut v = v;
            found.append(&mut v);
            Ok(())
        },
        PassOutcome::NotFound => Ok(()),
        PassOutcome::Failed(m) => Err(DecodeError::Detect(m)),
    }
}

/// Absorbing outcomes one by one, stopping at the first failure, yields
/// exactly `collected`: after the outcomes `os` have been absorbed into
/// `found` without failure, absorbing one more gives `collected` of the
/// longer run.
pub proof fn absorb_follows_collected(os: Seq<PassOutcome>, found: Seq<Decoded>, o: PassOutcome)
    requires
        collected(os) == Ok::<Seq<Decoded>, Seq<char>>(found),
    ensures
        o matches PassOutcome::Found(v) ==> collected(os.push(o)) == Ok::<Seq<Decoded>, Seq<char>>(found + v@),
        o matches PassOutcome::NotFound ==> collected(os.push(o)) == Ok::<Seq<Decoded>, Seq<char>>(found),
        o matches PassOutcome::Failed(m) ==> collected(os.push(o)) == Err::<Seq<Decoded>, Seq<char>>(m@),
{
    assert(os.push(o).drop_last() == os);
}

/// A decode in which no pass finds a barcode and none fails ends with an
/// empty result, not an error.
pub proof fn nothing_found_is_not_an_error(os: Seq<PassOutcome>)
    requires
        forall|i: int| 0 <= i < os.len() ==> #[trigger] os[i] is NotFound,
    ensures
        collected(os) == Ok::<Seq<Decoded>, Seq<char>>(Seq::empty()),
    decreases os.len(),
{
    if os.len() > 0 {
        nothing_found_is_not_an_error(os.drop_last());
    }
}

/// The first failing pass decides the error, whatever the passes after it
/// report.
pub proof fn first_failure_decides(os: Seq<PassOutcome>, k: int)
    requires
        0 <= k < os.len(),
        os[k] is Failed,
        forall|i: int| 0 <= i < k ==> !(#[trigger] os[i] is Failed),
    ensures
        collected(os) == Err::<Seq<Decoded>, Seq<char>>(os[k]->Failed_0@),
    decreases os.len(),
{
    if os.len() - 1 > k {
        first_failure_decides(os.drop_last(), k);
    } else {
        lemma_no_failure_is_ok(os.drop_last());
    }
}

proof fn lemma_no_failure_is_ok(os: Seq<PassOutcome>)
    requires
        forall|i: int| 0 <= i < os.len() ==> !(#[trigger] os[i] is Failed),
    ensures
        collected(os) is Ok,
    decreases os.len(),
{
    if os.len() > 0 {
        lemma_no_failure_is_ok(os.drop_last());
    }
}

/// The symbologies `--only` asks for are those its values name, each listed
/// once.
pub proof fn requested_formats_are_a_set(only: Seq<String>)
    requires
        requested_formats(only) is Ok,
    ensures
        requested_formats(only)->Ok_0.no_duplicates(),
        forall|f: BarcodeFormat| #[trigger] requested_formats(only)->Ok_0.contains(f)
            <==> exists|i: int| 0 <= i < only.len() && format_named(#[trigger] only[i]@) == Some(f),
    decreases only.len(),
{
    if only.len() > 0 {
        let init = only.drop_last();
        requested_formats_are_a_set(init);
        let fs = requested_formats(init)->Ok_0;
        let f = format_named(only.last()@)->Some_0;
        let res = requested_formats(only)->Ok_0;
        assert(res == add_distinct(fs, f));
        assert forall|g: BarcodeFormat| #[trigger] res.contains(g) implies
            exists|i: int| 0 <= i < only.len() && format_named(#[trigger] only[i]@) == Some(g) by {
            if g == f {
                assert(format_named(only[only.len() - 1]@) == Some(g));
            } else {
                assert(fs.contains(g));
                let i = choose|i: int| 0 <= i < init.len() && format_named(#[trigger] init[i]@) == Some(g);
                assert(only[i] == init[i]);
                assert(format_named(only[i]@) == Some(g));
            }
        }
        assert forall|g: BarcodeFormat|
            (exists|i: int| 0 <= i < only.len() && format_named(#[trigger] only[i]@) == Some(g)) implies
            #[trigger] res.contains(g) by {
            let i = choose|i: int| 0 <= i < only.len() && format_named(#[trigger] only[i]@) == Some(g);
            if i < only.len() - 1 {
                assert(init[i] == only[i]);
                assert(format_named(init[i]@) == Some(g));
                assert(fs.contains(g));
                if !fs.contains(f) {
                    assert(res[fs.index_of(g)] == g);
                }
            } else {
                assert(g == f);
                if !fs.contains(f) {
                    assert(res[fs.len() as int] == g);
                }
            }
        }
    }
}

/// The list of names `--only` accepts, as the error message gives it.
pub open spec fn only_choices() -> Seq<char> {
    "qr, ean-13, ean-8, upc-a, upc-e, code-128, code-39, code-93, codabar, itf, pdf417, aztec, data-matrix, maxicode"@
}

/// An error as the message printed for it.
pub open spec fn error_message(e: DecodeError) -> Seq<char> {
    match e {
        DecodeError::FileNotFound => "file not found"@,
        DecodeError::PathNotUtf8 => "path is not valid UTF-8"@,
        DecodeError::UnknownFormat(s) => "unknown --only value '"@ + s@ + "'; expected one of: "@ + only_choices(),
        DecodeError::Detect(m) => m@,
    }
}

impl DecodeError {
    /// The message printed for this error.
    pub fn message(&self) -> (res: String)
        ensures
            res@ == error_message(*self),
    {
        match self {
            DecodeError::FileNotFound => String::from_str("file not found"),
            DecodeError::PathNotUtf8 => String::from_str("path is not valid UTF-8"),
            DecodeError::UnknownFormat(s) => {
                let mut m = String::from_str("unknown --only value '");
                m.append(s.as_str());
                m.append("'; expected one of: ");
                m.append(
                    "qr, ean-13, ean-8, upc-a, upc-e, code-128, code-39, code-93, codabar, itf, pdf417, aztec, data-matrix, maxicode",
                );
                m
            },
            DecodeError::Detect(m) => m.clone(),
        }
    }
}

/// How many barcodes an outcome holds.
pub open spec fn codes_in(o: PassOutcome) -> nat {
    match o {
        PassOutcome::Found(v) => v@.len(),
        _ => 0,
    }
}

/// The outcome of a filtered pass that found a barcode: that one barcode.
/// The filtered reader returns a single result per call.
pub fn found_one(d: Decoded) -> (res: PassOutcome)
    ensures
        res matches PassOutcome::Found(v) && v@ == seq![d],
        codes_in(res) == 1,
{
    let mut v: Vec<Decoded> = Vec::new();
    v.push(d);
    PassOutcome::Found(v)
}

/// The symbology to report when a pass fails: a failing pass restricted to
/// one symbology is logged with that symbology's name, unless the run is
/// quiet.
pub fn failed_pass_to_log(pass: Pass, outcome: &PassOutcome, quiet: bool) -> (res: Option<BarcodeFormat>)
    ensures
        res == (if !quiet && outcome is Failed && pass matches Pass::Filtered(Some(f)) {
            Some(pass->Filtered_0->Some_0)
        } else {
            None
        }),
{
    match (pass, outcome, quiet) {
        (Pass::Filtered(Some(f)), PassOutcome::Failed(_), false) => Some(f),
        _ => None,
    }
}

proof fn lemma_collected_bounded(os: Seq<PassOutcome>)
    requires
        forall|i: int| 0 <= i < os.len() ==> codes_in(#[trigger] os[i]) <= 1,
    ensures
        collected(os) matches Ok(r) ==> r.len() <= os.len(),
    decreases os.len(),
{
    if os.len() > 0 {
        let init = os.drop_last();
        assert forall|i: int| 0 <= i < init.len() implies codes_in(#[trigger] init[i]) <= 1 by {
            assert(init[i] == os[i]);
        }
        lemma_collected_bounded(init);
        assert(codes_in(os[os.len() - 1]) <= 1);
    }
}

/// Trying harder, the filtered reader returns at most one barcode per pass,
/// and there is one pass per requested symbology (or one open pass when none
/// was requested); so a decode returns at most that many barcodes.
pub proof fn filtered_decode_is_bounded(formats: Option<Seq<BarcodeFormat>>, os: Seq<PassOutcome>)
    requires
        os.len() == planned_passes(true, formats).len(),
        forall|i: int| 0 <= i < os.len() ==> codes_in(#[trigger] os[i]) <= 1,
    ensures
        planned_passes(true, formats).len() == match formats {
            Some(fs) => fs.len(),
            None => 1,
        },
        collected(os) matches Ok(r) ==> r.len() <= planned_passes(true, formats).len(),
{
    lemma_collected_bounded(os);
}

/// Without trying harder, the plan is the multi-barcode reader alone,
/// whatever symbologies are asked for; trying harder, the multi-barcode
/// reader never runs, and the filtered reader runs once for each requested
/// symbology, or once open to all when none is requested.
pub proof fn passes_follow_try_harder(try_harder: bool, formats: Option<Seq<BarcodeFormat>>)
    ensures
        planned_passes(try_harder, formats).contains(Pass::Multi) <==> !try_harder,
        !try_harder ==> planned_passes(try_harder, formats) == seq![Pass::Multi],
        try_harder && formats is None ==> planned_passes(try_harder, formats) == seq![Pass::Filtered(None)],
        try_harder && formats is Some ==> (forall|f: BarcodeFormat|
            #[trigger] planned_passes(try_harder, formats).contains(Pass::Filtered(Some(f)))
                <==> formats->Some_0.contains(f)),
        try_harder && formats is Some ==> planned_passes(try_harder, formats).len() == formats->Some_0.len(),
{
    let p = planned_passes(try_harder, formats);
    if !try_harder {
        assert(p[0] == Pass::Multi);
    } else {
        match formats {
            None => {
                assert(p[0] == Pass::Filtered(None));
            },
            Some(fs) => {
                assert(!p.contains(Pass::Multi)) by {
                    if p.contains(Pass::Multi) {
                        let k = choose|k: int| 0 <= k < p.len() && p[k] == Pass::Multi;
                        assert(p[k] == Pass::Filtered(Some(fs[k])));
                    }
                }
                assert forall|f: BarcodeFormat| #[trigger] p.contains(Pass::Filtered(Some(f))) <==> fs.contains(f) by {
                    if fs.contains(f) {
                        let k = choose|k: int| 0 <= k < fs.len() && fs[k] == f;
                        assert(p[k] == Pass::Filtered(Some(f)));
                    }
                    if p.contains(Pass::Filtered(Some(f))) {
                        let k = choose|k: int| 0 <= k < p.len() && p[k] == Pass::Filtered(Some(f));
                        assert(p[k] == Pass::Filtered(Some(fs[k])));
                        assert(fs[k] == f);
                    }
                }
            },
        }
    }
}

} // verus!
