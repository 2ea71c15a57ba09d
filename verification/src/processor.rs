//! What to do with each input: the per-file decisions of the driver.
//!
//! `plan_file` decides, from the options and the file name alone,
//! whether a file is skipped, refused, or compressed / decompressed /
//! tested, and where the output goes. The caller does the file-system
//! work, asking `check_output` before it writes an output file.

use vstd::prelude::*;
use crate::options::{Format, Mode, Options, OptionsView};
use crate::suffix::{lemma_decompressed_names, lemma_decompressed_name_inverts_compressed, compressed_name, compressed_suffix_list, decompressed_name, has_compressed_suffix, output_path_compress,
    output_path_decompress};
use crate::text::{concat, has_suffix};
use crate::lzma::IoErrorKind;

verus! {

/// A request refused for one file.
#[derive(Debug, Clone, Copy, PartialEq, Eq, Structural)]
pub enum PlanError {
    /// Raw format without `--suffix=`: no output name can be formed.
    NoOutputSuffix,
    /// Raw format decompression needs `--suffix=`.
    RawNeedsSuffix,
    /// The output file exists and `-f` was not given.
    OutputExists,
    /// `--list` cannot read standard input.
    ListNeedsFile,
}

impl PlanError {
    /// The error kind of `std::io` this refusal is reported as.
    pub fn io_kind(&self) -> (k: IoErrorKind)
        ensures
            k == match self {
                PlanError::OutputExists => IoErrorKind::AlreadyExists,
                _ => IoErrorKind::InvalidInput,
            },
    {
        match self {
            PlanError::OutputExists => IoErrorKind::AlreadyExists,
            _ => IoErrorKind::InvalidInput,
        }
    }

    /// The text this refusal is reported with; `name` is the input file
    /// (the output file for `OutputExists`).
    pub fn message(&self, name: &str) -> (s: String)
        ensures
            s@ == match self {
                PlanError::NoOutputSuffix => name@ + ": no suffix to use for output (use --suffix= with raw format)"@,
                PlanError::RawNeedsSuffix => name@ + ": raw format requires --suffix="@,
                PlanError::OutputExists => name@ + ": already exists; use -f to overwrite"@,
                PlanError::ListNeedsFile => "--list does not support reading from standard input"@,
            },
    {
        match self {
            PlanError::NoOutputSuffix => concat(name, ": no suffix to use for output (use --suffix= with raw format)"),
            PlanError::RawNeedsSuffix => concat(name, ": raw format requires --suffix="),
            PlanError::OutputExists => concat(name, ": already exists; use -f to overwrite"),
            PlanError::ListNeedsFile => "--list does not support reading from standard input".to_owned(),
        }
    }
}

/// What to do with one input.
#[derive(Debug, Clone)]
pub enum FilePlan {
    /// Leave the file alone: it already has a compressed suffix
    /// (warn unless `-q`).
    SkipCompressed,
    /// Leave the file alone: its suffix is unknown (warn unless `-q`).
    SkipUnknownSuffix,
    /// Refuse the file.
    Fail(PlanError),
    /// Compress to standard output.
    CompressToStdout,
    /// Compress into `output`, then remove the input when `remove_input`.
    CompressTo { output: String, remove_input: bool },
    /// Decompress to standard output; with `passthrough`, input that does
    /// not look compressed is copied unchanged.
    DecompressToStdout { passthrough: bool },
    /// Decompress into `output`, then remove the input when `remove_input`.
    DecompressTo { output: String, remove_input: bool },
    /// Decode and discard, to test integrity.
    Test,
}

pub enum FilePlanView {
    SkipCompressed,
    SkipUnknownSuffix,
    Fail(PlanError),
    CompressToStdout,
    CompressTo(Seq<char>, bool),
    DecompressToStdout(bool),
    DecompressTo(Seq<char>, bool),
    Test,
}

impl View for FilePlan {
    type V = FilePlanView;

    open spec fn view(&self) -> FilePlanView {
        match self {
            FilePlan::SkipCompressed => FilePlanView::SkipCompressed,
            FilePlan::SkipUnknownSuffix => FilePlanView::SkipUnknownSuffix,
            FilePlan::Fail(e) => FilePlanView::Fail(*e),
            FilePlan::CompressToStdout => FilePlanView::CompressToStdout,
            FilePlan::CompressTo { output, remove_input } => FilePlanView::CompressTo(output@, *remove_input),
            FilePlan::DecompressToStdout { passthrough } => FilePlanView::DecompressToStdout(*passthrough),
            FilePlan::DecompressTo { output, remove_input } => FilePlanView::DecompressTo(output@, *remove_input),
            FilePlan::Test => FilePlanView::Test,
        }
    }
}

/// `name` ends with one of `.xz`, `.lzma`, `.lz`, `.txz`, `.tlz`.
pub open spec fn is_compressed_name(name: Seq<char>) -> bool {
    exists|k: int| 0 <= k < compressed_suffix_list().len() && has_suffix(name, #[trigger] compressed_suffix_list()[k])
}

/// The plan for the file `path` under the options `o` (not `--list`).
pub open spec fn file_plan(path: Seq<char>, o: OptionsView) -> FilePlanView {
    match o.mode {
        Mode::Compress => if is_compressed_name(path) && !o.force && o.suffix is None {
            FilePlanView::SkipCompressed
        } else if o.stdout {
            FilePlanView::CompressToStdout
        } else {
            match compressed_name(path, o.format, o.suffix) {
                Some(out) => FilePlanView::CompressTo(out, !o.keep),
                None => FilePlanView::Fail(PlanError::NoOutputSuffix),
            }
        },
        Mode::Decompress => if o.format == Format::Raw && o.suffix is None {
            FilePlanView::Fail(PlanError::RawNeedsSuffix)
        } else if o.stdout {
            FilePlanView::DecompressToStdout(o.force)
        } else {
            match decompressed_name(path, o.suffix) {
                Some(out) => FilePlanView::DecompressTo(out, !o.keep),
                None => FilePlanView::SkipUnknownSuffix,
            }
        },
        _ => FilePlanView::Test,
    }
}

/// Decide what to do with the file `path`. `--list` is handled
/// separately, before any file is processed.
pub fn plan_file(path: &str, opts: &Options) -> (p: FilePlan)
    requires
        opts.mode != Mode::List,
    ensures
        p@ == file_plan(path@, opts@),
{
    let suffix: Option<&str> = match &opts.suffix {
        Some(s) => Some(s.as_str()),
        None => None,
    };
    match opts.mode {
        Mode::Compress => {
            if has_compressed_suffix(path) && !opts.force && opts.suffix.is_none() {
                return FilePlan::SkipCompressed;
            }
            if opts.stdout {
                return FilePlan::CompressToStdout;
            }
            match output_path_compress(path, opts.format, suffix) {
                Some(out) => FilePlan::CompressTo { output: out, remove_input: !opts.keep },
                None => FilePlan::Fail(PlanError::NoOutputSuffix),
            }
        },
        Mode::Decompress => {
            if opts.format == Format::Raw && opts.suffix.is_none() {
                return FilePlan::Fail(PlanError::RawNeedsSuffix);
            }
            if opts.stdout {
                return FilePlan::DecompressToStdout { passthrough: opts.force };
            }
            match output_path_decompress(path, suffix) {
                Some(out) => FilePlan::DecompressTo { output: out, remove_input: !opts.keep },
                None => FilePlan::SkipUnknownSuffix,
            }
        },
        _ => FilePlan::Test,
    }
}

/// Whether an output file may be written: not when it exists and `-f`
/// was not given.
pub fn check_output(opts: &Options, output_exists: bool) -> (r: Result<(), PlanError>)
    ensures
        r is Err <==> output_exists && !opts.force,
        r matches Err(e) ==> e == PlanError::OutputExists,
{
    if output_exists && !opts.force {
        Err(PlanError::OutputExists)
    } else {
        Ok(())
    }
}

/// The plan for standard input.
pub open spec fn stdio_plan(o: OptionsView) -> FilePlanView {
    match o.mode {
        Mode::Compress => FilePlanView::CompressToStdout,
        Mode::Decompress => FilePlanView::DecompressToStdout(o.force && o.stdout),
        Mode::Test => FilePlanView::Test,
        Mode::List => FilePlanView::Fail(PlanError::ListNeedsFile),
    }
}

/// Decide what to do with standard input: it always goes to standard
/// output, passed through unchanged only with both `-f` and `-c`.
pub fn plan_stdio(opts: &Options) -> (p: FilePlan)
    ensures
        p@ == stdio_plan(opts@),
{
    match opts.mode {
        Mode::Compress => FilePlan::CompressToStdout,
        Mode::Decompress => FilePlan::DecompressToStdout { passthrough: opts.force && opts.stdout },
        Mode::Test => FilePlan::Test,
        Mode::List => FilePlan::Fail(PlanError::ListNeedsFile),
    }
}

/// The names taken as already compressed are exactly those ending in
/// `.xz`, `.lzma`, `.lz`, `.txz` or `.tlz`.
pub proof fn lemma_compressed_names(name: Seq<char>)
    ensures
        is_compressed_name(name) <==> (has_suffix(name, ".xz"@) || has_suffix(name, ".lzma"@) || has_suffix(name, ".lz"@)
            || has_suffix(name, ".txz"@) || has_suffix(name, ".tlz"@)),
{
    let l = compressed_suffix_list();
    assert(l.len() == 5);
    assert(l[0] == ".xz"@ && l[1] == ".lzma"@ && l[2] == ".lz"@ && l[3] == ".txz"@ && l[4] == ".tlz"@);
}

/// Compressing a file whose name has none of those suffixes, to a file
/// (not `-c`), writes `NAME.xz` (`.lzma` for the `.lzma` format, `.lz`
/// for lzip, or `NAME` + the `--suffix=` when one is given) and removes
/// the input unless `-k`.
pub proof fn lemma_plain_name_compress_plan(path: Seq<char>, o: OptionsView)
    requires
        o.mode == Mode::Compress,
        !o.stdout,
        !has_suffix(path, ".xz"@) && !has_suffix(path, ".lzma"@) && !has_suffix(path, ".lz"@),
        !has_suffix(path, ".txz"@) && !has_suffix(path, ".tlz"@),
    ensures
        o.suffix matches Some(s) ==> file_plan(path, o) == FilePlanView::CompressTo(path + s, !o.keep),
        o.suffix is None && (o.format is Xz || o.format is Auto) ==> file_plan(path, o) == FilePlanView::CompressTo(
            path + ".xz"@,
            !o.keep,
        ),
        o.suffix is None && o.format is Lzma ==> file_plan(path, o) == FilePlanView::CompressTo(path + ".lzma"@, !o.keep),
        o.suffix is None && o.format is Lzip ==> file_plan(path, o) == FilePlanView::CompressTo(path + ".lz"@, !o.keep),
        o.suffix is None && o.format is Raw ==> file_plan(path, o) == FilePlanView::Fail(PlanError::NoOutputSuffix),
{
    lemma_compressed_names(path);
}

/// Decompressing `NAME.xz` (or `.lzma`, `.lz`) to a file writes `NAME`,
/// `NAME.txz` / `NAME.tlz` write `NAME.tar`, and the input is removed
/// unless `-k`; with `-c` the data goes to standard output, copied
/// through unchanged only with `-f` when it is not compressed; `-t` only
/// tests.
pub proof fn lemma_decompress_and_test_plans(n: Seq<char>, o: OptionsView)
    requires
        o.format != Format::Raw,
    ensures
        o.mode == Mode::Decompress && !o.stdout && o.suffix is None ==> {
            &&& file_plan(n + ".xz"@, o) == FilePlanView::DecompressTo(n, !o.keep)
            &&& file_plan(n + ".lzma"@, o) == FilePlanView::DecompressTo(n, !o.keep)
            &&& file_plan(n + ".lz"@, o) == FilePlanView::DecompressTo(n, !o.keep)
            &&& file_plan(n + ".txz"@, o) == FilePlanView::DecompressTo(n + ".tar"@, !o.keep)
            &&& file_plan(n + ".tlz"@, o) == FilePlanView::DecompressTo(n + ".tar"@, !o.keep)
        },
        o.mode == Mode::Decompress && o.stdout ==> file_plan(n, o) == FilePlanView::DecompressToStdout(o.force),
        o.mode == Mode::Test ==> file_plan(n, o) == FilePlanView::Test,
{
    lemma_decompressed_names(n, Seq::empty());
}

/// Standard input always goes to standard output: compressed, or
/// decompressed (copied through unchanged only with both `-f` and `-c`),
/// or tested; `--list` cannot read it.
pub proof fn lemma_stdio_plans(o: OptionsView)
    ensures
        o.mode == Mode::Compress ==> stdio_plan(o) == FilePlanView::CompressToStdout,
        o.mode == Mode::Decompress ==> stdio_plan(o) == FilePlanView::DecompressToStdout(o.force && o.stdout),
        o.mode == Mode::Test ==> stdio_plan(o) == FilePlanView::Test,
        o.mode == Mode::List ==> stdio_plan(o) == FilePlanView::Fail(PlanError::ListNeedsFile),
{
}

/// A file compressed under some options is planned, under decompression
/// options with the same `--suffix=` (and, without one, a format that is
/// not raw), to be decompressed back into its own name.
pub proof fn lemma_decompress_plan_undoes_compress_plan(path: Seq<char>, c: OptionsView, d: OptionsView)
    requires
        c.mode == Mode::Compress,
        file_plan(path, c) is CompressTo,
        d.mode == Mode::Decompress,
        d.suffix == c.suffix,
        !d.stdout,
        d.suffix is None ==> d.format != Format::Raw,
    ensures
        file_plan(file_plan(path, c)->CompressTo_0, d) == FilePlanView::DecompressTo(path, !d.keep),
{
    lemma_decompressed_name_inverts_compressed(path, c.format, c.suffix);
}

} // verus!
