//! Command-line argument parsing for the xz front end.
//!
//! Parsing is a pure step function over the argument list. Reading a
//! `--files=`/`--files0=` list is the caller's work: the parser stops
//! with `ParseStep::ReadList`, the caller reads the named file, hands
//! its bytes to `add_files_list`, and resumes with `parse_resume`.

use vstd::prelude::*;
use vstd::utf8::{encode_utf8, valid_utf8, decode_utf8};
use crate::options::{BcjArch, FilterChain, FilterKind, Format, Mode, Options, OptionsView, defaults_view, strings_view};
use crate::text::{chars_of, chars_eq_str, starts_with, has_prefix, parse_u32, u32_of, substring, white, is_white};

verus! {

// ---------------------------------------------------------------------
// Results
// ---------------------------------------------------------------------

/// Why a command line is refused.
#[derive(Debug, Clone)]
pub enum ParseError {
    /// `-F`/`--format` followed by an unknown name, or by nothing.
    UnknownFormatArg(Option<String>),
    /// `--format=NAME` or `-FNAME` with an unknown `NAME`.
    UnknownFormat(String),
    /// An unsupported `--lzma1=` argument (the whole argument).
    BadLzma1(String),
    /// An unsupported `--lzma2=` argument (the whole argument).
    BadLzma2(String),
    /// An unsupported `--filters=` argument (the whole argument).
    BadFilters(String),
    /// An unknown letter inside a group of short flags.
    UnknownOption(char),
}

/// The outcome of parsing (part of) a command line.
#[derive(Debug, Clone)]
pub enum ParseStep {
    /// Parsing is complete.
    Run(Options),
    /// `-h`/`--help`: print the help text and exit successfully.
    Help,
    /// `-V`/`--version`: print the version and exit successfully.
    Version,
    /// The command line is refused.
    Fail(ParseError),
    /// A `--files=`/`--files0=` argument: read the list at `path`, add
    /// its entries with `add_files_list` (splitting at `separator`) and
    /// continue with `parse_resume` at `resume_at`.
    ReadList { opts: Options, path: String, separator: u8, resume_at: usize },
}

pub enum ParseErrorView {
    UnknownFormatArg(Option<Seq<char>>),
    UnknownFormat(Seq<char>),
    BadLzma1(Seq<char>),
    BadLzma2(Seq<char>),
    BadFilters(Seq<char>),
    UnknownOption(char),
}

pub enum ParseStepView {
    Run(OptionsView),
    Help,
    Version,
    Fail(ParseErrorView),
    ReadList(OptionsView, Seq<char>, u8, int),
}

impl View for ParseError {
    type V = ParseErrorView;

    open spec fn view(&self) -> ParseErrorView {
        match self {
            ParseError::UnknownFormatArg(a) => ParseErrorView::UnknownFormatArg(
                match a {
                    Some(s) => Some(s@),
                    None => None,
                },
            ),
            ParseError::UnknownFormat(s) => ParseErrorView::UnknownFormat(s@),
            ParseError::BadLzma1(s) => ParseErrorView::BadLzma1(s@),
            ParseError::BadLzma2(s) => ParseErrorView::BadLzma2(s@),
            ParseError::BadFilters(s) => ParseErrorView::BadFilters(s@),
            ParseError::UnknownOption(c) => ParseErrorView::UnknownOption(*c),
        }
    }
}

impl View for ParseStep {
    type V = ParseStepView;

    open spec fn view(&self) -> ParseStepView {
        match self {
            ParseStep::Run(o) => ParseStepView::Run(o@),
            ParseStep::Help => ParseStepView::Help,
            ParseStep::Version => ParseStepView::Version,
            ParseStep::Fail(e) => ParseStepView::Fail(e@),
            ParseStep::ReadList { opts, path, separator, resume_at } => ParseStepView::ReadList(
                opts@,
                path@,
                *separator,
                *resume_at as int,
            ),
        }
    }
}

// ---------------------------------------------------------------------
// Formats and filter values
// ---------------------------------------------------------------------

/// `auto`/`xz`/`lzma`/`alone`/`lzip`/`raw`.
pub open spec fn format_named(name: Seq<char>) -> Option<Format> {
    if name == "auto"@ {
        Some(Format::Auto)
    } else if name == "xz"@ {
        Some(Format::Xz)
    } else if name == "lzma"@ || name == "alone"@ {
        Some(Format::Lzma)
    } else if name == "lzip"@ {
        Some(Format::Lzip)
    } else if name == "raw"@ {
        Some(Format::Raw)
    } else {
        None
    }
}

/// The format names: `auto`, `xz`, `lzma` and `alone` (both `.lzma`),
/// `lzip` and `raw`; any other name is none.
pub proof fn lemma_format_names(n: Seq<char>)
    ensures
        format_named("auto"@) == Some(Format::Auto),
        format_named("xz"@) == Some(Format::Xz),
        format_named("lzma"@) == Some(Format::Lzma),
        format_named("alone"@) == Some(Format::Lzma),
        format_named("lzip"@) == Some(Format::Lzip),
        format_named("raw"@) == Some(Format::Raw),
        n != "auto"@ && n != "xz"@ && n != "lzma"@ && n != "alone"@ && n != "lzip"@ && n != "raw"@ ==> format_named(n)
            is None,
{
    reveal_strlit("auto");
    reveal_strlit("xz");
    reveal_strlit("lzma");
    reveal_strlit("alone");
    reveal_strlit("lzip");
    reveal_strlit("raw");
    assert("xz"@.len() != "auto"@.len());
    assert("lzma"@[0] != "auto"@[0] && "lzma"@.len() != "xz"@.len());
    assert("alone"@.len() != "auto"@.len() && "alone"@.len() != "xz"@.len() && "alone"@.len() != "lzma"@.len());
    assert("lzip"@[0] != "auto"@[0] && "lzip"@.len() != "xz"@.len() && "lzip"@[2] != "lzma"@[2]);
    assert("lzip"@.len() != "alone"@.len());
    assert("raw"@.len() != "auto"@.len() && "raw"@.len() != "xz"@.len() && "raw"@.len() != "lzma"@.len());
    assert("raw"@.len() != "alone"@.len() && "raw"@.len() != "lzip"@.len());
}

/// `v` without one trailing `e` ("extreme" marker), if it has one.
pub open spec fn without_e(v: Seq<char>) -> Seq<char> {
    if v.len() > 0 && v.last() == 'e' {
        v.drop_last()
    } else {
        v
    }
}

/// The filter a `--lzma1=`/`--lzma2=` value selects: `preset=N` with an
/// optional trailing `e`.
pub open spec fn lzma_value(value: Seq<char>, lzma2: bool) -> Option<FilterKind> {
    let v = without_e(value);
    if has_prefix(v, "preset="@) {
        match u32_of(v.subrange(7, v.len() as int)) {
            Some(p) => Some(
                if lzma2 {
                    FilterKind::Lzma2Preset(p)
                } else {
                    FilterKind::Lzma1Preset(p)
                },
            ),
            None => None,
        }
    } else {
        None
    }
}

/// Index of the first `c` in `s` at or after `i`, or `s.len()`.
pub open spec fn find_from(s: Seq<char>, c: char, i: int) -> int
    decreases s.len() - i,
{
    if i >= s.len() {
        s.len() as int
    } else if s[i] == c {
        i
    } else {
        find_from(s, c, i + 1)
    }
}

proof fn lemma_find_from_range(s: Seq<char>, c: char, i: int)
    requires
        0 <= i <= s.len(),
    ensures
        i <= find_from(s, c, i) <= s.len(),
    decreases s.len() - i,
{
    if i < s.len() && s[i] != c {
        lemma_find_from_range(s, c, i + 1);
    }
}

/// The preset of a `lzma1:OPTS`/`lzma2:OPTS` token; 6 unless `OPTS`
/// is `preset=N` (optionally followed by `e`).
pub open spec fn token_preset(opts: Option<Seq<char>>) -> u32 {
    match opts {
        Some(o) => if has_prefix(o, "preset="@) {
            match u32_of(without_e(o.subrange(7, o.len() as int))) {
                Some(p) => p,
                None => 6,
            }
        } else {
            6
        },
        None => 6,
    }
}

/// The filter a `--filters=` token names: `NAME` or `NAME:OPTS`.
pub open spec fn token_kind(tok: Seq<char>) -> Option<FilterKind> {
    let k = find_from(tok, ':', 0);
    let name = tok.subrange(0, k);
    let opts = if k < tok.len() { Some(tok.subrange(k + 1, tok.len() as int)) } else { None };
    if name == "lzma1"@ {
        Some(FilterKind::Lzma1Preset(token_preset(opts)))
    } else if name == "lzma2"@ {
        Some(FilterKind::Lzma2Preset(token_preset(opts)))
    } else if name == "delta"@ {
        Some(FilterKind::Delta)
    } else if name == "x86"@ {
        Some(FilterKind::Bcj(BcjArch::X86))
    } else if name == "arm"@ {
        Some(FilterKind::Bcj(BcjArch::Arm))
    } else if name == "arm64"@ {
        Some(FilterKind::Bcj(BcjArch::Arm64))
    } else if name == "armthumb"@ {
        Some(FilterKind::Bcj(BcjArch::ArmThumb))
    } else if name == "powerpc"@ || name == "ppc"@ {
        Some(FilterKind::Bcj(BcjArch::PowerPc))
    } else if name == "ia64"@ {
        Some(FilterKind::Bcj(BcjArch::Ia64))
    } else if name == "sparc"@ {
        Some(FilterKind::Bcj(BcjArch::Sparc))
    } else if name == "riscv"@ {
        Some(FilterKind::Bcj(BcjArch::RiscV))
    } else {
        None
    }
}

/// `s[i..]` with every `--` (taken left to right) replaced by a space.
pub open spec fn dashes_to_spaces(s: Seq<char>, i: int) -> Seq<char>
    decreases s.len() - i,
{
    if i >= s.len() {
        Seq::empty()
    } else if i + 1 < s.len() && s[i] == '-' && s[i + 1] == '-' {
        seq![' '] + dashes_to_spaces(s, i + 2)
    } else {
        seq![s[i]] + dashes_to_spaces(s, i + 1)
    }
}

/// The white-space separated words of `s[i..]`, where `start` is the
/// beginning of the word being read when there is one.
pub open spec fn words_from(s: Seq<char>, i: int, start: Option<int>) -> Seq<Seq<char>>
    decreases s.len() - i,
{
    if i >= s.len() {
        match start {
            Some(b) => seq![s.subrange(b, s.len() as int)],
            None => Seq::empty(),
        }
    } else if is_white(s[i]) {
        match start {
            Some(b) => seq![s.subrange(b, i)] + words_from(s, i + 1, None),
            None => words_from(s, i + 1, None),
        }
    } else {
        words_from(s, i + 1, if start is Some { start } else { Some(i) })
    }
}

/// The white-space separated words of `s` (`str::split_whitespace`).
pub open spec fn words(s: Seq<char>) -> Seq<Seq<char>> {
    words_from(s, 0, None)
}

/// The filters the words name, or `None` if one names none.
pub open spec fn kinds_of(toks: Seq<Seq<char>>) -> Option<Seq<FilterKind>>
    decreases toks.len(),
{
    if toks.len() == 0 {
        Some(Seq::empty())
    } else {
        match (kinds_of(toks.drop_last()), token_kind(toks.last())) {
            (Some(r), Some(k)) => Some(r.push(k)),
            _ => None,
        }
    }
}

/// The chain a `--filters=` value names: words separated by white space
/// or `--`; `None` if a word names no filter or there are none.
pub open spec fn filters_value(value: Seq<char>) -> Option<Seq<FilterKind>> {
    match kinds_of(words(dashes_to_spaces(value, 0))) {
        Some(c) => if c.len() == 0 { None } else { Some(c) },
        None => None,
    }
}

// ---------------------------------------------------------------------
// One argument at a time
// ---------------------------------------------------------------------

/// `o` with `k` appended to its filter chain (started if absent).
pub open spec fn with_filter(o: OptionsView, k: FilterKind) -> OptionsView {
    OptionsView {
        filter: Some(
            match o.filter {
                Some(c) => c.push(k),
                None => seq![k],
            },
        ),
        ..o
    }
}

pub open spec fn with_mode(o: OptionsView, m: Mode) -> OptionsView {
    OptionsView { mode: m, ..o }
}

pub open spec fn with_level(o: OptionsView, l: u32) -> OptionsView {
    OptionsView { level: l, ..o }
}

/// The effect of a single flag letter in a group like `-dkv`.
pub open spec fn letter_effect(o: OptionsView, c: char) -> Option<OptionsView> {
    if c == 'd' {
        Some(with_mode(o, Mode::Decompress))
    } else if c == 'z' {
        Some(with_mode(o, Mode::Compress))
    } else if c == 't' {
        Some(with_mode(o, Mode::Test))
    } else if c == 'l' {
        Some(with_mode(o, Mode::List))
    } else if c == 'c' {
        Some(OptionsView { stdout: true, ..o })
    } else if c == 'k' {
        Some(OptionsView { keep: true, ..o })
    } else if c == 'f' {
        Some(OptionsView { force: true, ..o })
    } else if c == 'v' {
        Some(OptionsView { verbose: true, ..o })
    } else if c == 'q' {
        Some(OptionsView { quiet: true, ..o })
    } else if c == 'Q' {
        Some(OptionsView { no_warn: true, ..o })
    } else if '0' <= c && c <= '9' {
        Some(with_level(o, ((c as u32) - ('0' as u32)) as u32))
    } else {
        None
    }
}

/// A group of flag letters, applied left to right; the first unknown
/// letter refuses the group.
pub open spec fn letters_effect(o: OptionsView, cs: Seq<char>) -> Result<OptionsView, char>
    decreases cs.len(),
{
    if cs.len() == 0 {
        Ok(o)
    } else {
        match letters_effect(o, cs.drop_last()) {
            Ok(o1) => match letter_effect(o1, cs.last()) {
                Some(o2) => Ok(o2),
                None => Err(cs.last()),
            },
            Err(c) => Err(c),
        }
    }
}

/// The effect of an argument that is one of the stand-alone flags.
pub open spec fn flag_effect(o: OptionsView, a: Seq<char>) -> Option<OptionsView> {
    if a == "-d"@ || a == "--decompress"@ || a == "--uncompress"@ {
        Some(with_mode(o, Mode::Decompress))
    } else if a == "-z"@ || a == "--compress"@ {
        Some(with_mode(o, Mode::Compress))
    } else if a == "-t"@ || a == "--test"@ {
        Some(with_mode(o, Mode::Test))
    } else if a == "-l"@ || a == "--list"@ {
        Some(with_mode(o, Mode::List))
    } else if a == "-c"@ || a == "--stdout"@ || a == "--to-stdout"@ {
        Some(OptionsView { stdout: true, ..o })
    } else if a == "-k"@ || a == "--keep"@ {
        Some(OptionsView { keep: true, ..o })
    } else if a == "-f"@ || a == "--force"@ {
        Some(OptionsView { force: true, ..o })
    } else if a == "-v"@ || a == "--verbose"@ {
        Some(OptionsView { verbose: true, ..o })
    } else if a == "-q"@ || a == "--quiet"@ {
        Some(OptionsView { quiet: true, ..o })
    } else if a == "-Q"@ || a == "--no-warn"@ {
        Some(OptionsView { no_warn: true, ..o })
    } else if a == "--fast"@ {
        Some(with_level(o, 0))
    } else if a == "--best"@ {
        Some(with_level(o, 9))
    } else if a == "--no-adjust"@ {
        Some(o)
    } else if a.len() == 2 && a[0] == '-' && '0' <= a[1] && a[1] <= '9' {
        Some(with_level(o, ((a[1] as u32) - ('0' as u32)) as u32))
    } else if a == "--x86"@ {
        Some(with_filter(o, FilterKind::Bcj(BcjArch::X86)))
    } else if a == "--arm"@ {
        Some(with_filter(o, FilterKind::Bcj(BcjArch::Arm)))
    } else if a == "--arm64"@ {
        Some(with_filter(o, FilterKind::Bcj(BcjArch::Arm64)))
    } else if a == "--armthumb"@ {
        Some(with_filter(o, FilterKind::Bcj(BcjArch::ArmThumb)))
    } else if a == "--powerpc"@ {
        Some(with_filter(o, FilterKind::Bcj(BcjArch::PowerPc)))
    } else if a == "--ia64"@ {
        Some(with_filter(o, FilterKind::Bcj(BcjArch::Ia64)))
    } else if a == "--sparc"@ {
        Some(with_filter(o, FilterKind::Bcj(BcjArch::Sparc)))
    } else if a == "--riscv"@ {
        Some(with_filter(o, FilterKind::Bcj(BcjArch::RiscV)))
    } else if a == "--delta"@ {
        Some(with_filter(o, FilterKind::Delta))
    } else {
        None
    }
}

/// Length in bytes of the UTF-8 encoding of `a`.
pub open spec fn byte_len(a: Seq<char>) -> int {
    encode_utf8(a).len() as int
}

/// An argument like `-dkv`: a group of flag letters.
pub open spec fn is_letter_group(a: Seq<char>) -> bool {
    &&& has_prefix(a, "-"@)
    &&& !has_prefix(a, "--"@)
    &&& byte_len(a) > 2
    &&& !has_prefix(a, "-T"@)
    &&& !has_prefix(a, "-F"@)
    &&& !has_prefix(a, "-S"@)
}

/// What reading argument `i` does: continue with new options (skipping
/// the following argument too when the flag takes it), or stop.
pub enum ArgStep {
    Next(OptionsView, bool),
    Stop(ParseStepView),
}

pub open spec fn arg_step(o: OptionsView, args: Seq<Seq<char>>, i: int) -> ArgStep {
    match flag_effect(o, args[i]) {
        Some(o2) => ArgStep::Next(o2, false),
        None => word_step(o, args, i),
    }
}

/// Arguments that are whole words other than the stand-alone flags.
pub open spec fn word_step(o: OptionsView, args: Seq<Seq<char>>, i: int) -> ArgStep {
    let a = args[i];
    let has_next = i + 1 < args.len();
    if a == "-T"@ || a == "--threads"@ {
        ArgStep::Next(o, true)
    } else if a == "-F"@ || a == "--format"@ {
        if has_next && format_named(args[i + 1]) is Some {
            ArgStep::Next(OptionsView { format: format_named(args[i + 1])->0, ..o }, true)
        } else {
            ArgStep::Stop(
                ParseStepView::Fail(
                    ParseErrorView::UnknownFormatArg(
                        if has_next {
                            Some(args[i + 1])
                        } else {
                            None
                        },
                    ),
                ),
            )
        }
    } else if a == "-S"@ || a == "--suffix"@ {
        ArgStep::Next(
            if has_next {
                OptionsView { suffix: Some(args[i + 1]), ..o }
            } else {
                o
            },
            true,
        )
    } else if a == "-h"@ || a == "--help"@ {
        ArgStep::Stop(ParseStepView::Help)
    } else if a == "-V"@ || a == "--version"@ {
        ArgStep::Stop(ParseStepView::Version)
    } else if a == "--"@ {
        ArgStep::Stop(
            ParseStepView::Run(OptionsView { files: o.files + args.subrange(i + 1, args.len() as int), ..o }),
        )
    } else {
        prefix_step(o, a, i)
    }
}

/// Arguments of the form `--NAME=VALUE` and `--memlimit...`.
pub open spec fn prefix_step(o: OptionsView, a: Seq<char>, i: int) -> ArgStep {
    if has_prefix(a, "--format="@) {
        let name = a.subrange(9, a.len() as int);
        match format_named(name) {
            Some(f) => ArgStep::Next(OptionsView { format: f, ..o }, false),
            None => ArgStep::Stop(ParseStepView::Fail(ParseErrorView::UnknownFormat(name))),
        }
    } else if has_prefix(a, "--suffix="@) {
        ArgStep::Next(OptionsView { suffix: Some(a.subrange(9, a.len() as int)), ..o }, false)
    } else if has_prefix(a, "--lzma1="@) {
        match lzma_value(a.subrange(8, a.len() as int), false) {
            Some(k) => ArgStep::Next(with_filter(o, k), false),
            None => ArgStep::Stop(ParseStepView::Fail(ParseErrorView::BadLzma1(a))),
        }
    } else if has_prefix(a, "--lzma2="@) {
        match lzma_value(a.subrange(8, a.len() as int), true) {
            Some(k) => ArgStep::Next(with_filter(o, k), false),
            None => ArgStep::Stop(ParseStepView::Fail(ParseErrorView::BadLzma2(a))),
        }
    } else if has_prefix(a, "--filters="@) {
        match filters_value(a.subrange(10, a.len() as int)) {
            Some(c) => ArgStep::Next(OptionsView { filter: Some(c), ..o }, false),
            None => ArgStep::Stop(ParseStepView::Fail(ParseErrorView::BadFilters(a))),
        }
    } else if has_prefix(a, "--files="@) {
        ArgStep::Stop(ParseStepView::ReadList(o, a.subrange(8, a.len() as int), 10u8, i + 1))
    } else if has_prefix(a, "--files0="@) {
        ArgStep::Stop(ParseStepView::ReadList(o, a.subrange(9, a.len() as int), 0u8, i + 1))
    } else if has_prefix(a, "--memlimit"@) {
        ArgStep::Next(o, false)
    } else {
        short_step(o, a)
    }
}

/// Letter groups, `-T`/`-F`/`-S` with attached values, `--threads=`,
/// and file names.
pub open spec fn short_step(o: OptionsView, a: Seq<char>) -> ArgStep {
    if is_letter_group(a) {
        match letters_effect(o, a.subrange(1, a.len() as int)) {
            Ok(o2) => ArgStep::Next(o2, false),
            Err(c) => ArgStep::Stop(ParseStepView::Fail(ParseErrorView::UnknownOption(c))),
        }
    } else if has_prefix(a, "--threads="@) {
        ArgStep::Next(o, false)
    } else if has_prefix(a, "-T"@) && byte_len(a) > 2 {
        ArgStep::Next(o, false)
    } else if has_prefix(a, "-F"@) && byte_len(a) > 2 {
        let name = a.subrange(2, a.len() as int);
        match format_named(name) {
            Some(f) => ArgStep::Next(OptionsView { format: f, ..o }, false),
            None => ArgStep::Stop(ParseStepView::Fail(ParseErrorView::UnknownFormat(name))),
        }
    } else if has_prefix(a, "-S"@) && byte_len(a) > 2 {
        ArgStep::Next(OptionsView { suffix: Some(a.subrange(2, a.len() as int)), ..o }, false)
    } else {
        ArgStep::Next(OptionsView { files: o.files.push(a), ..o }, false)
    }
}

/// The outcome of parsing `args[i..]` starting from the options `o`.
pub open spec fn parse_spec(o: OptionsView, args: Seq<Seq<char>>, i: int) -> ParseStepView
    decreases args.len() - i,
{
    if i < 0 || i >= args.len() {
        ParseStepView::Run(o)
    } else {
        match arg_step(o, args, i) {
            ArgStep::Next(o2, skip) => {
                let j = if skip { i + 2 } else { i + 1 };
                parse_spec(o2, args, if j > args.len() { args.len() as int } else { j })
            },
            ArgStep::Stop(r) => r,
        }
    }
}


// ---------------------------------------------------------------------
// Executable parsing
// ---------------------------------------------------------------------

/// Parse `auto`/`xz`/`lzma`/`alone`/`lzip`/`raw` into a `Format`.
fn parse_format(name: &[char]) -> (r: Option<Format>)
    ensures
        r == format_named(name@),
{
    if chars_eq_str(name, "auto") {
        Some(Format::Auto)
    } else if chars_eq_str(name, "xz") {
        Some(Format::Xz)
    } else if chars_eq_str(name, "lzma") || chars_eq_str(name, "alone") {
        Some(Format::Lzma)
    } else if chars_eq_str(name, "lzip") {
        Some(Format::Lzip)
    } else if chars_eq_str(name, "raw") {
        Some(Format::Raw)
    } else {
        None
    }
}

/// `v` without one trailing `e`.
fn strip_e(v: &[char]) -> (r: &[char])
    ensures
        r@ == without_e(v@),
{
    if v.len() > 0 && v[v.len() - 1] == 'e' {
        proof {
            assert(v@.drop_last() =~= v@.subrange(0, v.len() - 1));
        }
        &v[0..v.len() - 1]
    } else {
        v
    }
}

/// Parse a `--lzma1=`/`--lzma2=` value: `preset=N` with an optional
/// trailing `e` ("extreme", which is ignored).
fn parse_lzma_value(value: &[char], lzma2: bool) -> (r: Option<FilterKind>)
    ensures
        r == lzma_value(value@, lzma2),
{
    let v = strip_e(value);
    if !starts_with(v, "preset=") {
        return None;
    }
    proof {
        reveal_strlit("preset=");
    }
    match parse_u32(&v[7..v.len()]) {
        Some(p) => Some(
            if lzma2 {
                FilterKind::Lzma2Preset(p)
            } else {
                FilterKind::Lzma1Preset(p)
            },
        ),
        None => None,
    }
}

/// The preset given in the options of a `lzma1:`/`lzma2:` token.
fn parse_token_preset(opts: Option<&[char]>) -> (r: u32)
    ensures
        r == token_preset(
            match opts {
                Some(o) => Some(o@),
                None => None,
            },
        ),
{
    match opts {
        Some(o) => {
            if starts_with(o, "preset=") {
                proof {
                    reveal_strlit("preset=");
                }
                match parse_u32(strip_e(&o[7..o.len()])) {
                    Some(p) => p,
                    None => 6,
                }
            } else {
                6
            }
        },
        None => 6,
    }
}

/// Index of the first `c` in `s`, or `s.len()`.
fn find_char(s: &[char], c: char) -> (k: usize)
    ensures
        k == find_from(s@, c, 0),
        k <= s.len(),
{
    proof {
        lemma_find_from_range(s@, c, 0);
    }
    let mut i: usize = 0;
    while i < s.len()
        invariant
            i <= s.len(),
            find_from(s@, c, 0) == find_from(s@, c, i as int),
        decreases s.len() - i,
    {
        if s[i] == c {
            return i;
        }
        i = i + 1;
    }
    i
}

/// Parse one token of a `--filters=` chain: a filter name, optionally
/// followed by `:` and options.
fn parse_filter_token(tok: &[char]) -> (r: Option<FilterKind>)
    ensures
        r == token_kind(tok@),
{
    let k = find_char(tok, ':');
    let name = &tok[0..k];
    let opts: Option<&[char]> = if k < tok.len() {
        Some(&tok[k + 1..tok.len()])
    } else {
        None
    };
    if chars_eq_str(name, "lzma1") {
        Some(FilterKind::Lzma1Preset(parse_token_preset(opts)))
    } else if chars_eq_str(name, "lzma2") {
        Some(FilterKind::Lzma2Preset(parse_token_preset(opts)))
    } else if chars_eq_str(name, "delta") {
        Some(FilterKind::Delta)
    } else if chars_eq_str(name, "x86") {
        Some(FilterKind::Bcj(BcjArch::X86))
    } else if chars_eq_str(name, "arm") {
        Some(FilterKind::Bcj(BcjArch::Arm))
    } else if chars_eq_str(name, "arm64") {
        Some(FilterKind::Bcj(BcjArch::Arm64))
    } else if chars_eq_str(name, "armthumb") {
        Some(FilterKind::Bcj(BcjArch::ArmThumb))
    } else if chars_eq_str(name, "powerpc") || chars_eq_str(name, "ppc") {
        Some(FilterKind::Bcj(BcjArch::PowerPc))
    } else if chars_eq_str(name, "ia64") {
        Some(FilterKind::Bcj(BcjArch::Ia64))
    } else if chars_eq_str(name, "sparc") {
        Some(FilterKind::Bcj(BcjArch::Sparc))
    } else if chars_eq_str(name, "riscv") {
        Some(FilterKind::Bcj(BcjArch::RiscV))
    } else {
        None
    }
}

/// `value` with every `--` replaced by a space.
fn replace_dashes(value: &[char]) -> (r: Vec<char>)
    ensures
        r@ == dashes_to_spaces(value@, 0),
{
    let mut out: Vec<char> = Vec::new();
    let mut i: usize = 0;
    while i < value.len()
        invariant
            i <= value.len(),
            dashes_to_spaces(value@, 0) == out@ + dashes_to_spaces(value@, i as int),
        decreases value.len() - i,
    {
        let ghost prev = out@;
        if i + 1 < value.len() && value[i] == '-' && value[i + 1] == '-' {
            out.push(' ');
            assert(prev + dashes_to_spaces(value@, i as int) =~= out@ + dashes_to_spaces(value@, i + 2));
            i = i + 2;
        } else {
            out.push(value[i]);
            assert(prev + dashes_to_spaces(value@, i as int) =~= out@ + dashes_to_spaces(value@, i + 1));
            i = i + 1;
        }
    }
    out
}


pub open spec fn words_view(w: Seq<Vec<char>>) -> Seq<Seq<char>> {
    w.map_values(|x: Vec<char>| x@)
}

pub open spec fn opt_index(o: Option<usize>) -> Option<int> {
    match o {
        Some(b) => Some(b as int),
        None => None,
    }
}

/// The white-space separated words of `s`.
fn split_words(s: &[char]) -> (r: Vec<Vec<char>>)
    ensures
        words_view(r@) == words(s@),
{
    let mut out: Vec<Vec<char>> = Vec::new();
    let mut start: Option<usize> = None;
    let mut i: usize = 0;
    while i < s.len()
        invariant
            i <= s.len(),
            start matches Some(b) ==> b < i,
            words(s@) == words_view(out@) + words_from(s@, i as int, opt_index(start)),
        decreases s.len() - i,
    {
        let ghost prev = words_view(out@);
        if white(s[i]) {
            match start {
                Some(b) => {
                    let w = vstd::slice::slice_to_vec(&s[b..i]);
                    out.push(w);
                    assert(words_view(out@) =~= prev.push(s@.subrange(b as int, i as int)));
                    assert(words_view(out@) + words_from(s@, i + 1, None) =~= prev + words_from(s@, i as int, opt_index(start)));
                },
                None => {},
            }
            start = None;
        } else {
            if start.is_none() {
                start = Some(i);
            }
        }
        i = i + 1;
    }
    match start {
        Some(b) => {
            let ghost prev = words_view(out@);
            let w = vstd::slice::slice_to_vec(&s[b..s.len()]);
            out.push(w);
            assert(words_view(out@) =~= prev.push(s@.subrange(b as int, s.len() as int)));
            assert(words_view(out@) =~= prev + words_from(s@, i as int, opt_index(start)));
        },
        None => {
            assert(words_view(out@) =~= words_view(out@) + words_from(s@, i as int, opt_index(start)));
        },
    }
    out
}

proof fn lemma_kinds_of_none_extends(toks: Seq<Seq<char>>, i: int)
    requires
        0 <= i <= toks.len(),
        kinds_of(toks.subrange(0, i)) is None,
    ensures
        kinds_of(toks) is None,
    decreases toks.len() - i,
{
    if i < toks.len() {
        assert(toks.subrange(0, i + 1).drop_last() =~= toks.subrange(0, i));
        lemma_kinds_of_none_extends(toks, i + 1);
    } else {
        assert(toks.subrange(0, i) =~= toks);
    }
}

/// Parse a `--filters=` value, e.g. `x86 lzma2:preset=4` or
/// `x86--lzma2`: both white space and `--` separate filters.
fn parse_filters_chain(value: &[char]) -> (r: Option<FilterChain>)
    ensures
        match r {
            Some(c) => filters_value(value@) == Some(c@),
            None => filters_value(value@) is None,
        },
{
    let normalised = replace_dashes(value);
    let toks = split_words(normalised.as_slice());
    let ghost tv = words_view(toks@);
    let mut chain = FilterChain::default();
    let mut i: usize = 0;
    while i < toks.len()
        invariant
            i <= toks.len(),
            tv == words_view(toks@),
            tv == words(dashes_to_spaces(value@, 0)),
            kinds_of(tv.subrange(0, i as int)) == Some(chain@),
        decreases toks.len() - i,
    {
        assert(tv.subrange(0, i + 1).drop_last() =~= tv.subrange(0, i as int));
        assert(tv[i as int] == toks@[i as int]@);
        match parse_filter_token(toks[i].as_slice()) {
            Some(k) => chain.push(k),
            None => {
                proof {
                    lemma_kinds_of_none_extends(tv, i + 1);
                }
                return None;
            },
        }
        i = i + 1;
    }
    assert(tv.subrange(0, i as int) =~= tv);
    if chain.is_empty() {
        return None;
    }
    Some(chain)
}


/// Append `kind` to the filter chain, starting one if there is none.
fn push_filter(opts: &mut Options, kind: FilterKind)
    ensures
        final(opts)@ == with_filter(old(opts)@, kind),
{
    let mut chain = match opts.filter.take() {
        Some(c) => c,
        None => FilterChain::default(),
    };
    chain.push(kind);
    opts.filter = Some(chain);
    assert(final(opts)@.filter == with_filter(old(opts)@, kind).filter);
}

/// Apply a stand-alone flag; false (and no change) when `a` is none.
fn apply_flag(opts: &mut Options, a: &[char]) -> (matched: bool)
    ensures
        matched == flag_effect(old(opts)@, a@) is Some,
        matched ==> final(opts)@ == flag_effect(old(opts)@, a@)->0,
        !matched ==> final(opts)@ == old(opts)@,
{
    if chars_eq_str(a, "-d") || chars_eq_str(a, "--decompress") || chars_eq_str(a, "--uncompress") {
        opts.mode = Mode::Decompress;
    } else if chars_eq_str(a, "-z") || chars_eq_str(a, "--compress") {
        opts.mode = Mode::Compress;
    } else if chars_eq_str(a, "-t") || chars_eq_str(a, "--test") {
        opts.mode = Mode::Test;
    } else if chars_eq_str(a, "-l") || chars_eq_str(a, "--list") {
        opts.mode = Mode::List;
    } else if chars_eq_str(a, "-c") || chars_eq_str(a, "--stdout") || chars_eq_str(a, "--to-stdout") {
        opts.stdout = true;
    } else if chars_eq_str(a, "-k") || chars_eq_str(a, "--keep") {
        opts.keep = true;
    } else if chars_eq_str(a, "-f") || chars_eq_str(a, "--force") {
        opts.force = true;
    } else if chars_eq_str(a, "-v") || chars_eq_str(a, "--verbose") {
        opts.verbose = true;
    } else if chars_eq_str(a, "-q") || chars_eq_str(a, "--quiet") {
        opts.quiet = true;
    } else if chars_eq_str(a, "-Q") || chars_eq_str(a, "--no-warn") {
        opts.no_warn = true;
    } else if chars_eq_str(a, "--fast") {
        opts.level = 0;
    } else if chars_eq_str(a, "--best") {
        opts.level = 9;
    } else if chars_eq_str(a, "--no-adjust") {
        // accepted and ignored
    } else if a.len() == 2 && a[0] == '-' && '0' <= a[1] && a[1] <= '9' {
        opts.level = (a[1] as u32) - ('0' as u32);
    } else if chars_eq_str(a, "--x86") {
        push_filter(opts, FilterKind::Bcj(BcjArch::X86));
    } else if chars_eq_str(a, "--arm") {
        push_filter(opts, FilterKind::Bcj(BcjArch::Arm));
    } else if chars_eq_str(a, "--arm64") {
        push_filter(opts, FilterKind::Bcj(BcjArch::Arm64));
    } else if chars_eq_str(a, "--armthumb") {
        push_filter(opts, FilterKind::Bcj(BcjArch::ArmThumb));
    } else if chars_eq_str(a, "--powerpc") {
        push_filter(opts, FilterKind::Bcj(BcjArch::PowerPc));
    } else if chars_eq_str(a, "--ia64") {
        push_filter(opts, FilterKind::Bcj(BcjArch::Ia64));
    } else if chars_eq_str(a, "--sparc") {
        push_filter(opts, FilterKind::Bcj(BcjArch::Sparc));
    } else if chars_eq_str(a, "--riscv") {
        push_filter(opts, FilterKind::Bcj(BcjArch::RiscV));
    } else if chars_eq_str(a, "--delta") {
        push_filter(opts, FilterKind::Delta);
    } else {
        return false;
    }
    true
}

/// Apply one letter of a group like `-dkv`; false (and no change) for
/// an unknown letter.
fn apply_letter(opts: &mut Options, c: char) -> (matched: bool)
    ensures
        matched == letter_effect(old(opts)@, c) is Some,
        matched ==> final(opts)@ == letter_effect(old(opts)@, c)->0,
        !matched ==> final(opts)@ == old(opts)@,
{
    if c == 'd' {
        opts.mode = Mode::Decompress;
    } else if c == 'z' {
        opts.mode = Mode::Compress;
    } else if c == 't' {
        opts.mode = Mode::Test;
    } else if c == 'l' {
        opts.mode = Mode::List;
    } else if c == 'c' {
        opts.stdout = true;
    } else if c == 'k' {
        opts.keep = true;
    } else if c == 'f' {
        opts.force = true;
    } else if c == 'v' {
        opts.verbose = true;
    } else if c == 'q' {
        opts.quiet = true;
    } else if c == 'Q' {
        opts.no_warn = true;
    } else if '0' <= c && c <= '9' {
        opts.level = (c as u32) - ('0' as u32);
    } else {
        return false;
    }
    true
}

proof fn lemma_letters_err_extends(o: OptionsView, cs: Seq<char>, i: int, c: char)
    requires
        0 <= i <= cs.len(),
        letters_effect(o, cs.subrange(0, i)) == Err::<OptionsView, char>(c),
    ensures
        letters_effect(o, cs) == Err::<OptionsView, char>(c),
    decreases cs.len() - i,
{
    if i < cs.len() {
        assert(cs.subrange(0, i + 1).drop_last() =~= cs.subrange(0, i));
        lemma_letters_err_extends(o, cs, i + 1, c);
    } else {
        assert(cs.subrange(0, i) =~= cs);
    }
}

/// Apply a group of flag letters left to right.
fn apply_letters(opts: &mut Options, cs: &[char]) -> (r: Result<(), char>)
    ensures
        match r {
            Ok(_) => letters_effect(old(opts)@, cs@) == Ok::<OptionsView, char>(final(opts)@),
            Err(c) => letters_effect(old(opts)@, cs@) == Err::<OptionsView, char>(c),
        },
{
    let ghost o0 = opts@;
    let mut j: usize = 0;
    assert(cs@.subrange(0, 0) =~= Seq::<char>::empty());
    while j < cs.len()
        invariant
            j <= cs.len(),
            letters_effect(o0, cs@.subrange(0, j as int)) == Ok::<OptionsView, char>(opts@),
            o0 == old(opts)@,
        decreases cs.len() - j,
    {
        assert(cs@.subrange(0, j + 1).drop_last() =~= cs@.subrange(0, j as int));
        assert(cs@.subrange(0, j + 1).last() == cs@[j as int]);
        let ghost before = opts@;
        if !apply_letter(opts, cs[j]) {
            proof {
                assert(letter_effect(before, cs@[j as int]) is None);
                assert(letters_effect(o0, cs@.subrange(0, j + 1)) == Err::<OptionsView, char>(cs@[j as int]));
                lemma_letters_err_extends(o0, cs@, j + 1, cs@[j as int]);
            }
            return Err(cs[j]);
        }
        j = j + 1;
    }
    assert(cs@.subrange(0, j as int) =~= cs@);
    Ok(())
}


/// Bytes in the UTF-8 encoding of `c`.
pub open spec fn char_width(c: char) -> int {
    if c as u32 <= 0x7f {
        1
    } else if c as u32 <= 0x7ff {
        2
    } else if c as u32 <= 0xffff {
        3
    } else {
        4
    }
}

proof fn lemma_byte_len_unfold(a: Seq<char>)
    requires
        a.len() > 0,
    ensures
        byte_len(a) == char_width(a[0]) + byte_len(a.drop_first()),
{
    vstd::utf8::char_is_scalar(a[0]);
}

proof fn lemma_byte_len_at_least_len(a: Seq<char>)
    ensures
        byte_len(a) >= a.len(),
    decreases a.len(),
{
    if a.len() > 0 {
        lemma_byte_len_unfold(a);
        lemma_byte_len_at_least_len(a.drop_first());
    }
}

fn width_of(c: char) -> (w: usize)
    ensures
        w == char_width(c),
{
    if (c as u32) <= 0x7f {
        1
    } else if (c as u32) <= 0x7ff {
        2
    } else if (c as u32) <= 0xffff {
        3
    } else {
        4
    }
}

/// Whether the UTF-8 encoding of `a` is longer than two bytes.
fn longer_than_two_bytes(a: &[char]) -> (r: bool)
    ensures
        r == (byte_len(a@) > 2),
{
    if a.len() >= 3 {
        proof {
            lemma_byte_len_at_least_len(a@);
        }
        return true;
    }
    if a.len() == 0 {
        assert(encode_utf8(a@) =~= Seq::<u8>::empty());
        return false;
    }
    proof {
        lemma_byte_len_unfold(a@);
    }
    if a.len() == 1 {
        assert(a@.drop_first() =~= Seq::<char>::empty());
        assert(encode_utf8(a@.drop_first()) =~= Seq::<u8>::empty());
        return width_of(a[0]) > 2;
    }
    proof {
        lemma_byte_len_unfold(a@.drop_first());
        assert(a@.drop_first().drop_first() =~= Seq::<char>::empty());
        assert(encode_utf8(a@.drop_first().drop_first()) =~= Seq::<u8>::empty());
    }
    width_of(a[0]) + width_of(a[1]) > 2
}

/// The index after argument `i` (and its value, when `skip`).
pub open spec fn next_index(i: int, skip: bool, len: int) -> int {
    let j = if skip { i + 2 } else { i + 1 };
    if j > len { len } else { j }
}

/// What the parse loop does after looking at one argument.
enum Act {
    Continue(usize),
    Stop(ParseStep),
    TakeRest,
    ReadList(String, u8),
}

/// What an `Act` means for the options before and after, relative to `st`.
spec fn act_matches(r: Act, st: ArgStep, before: OptionsView, after: OptionsView, args: Seq<Seq<char>>, i: int) -> bool {
    match r {
        Act::Continue(j) => st matches ArgStep::Next(o2, skip) && o2 == after && j == next_index(i, skip, args.len() as int),
        Act::Stop(p) => st == ArgStep::Stop(p@),
        Act::TakeRest => st == ArgStep::Stop(
            ParseStepView::Run(OptionsView { files: before.files + args.subrange(i + 1, args.len() as int), ..before }),
        ) && after == before,
        Act::ReadList(path, sep) => st == ArgStep::Stop(ParseStepView::ReadList(before, path@, sep, i + 1)) && after
            == before,
    }
}

/// Letter groups, attached `-T`/`-F`/`-S` values, `--threads=`, file names.
fn short_step_exec(opts: &mut Options, args: &[String], i: usize, a: &[char]) -> (r: Act)
    requires
        i < args.len(),
        a@ == strings_view(args@)[i as int],
    ensures
        act_matches(r, short_step(old(opts)@, a@), old(opts)@, final(opts)@, strings_view(args@), i as int),
{
    let arg: &String = &args[i];
    assert(arg@ == a@);
    let len = a.len();
    let long = longer_than_two_bytes(a);
    if starts_with(a, "-") && !starts_with(a, "--") && long && !starts_with(a, "-T") && !starts_with(a, "-F")
        && !starts_with(a, "-S") {
        proof {
            reveal_strlit("-");
        }
        match apply_letters(opts, &a[1..len]) {
            Ok(_) => {
                return Act::Continue(i + 1);
            },
            Err(c) => {
                return Act::Stop(ParseStep::Fail(ParseError::UnknownOption(c)));
            },
        }
    }
    if starts_with(a, "--threads=") {
        return Act::Continue(i + 1);
    }
    if starts_with(a, "-T") && long {
        return Act::Continue(i + 1);
    }
    if starts_with(a, "-F") && long {
        proof {
            reveal_strlit("-F");
        }
        match parse_format(&a[2..len]) {
            Some(f) => {
                opts.format = f;
                return Act::Continue(i + 1);
            },
            None => {
                return Act::Stop(ParseStep::Fail(ParseError::UnknownFormat(substring(arg.as_str(), 2, len))));
            },
        }
    }
    if starts_with(a, "-S") && long {
        proof {
            reveal_strlit("-S");
        }
        opts.suffix = Some(substring(arg.as_str(), 2, len));
        return Act::Continue(i + 1);
    }
    opts.files.push(arg.clone());
    proof {
        assert(strings_view(opts.files@) =~= strings_view(old(opts).files@).push(a@));
    }
    Act::Continue(i + 1)
}

/// Arguments of the form `--NAME=VALUE` and `--memlimit...`.
fn prefix_step_exec(opts: &mut Options, args: &[String], i: usize, a: &[char]) -> (r: Act)
    requires
        i < args.len(),
        a@ == strings_view(args@)[i as int],
    ensures
        act_matches(r, prefix_step(old(opts)@, a@, i as int), old(opts)@, final(opts)@, strings_view(args@), i as int),
{
    let arg: &String = &args[i];
    assert(arg@ == a@);
    let len = a.len();
    if starts_with(a, "--format=") {
        proof {
            reveal_strlit("--format=");
        }
        match parse_format(&a[9..len]) {
            Some(f) => {
                opts.format = f;
                return Act::Continue(i + 1);
            },
            None => {
                return Act::Stop(ParseStep::Fail(ParseError::UnknownFormat(substring(arg.as_str(), 9, len))));
            },
        }
    }
    if starts_with(a, "--suffix=") {
        proof {
            reveal_strlit("--suffix=");
        }
        opts.suffix = Some(substring(arg.as_str(), 9, len));
        return Act::Continue(i + 1);
    }
    if starts_with(a, "--lzma1=") {
        proof {
            reveal_strlit("--lzma1=");
        }
        match parse_lzma_value(&a[8..len], false) {
            Some(k) => {
                push_filter(opts, k);
                return Act::Continue(i + 1);
            },
            None => {
                return Act::Stop(ParseStep::Fail(ParseError::BadLzma1(arg.clone())));
            },
        }
    }
    if starts_with(a, "--lzma2=") {
        proof {
            reveal_strlit("--lzma2=");
        }
        match parse_lzma_value(&a[8..len], true) {
            Some(k) => {
                push_filter(opts, k);
                return Act::Continue(i + 1);
            },
            None => {
                return Act::Stop(ParseStep::Fail(ParseError::BadLzma2(arg.clone())));
            },
        }
    }
    if starts_with(a, "--filters=") {
        proof {
            reveal_strlit("--filters=");
        }
        match parse_filters_chain(&a[10..len]) {
            Some(c) => {
                opts.filter = Some(c);
                return Act::Continue(i + 1);
            },
            None => {
                return Act::Stop(ParseStep::Fail(ParseError::BadFilters(arg.clone())));
            },
        }
    }
    if starts_with(a, "--files=") {
        proof {
            reveal_strlit("--files=");
        }
        return Act::ReadList(substring(arg.as_str(), 8, len), 10u8);
    }
    if starts_with(a, "--files0=") {
        proof {
            reveal_strlit("--files0=");
        }
        return Act::ReadList(substring(arg.as_str(), 9, len), 0u8);
    }
    if starts_with(a, "--memlimit") {
        return Act::Continue(i + 1);
    }
    short_step_exec(opts, args, i, a)
}

/// Whole-word arguments other than the stand-alone flags.
fn word_step_exec(opts: &mut Options, args: &[String], i: usize, a: &[char]) -> (r: Act)
    requires
        i < args.len(),
        a@ == strings_view(args@)[i as int],
    ensures
        act_matches(r, word_step(old(opts)@, strings_view(args@), i as int), old(opts)@, final(opts)@, strings_view(args@), i as int),
{
    let ghost av = strings_view(args@);
    let n = args.len();
    let has_next = i + 1 < n;
    let skip_to: usize = if i + 1 >= n { n } else { i + 2 };
    if chars_eq_str(a, "-T") || chars_eq_str(a, "--threads") {
        return Act::Continue(skip_to);
    }
    if chars_eq_str(a, "-F") || chars_eq_str(a, "--format") {
        if has_next {
            let name = chars_of(args[i + 1].as_str());
            assert(name@ == av[i + 1]);
            match parse_format(name.as_slice()) {
                Some(f) => {
                    opts.format = f;
                    return Act::Continue(skip_to);
                },
                None => {
                    return Act::Stop(ParseStep::Fail(ParseError::UnknownFormatArg(Some(args[i + 1].clone()))));
                },
            }
        } else {
            return Act::Stop(ParseStep::Fail(ParseError::UnknownFormatArg(None)));
        }
    }
    if chars_eq_str(a, "-S") || chars_eq_str(a, "--suffix") {
        if has_next {
            assert(args@[i + 1]@ == av[i + 1]);
            opts.suffix = Some(args[i + 1].clone());
        }
        return Act::Continue(skip_to);
    }
    if chars_eq_str(a, "-h") || chars_eq_str(a, "--help") {
        return Act::Stop(ParseStep::Help);
    }
    if chars_eq_str(a, "-V") || chars_eq_str(a, "--version") {
        return Act::Stop(ParseStep::Version);
    }
    if chars_eq_str(a, "--") {
        return Act::TakeRest;
    }
    prefix_step_exec(opts, args, i, a)
}

/// Interpret argument `i`.
fn step(opts: &mut Options, args: &[String], i: usize) -> (r: Act)
    requires
        i < args.len(),
    ensures
        act_matches(r, arg_step(old(opts)@, strings_view(args@), i as int), old(opts)@, final(opts)@, strings_view(args@), i as int),
{
    let ghost av = strings_view(args@);
    let a = chars_of(args[i].as_str());
    assert(a@ == av[i as int]);
    if apply_flag(opts, a.as_slice()) {
        return Act::Continue(i + 1);
    }
    word_step_exec(opts, args, i, a.as_slice())
}

proof fn lemma_next_index_advances(i: int, skip: bool, len: int)
    requires
        0 <= i < len,
    ensures
        i < next_index(i, skip, len) <= len,
{
}

/// Continue parsing `args` at `start` with the options gathered so far.
#[verifier::loop_isolation(false)]
pub fn parse_resume(opts: Options, args: &[String], start: usize) -> (r: ParseStep)
    ensures
        r@ == parse_spec(opts@, strings_view(args@), start as int),
{
    let ghost av = strings_view(args@);
    let ghost target = parse_spec(opts@, av, start as int);
    let mut opts = opts;
    let mut i = start;
    while i < args.len()
        invariant
            av == strings_view(args@),
            target == parse_spec(opts@, av, i as int),
        decreases args.len() - i,
    {
        let ghost before = opts@;
        match step(&mut opts, args, i) {
            Act::Continue(j) => {
                proof {
                    let skip = arg_step(before, av, i as int)->Next_1;
                    lemma_next_index_advances(i as int, skip, args.len() as int);
                }
                i = j;
            },
            Act::Stop(p) => {
                return p;
            },
            Act::TakeRest => {
                let ghost f0 = opts@.files;
                let mut k = i + 1;
                assert(av.subrange(i + 1, k as int) =~= Seq::<Seq<char>>::empty());
                while k < args.len()
                    invariant
                        i < k <= args.len(),
                        av == strings_view(args@),
                        opts@ == (OptionsView { files: opts@.files, ..before }),
                        opts@.files == f0 + av.subrange(i + 1, k as int),
                        f0 == before.files,
                    decreases args.len() - k,
                {
                    let ghost fv = opts@.files;
                    opts.files.push(args[k].clone());
                    assert(strings_view(opts.files@) =~= fv.push(av[k as int]));
                    assert(av.subrange(i + 1, k + 1) =~= av.subrange(i + 1, k as int).push(av[k as int]));
                    k = k + 1;
                }
                return ParseStep::Run(opts);
            },
            Act::ReadList(path, sep) => {
                return ParseStep::ReadList { opts, path, separator: sep, resume_at: i + 1 };
            },
        }
    }
    ParseStep::Run(opts)
}

/// Parse the arguments that follow the program name `prog_name`.
pub fn parse_from(prog_name: &str, args: &[String]) -> (r: ParseStep)
    ensures
        r@ == parse_spec(defaults_view(prog_name@), strings_view(args@), 0),
{
    parse_resume(Options::defaults_for(prog_name), args, 0)
}

// ---------------------------------------------------------------------
// File lists
// ---------------------------------------------------------------------

/// The non-empty pieces of `b[i..]` between `sep` bytes, where the
/// piece being read began at `st`.
pub open spec fn pieces_from(b: Seq<u8>, sep: u8, i: int, st: int) -> Seq<Seq<u8>>
    decreases b.len() - i,
{
    if i >= b.len() {
        if st < b.len() {
            seq![b.subrange(st, b.len() as int)]
        } else {
            Seq::empty()
        }
    } else if b[i] == sep {
        (if st < i {
            seq![b.subrange(st, i)]
        } else {
            Seq::empty()
        }) + pieces_from(b, sep, i + 1, i + 1)
    } else {
        pieces_from(b, sep, i + 1, st)
    }
}

/// The non-empty entries of a `--files`/`--files0` list.
pub open spec fn list_pieces(b: Seq<u8>, sep: u8) -> Seq<Seq<u8>> {
    pieces_from(b, sep, 0, 0)
}

/// Every entry is valid UTF-8.
pub open spec fn all_utf8(p: Seq<Seq<u8>>) -> bool {
    forall|k: int| 0 <= k < p.len() ==> valid_utf8(#[trigger] p[k])
}

/// The names the entries decode to, up to (not including) the first one
/// that is not valid UTF-8.
pub open spec fn names_before_bad(p: Seq<Seq<u8>>) -> Seq<Seq<char>>
    decreases p.len(),
{
    if p.len() == 0 {
        Seq::empty()
    } else if all_utf8(p.drop_last()) && valid_utf8(p.last()) {
        names_before_bad(p.drop_last()).push(decode_utf8(p.last()))
    } else {
        names_before_bad(p.drop_last())
    }
}

/// Every piece is non-empty and free of `sep`.
pub open spec fn clean_pieces(p: Seq<Seq<u8>>, sep: u8) -> bool {
    forall|k: int| 0 <= k < p.len() ==> #[trigger] p[k].len() > 0 && !p[k].contains(sep)
}

proof fn lemma_clean_range(b: Seq<u8>, sep: u8, st: int, en: int)
    requires
        0 <= st < en <= b.len(),
        forall|j: int| st <= j < en ==> b[j] != sep,
    ensures
        clean_pieces(seq![b.subrange(st, en)], sep),
{
    let s = b.subrange(st, en);
    assert(!s.contains(sep)) by {
        if s.contains(sep) {
            let w = choose|w: int| 0 <= w < s.len() && s[w] == sep;
            assert(b[st + w] == sep);
        }
    }
    assert(seq![s][0] == s);
}

proof fn lemma_pieces_from_clean(b: Seq<u8>, sep: u8, i: int, st: int)
    requires
        0 <= st <= i <= b.len(),
        forall|j: int| st <= j < i ==> b[j] != sep,
    ensures
        clean_pieces(pieces_from(b, sep, i, st), sep),
    decreases b.len() - i,
{
    if i >= b.len() {
        if st < b.len() {
            lemma_clean_range(b, sep, st, b.len() as int);
        }
    } else if b[i] == sep {
        lemma_pieces_from_clean(b, sep, i + 1, i + 1);
        let head: Seq<Seq<u8>> = if st < i { seq![b.subrange(st, i)] } else { Seq::empty() };
        if st < i {
            lemma_clean_range(b, sep, st, i);
        }
        let rest = pieces_from(b, sep, i + 1, i + 1);
        assert(pieces_from(b, sep, i, st) == head + rest);
        assert forall|k: int| 0 <= k < (head + rest).len() implies #[trigger] (head + rest)[k].len() > 0 && !(head
            + rest)[k].contains(sep) by {
            if k >= head.len() {
                assert((head + rest)[k] == rest[k - head.len()]);
            } else {
                assert((head + rest)[k] == head[k]);
            }
        }
    } else {
        lemma_pieces_from_clean(b, sep, i + 1, st);
    }
}

/// The entries taken from a `--files`/`--files0` list are never empty and
/// never hold the separator.
pub proof fn lemma_list_entries_clean(b: Seq<u8>, sep: u8)
    ensures
        clean_pieces(list_pieces(b, sep), sep),
{
    lemma_pieces_from_clean(b, sep, 0, 0);
}

/// A `--files`/`--files0` list holds a name that is not valid UTF-8.
#[derive(Debug, Clone, Copy, PartialEq, Eq, Structural)]
pub enum FilesListError {
    NotUtf8,
}

/// The UTF-8 text of `bytes`, if they are valid UTF-8.
#[verifier::external_body]
fn utf8_text(bytes: &[u8]) -> (r: Option<String>)
    ensures
        r is Some <==> valid_utf8(bytes@),
        r matches Some(s) ==> s@ == decode_utf8(bytes@),
{
    match std::str::from_utf8(bytes) {
        Ok(s) => Some(s.to_string()),
        Err(_) => None,
    }
}

/// Past the first entry that is not UTF-8, no entry adds a name.
proof fn lemma_names_stop(p: Seq<Seq<u8>>, i: int, j: int)
    requires
        0 <= i < j <= p.len(),
        all_utf8(p.subrange(0, i)),
        !valid_utf8(p[i]),
    ensures
        names_before_bad(p.subrange(0, j)) == names_before_bad(p.subrange(0, i)),
        !all_utf8(p.subrange(0, j)),
    decreases j - i,
{
    let q = p.subrange(0, j);
    assert(q.drop_last() =~= p.subrange(0, j - 1));
    assert(q[i] == p[i]);
    if j - 1 > i {
        lemma_names_stop(p, i, j - 1);
    } else {
        assert(q.last() == p[i]);
    }
}

/// The non-empty entries of `list`, split at `separator`.
fn split_list(list: &[u8], separator: u8) -> (r: Vec<Vec<u8>>)
    ensures
        r@.map_values(|x: Vec<u8>| x@) == list_pieces(list@, separator),
{
    let mut out: Vec<Vec<u8>> = Vec::new();
    let mut st: usize = 0;
    let mut i: usize = 0;
    while i < list.len()
        invariant
            st <= i <= list.len(),
            list_pieces(list@, separator) == out@.map_values(|x: Vec<u8>| x@) + pieces_from(list@, separator, i as int, st as int),
        decreases list.len() - i,
    {
        if list[i] == separator {
            let ghost prev = out@.map_values(|x: Vec<u8>| x@);
            if st < i {
                out.push(vstd::slice::slice_to_vec(&list[st..i]));
                assert(out@.map_values(|x: Vec<u8>| x@) =~= prev.push(list@.subrange(st as int, i as int)));
            }
            assert(out@.map_values(|x: Vec<u8>| x@) + pieces_from(list@, separator, i + 1, i + 1) =~= prev
                + pieces_from(list@, separator, i as int, st as int));
            st = i + 1;
        }
        i = i + 1;
    }
    let ghost prev = out@.map_values(|x: Vec<u8>| x@);
    if st < list.len() {
        out.push(vstd::slice::slice_to_vec(&list[st..list.len()]));
        assert(out@.map_values(|x: Vec<u8>| x@) =~= prev.push(list@.subrange(st as int, list.len() as int)));
    }
    assert(out@.map_values(|x: Vec<u8>| x@) =~= prev + pieces_from(list@, separator, i as int, st as int));
    out
}

/// Add the entries of a `--files` (newline-separated) or `--files0`
/// (NUL-separated) list to the files to process, skipping empty ones. At
/// an entry that is not valid UTF-8 it stops with an error, keeping the
/// entries added before it.
#[verifier::loop_isolation(false)]
pub fn add_files_list(opts: &mut Options, list: &[u8], separator: u8) -> (r: Result<(), FilesListError>)
    ensures
        r is Ok <==> all_utf8(list_pieces(list@, separator)),
        final(opts)@ == (OptionsView {
            files: old(opts)@.files + names_before_bad(list_pieces(list@, separator)),
            ..old(opts)@
        }),
{
    let pieces = split_list(list, separator);
    let ghost pv = pieces@.map_values(|x: Vec<u8>| x@);
    let ghost f0 = opts@.files;
    let mut i: usize = 0;
    assert(pv.subrange(0, 0) =~= Seq::<Seq<u8>>::empty());
    while i < pieces.len()
        invariant
            i <= pieces.len(),
            pv == pieces@.map_values(|x: Vec<u8>| x@),
            pv == list_pieces(list@, separator),
            f0 == old(opts)@.files,
            all_utf8(pv.subrange(0, i as int)),
            opts@ == (OptionsView { files: f0 + names_before_bad(pv.subrange(0, i as int)), ..old(opts)@ }),
        decreases pieces.len() - i,
    {
        let ghost pre = pv.subrange(0, i + 1);
        assert(pre.drop_last() =~= pv.subrange(0, i as int));
        assert(pv[i as int] == pieces@[i as int]@);
        match utf8_text(pieces[i].as_slice()) {
            Some(s) => {
                let ghost fv = opts@.files;
                opts.files.push(s);
                assert(strings_view(opts.files@) =~= fv.push(decode_utf8(pv[i as int])));
                assert forall|k: int| 0 <= k < pre.len() implies valid_utf8(#[trigger] pre[k]) by {
                    if k < i {
                        assert(pre[k] == pv.subrange(0, i as int)[k]);
                    }
                }
            },
            None => {
                proof {
                    lemma_names_stop(pv, i as int, pv.len() as int);
                    assert(pv.subrange(0, pv.len() as int) =~= pv);
                }
                return Err(FilesListError::NotUtf8);
            },
        }
        i = i + 1;
    }
    assert(pv.subrange(0, i as int) =~= pv);
    Ok(())
}

// ---------------------------------------------------------------------
// Laws
// ---------------------------------------------------------------------

/// The options after reading all of `args[i..]`, when every argument is
/// taken in turn and none stops the parse or reaches past the end for a
/// value (such as a trailing `-S`).
pub open spec fn runs_to_end(o: OptionsView, args: Seq<Seq<char>>, i: int) -> Option<OptionsView>
    decreases args.len() - i,
{
    if i < 0 || i > args.len() {
        None
    } else if i == args.len() {
        Some(o)
    } else {
        match arg_step(o, args, i) {
            ArgStep::Next(o2, skip) => {
                let j = if skip { i + 2 } else { i + 1 };
                if j > args.len() {
                    None
                } else {
                    runs_to_end(o2, args, j)
                }
            },
            ArgStep::Stop(_) => None,
        }
    }
}

/// A step that does not reach past the end of `a` is the same step in
/// `a + b`.
proof fn lemma_step_in_longer(o: OptionsView, a: Seq<Seq<char>>, b: Seq<Seq<char>>, i: int)
    requires
        0 <= i < a.len(),
        arg_step(o, a, i) matches ArgStep::Next(_, skip) && (skip ==> i + 2 <= a.len()),
    ensures
        arg_step(o, a + b, i) == arg_step(o, a, i),
{
    assert((a + b)[i] == a[i]);
    if i + 1 < a.len() {
        assert((a + b)[i + 1] == a[i + 1]);
    }
}

/// Parsing `a + b` goes on after `a` with the options `a` left, when
/// `a` runs to its end.
proof fn lemma_parse_continues(o: OptionsView, a: Seq<Seq<char>>, b: Seq<Seq<char>>, i: int)
    requires
        0 <= i <= a.len(),
        runs_to_end(o, a, i) is Some,
    ensures
        parse_spec(o, a + b, i) == parse_spec(runs_to_end(o, a, i)->0, a + b, a.len() as int),
    decreases a.len() - i,
{
    if i < a.len() {
        let st = arg_step(o, a, i);
        let skip = st->Next_1;
        let j = if skip { i + 2 } else { i + 1 };
        lemma_step_in_longer(o, a, b, i);
        lemma_parse_continues(st->Next_0, a, b, j);
    }
}

/// The filter a stand-alone filter flag appends.
pub open spec fn filter_flag(x: Seq<char>) -> Option<FilterKind> {
    if x == "--x86"@ {
        Some(FilterKind::Bcj(BcjArch::X86))
    } else if x == "--arm"@ {
        Some(FilterKind::Bcj(BcjArch::Arm))
    } else if x == "--arm64"@ {
        Some(FilterKind::Bcj(BcjArch::Arm64))
    } else if x == "--armthumb"@ {
        Some(FilterKind::Bcj(BcjArch::ArmThumb))
    } else if x == "--powerpc"@ {
        Some(FilterKind::Bcj(BcjArch::PowerPc))
    } else if x == "--ia64"@ {
        Some(FilterKind::Bcj(BcjArch::Ia64))
    } else if x == "--sparc"@ {
        Some(FilterKind::Bcj(BcjArch::Sparc))
    } else if x == "--riscv"@ {
        Some(FilterKind::Bcj(BcjArch::RiscV))
    } else if x == "--delta"@ {
        Some(FilterKind::Delta)
    } else {
        None
    }
}

/// An argument `p` + value, for `p` one of `--lzma1=`, `--lzma2=`,
/// `--filters=`, is read by `prefix_step`.
#[verifier::spinoff_prover]
#[verifier::rlimit(60)]
proof fn lemma_value_option_step(o: OptionsView, args: Seq<Seq<char>>, i: int, p: Seq<char>)
    requires
        0 <= i < args.len(),
        p == "--lzma1="@ || p == "--lzma2="@ || p == "--filters="@,
        has_prefix(args[i], p),
    ensures
        arg_step(o, args, i) == prefix_step(o, args[i], i),
{
    reveal_strlit("-d");
    reveal_strlit("-z");
    reveal_strlit("-t");
    reveal_strlit("-l");
    reveal_strlit("-c");
    reveal_strlit("-k");
    reveal_strlit("-f");
    reveal_strlit("-v");
    reveal_strlit("-q");
    reveal_strlit("-Q");
    reveal_strlit("-T");
    reveal_strlit("-F");
    reveal_strlit("-S");
    reveal_strlit("-h");
    reveal_strlit("-V");
    reveal_strlit("--");
    reveal_strlit("--decompress");
    reveal_strlit("--uncompress");
    reveal_strlit("--compress");
    reveal_strlit("--test");
    reveal_strlit("--list");
    reveal_strlit("--stdout");
    reveal_strlit("--to-stdout");
    reveal_strlit("--keep");
    reveal_strlit("--force");
    reveal_strlit("--verbose");
    reveal_strlit("--quiet");
    reveal_strlit("--no-warn");
    reveal_strlit("--fast");
    reveal_strlit("--best");
    reveal_strlit("--no-adjust");
    reveal_strlit("--x86");
    reveal_strlit("--arm");
    reveal_strlit("--arm64");
    reveal_strlit("--armthumb");
    reveal_strlit("--powerpc");
    reveal_strlit("--ia64");
    reveal_strlit("--sparc");
    reveal_strlit("--riscv");
    reveal_strlit("--delta");
    reveal_strlit("--threads");
    reveal_strlit("--format");
    reveal_strlit("--suffix");
    reveal_strlit("--help");
    reveal_strlit("--version");
    reveal_strlit("--lzma1=");
    reveal_strlit("--lzma2=");
    reveal_strlit("--filters=");
    let x = args[i];
    assert(x.subrange(0, p.len() as int) == p);
    assert(x[0] == p[0] && x[1] == p[1] && x[2] == p[2] && x[3] == p[3] && x[6] == p[6]);
    assert(x.len() >= 8);
    assert(flag_effect(o, x) is None);
}

/// Adding a filter puts it at the end of the chain built so far, or
/// starts a chain of that one filter; nothing else changes.
pub proof fn lemma_filter_added_last(o: OptionsView, k: FilterKind)
    ensures
        o.filter matches Some(c) ==> with_filter(o, k).filter == Some(c.push(k)),
        o.filter is None ==> with_filter(o, k).filter == Some(seq![k]),
        with_filter(o, k).filter->0.last() == k,
        with_filter(o, k) == (OptionsView { filter: with_filter(o, k).filter, ..o }),
{
}

/// A `--filters=` token without options, or with options other than
/// `preset=N`, selects preset 6 for LZMA1/LZMA2.
pub proof fn lemma_token_default_preset(opts: Seq<char>)
    ensures
        token_kind("lzma1"@) == Some(FilterKind::Lzma1Preset(6)),
        token_kind("lzma2"@) == Some(FilterKind::Lzma2Preset(6)),
        !has_prefix(opts, "preset="@) ==> token_kind("lzma2:"@ + opts) == Some(FilterKind::Lzma2Preset(6)),
        !has_prefix(opts, "preset="@) ==> token_kind("lzma1:"@ + opts) == Some(FilterKind::Lzma1Preset(6)),
{
    reveal_strlit("lzma1");
    reveal_strlit("lzma2");
    reveal_strlit("lzma1:");
    reveal_strlit("lzma2:");
    reveal_with_fuel(find_from, 7);
    let t1 = "lzma1:"@ + opts;
    let t2 = "lzma2:"@ + opts;
    assert(t1[5] == ':' && t1[0] == 'l' && t1[1] == 'z' && t1[2] == 'm' && t1[3] == 'a' && t1[4] == '1');
    assert(t2[5] == ':' && t2[0] == 'l' && t2[1] == 'z' && t2[2] == 'm' && t2[3] == 'a' && t2[4] == '2');
    assert(find_from(t1, ':', 0) == 5);
    assert(find_from(t2, ':', 0) == 5);
    assert(t1.subrange(0, 5) =~= "lzma1"@);
    assert(t2.subrange(0, 5) =~= "lzma2"@);
    assert(t1.subrange(6, t1.len() as int) =~= opts);
    assert(t2.subrange(6, t2.len() as int) =~= opts);
    assert(find_from("lzma1"@, ':', 0) == 5);
    assert(find_from("lzma2"@, ':', 0) == 5);
    assert("lzma1"@.subrange(0, 5) =~= "lzma1"@);
    assert("lzma2"@.subrange(0, 5) =~= "lzma2"@);
}

/// A filter flag added at the end of an argument list that runs to its
/// end appends its filter to the chain built so far (starting one if
/// there is none).
#[verifier::spinoff_prover]
#[verifier::rlimit(60)]
pub proof fn lemma_filter_flag_appends(o: OptionsView, a: Seq<Seq<char>>, x: Seq<char>)
    requires
        runs_to_end(o, a, 0) is Some,
        filter_flag(x) is Some,
    ensures
        parse_spec(o, a.push(x), 0) == ParseStepView::Run(with_filter(runs_to_end(o, a, 0)->0, filter_flag(x)->0)),
{
    reveal_strlit("-d");
    reveal_strlit("-z");
    reveal_strlit("-t");
    reveal_strlit("-l");
    reveal_strlit("-c");
    reveal_strlit("-k");
    reveal_strlit("-f");
    reveal_strlit("-v");
    reveal_strlit("-q");
    reveal_strlit("-Q");
    reveal_strlit("-T");
    reveal_strlit("-F");
    reveal_strlit("-S");
    reveal_strlit("-h");
    reveal_strlit("-V");
    reveal_strlit("--");
    reveal_strlit("--decompress");
    reveal_strlit("--uncompress");
    reveal_strlit("--compress");
    reveal_strlit("--test");
    reveal_strlit("--list");
    reveal_strlit("--stdout");
    reveal_strlit("--to-stdout");
    reveal_strlit("--keep");
    reveal_strlit("--force");
    reveal_strlit("--verbose");
    reveal_strlit("--quiet");
    reveal_strlit("--no-warn");
    reveal_strlit("--fast");
    reveal_strlit("--best");
    reveal_strlit("--no-adjust");
    reveal_strlit("--x86");
    reveal_strlit("--arm");
    reveal_strlit("--arm64");
    reveal_strlit("--armthumb");
    reveal_strlit("--powerpc");
    reveal_strlit("--ia64");
    reveal_strlit("--sparc");
    reveal_strlit("--riscv");
    reveal_strlit("--delta");
    reveal_strlit("--threads");
    reveal_strlit("--format");
    reveal_strlit("--suffix");
    reveal_strlit("--help");
    reveal_strlit("--version");
    let o1 = runs_to_end(o, a, 0)->0;
    assert(a.push(x) =~= a + seq![x]);
    lemma_parse_continues(o, a, seq![x], 0);
    assert((a + seq![x])[a.len() as int] == x);
    let args = a + seq![x];
    let n = a.len() as int;
    let o2 = with_filter(o1, filter_flag(x)->0);
    assert(flag_effect(o1, x) == Some(o2));
    assert(arg_step(o1, args, n) == ArgStep::Next(o2, false));
    assert(parse_spec(o2, args, n + 1) == ParseStepView::Run(o2));
    assert(parse_spec(o1, args, n) == parse_spec(o2, args, n + 1));
}

/// `--lzma1=VALUE` / `--lzma2=VALUE` added at the end of an argument list
/// that runs to its end appends the filter `VALUE` selects.
pub proof fn lemma_lzma_option_appends(o: OptionsView, a: Seq<Seq<char>>, v: Seq<char>, lzma2: bool)
    requires
        runs_to_end(o, a, 0) is Some,
        lzma_value(v, lzma2) is Some,
    ensures
        parse_spec(o, a.push((if lzma2 { "--lzma2="@ } else { "--lzma1="@ }) + v), 0) == ParseStepView::Run(
            with_filter(runs_to_end(o, a, 0)->0, lzma_value(v, lzma2)->0),
        ),
{
    reveal_strlit("--format=");
    reveal_strlit("--suffix=");
    reveal_strlit("--lzma1=");
    reveal_strlit("--lzma2=");
    let p = if lzma2 { "--lzma2="@ } else { "--lzma1="@ };
    let x = p + v;
    let o1 = runs_to_end(o, a, 0)->0;
    let args = a + seq![x];
    assert(a.push(x) =~= args);
    lemma_parse_continues(o, a, seq![x], 0);
    assert(args[a.len() as int] == x);
    assert(x.subrange(0, p.len() as int) =~= p);
    assert(x.subrange(8, x.len() as int) =~= v);
    lemma_value_option_step(o1, args, a.len() as int, p);
    assert(x[2] == 'l' && x[6] == (if lzma2 { '2' } else { '1' }));
    assert(!has_prefix(x, "--format="@)) by {
        if has_prefix(x, "--format="@) {
            assert(x.subrange(0, 9)[2] == x[2]);
        }
    }
    assert(!has_prefix(x, "--suffix="@)) by {
        if has_prefix(x, "--suffix="@) {
            assert(x.subrange(0, 9)[2] == x[2]);
        }
    }
    if lzma2 {
        assert(!has_prefix(x, "--lzma1="@)) by {
            if has_prefix(x, "--lzma1="@) {
                assert(x.subrange(0, 8)[6] == x[6]);
            }
        }
    }
    let n = a.len() as int;
    let o2 = with_filter(o1, lzma_value(v, lzma2)->0);
    assert(has_prefix(x, p));
    assert(prefix_step(o1, x, n) == ArgStep::Next(o2, false));
    assert(parse_spec(o2, args, n + 1) == ParseStepView::Run(o2));
    assert(parse_spec(o1, args, n) == parse_spec(o2, args, n + 1));
}

/// `--filters=VALUE` added at the end of an argument list that runs to
/// its end replaces the chain built so far by the one `VALUE` names.
pub proof fn lemma_filters_option_replaces(o: OptionsView, a: Seq<Seq<char>>, v: Seq<char>)
    requires
        runs_to_end(o, a, 0) is Some,
        filters_value(v) is Some,
    ensures
        parse_spec(o, a.push("--filters="@ + v), 0) == ParseStepView::Run(
            OptionsView { filter: filters_value(v), ..runs_to_end(o, a, 0)->0 },
        ),
{
    reveal_strlit("--format=");
    reveal_strlit("--suffix=");
    reveal_strlit("--lzma1=");
    reveal_strlit("--lzma2=");
    reveal_strlit("--filters=");
    let p = "--filters="@;
    let x = p + v;
    let o1 = runs_to_end(o, a, 0)->0;
    let args = a + seq![x];
    assert(a.push(x) =~= args);
    lemma_parse_continues(o, a, seq![x], 0);
    assert(args[a.len() as int] == x);
    assert(x.subrange(0, p.len() as int) =~= p);
    assert(x.subrange(10, x.len() as int) =~= v);
    lemma_value_option_step(o1, args, a.len() as int, p);
    assert(x[2] == 'f' && x[3] == 'i');
    assert(!has_prefix(x, "--format="@)) by {
        if has_prefix(x, "--format="@) {
            assert(x.subrange(0, 9)[3] == x[3]);
        }
    }
    assert(!has_prefix(x, "--suffix="@)) by {
        if has_prefix(x, "--suffix="@) {
            assert(x.subrange(0, 9)[2] == x[2]);
        }
    }
    assert(!has_prefix(x, "--lzma1="@)) by {
        if has_prefix(x, "--lzma1="@) {
            assert(x.subrange(0, 8)[2] == x[2]);
        }
    }
    assert(!has_prefix(x, "--lzma2="@)) by {
        if has_prefix(x, "--lzma2="@) {
            assert(x.subrange(0, 8)[2] == x[2]);
        }
    }
    let n = a.len() as int;
    let o2 = OptionsView { filter: filters_value(v), ..o1 };
    assert(has_prefix(x, p));
    assert(prefix_step(o1, x, n) == ArgStep::Next(o2, false));
    assert(parse_spec(o2, args, n + 1) == ParseStepView::Run(o2));
    assert(parse_spec(o1, args, n) == parse_spec(o2, args, n + 1));
}

/// A stand-alone flag added at the end of an argument list that runs to
/// its end takes effect on the options that list left.
proof fn lemma_flag_appended(o: OptionsView, a: Seq<Seq<char>>, x: Seq<char>)
    requires
        runs_to_end(o, a, 0) is Some,
        flag_effect(runs_to_end(o, a, 0)->0, x) is Some,
    ensures
        parse_spec(o, a.push(x), 0) == ParseStepView::Run(flag_effect(runs_to_end(o, a, 0)->0, x)->0),
{
    let o1 = runs_to_end(o, a, 0)->0;
    let o2 = flag_effect(o1, x)->0;
    let args = a + seq![x];
    let n = a.len() as int;
    assert(a.push(x) =~= args);
    lemma_parse_continues(o, a, seq![x], 0);
    assert(args[n] == x);
    assert(arg_step(o1, args, n) == ArgStep::Next(o2, false));
    assert(parse_spec(o2, args, n + 1) == ParseStepView::Run(o2));
    assert(parse_spec(o1, args, n) == parse_spec(o2, args, n + 1));
}

/// After any argument list that runs to its end, `-t`/`--test` selects
/// the integrity test, `-d`/`--decompress`/`--uncompress` decompression,
/// `-z`/`--compress` compression and `-l`/`--list` listing; nothing else
/// changes.
#[verifier::spinoff_prover]
#[verifier::rlimit(60)]
pub proof fn lemma_mode_flags(o: OptionsView, a: Seq<Seq<char>>)
    requires
        runs_to_end(o, a, 0) is Some,
    ensures
        parse_spec(o, a.push("-t"@), 0) == ParseStepView::Run(OptionsView { mode: Mode::Test, ..runs_to_end(o, a, 0)->0 }),
        parse_spec(o, a.push("--test"@), 0) == ParseStepView::Run(OptionsView { mode: Mode::Test, ..runs_to_end(o, a, 0)->0 }),
        parse_spec(o, a.push("-d"@), 0) == ParseStepView::Run(OptionsView { mode: Mode::Decompress, ..runs_to_end(o, a, 0)->0 }),
        parse_spec(o, a.push("--decompress"@), 0) == ParseStepView::Run(OptionsView { mode: Mode::Decompress, ..runs_to_end(o, a, 0)->0 }),
        parse_spec(o, a.push("--uncompress"@), 0) == ParseStepView::Run(OptionsView { mode: Mode::Decompress, ..runs_to_end(o, a, 0)->0 }),
        parse_spec(o, a.push("-z"@), 0) == ParseStepView::Run(OptionsView { mode: Mode::Compress, ..runs_to_end(o, a, 0)->0 }),
        parse_spec(o, a.push("--compress"@), 0) == ParseStepView::Run(OptionsView { mode: Mode::Compress, ..runs_to_end(o, a, 0)->0 }),
        parse_spec(o, a.push("-l"@), 0) == ParseStepView::Run(OptionsView { mode: Mode::List, ..runs_to_end(o, a, 0)->0 }),
        parse_spec(o, a.push("--list"@), 0) == ParseStepView::Run(OptionsView { mode: Mode::List, ..runs_to_end(o, a, 0)->0 }),
{
    reveal_strlit("-d");
    reveal_strlit("-z");
    reveal_strlit("-t");
    reveal_strlit("-l");
    reveal_strlit("-c");
    reveal_strlit("-k");
    reveal_strlit("-f");
    reveal_strlit("-v");
    reveal_strlit("-q");
    reveal_strlit("-Q");
    reveal_strlit("--decompress");
    reveal_strlit("--uncompress");
    reveal_strlit("--compress");
    reveal_strlit("--test");
    reveal_strlit("--list");
    reveal_strlit("--stdout");
    reveal_strlit("--to-stdout");
    reveal_strlit("--keep");
    reveal_strlit("--force");
    reveal_strlit("--verbose");
    reveal_strlit("--quiet");
    reveal_strlit("--no-warn");
    reveal_strlit("--fast");
    reveal_strlit("--best");
    reveal_strlit("--no-adjust");
    let o1 = runs_to_end(o, a, 0)->0;
    assert("-t"@[1] != "-d"@[1]);
    assert("-t"@.len() != "--decompress"@.len());
    assert("-t"@.len() != "--uncompress"@.len());
    assert("-t"@[1] != "-z"@[1]);
    assert("-t"@.len() != "--compress"@.len());
    assert(flag_effect(o1, "-t"@) == Some(OptionsView { mode: Mode::Test, ..o1 }));
    lemma_flag_appended(o, a, "-t"@);
    assert("--test"@.len() != "-d"@.len());
    assert("--test"@.len() != "--decompress"@.len());
    assert("--test"@.len() != "--uncompress"@.len());
    assert("--test"@.len() != "-z"@.len());
    assert("--test"@.len() != "--compress"@.len());
    assert(flag_effect(o1, "--test"@) == Some(OptionsView { mode: Mode::Test, ..o1 }));
    lemma_flag_appended(o, a, "--test"@);
    assert(flag_effect(o1, "-d"@) == Some(OptionsView { mode: Mode::Decompress, ..o1 }));
    lemma_flag_appended(o, a, "-d"@);
    assert(flag_effect(o1, "--decompress"@) == Some(OptionsView { mode: Mode::Decompress, ..o1 }));
    lemma_flag_appended(o, a, "--decompress"@);
    assert(flag_effect(o1, "--uncompress"@) == Some(OptionsView { mode: Mode::Decompress, ..o1 }));
    lemma_flag_appended(o, a, "--uncompress"@);
    assert("-z"@[1] != "-d"@[1]);
    assert("-z"@.len() != "--decompress"@.len());
    assert("-z"@.len() != "--uncompress"@.len());
    assert(flag_effect(o1, "-z"@) == Some(OptionsView { mode: Mode::Compress, ..o1 }));
    lemma_flag_appended(o, a, "-z"@);
    assert("--compress"@.len() != "-d"@.len());
    assert("--compress"@.len() != "--decompress"@.len());
    assert("--compress"@.len() != "--uncompress"@.len());
    assert(flag_effect(o1, "--compress"@) == Some(OptionsView { mode: Mode::Compress, ..o1 }));
    lemma_flag_appended(o, a, "--compress"@);
    assert("-l"@[1] != "-d"@[1]);
    assert("-l"@.len() != "--decompress"@.len());
    assert("-l"@.len() != "--uncompress"@.len());
    assert("-l"@[1] != "-z"@[1]);
    assert("-l"@.len() != "--compress"@.len());
    assert("-l"@[1] != "-t"@[1]);
    assert("-l"@.len() != "--test"@.len());
    assert(flag_effect(o1, "-l"@) == Some(OptionsView { mode: Mode::List, ..o1 }));
    lemma_flag_appended(o, a, "-l"@);
    assert("--list"@.len() != "-d"@.len());
    assert("--list"@.len() != "--decompress"@.len());
    assert("--list"@.len() != "--uncompress"@.len());
    assert("--list"@.len() != "-z"@.len());
    assert("--list"@.len() != "--compress"@.len());
    assert("--list"@.len() != "-t"@.len());
    assert("--list"@[2] != "--test"@[2]);
    assert(flag_effect(o1, "--list"@) == Some(OptionsView { mode: Mode::List, ..o1 }));
    lemma_flag_appended(o, a, "--list"@);
}

/// After any argument list that runs to its end, each switch sets its
/// own option and nothing else: `-c`/`--stdout`/`--to-stdout`,
/// `-k`/`--keep`, `-f`/`--force`, `-v`/`--verbose`, `-q`/`--quiet`,
/// `-Q`/`--no-warn`.
#[verifier::spinoff_prover]
#[verifier::rlimit(60)]
pub proof fn lemma_switch_flags(o: OptionsView, a: Seq<Seq<char>>)
    requires
        runs_to_end(o, a, 0) is Some,
    ensures
        parse_spec(o, a.push("-c"@), 0) == ParseStepView::Run(OptionsView { stdout: true, ..runs_to_end(o, a, 0)->0 }),
        parse_spec(o, a.push("--stdout"@), 0) == ParseStepView::Run(OptionsView { stdout: true, ..runs_to_end(o, a, 0)->0 }),
        parse_spec(o, a.push("--to-stdout"@), 0) == ParseStepView::Run(OptionsView { stdout: true, ..runs_to_end(o, a, 0)->0 }),
        parse_spec(o, a.push("-k"@), 0) == ParseStepView::Run(OptionsView { keep: true, ..runs_to_end(o, a, 0)->0 }),
        parse_spec(o, a.push("--keep"@), 0) == ParseStepView::Run(OptionsView { keep: true, ..runs_to_end(o, a, 0)->0 }),
        parse_spec(o, a.push("-f"@), 0) == ParseStepView::Run(OptionsView { force: true, ..runs_to_end(o, a, 0)->0 }),
        parse_spec(o, a.push("--force"@), 0) == ParseStepView::Run(OptionsView { force: true, ..runs_to_end(o, a, 0)->0 }),
        parse_spec(o, a.push("-v"@), 0) == ParseStepView::Run(OptionsView { verbose: true, ..runs_to_end(o, a, 0)->0 }),
        parse_spec(o, a.push("--verbose"@), 0) == ParseStepView::Run(OptionsView { verbose: true, ..runs_to_end(o, a, 0)->0 }),
        parse_spec(o, a.push("-q"@), 0) == ParseStepView::Run(OptionsView { quiet: true, ..runs_to_end(o, a, 0)->0 }),
        parse_spec(o, a.push("--quiet"@), 0) == ParseStepView::Run(OptionsView { quiet: true, ..runs_to_end(o, a, 0)->0 }),
        parse_spec(o, a.push("-Q"@), 0) == ParseStepView::Run(OptionsView { no_warn: true, ..runs_to_end(o, a, 0)->0 }),
        parse_spec(o, a.push("--no-warn"@), 0) == ParseStepView::Run(OptionsView { no_warn: true, ..runs_to_end(o, a, 0)->0 }),
{
    reveal_strlit("-d");
    reveal_strlit("-z");
    reveal_strlit("-t");
    reveal_strlit("-l");
    reveal_strlit("-c");
    reveal_strlit("-k");
    reveal_strlit("-f");
    reveal_strlit("-v");
    reveal_strlit("-q");
    reveal_strlit("-Q");
    reveal_strlit("--decompress");
    reveal_strlit("--uncompress");
    reveal_strlit("--compress");
    reveal_strlit("--test");
    reveal_strlit("--list");
    reveal_strlit("--stdout");
    reveal_strlit("--to-stdout");
    reveal_strlit("--keep");
    reveal_strlit("--force");
    reveal_strlit("--verbose");
    reveal_strlit("--quiet");
    reveal_strlit("--no-warn");
    reveal_strlit("--fast");
    reveal_strlit("--best");
    reveal_strlit("--no-adjust");
    let o1 = runs_to_end(o, a, 0)->0;
    assert("-c"@[1] != "-d"@[1]);
    assert("-c"@.len() != "--decompress"@.len());
    assert("-c"@.len() != "--uncompress"@.len());
    assert("-c"@[1] != "-z"@[1]);
    assert("-c"@.len() != "--compress"@.len());
    assert("-c"@[1] != "-t"@[1]);
    assert("-c"@.len() != "--test"@.len());
    assert("-c"@[1] != "-l"@[1]);
    assert("-c"@.len() != "--list"@.len());
    assert(flag_effect(o1, "-c"@) == Some(OptionsView { stdout: true, ..o1 }));
    lemma_flag_appended(o, a, "-c"@);
    assert("--stdout"@.len() != "-d"@.len());
    assert("--stdout"@.len() != "--decompress"@.len());
    assert("--stdout"@.len() != "--uncompress"@.len());
    assert("--stdout"@.len() != "-z"@.len());
    assert("--stdout"@.len() != "--compress"@.len());
    assert("--stdout"@.len() != "-t"@.len());
    assert("--stdout"@.len() != "--test"@.len());
    assert("--stdout"@.len() != "-l"@.len());
    assert("--stdout"@.len() != "--list"@.len());
    assert(flag_effect(o1, "--stdout"@) == Some(OptionsView { stdout: true, ..o1 }));
    lemma_flag_appended(o, a, "--stdout"@);
    assert("--to-stdout"@.len() != "-d"@.len());
    assert("--to-stdout"@.len() != "--decompress"@.len());
    assert("--to-stdout"@.len() != "--uncompress"@.len());
    assert("--to-stdout"@.len() != "-z"@.len());
    assert("--to-stdout"@.len() != "--compress"@.len());
    assert("--to-stdout"@.len() != "-t"@.len());
    assert("--to-stdout"@.len() != "--test"@.len());
    assert("--to-stdout"@.len() != "-l"@.len());
    assert("--to-stdout"@.len() != "--list"@.len());
    assert(flag_effect(o1, "--to-stdout"@) == Some(OptionsView { stdout: true, ..o1 }));
    lemma_flag_appended(o, a, "--to-stdout"@);
    assert("-k"@[1] != "-d"@[1]);
    assert("-k"@.len() != "--decompress"@.len());
    assert("-k"@.len() != "--uncompress"@.len());
    assert("-k"@[1] != "-z"@[1]);
    assert("-k"@.len() != "--compress"@.len());
    assert("-k"@[1] != "-t"@[1]);
    assert("-k"@.len() != "--test"@.len());
    assert("-k"@[1] != "-l"@[1]);
    assert("-k"@.len() != "--list"@.len());
    assert("-k"@[1] != "-c"@[1]);
    assert("-k"@.len() != "--stdout"@.len());
    assert("-k"@.len() != "--to-stdout"@.len());
    assert(flag_effect(o1, "-k"@) == Some(OptionsView { keep: true, ..o1 }));
    lemma_flag_appended(o, a, "-k"@);
    assert("--keep"@.len() != "-d"@.len());
    assert("--keep"@.len() != "--decompress"@.len());
    assert("--keep"@.len() != "--uncompress"@.len());
    assert("--keep"@.len() != "-z"@.len());
    assert("--keep"@.len() != "--compress"@.len());
    assert("--keep"@.len() != "-t"@.len());
    assert("--keep"@[2] != "--test"@[2]);
    assert("--keep"@.len() != "-l"@.len());
    assert("--keep"@[2] != "--list"@[2]);
    assert("--keep"@.len() != "-c"@.len());
    assert("--keep"@.len() != "--stdout"@.len());
    assert("--keep"@.len() != "--to-stdout"@.len());
    assert(flag_effect(o1, "--keep"@) == Some(OptionsView { keep: true, ..o1 }));
    lemma_flag_appended(o, a, "--keep"@);
    assert("-f"@[1] != "-d"@[1]);
    assert("-f"@.len() != "--decompress"@.len());
    assert("-f"@.len() != "--uncompress"@.len());
    assert("-f"@[1] != "-z"@[1]);
    assert("-f"@.len() != "--compress"@.len());
    assert("-f"@[1] != "-t"@[1]);
    assert("-f"@.len() != "--test"@.len());
    assert("-f"@[1] != "-l"@[1]);
    assert("-f"@.len() != "--list"@.len());
    assert("-f"@[1] != "-c"@[1]);
    assert("-f"@.len() != "--stdout"@.len());
    assert("-f"@.len() != "--to-stdout"@.len());
    assert("-f"@[1] != "-k"@[1]);
    assert("-f"@.len() != "--keep"@.len());
    assert(flag_effect(o1, "-f"@) == Some(OptionsView { force: true, ..o1 }));
    lemma_flag_appended(o, a, "-f"@);
    assert("--force"@.len() != "-d"@.len());
    assert("--force"@.len() != "--decompress"@.len());
    assert("--force"@.len() != "--uncompress"@.len());
    assert("--force"@.len() != "-z"@.len());
    assert("--force"@.len() != "--compress"@.len());
    assert("--force"@.len() != "-t"@.len());
    assert("--force"@.len() != "--test"@.len());
    assert("--force"@.len() != "-l"@.len());
    assert("--force"@.len() != "--list"@.len());
    assert("--force"@.len() != "-c"@.len());
    assert("--force"@.len() != "--stdout"@.len());
    assert("--force"@.len() != "--to-stdout"@.len());
    assert("--force"@.len() != "-k"@.len());
    assert("--force"@.len() != "--keep"@.len());
    assert(flag_effect(o1, "--force"@) == Some(OptionsView { force: true, ..o1 }));
    lemma_flag_appended(o, a, "--force"@);
    assert("-v"@[1] != "-d"@[1]);
    assert("-v"@.len() != "--decompress"@.len());
    assert("-v"@.len() != "--uncompress"@.len());
    assert("-v"@[1] != "-z"@[1]);
    assert("-v"@.len() != "--compress"@.len());
    assert("-v"@[1] != "-t"@[1]);
    assert("-v"@.len() != "--test"@.len());
    assert("-v"@[1] != "-l"@[1]);
    assert("-v"@.len() != "--list"@.len());
    assert("-v"@[1] != "-c"@[1]);
    assert("-v"@.len() != "--stdout"@.len());
    assert("-v"@.len() != "--to-stdout"@.len());
    assert("-v"@[1] != "-k"@[1]);
    assert("-v"@.len() != "--keep"@.len());
    assert("-v"@[1] != "-f"@[1]);
    assert("-v"@.len() != "--force"@.len());
    assert(flag_effect(o1, "-v"@) == Some(OptionsView { verbose: true, ..o1 }));
    lemma_flag_appended(o, a, "-v"@);
    assert("--verbose"@.len() != "-d"@.len());
    assert("--verbose"@.len() != "--decompress"@.len());
    assert("--verbose"@.len() != "--uncompress"@.len());
    assert("--verbose"@.len() != "-z"@.len());
    assert("--verbose"@.len() != "--compress"@.len());
    assert("--verbose"@.len() != "-t"@.len());
    assert("--verbose"@.len() != "--test"@.len());
    assert("--verbose"@.len() != "-l"@.len());
    assert("--verbose"@.len() != "--list"@.len());
    assert("--verbose"@.len() != "-c"@.len());
    assert("--verbose"@.len() != "--stdout"@.len());
    assert("--verbose"@.len() != "--to-stdout"@.len());
    assert("--verbose"@.len() != "-k"@.len());
    assert("--verbose"@.len() != "--keep"@.len());
    assert("--verbose"@.len() != "-f"@.len());
    assert("--verbose"@.len() != "--force"@.len());
    assert(flag_effect(o1, "--verbose"@) == Some(OptionsView { verbose: true, ..o1 }));
    lemma_flag_appended(o, a, "--verbose"@);
    assert("-q"@[1] != "-d"@[1]);
    assert("-q"@.len() != "--decompress"@.len());
    assert("-q"@.len() != "--uncompress"@.len());
    assert("-q"@[1] != "-z"@[1]);
    assert("-q"@.len() != "--compress"@.len());
    assert("-q"@[1] != "-t"@[1]);
    assert("-q"@.len() != "--test"@.len());
    assert("-q"@[1] != "-l"@[1]);
    assert("-q"@.len() != "--list"@.len());
    assert("-q"@[1] != "-c"@[1]);
    assert("-q"@.len() != "--stdout"@.len());
    assert("-q"@.len() != "--to-stdout"@.len());
    assert("-q"@[1] != "-k"@[1]);
    assert("-q"@.len() != "--keep"@.len());
    assert("-q"@[1] != "-f"@[1]);
    assert("-q"@.len() != "--force"@.len());
    assert("-q"@[1] != "-v"@[1]);
    assert("-q"@.len() != "--verbose"@.len());
    assert(flag_effect(o1, "-q"@) == Some(OptionsView { quiet: true, ..o1 }));
    lemma_flag_appended(o, a, "-q"@);
    assert("--quiet"@.len() != "-d"@.len());
    assert("--quiet"@.len() != "--decompress"@.len());
    assert("--quiet"@.len() != "--uncompress"@.len());
    assert("--quiet"@.len() != "-z"@.len());
    assert("--quiet"@.len() != "--compress"@.len());
    assert("--quiet"@.len() != "-t"@.len());
    assert("--quiet"@.len() != "--test"@.len());
    assert("--quiet"@.len() != "-l"@.len());
    assert("--quiet"@.len() != "--list"@.len());
    assert("--quiet"@.len() != "-c"@.len());
    assert("--quiet"@.len() != "--stdout"@.len());
    assert("--quiet"@.len() != "--to-stdout"@.len());
    assert("--quiet"@.len() != "-k"@.len());
    assert("--quiet"@.len() != "--keep"@.len());
    assert("--quiet"@.len() != "-f"@.len());
    assert("--quiet"@[2] != "--force"@[2]);
    assert("--quiet"@.len() != "-v"@.len());
    assert("--quiet"@.len() != "--verbose"@.len());
    assert(flag_effect(o1, "--quiet"@) == Some(OptionsView { quiet: true, ..o1 }));
    lemma_flag_appended(o, a, "--quiet"@);
    assert("-Q"@[1] != "-d"@[1]);
    assert("-Q"@.len() != "--decompress"@.len());
    assert("-Q"@.len() != "--uncompress"@.len());
    assert("-Q"@[1] != "-z"@[1]);
    assert("-Q"@.len() != "--compress"@.len());
    assert("-Q"@[1] != "-t"@[1]);
    assert("-Q"@.len() != "--test"@.len());
    assert("-Q"@[1] != "-l"@[1]);
    assert("-Q"@.len() != "--list"@.len());
    assert("-Q"@[1] != "-c"@[1]);
    assert("-Q"@.len() != "--stdout"@.len());
    assert("-Q"@.len() != "--to-stdout"@.len());
    assert("-Q"@[1] != "-k"@[1]);
    assert("-Q"@.len() != "--keep"@.len());
    assert("-Q"@[1] != "-f"@[1]);
    assert("-Q"@.len() != "--force"@.len());
    assert("-Q"@[1] != "-v"@[1]);
    assert("-Q"@.len() != "--verbose"@.len());
    assert("-Q"@[1] != "-q"@[1]);
    assert("-Q"@.len() != "--quiet"@.len());
    assert(flag_effect(o1, "-Q"@) == Some(OptionsView { no_warn: true, ..o1 }));
    lemma_flag_appended(o, a, "-Q"@);
    assert("--no-warn"@.len() != "-d"@.len());
    assert("--no-warn"@.len() != "--decompress"@.len());
    assert("--no-warn"@.len() != "--uncompress"@.len());
    assert("--no-warn"@.len() != "-z"@.len());
    assert("--no-warn"@.len() != "--compress"@.len());
    assert("--no-warn"@.len() != "-t"@.len());
    assert("--no-warn"@.len() != "--test"@.len());
    assert("--no-warn"@.len() != "-l"@.len());
    assert("--no-warn"@.len() != "--list"@.len());
    assert("--no-warn"@.len() != "-c"@.len());
    assert("--no-warn"@.len() != "--stdout"@.len());
    assert("--no-warn"@.len() != "--to-stdout"@.len());
    assert("--no-warn"@.len() != "-k"@.len());
    assert("--no-warn"@.len() != "--keep"@.len());
    assert("--no-warn"@.len() != "-f"@.len());
    assert("--no-warn"@.len() != "--force"@.len());
    assert("--no-warn"@.len() != "-v"@.len());
    assert("--no-warn"@[2] != "--verbose"@[2]);
    assert("--no-warn"@.len() != "-q"@.len());
    assert("--no-warn"@.len() != "--quiet"@.len());
    assert(flag_effect(o1, "--no-warn"@) == Some(OptionsView { no_warn: true, ..o1 }));
    lemma_flag_appended(o, a, "--no-warn"@);
}

/// After any argument list that runs to its end, `--fast` sets preset 0
/// and `--best` preset 9.
#[verifier::spinoff_prover]
#[verifier::rlimit(60)]
pub proof fn lemma_preset_aliases(o: OptionsView, a: Seq<Seq<char>>)
    requires
        runs_to_end(o, a, 0) is Some,
    ensures
        parse_spec(o, a.push("--fast"@), 0) == ParseStepView::Run(OptionsView { level: 0, ..runs_to_end(o, a, 0)->0 }),
        parse_spec(o, a.push("--best"@), 0) == ParseStepView::Run(OptionsView { level: 9, ..runs_to_end(o, a, 0)->0 }),
{
    reveal_strlit("-d");
    reveal_strlit("-z");
    reveal_strlit("-t");
    reveal_strlit("-l");
    reveal_strlit("-c");
    reveal_strlit("-k");
    reveal_strlit("-f");
    reveal_strlit("-v");
    reveal_strlit("-q");
    reveal_strlit("-Q");
    reveal_strlit("--decompress");
    reveal_strlit("--uncompress");
    reveal_strlit("--compress");
    reveal_strlit("--test");
    reveal_strlit("--list");
    reveal_strlit("--stdout");
    reveal_strlit("--to-stdout");
    reveal_strlit("--keep");
    reveal_strlit("--force");
    reveal_strlit("--verbose");
    reveal_strlit("--quiet");
    reveal_strlit("--no-warn");
    reveal_strlit("--fast");
    reveal_strlit("--best");
    reveal_strlit("--no-adjust");
    let o1 = runs_to_end(o, a, 0)->0;
    assert("--fast"@.len() != "-d"@.len());
    assert("--fast"@.len() != "--decompress"@.len());
    assert("--fast"@.len() != "--uncompress"@.len());
    assert("--fast"@.len() != "-z"@.len());
    assert("--fast"@.len() != "--compress"@.len());
    assert("--fast"@.len() != "-t"@.len());
    assert("--fast"@[2] != "--test"@[2]);
    assert("--fast"@.len() != "-l"@.len());
    assert("--fast"@[2] != "--list"@[2]);
    assert("--fast"@.len() != "-c"@.len());
    assert("--fast"@.len() != "--stdout"@.len());
    assert("--fast"@.len() != "--to-stdout"@.len());
    assert("--fast"@.len() != "-k"@.len());
    assert("--fast"@[2] != "--keep"@[2]);
    assert("--fast"@.len() != "-f"@.len());
    assert("--fast"@.len() != "--force"@.len());
    assert("--fast"@.len() != "-v"@.len());
    assert("--fast"@.len() != "--verbose"@.len());
    assert("--fast"@.len() != "-q"@.len());
    assert("--fast"@.len() != "--quiet"@.len());
    assert("--fast"@.len() != "-Q"@.len());
    assert("--fast"@.len() != "--no-warn"@.len());
    assert(flag_effect(o1, "--fast"@) == Some(OptionsView { level: 0, ..o1 }));
    lemma_flag_appended(o, a, "--fast"@);
    assert("--best"@.len() != "-d"@.len());
    assert("--best"@.len() != "--decompress"@.len());
    assert("--best"@.len() != "--uncompress"@.len());
    assert("--best"@.len() != "-z"@.len());
    assert("--best"@.len() != "--compress"@.len());
    assert("--best"@.len() != "-t"@.len());
    assert("--best"@[2] != "--test"@[2]);
    assert("--best"@.len() != "-l"@.len());
    assert("--best"@[2] != "--list"@[2]);
    assert("--best"@.len() != "-c"@.len());
    assert("--best"@.len() != "--stdout"@.len());
    assert("--best"@.len() != "--to-stdout"@.len());
    assert("--best"@.len() != "-k"@.len());
    assert("--best"@[2] != "--keep"@[2]);
    assert("--best"@.len() != "-f"@.len());
    assert("--best"@.len() != "--force"@.len());
    assert("--best"@.len() != "-v"@.len());
    assert("--best"@.len() != "--verbose"@.len());
    assert("--best"@.len() != "-q"@.len());
    assert("--best"@.len() != "--quiet"@.len());
    assert("--best"@.len() != "-Q"@.len());
    assert("--best"@.len() != "--no-warn"@.len());
    assert("--best"@[2] != "--fast"@[2]);
    assert(flag_effect(o1, "--best"@) == Some(OptionsView { level: 9, ..o1 }));
    lemma_flag_appended(o, a, "--best"@);
}

/// After any argument list that runs to its end, `-N` for a digit `N`
/// sets the preset `N`.
#[verifier::spinoff_prover]
#[verifier::rlimit(60)]
pub proof fn lemma_digit_flags(o: OptionsView, a: Seq<Seq<char>>, d: char)
    requires
        runs_to_end(o, a, 0) is Some,
        '0' <= d <= '9',
    ensures
        parse_spec(o, a.push(seq!['-', d]), 0) == ParseStepView::Run(
            OptionsView { level: (d as u32 - '0' as u32) as u32, ..runs_to_end(o, a, 0)->0 },
        ),
{
    reveal_strlit("-d");
    reveal_strlit("-z");
    reveal_strlit("-t");
    reveal_strlit("-l");
    reveal_strlit("-c");
    reveal_strlit("-k");
    reveal_strlit("-f");
    reveal_strlit("-v");
    reveal_strlit("-q");
    reveal_strlit("-Q");
    reveal_strlit("--decompress");
    reveal_strlit("--uncompress");
    reveal_strlit("--compress");
    reveal_strlit("--test");
    reveal_strlit("--list");
    reveal_strlit("--stdout");
    reveal_strlit("--to-stdout");
    reveal_strlit("--keep");
    reveal_strlit("--force");
    reveal_strlit("--verbose");
    reveal_strlit("--quiet");
    reveal_strlit("--no-warn");
    reveal_strlit("--fast");
    reveal_strlit("--best");
    reveal_strlit("--no-adjust");
    let o1 = runs_to_end(o, a, 0)->0;
    let x = seq!['-', d];
    assert(x.len() == 2 && x[0] == '-' && x[1] == d);
    assert(x[1] != "-d"@[1]);
    assert(x.len() != "--decompress"@.len());
    assert(x.len() != "--uncompress"@.len());
    assert(x[1] != "-z"@[1]);
    assert(x.len() != "--compress"@.len());
    assert(x[1] != "-t"@[1]);
    assert(x.len() != "--test"@.len());
    assert(x[1] != "-l"@[1]);
    assert(x.len() != "--list"@.len());
    assert(x[1] != "-c"@[1]);
    assert(x.len() != "--stdout"@.len());
    assert(x.len() != "--to-stdout"@.len());
    assert(x[1] != "-k"@[1]);
    assert(x.len() != "--keep"@.len());
    assert(x[1] != "-f"@[1]);
    assert(x.len() != "--force"@.len());
    assert(x[1] != "-v"@[1]);
    assert(x.len() != "--verbose"@.len());
    assert(x[1] != "-q"@[1]);
    assert(x.len() != "--quiet"@.len());
    assert(x[1] != "-Q"@[1]);
    assert(x.len() != "--no-warn"@.len());
    assert(x.len() != "--fast"@.len());
    assert(x.len() != "--best"@.len());
    assert(x.len() != "--no-adjust"@.len());
    assert(flag_effect(o1, x) == Some(OptionsView { level: (d as u32 - '0' as u32) as u32, ..o1 }));
    lemma_flag_appended(o, a, x);
}

/// In a group of flag letters, each letter does the same as at the end of
/// the group as it would alone: after any letters that are accepted,
/// `t` selects the integrity test, `d` decompression, `z` compression and
/// `l` listing; `c`, `k`, `f`, `v`, `q`, `Q` set their switch; a digit
/// sets the preset; nothing else changes.
pub proof fn lemma_letter_group(o: OptionsView, cs: Seq<char>, c: char)
    requires
        letters_effect(o, cs) is Ok,
    ensures
        ({
            let o1 = letters_effect(o, cs)->Ok_0;
            let r = letters_effect(o, cs.push(c));
            &&& c == 't' ==> r == Ok::<OptionsView, char>(OptionsView { mode: Mode::Test, ..o1 })
            &&& c == 'd' ==> r == Ok::<OptionsView, char>(OptionsView { mode: Mode::Decompress, ..o1 })
            &&& c == 'z' ==> r == Ok::<OptionsView, char>(OptionsView { mode: Mode::Compress, ..o1 })
            &&& c == 'l' ==> r == Ok::<OptionsView, char>(OptionsView { mode: Mode::List, ..o1 })
            &&& c == 'c' ==> r == Ok::<OptionsView, char>(OptionsView { stdout: true, ..o1 })
            &&& c == 'k' ==> r == Ok::<OptionsView, char>(OptionsView { keep: true, ..o1 })
            &&& c == 'f' ==> r == Ok::<OptionsView, char>(OptionsView { force: true, ..o1 })
            &&& c == 'v' ==> r == Ok::<OptionsView, char>(OptionsView { verbose: true, ..o1 })
            &&& c == 'q' ==> r == Ok::<OptionsView, char>(OptionsView { quiet: true, ..o1 })
            &&& c == 'Q' ==> r == Ok::<OptionsView, char>(OptionsView { no_warn: true, ..o1 })
            &&& '0' <= c <= '9' ==> r == Ok::<OptionsView, char>(
                OptionsView { level: (c as u32 - '0' as u32) as u32, ..o1 },
            )
            &&& !(c == 't' || c == 'd' || c == 'z' || c == 'l' || c == 'c' || c == 'k' || c == 'f' || c == 'v' || c
                == 'q' || c == 'Q' || ('0' <= c <= '9')) ==> r == Err::<OptionsView, char>(c)
        }),
{
    assert(cs.push(c).drop_last() =~= cs);
}

/// The options that take the next argument as their value are no
/// stand-alone flag.
#[verifier::spinoff_prover]
#[verifier::rlimit(60)]
proof fn lemma_value_words_not_flags(o: OptionsView)
    ensures
        flag_effect(o, "-T"@) is None,
        flag_effect(o, "--threads"@) is None,
        flag_effect(o, "-F"@) is None,
        flag_effect(o, "--format"@) is None,
        flag_effect(o, "-S"@) is None,
        flag_effect(o, "--suffix"@) is None,
{
    reveal_strlit("-d");
    reveal_strlit("--decompress");
    reveal_strlit("--uncompress");
    reveal_strlit("-z");
    reveal_strlit("--compress");
    reveal_strlit("-t");
    reveal_strlit("--test");
    reveal_strlit("-l");
    reveal_strlit("--list");
    reveal_strlit("-c");
    reveal_strlit("--stdout");
    reveal_strlit("--to-stdout");
    reveal_strlit("-k");
    reveal_strlit("--keep");
    reveal_strlit("-f");
    reveal_strlit("--force");
    reveal_strlit("-v");
    reveal_strlit("--verbose");
    reveal_strlit("-q");
    reveal_strlit("--quiet");
    reveal_strlit("-Q");
    reveal_strlit("--no-warn");
    reveal_strlit("--fast");
    reveal_strlit("--best");
    reveal_strlit("--no-adjust");
    reveal_strlit("--x86");
    reveal_strlit("--arm");
    reveal_strlit("--arm64");
    reveal_strlit("--armthumb");
    reveal_strlit("--powerpc");
    reveal_strlit("--ia64");
    reveal_strlit("--sparc");
    reveal_strlit("--riscv");
    reveal_strlit("--delta");
    reveal_strlit("-T");
    reveal_strlit("--threads");
    reveal_strlit("-F");
    reveal_strlit("--format");
    reveal_strlit("-S");
    reveal_strlit("--suffix");
    {
        assert("-T"@[1] != "-d"@[1]);
        assert("-T"@.len() != "--decompress"@.len());
        assert("-T"@.len() != "--uncompress"@.len());
        assert("-T"@[1] != "-z"@[1]);
        assert("-T"@.len() != "--compress"@.len());
        assert("-T"@[1] != "-t"@[1]);
        assert("-T"@.len() != "--test"@.len());
        assert("-T"@[1] != "-l"@[1]);
        assert("-T"@.len() != "--list"@.len());
        assert("-T"@[1] != "-c"@[1]);
        assert("-T"@.len() != "--stdout"@.len());
        assert("-T"@.len() != "--to-stdout"@.len());
        assert("-T"@[1] != "-k"@[1]);
        assert("-T"@.len() != "--keep"@.len());
        assert("-T"@[1] != "-f"@[1]);
        assert("-T"@.len() != "--force"@.len());
        assert("-T"@[1] != "-v"@[1]);
        assert("-T"@.len() != "--verbose"@.len());
        assert("-T"@[1] != "-q"@[1]);
        assert("-T"@.len() != "--quiet"@.len());
        assert("-T"@[1] != "-Q"@[1]);
        assert("-T"@.len() != "--no-warn"@.len());
        assert("-T"@.len() != "--fast"@.len());
        assert("-T"@.len() != "--best"@.len());
        assert("-T"@.len() != "--no-adjust"@.len());
        assert("-T"@.len() != "--x86"@.len());
        assert("-T"@.len() != "--arm"@.len());
        assert("-T"@.len() != "--arm64"@.len());
        assert("-T"@.len() != "--armthumb"@.len());
        assert("-T"@.len() != "--powerpc"@.len());
        assert("-T"@.len() != "--ia64"@.len());
        assert("-T"@.len() != "--sparc"@.len());
        assert("-T"@.len() != "--riscv"@.len());
        assert("-T"@.len() != "--delta"@.len());
        assert(!("-T"@.len() == 2 && "-T"@[0] == '-' && '0' <= "-T"@[1] && "-T"@[1] <= '9'));
    }
    {
        assert("--threads"@.len() != "-d"@.len());
        assert("--threads"@.len() != "--decompress"@.len());
        assert("--threads"@.len() != "--uncompress"@.len());
        assert("--threads"@.len() != "-z"@.len());
        assert("--threads"@.len() != "--compress"@.len());
        assert("--threads"@.len() != "-t"@.len());
        assert("--threads"@.len() != "--test"@.len());
        assert("--threads"@.len() != "-l"@.len());
        assert("--threads"@.len() != "--list"@.len());
        assert("--threads"@.len() != "-c"@.len());
        assert("--threads"@.len() != "--stdout"@.len());
        assert("--threads"@.len() != "--to-stdout"@.len());
        assert("--threads"@.len() != "-k"@.len());
        assert("--threads"@.len() != "--keep"@.len());
        assert("--threads"@.len() != "-f"@.len());
        assert("--threads"@.len() != "--force"@.len());
        assert("--threads"@.len() != "-v"@.len());
        assert("--threads"@[2] != "--verbose"@[2]);
        assert("--threads"@.len() != "-q"@.len());
        assert("--threads"@.len() != "--quiet"@.len());
        assert("--threads"@.len() != "-Q"@.len());
        assert("--threads"@[2] != "--no-warn"@[2]);
        assert("--threads"@.len() != "--fast"@.len());
        assert("--threads"@.len() != "--best"@.len());
        assert("--threads"@.len() != "--no-adjust"@.len());
        assert("--threads"@.len() != "--x86"@.len());
        assert("--threads"@.len() != "--arm"@.len());
        assert("--threads"@.len() != "--arm64"@.len());
        assert("--threads"@.len() != "--armthumb"@.len());
        assert("--threads"@[2] != "--powerpc"@[2]);
        assert("--threads"@.len() != "--ia64"@.len());
        assert("--threads"@.len() != "--sparc"@.len());
        assert("--threads"@.len() != "--riscv"@.len());
        assert("--threads"@.len() != "--delta"@.len());
        assert(!("--threads"@.len() == 2 && "--threads"@[0] == '-' && '0' <= "--threads"@[1] && "--threads"@[1] <= '9'));
    }
    {
        assert("-F"@[1] != "-d"@[1]);
        assert("-F"@.len() != "--decompress"@.len());
        assert("-F"@.len() != "--uncompress"@.len());
        assert("-F"@[1] != "-z"@[1]);
        assert("-F"@.len() != "--compress"@.len());
        assert("-F"@[1] != "-t"@[1]);
        assert("-F"@.len() != "--test"@.len());
        assert("-F"@[1] != "-l"@[1]);
        assert("-F"@.len() != "--list"@.len());
        assert("-F"@[1] != "-c"@[1]);
        assert("-F"@.len() != "--stdout"@.len());
        assert("-F"@.len() != "--to-stdout"@.len());
        assert("-F"@[1] != "-k"@[1]);
        assert("-F"@.len() != "--keep"@.len());
        assert("-F"@[1] != "-f"@[1]);
        assert("-F"@.len() != "--force"@.len());
        assert("-F"@[1] != "-v"@[1]);
        assert("-F"@.len() != "--verbose"@.len());
        assert("-F"@[1] != "-q"@[1]);
        assert("-F"@.len() != "--quiet"@.len());
        assert("-F"@[1] != "-Q"@[1]);
        assert("-F"@.len() != "--no-warn"@.len());
        assert("-F"@.len() != "--fast"@.len());
        assert("-F"@.len() != "--best"@.len());
        assert("-F"@.len() != "--no-adjust"@.len());
        assert("-F"@.len() != "--x86"@.len());
        assert("-F"@.len() != "--arm"@.len());
        assert("-F"@.len() != "--arm64"@.len());
        assert("-F"@.len() != "--armthumb"@.len());
        assert("-F"@.len() != "--powerpc"@.len());
        assert("-F"@.len() != "--ia64"@.len());
        assert("-F"@.len() != "--sparc"@.len());
        assert("-F"@.len() != "--riscv"@.len());
        assert("-F"@.len() != "--delta"@.len());
        assert(!("-F"@.len() == 2 && "-F"@[0] == '-' && '0' <= "-F"@[1] && "-F"@[1] <= '9'));
    }
    {
        assert("--format"@.len() != "-d"@.len());
        assert("--format"@.len() != "--decompress"@.len());
        assert("--format"@.len() != "--uncompress"@.len());
        assert("--format"@.len() != "-z"@.len());
        assert("--format"@.len() != "--compress"@.len());
        assert("--format"@.len() != "-t"@.len());
        assert("--format"@.len() != "--test"@.len());
        assert("--format"@.len() != "-l"@.len());
        assert("--format"@.len() != "--list"@.len());
        assert("--format"@.len() != "-c"@.len());
        assert("--format"@[2] != "--stdout"@[2]);
        assert("--format"@.len() != "--to-stdout"@.len());
        assert("--format"@.len() != "-k"@.len());
        assert("--format"@.len() != "--keep"@.len());
        assert("--format"@.len() != "-f"@.len());
        assert("--format"@.len() != "--force"@.len());
        assert("--format"@.len() != "-v"@.len());
        assert("--format"@.len() != "--verbose"@.len());
        assert("--format"@.len() != "-q"@.len());
        assert("--format"@.len() != "--quiet"@.len());
        assert("--format"@.len() != "-Q"@.len());
        assert("--format"@.len() != "--no-warn"@.len());
        assert("--format"@.len() != "--fast"@.len());
        assert("--format"@.len() != "--best"@.len());
        assert("--format"@.len() != "--no-adjust"@.len());
        assert("--format"@.len() != "--x86"@.len());
        assert("--format"@.len() != "--arm"@.len());
        assert("--format"@.len() != "--arm64"@.len());
        assert("--format"@.len() != "--armthumb"@.len());
        assert("--format"@.len() != "--powerpc"@.len());
        assert("--format"@.len() != "--ia64"@.len());
        assert("--format"@.len() != "--sparc"@.len());
        assert("--format"@.len() != "--riscv"@.len());
        assert("--format"@.len() != "--delta"@.len());
        assert(!("--format"@.len() == 2 && "--format"@[0] == '-' && '0' <= "--format"@[1] && "--format"@[1] <= '9'));
    }
    {
        assert("-S"@[1] != "-d"@[1]);
        assert("-S"@.len() != "--decompress"@.len());
        assert("-S"@.len() != "--uncompress"@.len());
        assert("-S"@[1] != "-z"@[1]);
        assert("-S"@.len() != "--compress"@.len());
        assert("-S"@[1] != "-t"@[1]);
        assert("-S"@.len() != "--test"@.len());
        assert("-S"@[1] != "-l"@[1]);
        assert("-S"@.len() != "--list"@.len());
        assert("-S"@[1] != "-c"@[1]);
        assert("-S"@.len() != "--stdout"@.len());
        assert("-S"@.len() != "--to-stdout"@.len());
        assert("-S"@[1] != "-k"@[1]);
        assert("-S"@.len() != "--keep"@.len());
        assert("-S"@[1] != "-f"@[1]);
        assert("-S"@.len() != "--force"@.len());
        assert("-S"@[1] != "-v"@[1]);
        assert("-S"@.len() != "--verbose"@.len());
        assert("-S"@[1] != "-q"@[1]);
        assert("-S"@.len() != "--quiet"@.len());
        assert("-S"@[1] != "-Q"@[1]);
        assert("-S"@.len() != "--no-warn"@.len());
        assert("-S"@.len() != "--fast"@.len());
        assert("-S"@.len() != "--best"@.len());
        assert("-S"@.len() != "--no-adjust"@.len());
        assert("-S"@.len() != "--x86"@.len());
        assert("-S"@.len() != "--arm"@.len());
        assert("-S"@.len() != "--arm64"@.len());
        assert("-S"@.len() != "--armthumb"@.len());
        assert("-S"@.len() != "--powerpc"@.len());
        assert("-S"@.len() != "--ia64"@.len());
        assert("-S"@.len() != "--sparc"@.len());
        assert("-S"@.len() != "--riscv"@.len());
        assert("-S"@.len() != "--delta"@.len());
        assert(!("-S"@.len() == 2 && "-S"@[0] == '-' && '0' <= "-S"@[1] && "-S"@[1] <= '9'));
    }
    {
        assert("--suffix"@.len() != "-d"@.len());
        assert("--suffix"@.len() != "--decompress"@.len());
        assert("--suffix"@.len() != "--uncompress"@.len());
        assert("--suffix"@.len() != "-z"@.len());
        assert("--suffix"@.len() != "--compress"@.len());
        assert("--suffix"@.len() != "-t"@.len());
        assert("--suffix"@.len() != "--test"@.len());
        assert("--suffix"@.len() != "-l"@.len());
        assert("--suffix"@.len() != "--list"@.len());
        assert("--suffix"@.len() != "-c"@.len());
        assert("--suffix"@[3] != "--stdout"@[3]);
        assert("--suffix"@.len() != "--to-stdout"@.len());
        assert("--suffix"@.len() != "-k"@.len());
        assert("--suffix"@.len() != "--keep"@.len());
        assert("--suffix"@.len() != "-f"@.len());
        assert("--suffix"@.len() != "--force"@.len());
        assert("--suffix"@.len() != "-v"@.len());
        assert("--suffix"@.len() != "--verbose"@.len());
        assert("--suffix"@.len() != "-q"@.len());
        assert("--suffix"@.len() != "--quiet"@.len());
        assert("--suffix"@.len() != "-Q"@.len());
        assert("--suffix"@.len() != "--no-warn"@.len());
        assert("--suffix"@.len() != "--fast"@.len());
        assert("--suffix"@.len() != "--best"@.len());
        assert("--suffix"@.len() != "--no-adjust"@.len());
        assert("--suffix"@.len() != "--x86"@.len());
        assert("--suffix"@.len() != "--arm"@.len());
        assert("--suffix"@.len() != "--arm64"@.len());
        assert("--suffix"@.len() != "--armthumb"@.len());
        assert("--suffix"@.len() != "--powerpc"@.len());
        assert("--suffix"@.len() != "--ia64"@.len());
        assert("--suffix"@.len() != "--sparc"@.len());
        assert("--suffix"@.len() != "--riscv"@.len());
        assert("--suffix"@.len() != "--delta"@.len());
        assert(!("--suffix"@.len() == 2 && "--suffix"@[0] == '-' && '0' <= "--suffix"@[1] && "--suffix"@[1] <= '9'));
    }
}

/// Two arguments added at the end of an argument list that runs to its
/// end: `-T`/`--threads` take the next argument as their (ignored) value,
/// so it is no file name; `-S`/`--suffix` take it as the suffix; `-F`/
/// `--format` take it as the format when it names one.
#[verifier::spinoff_prover]
#[verifier::rlimit(60)]
pub proof fn lemma_value_options(o: OptionsView, a: Seq<Seq<char>>, v: Seq<char>)
    requires
        runs_to_end(o, a, 0) is Some,
    ensures
        parse_spec(o, a + seq!["-T"@, v], 0) == ParseStepView::Run(runs_to_end(o, a, 0)->0),
        parse_spec(o, a + seq!["--threads"@, v], 0) == ParseStepView::Run(runs_to_end(o, a, 0)->0),
        parse_spec(o, a + seq!["-S"@, v], 0) == ParseStepView::Run(OptionsView { suffix: Some(v), ..runs_to_end(o, a, 0)->0 }),
        parse_spec(o, a + seq!["--suffix"@, v], 0) == ParseStepView::Run(
            OptionsView { suffix: Some(v), ..runs_to_end(o, a, 0)->0 },
        ),
        format_named(v) is Some ==> parse_spec(o, a + seq!["-F"@, v], 0) == ParseStepView::Run(
            OptionsView { format: format_named(v)->0, ..runs_to_end(o, a, 0)->0 },
        ),
        format_named(v) is Some ==> parse_spec(o, a + seq!["--format"@, v], 0) == ParseStepView::Run(
            OptionsView { format: format_named(v)->0, ..runs_to_end(o, a, 0)->0 },
        ),
{
    reveal_strlit("-T");
    reveal_strlit("--threads");
    reveal_strlit("-F");
    reveal_strlit("--format");
    reveal_strlit("-S");
    reveal_strlit("--suffix");
    let o1 = runs_to_end(o, a, 0)->0;
    let n = a.len() as int;
    lemma_value_words_not_flags(o1);
    {
        let args = a + seq!["-T"@, v];
        lemma_parse_continues(o, a, seq!["-T"@, v], 0);
        assert(args[n] == "-T"@ && args[n + 1] == v);
        assert(arg_step(o1, args, n) == ArgStep::Next(o1, true));
        assert(parse_spec(o1, args, n + 2) == ParseStepView::Run(o1));
    }
    {
        let args = a + seq!["--threads"@, v];
        lemma_parse_continues(o, a, seq!["--threads"@, v], 0);
        assert(args[n] == "--threads"@ && args[n + 1] == v);
        assert("--threads"@.len() != "-T"@.len());
        assert(arg_step(o1, args, n) == ArgStep::Next(o1, true));
        assert(parse_spec(o1, args, n + 2) == ParseStepView::Run(o1));
    }
    {
        let args = a + seq!["-S"@, v];
        lemma_parse_continues(o, a, seq!["-S"@, v], 0);
        assert(args[n] == "-S"@ && args[n + 1] == v);
        assert("-S"@[1] != "-T"@[1]);
        assert("-S"@.len() != "--threads"@.len());
        assert("-S"@[1] != "-F"@[1]);
        assert("-S"@.len() != "--format"@.len());
        assert(arg_step(o1, args, n) == ArgStep::Next(OptionsView { suffix: Some(v), ..o1 }, true));
        assert(parse_spec(OptionsView { suffix: Some(v), ..o1 }, args, n + 2) == ParseStepView::Run(OptionsView { suffix: Some(v), ..o1 }));
    }
    {
        let args = a + seq!["--suffix"@, v];
        lemma_parse_continues(o, a, seq!["--suffix"@, v], 0);
        assert(args[n] == "--suffix"@ && args[n + 1] == v);
        assert("--suffix"@.len() != "-T"@.len());
        assert("--suffix"@.len() != "--threads"@.len());
        assert("--suffix"@.len() != "-F"@.len());
        assert("--suffix"@[2] != "--format"@[2]);
        assert("--suffix"@.len() != "-S"@.len());
        assert(arg_step(o1, args, n) == ArgStep::Next(OptionsView { suffix: Some(v), ..o1 }, true));
        assert(parse_spec(OptionsView { suffix: Some(v), ..o1 }, args, n + 2) == ParseStepView::Run(OptionsView { suffix: Some(v), ..o1 }));
    }
    if format_named(v) is Some {
        let args = a + seq!["-F"@, v];
        lemma_parse_continues(o, a, seq!["-F"@, v], 0);
        assert(args[n] == "-F"@ && args[n + 1] == v);
        assert("-F"@[1] != "-T"@[1]);
        assert("-F"@.len() != "--threads"@.len());
        assert(arg_step(o1, args, n) == ArgStep::Next(OptionsView { format: format_named(v)->0, ..o1 }, true));
        assert(parse_spec(OptionsView { format: format_named(v)->0, ..o1 }, args, n + 2) == ParseStepView::Run(OptionsView { format: format_named(v)->0, ..o1 }));
    }
    if format_named(v) is Some {
        let args = a + seq!["--format"@, v];
        lemma_parse_continues(o, a, seq!["--format"@, v], 0);
        assert(args[n] == "--format"@ && args[n + 1] == v);
        assert("--format"@.len() != "-T"@.len());
        assert("--format"@.len() != "--threads"@.len());
        assert("--format"@.len() != "-F"@.len());
        assert(arg_step(o1, args, n) == ArgStep::Next(OptionsView { format: format_named(v)->0, ..o1 }, true));
        assert(parse_spec(OptionsView { format: format_named(v)->0, ..o1 }, args, n + 2) == ParseStepView::Run(OptionsView { format: format_named(v)->0, ..o1 }));
    }
}

/// A letter inside a group such as `-dkv` does what the stand-alone
/// flag `-<letter>` does, for every letter (unknown letters are neither).
#[verifier::spinoff_prover]
#[verifier::rlimit(40)]
pub proof fn lemma_letter_matches_flag(o: OptionsView, c: char)
    ensures
        letter_effect(o, c) == flag_effect(o, seq!['-', c]),
{
    let a = seq!['-', c];
    reveal_strlit("-d");
    reveal_strlit("-z");
    reveal_strlit("-t");
    reveal_strlit("-l");
    reveal_strlit("-c");
    reveal_strlit("-k");
    reveal_strlit("-f");
    reveal_strlit("-v");
    reveal_strlit("-q");
    reveal_strlit("-Q");
    reveal_strlit("--decompress");
    reveal_strlit("--uncompress");
    reveal_strlit("--compress");
    reveal_strlit("--test");
    reveal_strlit("--list");
    reveal_strlit("--stdout");
    reveal_strlit("--to-stdout");
    reveal_strlit("--keep");
    reveal_strlit("--force");
    reveal_strlit("--verbose");
    reveal_strlit("--quiet");
    reveal_strlit("--no-warn");
    reveal_strlit("--fast");
    reveal_strlit("--best");
    reveal_strlit("--no-adjust");
    reveal_strlit("--x86");
    reveal_strlit("--arm");
    reveal_strlit("--arm64");
    reveal_strlit("--armthumb");
    reveal_strlit("--powerpc");
    reveal_strlit("--ia64");
    reveal_strlit("--sparc");
    reveal_strlit("--riscv");
    reveal_strlit("--delta");
    if c == 'd' {
        assert(a =~= "-d"@);
    } else if c == 'z' {
        assert(a =~= "-z"@);
    } else if c == 't' {
        assert(a =~= "-t"@);
    } else if c == 'l' {
        assert(a =~= "-l"@);
    } else if c == 'c' {
        assert(a =~= "-c"@);
    } else if c == 'k' {
        assert(a =~= "-k"@);
    } else if c == 'f' {
        assert(a =~= "-f"@);
    } else if c == 'v' {
        assert(a =~= "-v"@);
    } else if c == 'q' {
        assert(a =~= "-q"@);
    } else if c == 'Q' {
        assert(a =~= "-Q"@);
    } else {
        assert(a != "-d"@ && a != "-z"@ && a != "-t"@ && a != "-l"@ && a != "-c"@ && a != "-k"@ && a != "-f"@);
        assert(a != "-v"@ && a != "-q"@ && a != "-Q"@);
    }
}

/// `--fast` is `-0` and `--best` is `-9`.
#[verifier::spinoff_prover]
#[verifier::rlimit(40)]
pub proof fn lemma_level_aliases(o: OptionsView)
    ensures
        flag_effect(o, "--fast"@) == flag_effect(o, "-0"@),
        flag_effect(o, "--best"@) == flag_effect(o, "-9"@),
        flag_effect(o, "-0"@) == Some(with_level(o, 0)),
        flag_effect(o, "-9"@) == Some(with_level(o, 9)),
{
    reveal_strlit("-0");
    reveal_strlit("-9");
    reveal_strlit("-d");
    reveal_strlit("-z");
    reveal_strlit("-t");
    reveal_strlit("-l");
    reveal_strlit("-c");
    reveal_strlit("-k");
    reveal_strlit("-f");
    reveal_strlit("-v");
    reveal_strlit("-q");
    reveal_strlit("-Q");
    reveal_strlit("--decompress");
    reveal_strlit("--uncompress");
    reveal_strlit("--compress");
    reveal_strlit("--test");
    reveal_strlit("--list");
    reveal_strlit("--stdout");
    reveal_strlit("--to-stdout");
    reveal_strlit("--keep");
    reveal_strlit("--force");
    reveal_strlit("--verbose");
    reveal_strlit("--quiet");
    reveal_strlit("--no-warn");
    reveal_strlit("--fast");
    reveal_strlit("--best");
    reveal_strlit("--no-adjust");
    assert("--fast"@[2] == 'f' && "--test"@[2] == 't' && "--list"@[2] == 'l' && "--keep"@[2] == 'k');
    assert("--best"@[2] == 'b' && "--fast"@.len() == 6 && "--best"@.len() == 6);
    assert("--force"@.len() == 7);
    assert(flag_effect(o, "--fast"@) == Some(with_level(o, 0)));
    assert(flag_effect(o, "--best"@) == Some(with_level(o, 9)));
}

/// After `--`, every argument is a file name, however it looks.
#[verifier::spinoff_prover]
#[verifier::rlimit(40)]
pub proof fn lemma_double_dash_ends_options(o: OptionsView, args: Seq<Seq<char>>, i: int)
    requires
        0 <= i < args.len(),
        args[i] == "--"@,
    ensures
        parse_spec(o, args, i) == ParseStepView::Run(
            OptionsView { files: o.files + args.subrange(i + 1, args.len() as int), ..o },
        ),
{
    reveal_strlit("--");
    reveal_strlit("-d");
    reveal_strlit("-z");
    reveal_strlit("-t");
    reveal_strlit("-l");
    reveal_strlit("-c");
    reveal_strlit("-k");
    reveal_strlit("-f");
    reveal_strlit("-v");
    reveal_strlit("-q");
    reveal_strlit("-Q");
    reveal_strlit("-T");
    reveal_strlit("-F");
    reveal_strlit("-S");
    reveal_strlit("-h");
    reveal_strlit("-V");
    reveal_strlit("--decompress");
    reveal_strlit("--uncompress");
    reveal_strlit("--compress");
    reveal_strlit("--test");
    reveal_strlit("--list");
    reveal_strlit("--stdout");
    reveal_strlit("--to-stdout");
    reveal_strlit("--keep");
    reveal_strlit("--force");
    reveal_strlit("--verbose");
    reveal_strlit("--quiet");
    reveal_strlit("--no-warn");
    reveal_strlit("--fast");
    reveal_strlit("--best");
    reveal_strlit("--no-adjust");
    reveal_strlit("--x86");
    reveal_strlit("--arm");
    reveal_strlit("--arm64");
    reveal_strlit("--armthumb");
    reveal_strlit("--powerpc");
    reveal_strlit("--ia64");
    reveal_strlit("--sparc");
    reveal_strlit("--riscv");
    reveal_strlit("--delta");
    reveal_strlit("--threads");
    reveal_strlit("--format");
    reveal_strlit("--suffix");
    reveal_strlit("--help");
    reveal_strlit("--version");
}

} // verus!
