//! Shared option and flag types for the xz front end.

use vstd::prelude::*;
use crate::text::{chars_of, chars_eq_str};

verus! {

/// What the program does with each input.
#[derive(Debug, Clone, Copy, PartialEq, Eq, Structural)]
pub enum Mode {
    Compress,
    Decompress,
    Test,
    /// `-l`/`--list`: list information about .xz files.
    List,
}

/// The container format.
#[derive(Debug, Clone, Copy, PartialEq, Eq, Structural)]
pub enum Format {
    /// Auto-detect on decompress, `.xz` on compress.
    Auto,
    /// `.xz` container.
    Xz,
    /// LZMA-alone (`.lzma`) container.
    Lzma,
    /// Lzip (`.lz`) container, decode-only.
    Lzip,
    /// Raw filter chain: no container, no integrity check, no magic
    /// bytes. Needs an explicit filter chain and a `--suffix=`.
    Raw,
}

/// Branch/call/jump (BCJ) filter architecture selector, one per
/// `--x86`, `--arm`, `--arm64`, `--armthumb`, `--powerpc`, `--ia64`,
/// `--sparc`, `--riscv`.
#[derive(Debug, Clone, Copy, PartialEq, Eq, Structural)]
pub enum BcjArch {
    X86,
    Arm,
    Arm64,
    ArmThumb,
    PowerPc,
    Ia64,
    Sparc,
    RiscV,
}

/// One element of a filter chain.
#[derive(Debug, Clone, Copy, PartialEq, Eq, Structural)]
pub enum FilterKind {
    /// LZMA1 with `preset=N`; only valid as the final filter.
    Lzma1Preset(u32),
    /// LZMA2 with `preset=N`; only valid as the final filter.
    Lzma2Preset(u32),
    /// Delta filter with the default distance (1).
    Delta,
    /// A branch/call/jump filter.
    Bcj(BcjArch),
}

/// A filter chain in command-line order; LZMA1/LZMA2 must come last.
#[derive(Debug, Clone, PartialEq, Eq)]
pub struct FilterChain(pub Vec<FilterKind>);

impl View for FilterChain {
    type V = Seq<FilterKind>;

    open spec fn view(&self) -> Seq<FilterKind> {
        self.0@
    }
}

impl Default for FilterChain {
    fn default() -> (c: FilterChain)
        ensures
            c@ == Seq::<FilterKind>::empty(),
    {
        FilterChain(Vec::new())
    }
}

impl FilterChain {
    /// Append `k` at the end of the chain.
    pub fn push(&mut self, k: FilterKind)
        ensures
            final(self)@ == old(self)@.push(k),
    {
        self.0.push(k);
    }

    pub fn is_empty(&self) -> (r: bool)
        ensures
            r == (self@.len() == 0),
    {
        self.0.len() == 0
    }

    pub fn as_slice(&self) -> (s: &[FilterKind])
        ensures
            s@ == self@,
    {
        self.0.as_slice()
    }
}

/// Everything the command line decides.
#[derive(Debug, Clone)]
pub struct Options {
    pub mode: Mode,
    pub stdout: bool,
    pub keep: bool,
    pub force: bool,
    pub level: u32,
    pub verbose: bool,
    pub quiet: bool,
    pub format: Format,
    pub no_warn: bool,
    /// Custom output suffix from `--suffix=`.
    pub suffix: Option<String>,
    /// Filter chain from `--lzma1=`/`--lzma2=`/`--filters=`/BCJ flags.
    pub filter: Option<FilterChain>,
    pub files: Vec<String>,
}

/// The mathematical content of an `Options` value.
pub struct OptionsView {
    pub mode: Mode,
    pub stdout: bool,
    pub keep: bool,
    pub force: bool,
    pub level: u32,
    pub verbose: bool,
    pub quiet: bool,
    pub format: Format,
    pub no_warn: bool,
    pub suffix: Option<Seq<char>>,
    pub filter: Option<Seq<FilterKind>>,
    pub files: Seq<Seq<char>>,
}

pub open spec fn strings_view(v: Seq<String>) -> Seq<Seq<char>> {
    v.map_values(|s: String| s@)
}

impl View for Options {
    type V = OptionsView;

    open spec fn view(&self) -> OptionsView {
        OptionsView {
            mode: self.mode,
            stdout: self.stdout,
            keep: self.keep,
            force: self.force,
            level: self.level,
            verbose: self.verbose,
            quiet: self.quiet,
            format: self.format,
            no_warn: self.no_warn,
            suffix: match self.suffix {
                Some(s) => Some(s@),
                None => None,
            },
            filter: match self.filter {
                Some(c) => Some(c@),
                None => None,
            },
            files: strings_view(self.files@),
        }
    }
}

/// The options the program starts from when it runs under `prog`.
pub open spec fn defaults_view(prog: Seq<char>) -> OptionsView {
    let (mode, stdout, format) = if prog == "unxz"@ {
        (Mode::Decompress, false, Format::Auto)
    } else if prog == "xzcat"@ {
        (Mode::Decompress, true, Format::Auto)
    } else if prog == "lzma"@ {
        (Mode::Compress, false, Format::Lzma)
    } else if prog == "unlzma"@ {
        (Mode::Decompress, false, Format::Auto)
    } else if prog == "lzcat"@ {
        (Mode::Decompress, true, Format::Auto)
    } else {
        (Mode::Compress, false, Format::Auto)
    };
    OptionsView {
        mode,
        stdout,
        keep: false,
        force: false,
        level: 6,
        verbose: false,
        quiet: false,
        format,
        no_warn: false,
        suffix: None,
        filter: None,
        files: Seq::empty(),
    }
}

/// What each program name starts from: only `xzcat` and `lzcat` write to
/// standard output; `unxz`, `xzcat`, `unlzma` and `lzcat` decompress and
/// every other name compresses; only `lzma` uses the `.lzma` format; every
/// name starts at preset 6 with no switch set, no suffix, no filter chain
/// and no file.
pub proof fn lemma_program_defaults(prog: Seq<char>)
    ensures
        defaults_view(prog).stdout <==> (prog == "xzcat"@ || prog == "lzcat"@),
        defaults_view(prog).mode == (if prog == "unxz"@ || prog == "xzcat"@ || prog == "unlzma"@ || prog == "lzcat"@ {
            Mode::Decompress
        } else {
            Mode::Compress
        }),
        defaults_view(prog).format == (if prog == "lzma"@ {
            Format::Lzma
        } else {
            Format::Auto
        }),
        defaults_view(prog).level == 6,
        !defaults_view(prog).keep && !defaults_view(prog).force && !defaults_view(prog).verbose,
        !defaults_view(prog).quiet && !defaults_view(prog).no_warn,
        defaults_view(prog).suffix is None && defaults_view(prog).filter is None,
        defaults_view(prog).files.len() == 0,
{
    reveal_strlit("unxz");
    reveal_strlit("xzcat");
    reveal_strlit("lzma");
    reveal_strlit("unlzma");
    reveal_strlit("lzcat");
    assert("xzcat"@[0] != "lzcat"@[0]);
    assert("unxz"@[2] != "unlzma"@[2]);
    assert("lzma"@.len() != "xzcat"@.len() && "lzma"@.len() != "unlzma"@.len() && "lzma"@.len() != "lzcat"@.len());
    assert("lzma"@[0] != "unxz"@[0]);
    assert("unlzma"@.len() != "xzcat"@.len() && "unlzma"@.len() != "lzcat"@.len());
    assert("xzcat"@[0] != "unxz"@[0] && "lzcat"@[0] != "unxz"@[0]);
}

impl Options {
    /// Defaults derived from the program name (argv[0]).
    pub fn defaults_for(prog_name: &str) -> (o: Self)
        ensures
            o@ == defaults_view(prog_name@),
    {
        let p = chars_of(prog_name);
        let (mode, stdout, format) = if chars_eq_str(p.as_slice(), "unxz") {
            (Mode::Decompress, false, Format::Auto)
        } else if chars_eq_str(p.as_slice(), "xzcat") {
            (Mode::Decompress, true, Format::Auto)
        } else if chars_eq_str(p.as_slice(), "lzma") {
            (Mode::Compress, false, Format::Lzma)
        } else if chars_eq_str(p.as_slice(), "unlzma") {
            (Mode::Decompress, false, Format::Auto)
        } else if chars_eq_str(p.as_slice(), "lzcat") {
            (Mode::Decompress, true, Format::Auto)
        } else {
            (Mode::Compress, false, Format::Auto)
        };
        let o = Options {
            mode,
            stdout,
            keep: false,
            force: false,
            level: 6,
            verbose: false,
            quiet: false,
            format,
            no_warn: false,
            suffix: None,
            filter: None,
            files: Vec::new(),
        };
        assert(strings_view(o.files@) =~= Seq::<Seq<char>>::empty());
        o
    }
}

} // verus!
