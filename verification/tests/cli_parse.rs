use rust_xz::cli::{add_files_list, parse_from, parse_resume, FilesListError, ParseError, ParseStep};
use rust_xz::options::{BcjArch, FilterKind, Format, Mode, Options};

fn args(xs: &[&str]) -> Vec<String> {
    xs.iter().map(|s| s.to_string()).collect()
}

fn run(prog: &str, xs: &[&str]) -> Options {
    match parse_from(prog, &args(xs)) {
        ParseStep::Run(o) => o,
        other => panic!("expected a complete parse, got {:?}", other),
    }
}

#[test]
fn no_args_uses_xz_defaults() {
    let o = run("xz", &[]);
    assert_eq!(o.mode, Mode::Compress);
    assert_eq!(o.format, Format::Auto);
    assert!(o.files.is_empty());
}

#[test]
fn long_decompress() {
    let o = run("xz", &["--decompress", "a.xz"]);
    assert_eq!(o.mode, Mode::Decompress);
    assert_eq!(o.files, vec!["a.xz".to_string()]);
}

#[test]
fn combined_short_flags() {
    let o = run("xz", &["-dkv"]);
    assert_eq!(o.mode, Mode::Decompress);
    assert!(o.keep);
    assert!(o.verbose);
}

#[test]
fn combined_level_and_force() {
    let o = run("xz", &["-9cf"]);
    assert_eq!(o.level, 9);
    assert!(o.stdout);
    assert!(o.force);
}

#[test]
fn fast_and_best_aliases() {
    assert_eq!(run("xz", &["--fast"]).level, 0);
    assert_eq!(run("xz", &["--best"]).level, 9);
}

#[test]
fn threads_consumes_following_arg() {
    let o = run("xz", &["-T", "4", "input"]);
    assert_eq!(o.files, vec!["input".to_string()]);
}

#[test]
fn threads_inline_form() {
    let o = run("xz", &["-T0", "input"]);
    assert_eq!(o.files, vec!["input".to_string()]);
}

#[test]
fn threads_long_inline() {
    let o = run("xz", &["--threads=2", "input"]);
    assert_eq!(o.files, vec!["input".to_string()]);
}

#[test]
fn double_dash_ends_options() {
    let o = run("xz", &["--", "-d", "-c"]);
    assert_eq!(o.mode, Mode::Compress);
    assert_eq!(o.files, vec!["-d".to_string(), "-c".to_string()]);
}

#[test]
fn unxz_default_then_keep() {
    let o = run("unxz", &["-k", "x.xz"]);
    assert_eq!(o.mode, Mode::Decompress);
    assert!(o.keep);
    assert_eq!(o.files, vec!["x.xz".to_string()]);
}

#[test]
fn xzcat_implies_stdout_decompress() {
    let o = run("xzcat", &["x.xz"]);
    assert_eq!(o.mode, Mode::Decompress);
    assert!(o.stdout);
}

#[test]
fn lzma_default_format() {
    let o = run("lzma", &[]);
    assert_eq!(o.format, Format::Lzma);
    assert_eq!(o.mode, Mode::Compress);
}

#[test]
fn level_short() {
    assert_eq!(run("xz", &["-3"]).level, 3);
    assert_eq!(run("xz", &["-0"]).level, 0);
}

#[test]
fn collects_multiple_files() {
    let o = run("xz", &["a", "b", "c"]);
    assert_eq!(o.files, vec!["a".to_string(), "b".to_string(), "c".to_string()]);
}

#[test]
fn format_long_eq() {
    assert_eq!(run("xz", &["--format=raw"]).format, Format::Raw);
    assert_eq!(run("xz", &["--format=lzma"]).format, Format::Lzma);
    assert_eq!(run("xz", &["--format=lzip"]).format, Format::Lzip);
    assert_eq!(run("xz", &["--format=auto"]).format, Format::Auto);
}

#[test]
fn format_short_dash_f_inline() {
    assert_eq!(run("xz", &["-Fraw"]).format, Format::Raw);
}

#[test]
fn format_short_dash_f_separate() {
    assert_eq!(run("xz", &["-F", "lzma"]).format, Format::Lzma);
}

#[test]
fn suffix_long_eq() {
    assert_eq!(run("xz", &["--suffix=.foo"]).suffix.as_deref(), Some(".foo"));
}

#[test]
fn suffix_short() {
    assert_eq!(run("xz", &["-S", ".bar"]).suffix.as_deref(), Some(".bar"));
    assert_eq!(run("xz", &["-S.baz"]).suffix.as_deref(), Some(".baz"));
}

#[test]
fn lzma1_preset_appends_to_chain() {
    let o = run("xz", &["--lzma1=preset=0"]);
    let chain = o.filter.unwrap();
    assert_eq!(chain.as_slice(), &[FilterKind::Lzma1Preset(0)]);
}

#[test]
fn lzma2_preset_appends_to_chain() {
    let o = run("xz", &["--lzma2=preset=4"]);
    let chain = o.filter.unwrap();
    assert_eq!(chain.as_slice(), &[FilterKind::Lzma2Preset(4)]);
}

#[test]
fn no_warn_combined_short() {
    let o = run("xz", &["-dcqQ", "x.xz"]);
    assert!(o.no_warn);
    assert!(o.quiet);
}

#[test]
fn list_long() {
    let o = run("xz", &["--list", "x.xz"]);
    assert_eq!(o.mode, Mode::List);
}

#[test]
fn list_short() {
    let o = run("xz", &["-l", "x.xz"]);
    assert_eq!(o.mode, Mode::List);
}

#[test]
fn list_combined_short() {
    let o = run("xz", &["-lv", "x.xz"]);
    assert_eq!(o.mode, Mode::List);
    assert!(o.verbose);
}

#[test]
fn bcj_x86_appends_filter() {
    let o = run("xz", &["--x86", "--lzma2=preset=4", "input"]);
    let chain = o.filter.unwrap();
    assert_eq!(chain.as_slice(), &[FilterKind::Bcj(BcjArch::X86), FilterKind::Lzma2Preset(4)]);
}

#[test]
fn bcj_arm64_riscv_delta_recognised() {
    for (flag, expected) in [
        ("--arm", FilterKind::Bcj(BcjArch::Arm)),
        ("--arm64", FilterKind::Bcj(BcjArch::Arm64)),
        ("--armthumb", FilterKind::Bcj(BcjArch::ArmThumb)),
        ("--powerpc", FilterKind::Bcj(BcjArch::PowerPc)),
        ("--ia64", FilterKind::Bcj(BcjArch::Ia64)),
        ("--sparc", FilterKind::Bcj(BcjArch::Sparc)),
        ("--riscv", FilterKind::Bcj(BcjArch::RiscV)),
        ("--delta", FilterKind::Delta),
    ] {
        let o = run("xz", &[flag, "--lzma2=preset=0"]);
        let chain = o.filter.unwrap();
        assert_eq!(chain.as_slice()[0], expected, "first kind for {flag}");
    }
}

#[test]
fn filters_long_eq_space_separated() {
    let o = run("xz", &["--filters=x86 lzma2:preset=4"]);
    let chain = o.filter.unwrap();
    assert_eq!(chain.as_slice(), &[FilterKind::Bcj(BcjArch::X86), FilterKind::Lzma2Preset(4)]);
}

#[test]
fn filters_long_eq_dash_dash_separated() {
    let o = run("xz", &["--filters=arm64--lzma2:preset=6"]);
    let chain = o.filter.unwrap();
    assert_eq!(chain.as_slice(), &[FilterKind::Bcj(BcjArch::Arm64), FilterKind::Lzma2Preset(6)]);
}

#[test]
fn filters_long_eq_default_preset_is_six() {
    let o = run("xz", &["--filters=lzma2"]);
    let chain = o.filter.unwrap();
    assert_eq!(chain.as_slice(), &[FilterKind::Lzma2Preset(6)]);
}

// ---------------------------------------------------------------------
// Further cases
// ---------------------------------------------------------------------

#[test]
fn help_and_version_stop_parsing() {
    assert!(matches!(parse_from("xz", &args(&["-h", "a"])), ParseStep::Help));
    assert!(matches!(parse_from("xz", &args(&["--help"])), ParseStep::Help));
    assert!(matches!(parse_from("xz", &args(&["-V"])), ParseStep::Version));
    assert!(matches!(parse_from("xz", &args(&["a", "--version"])), ParseStep::Version));
}

#[test]
fn unknown_letter_in_group_is_refused() {
    match parse_from("xz", &args(&["-dxk"])) {
        ParseStep::Fail(ParseError::UnknownOption(c)) => assert_eq!(c, 'x'),
        other => panic!("unexpected {:?}", other),
    }
}

#[test]
fn unknown_format_names_are_refused() {
    match parse_from("xz", &args(&["--format=zip"])) {
        ParseStep::Fail(ParseError::UnknownFormat(n)) => assert_eq!(n, "zip"),
        other => panic!("unexpected {:?}", other),
    }
    match parse_from("xz", &args(&["-Fgz"])) {
        ParseStep::Fail(ParseError::UnknownFormat(n)) => assert_eq!(n, "gz"),
        other => panic!("unexpected {:?}", other),
    }
    match parse_from("xz", &args(&["-F", "gz"])) {
        ParseStep::Fail(ParseError::UnknownFormatArg(n)) => assert_eq!(n, Some("gz".to_string())),
        other => panic!("unexpected {:?}", other),
    }
    match parse_from("xz", &args(&["--format"])) {
        ParseStep::Fail(ParseError::UnknownFormatArg(n)) => assert_eq!(n, None),
        other => panic!("unexpected {:?}", other),
    }
}

#[test]
fn alone_is_lzma_and_xz_is_xz() {
    assert_eq!(run("xz", &["--format=alone"]).format, Format::Lzma);
    assert_eq!(run("xz", &["-Fxz"]).format, Format::Xz);
}

#[test]
fn bad_filter_values_are_refused() {
    match parse_from("xz", &args(&["--lzma1=dict=1"])) {
        ParseStep::Fail(ParseError::BadLzma1(a)) => assert_eq!(a, "--lzma1=dict=1"),
        other => panic!("unexpected {:?}", other),
    }
    match parse_from("xz", &args(&["--lzma2=preset=x"])) {
        ParseStep::Fail(ParseError::BadLzma2(a)) => assert_eq!(a, "--lzma2=preset=x"),
        other => panic!("unexpected {:?}", other),
    }
    match parse_from("xz", &args(&["--filters=zstd"])) {
        ParseStep::Fail(ParseError::BadFilters(a)) => assert_eq!(a, "--filters=zstd"),
        other => panic!("unexpected {:?}", other),
    }
    match parse_from("xz", &args(&["--filters="])) {
        ParseStep::Fail(ParseError::BadFilters(a)) => assert_eq!(a, "--filters="),
        other => panic!("unexpected {:?}", other),
    }
}

#[test]
fn lzma_value_accepts_extreme_and_plus_sign() {
    let o = run("xz", &["--lzma2=preset=7e"]);
    assert_eq!(o.filter.unwrap().as_slice(), &[FilterKind::Lzma2Preset(7)]);
    let o = run("xz", &["--lzma1=preset=+3"]);
    assert_eq!(o.filter.unwrap().as_slice(), &[FilterKind::Lzma1Preset(3)]);
}

#[test]
fn filters_tokens_with_options_and_ppc_alias() {
    let o = run("xz", &["--filters=ppc delta lzma1:preset=2e"]);
    assert_eq!(
        o.filter.unwrap().as_slice(),
        &[FilterKind::Bcj(BcjArch::PowerPc), FilterKind::Delta, FilterKind::Lzma1Preset(2)]
    );
    let o = run("xz", &["--filters=lzma2:dict=8"]);
    assert_eq!(o.filter.unwrap().as_slice(), &[FilterKind::Lzma2Preset(6)]);
}

#[test]
fn filters_replaces_chain_built_so_far() {
    let o = run("xz", &["--x86", "--filters=lzma2:preset=1"]);
    assert_eq!(o.filter.unwrap().as_slice(), &[FilterKind::Lzma2Preset(1)]);
}

#[test]
fn ignored_options_are_accepted() {
    let o = run("xz", &["--no-adjust", "--memlimit-decompress=10", "--threads", "3", "f"]);
    assert_eq!(o.files, vec!["f".to_string()]);
    assert_eq!(o.level, 6);
}

#[test]
fn suffix_without_value_is_ignored() {
    let o = run("xz", &["-S"]);
    assert_eq!(o.suffix, None);
}

#[test]
fn dash_alone_and_long_unknown_are_files() {
    let o = run("xz", &["-", "--bogus", "-x"]);
    assert_eq!(o.files, vec!["-".to_string(), "--bogus".to_string(), "-x".to_string()]);
}

#[test]
fn letter_group_matches_single_flags() {
    for c in ["d", "z", "t", "l", "c", "k", "f", "v", "q", "Q", "0", "5", "9"] {
        let single = run("xz", &[&format!("-{c}")]);
        let grouped = run("xz", &[&format!("-{c}{c}")]);
        assert_eq!(single.mode, grouped.mode);
        assert_eq!(single.level, grouped.level);
        assert_eq!(single.stdout, grouped.stdout);
        assert_eq!(single.keep, grouped.keep);
        assert_eq!(single.force, grouped.force);
        assert_eq!(single.verbose, grouped.verbose);
        assert_eq!(single.quiet, grouped.quiet);
        assert_eq!(single.no_warn, grouped.no_warn);
    }
}

#[test]
fn files_list_stops_and_resumes() {
    let a = args(&["-k", "--files=list.txt", "-v", "x"]);
    match parse_from("xz", &a) {
        ParseStep::ReadList { mut opts, path, separator, resume_at } => {
            assert_eq!(path, "list.txt");
            assert_eq!(separator, b'\n');
            assert_eq!(resume_at, 2);
            assert!(opts.keep);
            assert_eq!(add_files_list(&mut opts, b"one\n\ntwo\n", separator), Ok(()));
            match parse_resume(opts, &a, resume_at) {
                ParseStep::Run(o) => {
                    assert!(o.verbose);
                    assert_eq!(o.files, vec!["one".to_string(), "two".to_string(), "x".to_string()]);
                }
                other => panic!("unexpected {:?}", other),
            }
        }
        other => panic!("unexpected {:?}", other),
    }
}

#[test]
fn files0_list_uses_nul() {
    match parse_from("xz", &args(&["--files0=names"])) {
        ParseStep::ReadList { mut opts, path, separator, resume_at } => {
            assert_eq!(path, "names");
            assert_eq!(separator, 0u8);
            assert_eq!(resume_at, 1);
            assert_eq!(add_files_list(&mut opts, b"a b\0c\nd\0", separator), Ok(()));
            assert_eq!(opts.files, vec!["a b".to_string(), "c\nd".to_string()]);
        }
        other => panic!("unexpected {:?}", other),
    }
}

#[test]
fn files_list_keeps_entries_before_invalid_utf8() {
    let mut o = Options::defaults_for("xz");
    o.files.push("keep".to_string());
    assert_eq!(add_files_list(&mut o, b"good\n\n\xff\xfe\nalso", b'\n'), Err(FilesListError::NotUtf8));
    assert_eq!(o.files, vec!["keep".to_string(), "good".to_string()]);
    let mut p = Options::defaults_for("xz");
    assert_eq!(add_files_list(&mut p, b"a\n\xff\n", b'\n'), Err(FilesListError::NotUtf8));
    assert_eq!(p.files, vec!["a".to_string()]);
}

#[test]
fn filter_options_append_or_replace_after_any_arguments() {
    let prefix = ["-k", "-T", "2", "--delta", "-S", ".q", "in"];
    let mut with_lzma = prefix.to_vec();
    with_lzma.push("--lzma2=preset=4");
    let o = run("xz", &with_lzma);
    assert_eq!(o.filter.unwrap().as_slice(), &[FilterKind::Delta, FilterKind::Lzma2Preset(4)]);
    let mut with_bcj = prefix.to_vec();
    with_bcj.push("--riscv");
    let o = run("xz", &with_bcj);
    assert_eq!(o.filter.unwrap().as_slice(), &[FilterKind::Delta, FilterKind::Bcj(BcjArch::RiscV)]);
    let mut with_filters = prefix.to_vec();
    with_filters.push("--filters=x86 lzma2");
    let o = run("xz", &with_filters);
    assert_eq!(o.filter.unwrap().as_slice(), &[FilterKind::Bcj(BcjArch::X86), FilterKind::Lzma2Preset(6)]);
    assert!(o.keep);
    assert_eq!(o.files, vec!["in".to_string()]);
    let o = run("xz", &["--lzma1=preset=2"]);
    assert_eq!(o.filter.unwrap().as_slice(), &[FilterKind::Lzma1Preset(2)]);
}
