use rust_xz::lzma::IoErrorKind;
use rust_xz::options::{Format, Mode, Options};
use rust_xz::processor::{check_output, plan_file, plan_stdio, FilePlan, PlanError};

fn opts(mode: Mode) -> Options {
    let mut o = Options::defaults_for("xz");
    o.mode = mode;
    o
}

#[test]
fn compress_plans_output_and_removal() {
    let o = opts(Mode::Compress);
    match plan_file("data.txt", &o) {
        FilePlan::CompressTo { output, remove_input } => {
            assert_eq!(output, "data.txt.xz");
            assert!(remove_input);
        }
        other => panic!("unexpected {:?}", other),
    }
    let mut k = opts(Mode::Compress);
    k.keep = true;
    k.format = Format::Lzma;
    match plan_file("data.txt", &k) {
        FilePlan::CompressTo { output, remove_input } => {
            assert_eq!(output, "data.txt.lzma");
            assert!(!remove_input);
        }
        other => panic!("unexpected {:?}", other),
    }
}

#[test]
fn compress_skips_already_compressed_names() {
    let o = opts(Mode::Compress);
    for name in ["a.xz", "a.lzma", "a.lz", "a.txz", "a.tlz"] {
        assert!(matches!(plan_file(name, &o), FilePlan::SkipCompressed), "{name}");
    }
    let mut f = opts(Mode::Compress);
    f.force = true;
    assert!(matches!(plan_file("a.xz", &f), FilePlan::CompressTo { .. }));
    let mut s = opts(Mode::Compress);
    s.suffix = Some(".zz".to_string());
    match plan_file("a.xz", &s) {
        FilePlan::CompressTo { output, .. } => assert_eq!(output, "a.xz.zz"),
        other => panic!("unexpected {:?}", other),
    }
}

#[test]
fn compress_to_stdout_and_raw_without_suffix() {
    let mut c = opts(Mode::Compress);
    c.stdout = true;
    assert!(matches!(plan_file("x", &c), FilePlan::CompressToStdout));
    let mut r = opts(Mode::Compress);
    r.format = Format::Raw;
    assert!(matches!(plan_file("x", &r), FilePlan::Fail(PlanError::NoOutputSuffix)));
}

#[test]
fn decompress_plans() {
    let o = opts(Mode::Decompress);
    match plan_file("dir/b.txz", &o) {
        FilePlan::DecompressTo { output, remove_input } => {
            assert_eq!(output, "dir/b.tar");
            assert!(remove_input);
        }
        other => panic!("unexpected {:?}", other),
    }
    assert!(matches!(plan_file("b.bin", &o), FilePlan::SkipUnknownSuffix));
    let mut r = opts(Mode::Decompress);
    r.format = Format::Raw;
    assert!(matches!(plan_file("b.xz", &r), FilePlan::Fail(PlanError::RawNeedsSuffix)));
    let mut c = opts(Mode::Decompress);
    c.stdout = true;
    assert!(matches!(plan_file("b.bin", &c), FilePlan::DecompressToStdout { passthrough: false }));
    c.force = true;
    assert!(matches!(plan_file("b.bin", &c), FilePlan::DecompressToStdout { passthrough: true }));
}

#[test]
fn test_mode_plans_test() {
    assert!(matches!(plan_file("whatever", &opts(Mode::Test)), FilePlan::Test));
}

#[test]
fn output_exists_needs_force() {
    let o = opts(Mode::Compress);
    assert_eq!(check_output(&o, true), Err(PlanError::OutputExists));
    assert_eq!(check_output(&o, false), Ok(()));
    let mut f = opts(Mode::Compress);
    f.force = true;
    assert_eq!(check_output(&f, true), Ok(()));
}

#[test]
fn stdin_plans() {
    assert!(matches!(plan_stdio(&opts(Mode::Compress)), FilePlan::CompressToStdout));
    assert!(matches!(plan_stdio(&opts(Mode::Test)), FilePlan::Test));
    assert!(matches!(plan_stdio(&opts(Mode::List)), FilePlan::Fail(PlanError::ListNeedsFile)));
    let mut d = opts(Mode::Decompress);
    assert!(matches!(plan_stdio(&d), FilePlan::DecompressToStdout { passthrough: false }));
    d.force = true;
    assert!(matches!(plan_stdio(&d), FilePlan::DecompressToStdout { passthrough: false }));
    d.stdout = true;
    assert!(matches!(plan_stdio(&d), FilePlan::DecompressToStdout { passthrough: true }));
}

#[test]
fn decompress_plan_undoes_compress_plan() {
    for (format, suffix) in [
        (Format::Xz, None),
        (Format::Auto, None),
        (Format::Lzma, None),
        (Format::Lzip, None),
        (Format::Raw, Some(".raw")),
        (Format::Xz, Some(".q")),
    ] {
        let mut c = opts(Mode::Compress);
        c.format = format;
        c.suffix = suffix.map(|s: &str| s.to_string());
        let out = match plan_file("notes.md", &c) {
            FilePlan::CompressTo { output, .. } => output,
            other => panic!("unexpected {:?}", other),
        };
        let mut d = opts(Mode::Decompress);
        d.suffix = c.suffix.clone();
        d.format = format;
        match plan_file(&out, &d) {
            FilePlan::DecompressTo { output, .. } => assert_eq!(output, "notes.md"),
            other => panic!("unexpected {:?}", other),
        }
    }
}

#[test]
fn refusal_kinds_and_messages() {
    assert_eq!(PlanError::OutputExists.io_kind(), IoErrorKind::AlreadyExists);
    assert_eq!(PlanError::NoOutputSuffix.io_kind(), IoErrorKind::InvalidInput);
    assert_eq!(PlanError::RawNeedsSuffix.io_kind(), IoErrorKind::InvalidInput);
    assert_eq!(PlanError::ListNeedsFile.io_kind(), IoErrorKind::InvalidInput);
    assert_eq!(PlanError::OutputExists.message("a.xz"), "a.xz: already exists; use -f to overwrite");
    assert_eq!(
        PlanError::NoOutputSuffix.message("f"),
        "f: no suffix to use for output (use --suffix= with raw format)"
    );
    assert_eq!(PlanError::RawNeedsSuffix.message("g.raw"), "g.raw: raw format requires --suffix=");
    assert_eq!(PlanError::ListNeedsFile.message("-"), "--list does not support reading from standard input");
}
