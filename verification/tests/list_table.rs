use rust_xz::codec::compress_stream;
use rust_xz::list::{check_name, human_bytes, inspect_bytes, print_summary, totals_fit_u64, FileSummary, ListError};
use rust_xz::lzma::IoErrorKind;
use rust_xz::options::Format;

fn make_xz_bytes(payload: &[u8]) -> Vec<u8> {
    compress_stream(payload, 6, Format::Xz, None).unwrap()
}

fn ratio_text(compressed: u64, uncompressed: u64) -> String {
    let r = if uncompressed == 0 { 0.0 } else { compressed as f64 / uncompressed as f64 };
    format!("{:>5.3}", r)
}

fn float_human_bytes(n: u64) -> String {
    const KIB: u64 = 1024;
    const MIB: u64 = KIB * 1024;
    const GIB: u64 = MIB * 1024;
    if n < KIB {
        format!("{n} B")
    } else if n < MIB {
        format!("{:.1} KiB", n as f64 / KIB as f64)
    } else if n < GIB {
        format!("{:.1} MiB", n as f64 / MIB as f64)
    } else {
        format!("{:.1} GiB", n as f64 / GIB as f64)
    }
}

#[test]
fn check_name_known_values() {
    assert_eq!(check_name(0x00), "None");
    assert_eq!(check_name(0x01), "CRC32");
    assert_eq!(check_name(0x04), "CRC64");
    assert_eq!(check_name(0x0a), "SHA-256");
    assert_eq!(check_name(0xff), "Unknown");
}

#[test]
fn human_bytes_units() {
    assert_eq!(human_bytes(0), "0 B");
    assert_eq!(human_bytes(512), "512 B");
    assert_eq!(human_bytes(1024), "1.0 KiB");
    assert_eq!(human_bytes(1024 * 1024), "1.0 MiB");
    assert_eq!(human_bytes(1024u64.pow(3)), "1.0 GiB");
}

#[test]
fn inspect_single_stream_xz_file() {
    let payload = b"hello, list mode!\n";
    let bytes = make_xz_bytes(payload);
    let s = inspect_bytes("single", &bytes, bytes.len() as u64).unwrap();
    assert_eq!(s.streams, 1);
    assert_eq!(s.uncompressed, payload.len() as u64);
    assert_eq!(s.compressed, bytes.len() as u64);
    assert_eq!(check_name(s.check), "CRC64");
}

#[test]
fn inspect_concatenated_xz_file_counts_two_streams() {
    let mut bytes = make_xz_bytes(b"AAA");
    let b = make_xz_bytes(b"BBB");
    bytes.extend_from_slice(&b);
    let s = inspect_bytes("concat", &bytes, bytes.len() as u64).unwrap();
    assert_eq!(s.streams, 2);
    assert_eq!(s.uncompressed, 6);
}

#[test]
fn inspect_rejects_non_xz_file() {
    let err = inspect_bytes("not-xz", b"definitely not an xz file", 25).unwrap_err();
    assert_eq!(err.io_kind(), IoErrorKind::InvalidData);
}

#[test]
fn print_summary_renders_table_header() {
    let summaries = vec![FileSummary {
        streams: 1,
        blocks: 1,
        compressed: 100,
        uncompressed: 200,
        check: 0x04,
        name: "a.xz".into(),
    }];
    let ratios: Vec<String> = summaries.iter().map(|s| ratio_text(s.compressed, s.uncompressed)).collect();
    let (s, totals) = print_summary(&summaries, &ratios, &ratio_text(100, 200), false);
    assert_eq!(totals, None);
    assert!(s.contains("Strms  Blocks   Compressed Uncompressed  Ratio  Check   Filename"));
    assert!(s.contains("CRC64"));
    assert!(s.contains("a.xz"));
    assert!(s.contains("0.500"));
}

// ---------------------------------------------------------------------
// Further cases
// ---------------------------------------------------------------------

#[test]
fn human_bytes_rounds_like_float_formatting() {
    let mut samples: Vec<u64> = vec![
        1023, 1024, 1075, 1076, 1126, 1127, 1280, 1331, 1536, 1843, 10239, 10240, 1048575, 1048576, 1153433,
        1258291, 1572864, 1073741823, 1073741824, 1181116006, 1610612736, 5368709120, 1 << 40, (1 << 53) - 1,
        1 << 53, (1 << 53) + 1, (1 << 53) + 3, (1 << 60) + 12345, u64::MAX - 1, u64::MAX,
    ];
    let mut x: u64 = 0x9e37_79b9_7f4a_7c15;
    for _ in 0..20000 {
        x ^= x << 13;
        x ^= x >> 7;
        x ^= x << 17;
        samples.push(x >> (x % 64));
    }
    for k in 0..4096u64 {
        samples.push(1024 + k * 25);
        samples.push(1024 * 1024 + k * 51_200);
    }
    for n in samples {
        assert_eq!(human_bytes(n), float_human_bytes(n), "n = {n}");
    }
}

#[test]
fn human_bytes_ties_go_to_even() {
    assert_eq!(human_bytes(1280), "1.2 KiB");
    assert_eq!(human_bytes(1331), "1.3 KiB");
    assert_eq!(human_bytes(1024 * 1024 - 1), "1024.0 KiB");
    assert_eq!(human_bytes(u64::MAX), "17179869184.0 GiB");
}

#[test]
fn inspect_reports_check_blocks_and_name() {
    let bytes = make_xz_bytes(b"");
    let s = inspect_bytes("empty.xz", &bytes, 999).unwrap();
    assert_eq!(s.uncompressed, 0);
    assert_eq!(s.compressed, 999);
    assert_eq!(s.blocks, s.streams);
    assert_eq!(s.check, 0x04);
    assert_eq!(s.name, "empty.xz");
}

#[test]
fn inspect_refusals_and_messages() {
    let short = &make_xz_bytes(b"x")[..11];
    let err = inspect_bytes("short.xz", short, 11).unwrap_err();
    assert!(matches!(err, ListError::NotRecognized));
    assert_eq!(err.message("short.xz"), "short.xz: File format not recognized");

    let mut broken = make_xz_bytes(b"some payload to break");
    let n = broken.len();
    broken[n - 20] ^= 0xff;
    let err = inspect_bytes("broken.xz", &broken, n as u64).unwrap_err();
    assert!(matches!(err, ListError::Decode(_)));
    assert!(!err.message("broken.xz").is_empty());
}

fn row(streams: u64, blocks: u64, compressed: u64, uncompressed: u64, ratio: f64, check: &str, name: &str) -> String {
    format!(
        "{:>5} {:>7} {:>12} {:>12}  {:>5.3}  {:<7} {}\n",
        streams,
        blocks,
        float_human_bytes(compressed),
        float_human_bytes(uncompressed),
        ratio,
        check,
        name
    )
}

#[test]
fn print_summary_exact_rows_and_totals() {
    let summaries = vec![
        FileSummary { streams: 1, blocks: 1, compressed: 180, uncompressed: 352, check: 0x04, name: "file.xz".into() },
        FileSummary { streams: 2, blocks: 2, compressed: 2048, uncompressed: 0, check: 0x01, name: "b.xz".into() },
    ];
    let ratios: Vec<String> = summaries.iter().map(|s| ratio_text(s.compressed, s.uncompressed)).collect();
    let total = ratio_text(2228, 352);
    let header = "Strms  Blocks   Compressed Uncompressed  Ratio  Check   Filename\n";
    let rows = row(1, 1, 180, 352, 180.0 / 352.0, "CRC64", "file.xz") + &row(2, 2, 2048, 0, 0.0, "CRC32", "b.xz");
    let (quiet, none) = print_summary(&summaries, &ratios, &total, false);
    assert_eq!(none, None);
    assert_eq!(quiet, format!("{header}{rows}"));
    assert!(quiet.contains("    1       1        180 B        352 B  0.511  CRC64   file.xz\n"));
    let (verbose, line) = print_summary(&summaries, &ratios, &total, true);
    let totals = row(3, 3, 2228, 352, 2228.0 / 352.0, "\u{2014}", "(totals)");
    assert_eq!(verbose, format!("{header}{rows}{totals}"));
    assert_eq!(line, Some(totals));
    let (one, no_line) = print_summary(&summaries[..1], &ratios[..1], "0.511", true);
    assert_eq!(no_line, None);
    assert_eq!(one.lines().count(), 2);
}

#[test]
fn print_summary_of_nothing_is_the_header() {
    let (s, totals) = print_summary(&[], &[], "0.000", true);
    assert_eq!(totals, None);
    assert_eq!(s, "Strms  Blocks   Compressed Uncompressed  Ratio  Check   Filename\n");
}

#[test]
fn totals_fit_detects_overflow() {
    let big = FileSummary { streams: 1, blocks: 1, compressed: u64::MAX, uncompressed: 5, check: 4, name: "x".into() };
    let small = FileSummary { streams: 1, blocks: 1, compressed: 1, uncompressed: 5, check: 4, name: "y".into() };
    assert!(totals_fit_u64(&[]));
    assert!(totals_fit_u64(&[big.clone()]));
    assert!(totals_fit_u64(&[small.clone(), small.clone()]));
    assert!(!totals_fit_u64(&[big, small]));
}

#[test]
fn inspect_concatenated_sizes_add_up() {
    let mut bytes = make_xz_bytes(&[7u8; 5000]);
    bytes.extend_from_slice(&make_xz_bytes(b"tail"));
    let s = inspect_bytes("two.xz", &bytes, bytes.len() as u64).unwrap();
    assert_eq!(s.uncompressed, 5004);
}
