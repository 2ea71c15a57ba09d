//! `xz -l`/`--list`: a one-line summary of each `.xz` file, in the
//! style of upstream xz's non-verbose totals table:
//!
//! ```text
//! Strms  Blocks   Compressed Uncompressed  Ratio  Check   Filename
//!     1       1        180 B        352 B  0.511  CRC64   file.xz
//! ```
//!
//! The number of streams is the number of stream-header magics found
//! in the file, the uncompressed size comes from decoding the whole
//! file, and the check is the low nibble of the stream-flags byte. One
//! block per stream is reported.

use vstd::prelude::*;
use crate::codec::{CodecError, error_kind, error_text, failure, has_xz_magic};
use crate::lzma::{IoErrorKind, begins_with, xz_magic, auto_decoding, decode_auto, xz_preset_encoding, xz_chain_encoding, preset_is_valid, xz_chain_ok};
use crate::text::{concat, decimal, digit_char, digit_str, pad_left, pad_right, push_decimal, push_padded_left, push_padded_right};

verus! {

/// Per-file summary.
#[derive(Debug, Clone)]
pub struct FileSummary {
    pub streams: u64,
    pub blocks: u64,
    pub compressed: u64,
    pub uncompressed: u64,
    pub check: u8,
    pub name: String,
}

// ---------------------------------------------------------------------
// Check names and sizes
// ---------------------------------------------------------------------

/// The name of an xz integrity-check ID.
pub open spec fn check_label(id: u8) -> Seq<char> {
    if id == 0x00 {
        "None"@
    } else if id == 0x01 {
        "CRC32"@
    } else if id == 0x04 {
        "CRC64"@
    } else if id == 0x0a {
        "SHA-256"@
    } else {
        "Unknown"@
    }
}

/// The check IDs xz names: 0x00 "None", 0x01 "CRC32", 0x04 "CRC64",
/// 0x0a "SHA-256"; every other ID is "Unknown".
pub proof fn lemma_check_labels(id: u8)
    ensures
        check_label(0x00) == "None"@,
        check_label(0x01) == "CRC32"@,
        check_label(0x04) == "CRC64"@,
        check_label(0x0a) == "SHA-256"@,
        id != 0x00 && id != 0x01 && id != 0x04 && id != 0x0a ==> check_label(id) == "Unknown"@,
{
}

/// Symbolic name for an xz integrity-check ID.
pub fn check_name(id: u8) -> (s: &'static str)
    ensures
        s@ == check_label(id),
{
    if id == 0x00 {
        "None"
    } else if id == 0x01 {
        "CRC32"
    } else if id == 0x04 {
        "CRC64"
    } else if id == 0x0a {
        "SHA-256"
    } else {
        "Unknown"
    }
}

/// `num / den` rounded to the nearest integer, ties to even.
pub open spec fn round_half_even(num: nat, den: nat) -> nat
    recommends
        den > 0,
{
    let q = num / den;
    let r = num % den;
    if 2 * r > den || (2 * r == den && q % 2 == 1) {
        q + 1
    } else {
        q
    }
}

/// The spacing of the `f64` values around `n`: 1 below 2^53, and then
/// doubling with each further bit.
pub open spec fn f64_spacing(n: u64) -> nat {
    if n < 0x20_0000_0000_0000 {
        1
    } else if n < 0x40_0000_0000_0000 {
        2
    } else if n < 0x80_0000_0000_0000 {
        4
    } else if n < 0x100_0000_0000_0000 {
        8
    } else if n < 0x200_0000_0000_0000 {
        16
    } else if n < 0x400_0000_0000_0000 {
        32
    } else if n < 0x800_0000_0000_0000 {
        64
    } else if n < 0x1000_0000_0000_0000 {
        128
    } else if n < 0x2000_0000_0000_0000 {
        256
    } else if n < 0x4000_0000_0000_0000 {
        512
    } else if n < 0x8000_0000_0000_0000 {
        1024
    } else {
        2048
    }
}

/// `n as f64`: the nearest value with 53 significant bits, ties to even.
pub open spec fn f64_of(n: u64) -> nat {
    round_half_even(n as nat, f64_spacing(n)) * f64_spacing(n)
}

/// `n / unit` (in `f64`) in tenths, as `{:.1}` rounds it: to nearest,
/// ties to even.
pub open spec fn tenths_of(n: u64, unit: nat) -> nat {
    round_half_even(f64_of(n) * 10, unit)
}

/// `t` tenths written as `X.Y`.
pub open spec fn tenths_text(t: nat) -> Seq<char> {
    decimal(t / 10).push('.').push(digit_char(t % 10))
}

/// A byte count in xz's "X B" / "X.Y KiB" / "X.Y MiB" / "X.Y GiB" style.
pub open spec fn human_size(n: u64) -> Seq<char> {
    if n < 1024 {
        decimal(n as nat) + " B"@
    } else if n < 1024 * 1024 {
        tenths_text(tenths_of(n, 1024)) + " KiB"@
    } else if n < 1024 * 1024 * 1024 {
        tenths_text(tenths_of(n, 1024 * 1024)) + " MiB"@
    } else {
        tenths_text(tenths_of(n, 1024 * 1024 * 1024)) + " GiB"@
    }
}

proof fn lemma_whole_units(k: nat, unit: nat)
    requires
        1 <= unit,
        k * unit < 0x20_0000_0000_0000,
    ensures
        tenths_of((k * unit) as u64, unit) == 10 * k,
{
    let n = (k * unit) as u64;
    assert(f64_spacing(n) == 1);
    assert(f64_of(n) == k * unit);
    assert((k * unit * 10) / unit == 10 * k && (k * unit * 10) % unit == 0) by (nonlinear_arith)
        requires
            1 <= unit,
    {
        assert(k * unit * 10 == (10 * k) * unit);
    }
}

/// Sizes print in the largest unit they reach, with one decimal: below
/// 1024 bytes as `N B`; whole numbers of KiB, MiB and GiB as `K.0 KiB`,
/// `K.0 MiB` and `K.0 GiB`.
pub proof fn lemma_human_units(n: u64, k: nat)
    ensures
        n < 1024 ==> human_size(n) == decimal(n as nat) + " B"@,
        1 <= k < 1024 ==> human_size((k * 1024) as u64) == decimal(k) + ".0 KiB"@,
        1 <= k < 1024 ==> human_size((k * 0x10_0000) as u64) == decimal(k) + ".0 MiB"@,
        1 <= k < 0x80_0000 ==> human_size((k * 0x4000_0000) as u64) == decimal(k) + ".0 GiB"@,
{
    reveal_strlit(".0 KiB");
    reveal_strlit(".0 MiB");
    reveal_strlit(".0 GiB");
    reveal_strlit(" KiB");
    reveal_strlit(" MiB");
    reveal_strlit(" GiB");
    assert(digit_char(0) == '0');
    if 1 <= k < 1024 {
        assert(k * 1024 < 1024 * 1024) by (nonlinear_arith)
            requires
                k < 1024,
        ;
        assert(k * 0x10_0000 < 1024 * 0x10_0000) by (nonlinear_arith)
            requires
                k < 1024,
        ;
        assert(k * 1024 >= 1024 && k * 0x10_0000 >= 0x10_0000) by (nonlinear_arith)
            requires
                k >= 1,
        ;
        lemma_whole_units(k, 1024);
        lemma_whole_units(k, 0x10_0000);
        assert(decimal(k).push('.').push('0') + " KiB"@ =~= decimal(k) + ".0 KiB"@);
        assert(decimal(k).push('.').push('0') + " MiB"@ =~= decimal(k) + ".0 MiB"@);
    }
    if 1 <= k < 0x80_0000 {
        assert(k * 0x4000_0000 < 0x20_0000_0000_0000 && k * 0x4000_0000 >= 0x4000_0000) by (nonlinear_arith)
            requires
                1 <= k < 0x80_0000,
        ;
        lemma_whole_units(k, 0x4000_0000);
        assert(decimal(k).push('.').push('0') + " GiB"@ =~= decimal(k) + ".0 GiB"@);
    }
}

/// `round_half_even(num, den)`.
fn round_even(num: u128, den: u128) -> (q: u128)
    requires
        0 < den <= 0x1_0000_0000_0000,
        num < 0x1_0000_0000_0000_0000_0000_0000_0000,
    ensures
        q == round_half_even(num as nat, den as nat),
{
    let q = num / den;
    let r = num % den;
    if 2 * r > den || (2 * r == den && q % 2 == 1) {
        q + 1
    } else {
        q
    }
}

/// `f64_spacing(n)`.
fn spacing(n: u64) -> (s: u128)
    ensures
        s == f64_spacing(n),
        1 <= s <= 2048,
{
    if n < 0x20_0000_0000_0000 {
        1
    } else if n < 0x40_0000_0000_0000 {
        2
    } else if n < 0x80_0000_0000_0000 {
        4
    } else if n < 0x100_0000_0000_0000 {
        8
    } else if n < 0x200_0000_0000_0000 {
        16
    } else if n < 0x400_0000_0000_0000 {
        32
    } else if n < 0x800_0000_0000_0000 {
        64
    } else if n < 0x1000_0000_0000_0000 {
        128
    } else if n < 0x2000_0000_0000_0000 {
        256
    } else if n < 0x4000_0000_0000_0000 {
        512
    } else if n < 0x8000_0000_0000_0000 {
        1024
    } else {
        2048
    }
}

/// Append `n / unit` in tenths, as `X.Y`.
fn push_tenths(out: &mut String, n: u64, unit: u128)
    requires
        unit == 1024 || unit == 1024 * 1024 || unit == 1024 * 1024 * 1024,
    ensures
        final(out)@ == old(out)@ + tenths_text(tenths_of(n, unit as nat)),
{
    let s = spacing(n);
    let m = round_even(n as u128, s);
    assert(m <= n as u128 + 1) by (nonlinear_arith)
        requires
            m == round_half_even(n as nat, s as nat),
            s >= 1,
    {
        assert((n as nat) / (s as nat) <= n as nat);
    }
    let f = m * s;
    assert(f <= 0x1_0000_0000_0000_0000 * 2048) by (nonlinear_arith)
        requires
            f == m * s,
            m <= n as u128 + 1,
            s <= 2048,
            n < 0x1_0000_0000_0000_0000,
    ;
    let t = round_even(f * 10, unit);
    push_decimal(out, t / 10);
    proof {
        reveal_strlit(".");
    }
    out.append(".");
    out.append(digit_str(t % 10));
    assert(out@ =~= old(out)@ + tenths_text(tenths_of(n, unit as nat)));
}

/// Append `human_size(n)`.
fn push_human(out: &mut String, n: u64)
    ensures
        final(out)@ == old(out)@ + human_size(n),
{
    let ghost before = out@;
    if n < 1024 {
        push_decimal(out, n as u128);
        out.append(" B");
    } else if n < 1024 * 1024 {
        push_tenths(out, n, 1024);
        out.append(" KiB");
    } else if n < 1024 * 1024 * 1024 {
        push_tenths(out, n, 1024 * 1024);
        out.append(" MiB");
    } else {
        push_tenths(out, n, 1024 * 1024 * 1024);
        out.append(" GiB");
    }
    assert(out@ =~= before + human_size(n));
}

/// Format a byte count in xz's "X.X MiB" / "X B" style.
pub fn human_bytes(n: u64) -> (s: String)
    ensures
        s@ == human_size(n),
{
    let mut out = String::new();
    push_human(&mut out, n);
    assert(out@ =~= human_size(n));
    out
}

// ---------------------------------------------------------------------
// Inspecting a file
// ---------------------------------------------------------------------

/// Why a file cannot be listed.
#[derive(Debug, Clone)]
pub enum ListError {
    /// The file does not start with an `.xz` stream header.
    NotRecognized,
    /// Decoding the file failed.
    Decode(CodecError),
}

impl ListError {
    /// The error kind of `std::io` this error is reported as.
    pub fn io_kind(&self) -> (k: IoErrorKind)
        ensures
            k == match self {
                ListError::NotRecognized => IoErrorKind::InvalidData,
                ListError::Decode(c) => error_kind(*c),
            },
    {
        match self {
            ListError::NotRecognized => IoErrorKind::InvalidData,
            ListError::Decode(c) => c.io_kind(),
        }
    }

    /// The text the error is reported with, for the file `name`.
    pub fn message(&self, name: &str) -> (s: String)
        ensures
            s@ == match self {
                ListError::NotRecognized => name@ + ": File format not recognized"@,
                ListError::Decode(c) => error_text(*c),
            },
    {
        match self {
            ListError::NotRecognized => concat(name, ": File format not recognized"),
            ListError::Decode(c) => c.message(),
        }
    }
}

/// The number of stream-header magics found in `b[i..]`, looking at
/// every 4th offset and skipping 12 bytes past each magic.
pub open spec fn magics_from(b: Seq<u8>, i: int) -> nat
    decreases b.len() + 12 - i,
{
    if i < 0 || i + 6 > b.len() {
        0
    } else if begins_with(b.subrange(i, b.len() as int), xz_magic()) {
        1 + magics_from(b, i + 12)
    } else {
        magics_from(b, i + 4)
    }
}

/// The scan, moved past `x`, scans `y` alone.
proof fn lemma_magics_shift(x: Seq<u8>, y: Seq<u8>, k: int)
    requires
        k >= 0,
    ensures
        magics_from(x + y, x.len() + k) == magics_from(y, k),
    decreases y.len() + 12 - k,
{
    let b = x + y;
    let i = x.len() + k;
    if k + 6 <= y.len() {
        assert(b.subrange(i, b.len() as int) =~= y.subrange(k, y.len() as int));
        lemma_magics_shift(x, y, k + 12);
        lemma_magics_shift(x, y, k + 4);
    }
}

/// Aligned offsets without a magic add nothing to the scan.
proof fn lemma_magics_skip(b: Seq<u8>, i: int, j: int)
    requires
        0 <= i <= j,
        i % 4 == 0,
        j % 4 == 0,
        forall|m: int| i <= m < j && m % 4 == 0 ==> !begins_with(#[trigger] b.subrange(m, b.len() as int), xz_magic()),
    ensures
        magics_from(b, i) == magics_from(b, j),
    decreases j - i,
{
    if i < j {
        assert(!begins_with(b.subrange(i, b.len() as int), xz_magic()));
        lemma_magics_skip(b, i + 4, j);
    }
}

/// Streams are counted at every 4-byte aligned offset: a file that is one
/// `.xz` stream `x` (a multiple of 4 bytes, with no other stream magic at
/// an aligned offset past its header) followed by `y` has one stream more
/// than `y` has, and one stream when `y` is empty.
pub proof fn lemma_stream_count_concat(x: Seq<u8>, y: Seq<u8>)
    requires
        x.len() % 4 == 0,
        x.len() >= 12,
        begins_with(x, xz_magic()),
        forall|j: int| 12 <= j < x.len() && j % 4 == 0 ==> !begins_with(#[trigger] (x + y).subrange(j, (x + y).len() as int), xz_magic()),
    ensures
        magics_from(x + y, 0) == 1 + magics_from(y, 0),
        stream_count(x + y) == 1 + magics_from(y, 0),
        y.len() == 0 ==> stream_count(x + y) == 1,
{
    let b = x + y;
    assert(b.subrange(0, b.len() as int) =~= b);
    assert(b.subrange(0, 6) =~= x.subrange(0, 6));
    lemma_magics_skip(b, 12, x.len() as int);
    lemma_magics_shift(x, y, 0);
    if y.len() == 0 {
        assert(magics_from(y, 0) == 0);
    }
}

/// The number of streams reported for a file: the magics found, at least 1.
pub open spec fn stream_count(b: Seq<u8>) -> nat {
    let c = magics_from(b, 0);
    if c == 0 {
        1
    } else {
        c
    }
}

/// The `.xz` files `--list` accepts start with a stream header.
pub open spec fn listable(b: Seq<u8>) -> bool {
    b.len() >= 12 && begins_with(b, xz_magic())
}

/// Summarize the `.xz` file `name`, whose contents are `bytes` and whose
/// size on disk is `compressed`.
pub fn inspect_bytes(name: &str, bytes: &[u8], compressed: u64) -> (r: Result<FileSummary, ListError>)
    ensures
        !listable(bytes@) ==> r matches Err(ListError::NotRecognized),
        listable(bytes@) ==> match r {
            Ok(s) => {
                &&& s.streams == stream_count(bytes@)
                &&& s.blocks == s.streams
                &&& s.compressed == compressed
                &&& s.uncompressed == auto_decoding(bytes@, 0x08).len()
                &&& s.check == bytes@[7] & 0x0f
                &&& s.name@ == name@
            },
            Err(e) => e matches ListError::Decode(c) && c is Lzma,
        },
        // what the `.xz` encoders made is summarized, with the size of the data
        listable(bytes@) ==> {
            &&& forall|p: Seq<u8>, l: u32|
                preset_is_valid(l) && bytes@ == #[trigger] xz_preset_encoding(p, l) ==> (r matches Ok(s) && s.uncompressed
                    == p.len())
            &&& forall|p: Seq<u8>, c: Seq<(u64, u32)>|
                xz_chain_ok(c) && bytes@ == #[trigger] xz_chain_encoding(p, c) ==> (r matches Ok(s) && s.uncompressed
                    == p.len())
            &&& forall|p: Seq<u8>, l: u32, q: Seq<u8>, m: u32|
                preset_is_valid(l) && preset_is_valid(m) && bytes@ == #[trigger] xz_preset_encoding(p, l)
                    + #[trigger] xz_preset_encoding(q, m) ==> (r matches Ok(s) && s.uncompressed == p.len() + q.len())
        },
{
    if bytes.len() < 12 || !has_xz_magic(bytes) {
        return Err(ListError::NotRecognized);
    }
    let check = bytes[7] & 0x0f;
    let mut streams: u64 = 0;
    let mut i: usize = 0;
    while i < bytes.len() && bytes.len() - i >= 6
        invariant
            i <= bytes.len(),
            streams <= i,
            magics_from(bytes@, 0) == streams + magics_from(bytes@, i as int),
        decreases bytes.len() - i,
    {
        if has_xz_magic(&bytes[i..bytes.len()]) {
            streams = streams + 1;
            if bytes.len() - i >= 12 {
                i = i + 12;
            } else {
                assert(magics_from(bytes@, i + 12) == 0);
                assert(magics_from(bytes@, bytes.len() as int) == 0);
                i = bytes.len();
            }
        } else {
            i = i + 4;
        }
    }
    if streams == 0 {
        streams = 1;
    }
    let decoded = match decode_auto(bytes, 0x08) {
        Ok(v) => v,
        Err(e) => return Err(ListError::Decode(failure(e))),
    };
    assert(0x08u32 & 0x08u32 != 0) by (bit_vector);
    Ok(FileSummary {
        streams,
        blocks: streams,
        compressed,
        uncompressed: decoded.len() as u64,
        check,
        name: name.to_owned(),
    })
}

// ---------------------------------------------------------------------
// The table
// ---------------------------------------------------------------------

/// The header line of the table.
pub open spec fn table_header() -> Seq<char> {
    "Strms  Blocks   Compressed Uncompressed  Ratio  Check   Filename\n"@
}

/// One line of the table; `ratio` is the ratio column as printed.
pub open spec fn row_text(
    streams: u64,
    blocks: u64,
    compressed: u64,
    uncompressed: u64,
    ratio: Seq<char>,
    check: Seq<char>,
    name: Seq<char>,
) -> Seq<char> {
    pad_left(decimal(streams as nat), 5) + " "@ + pad_left(decimal(blocks as nat), 7) + " "@ + pad_left(
        human_size(compressed),
        12,
    ) + " "@ + pad_left(human_size(uncompressed), 12) + "  "@ + ratio + "  "@ + pad_right(check, 7) + " "@ + name
        + "\n"@
}

/// The line of one summary.
pub open spec fn summary_row(s: FileSummary, ratio: Seq<char>) -> Seq<char> {
    row_text(s.streams, s.blocks, s.compressed, s.uncompressed, ratio, check_label(s.check), s.name@)
}

/// The lines of the summaries, in order.
pub open spec fn rows_text(s: Seq<FileSummary>, ratios: Seq<Seq<char>>) -> Seq<char>
    decreases s.len(),
{
    if s.len() == 0 {
        Seq::empty()
    } else {
        rows_text(s.drop_last(), ratios.drop_last()) + summary_row(s.last(), ratios[s.len() - 1])
    }
}

pub open spec fn total_streams(s: Seq<FileSummary>) -> nat
    decreases s.len(),
{
    if s.len() == 0 { 0 } else { total_streams(s.drop_last()) + s.last().streams as nat }
}

pub open spec fn total_blocks(s: Seq<FileSummary>) -> nat
    decreases s.len(),
{
    if s.len() == 0 { 0 } else { total_blocks(s.drop_last()) + s.last().blocks as nat }
}

pub open spec fn total_compressed(s: Seq<FileSummary>) -> nat
    decreases s.len(),
{
    if s.len() == 0 { 0 } else { total_compressed(s.drop_last()) + s.last().compressed as nat }
}

pub open spec fn total_uncompressed(s: Seq<FileSummary>) -> nat
    decreases s.len(),
{
    if s.len() == 0 { 0 } else { total_uncompressed(s.drop_last()) + s.last().uncompressed as nat }
}

/// The totals of a table fit in `u64`.
pub open spec fn totals_fit(s: Seq<FileSummary>) -> bool {
    &&& total_streams(s) <= u64::MAX
    &&& total_blocks(s) <= u64::MAX
    &&& total_compressed(s) <= u64::MAX
    &&& total_uncompressed(s) <= u64::MAX
}

/// The totals line of a table.
pub open spec fn totals_row(s: Seq<FileSummary>, total_ratio: Seq<char>) -> Seq<char> {
    row_text(
        total_streams(s) as u64,
        total_blocks(s) as u64,
        total_compressed(s) as u64,
        total_uncompressed(s) as u64,
        total_ratio,
        "\u{2014}"@,
        "(totals)"@,
    )
}

/// Whether a table has a totals line: with `verbose` and more than one
/// summary.
pub open spec fn has_totals(s: Seq<FileSummary>, verbose: bool) -> bool {
    verbose && s.len() > 1
}

/// The whole table: the header, a line per summary and, with `verbose`
/// and more than one summary, a totals line.
pub open spec fn summary_table(s: Seq<FileSummary>, ratios: Seq<Seq<char>>, total_ratio: Seq<char>, verbose: bool) -> Seq<char> {
    table_header() + rows_text(s, ratios) + if has_totals(s, verbose) {
        totals_row(s, total_ratio)
    } else {
        Seq::empty()
    }
}

proof fn lemma_totals_prefix(s: Seq<FileSummary>, i: int)
    requires
        0 <= i <= s.len(),
        totals_fit(s),
    ensures
        totals_fit(s.subrange(0, i)),
    decreases s.len() - i,
{
    if i < s.len() {
        lemma_totals_prefix(s, i + 1);
        assert(s.subrange(0, i + 1).drop_last() =~= s.subrange(0, i));
    } else {
        assert(s.subrange(0, i) =~= s);
    }
}

/// Whether the totals of `summaries` fit in `u64`, as `print_summary`
/// needs.
pub fn totals_fit_u64(summaries: &[FileSummary]) -> (r: bool)
    ensures
        r == totals_fit(summaries@),
{
    let mut t_streams: u64 = 0;
    let mut t_blocks: u64 = 0;
    let mut t_compressed: u64 = 0;
    let mut t_uncompressed: u64 = 0;
    let mut i: usize = 0;
    while i < summaries.len()
        invariant
            i <= summaries.len(),
            t_streams == total_streams(summaries@.subrange(0, i as int)),
            t_blocks == total_blocks(summaries@.subrange(0, i as int)),
            t_compressed == total_compressed(summaries@.subrange(0, i as int)),
            t_uncompressed == total_uncompressed(summaries@.subrange(0, i as int)),
        decreases summaries.len() - i,
    {
        let s = &summaries[i];
        let ghost pre = summaries@.subrange(0, i + 1);
        assert(pre.drop_last() =~= summaries@.subrange(0, i as int));
        let a = t_streams.checked_add(s.streams);
        let b = t_blocks.checked_add(s.blocks);
        let c = t_compressed.checked_add(s.compressed);
        let d = t_uncompressed.checked_add(s.uncompressed);
        match (a, b, c, d) {
            (Some(a), Some(b), Some(c), Some(d)) => {
                t_streams = a;
                t_blocks = b;
                t_compressed = c;
                t_uncompressed = d;
            },
            _ => {
                proof {
                    assert(!totals_fit(pre));
                    if totals_fit(summaries@) {
                        lemma_totals_prefix(summaries@, i + 1);
                    }
                }
                return false;
            },
        }
        i = i + 1;
    }
    assert(summaries@.subrange(0, i as int) =~= summaries@);
    true
}

/// Append one line of the table.
fn push_row(
    out: &mut String,
    streams: u64,
    blocks: u64,
    compressed: u64,
    uncompressed: u64,
    ratio: &str,
    check: &str,
    name: &str,
)
    ensures
        final(out)@ == old(out)@ + row_text(streams, blocks, compressed, uncompressed, ratio@, check@, name@),
{
    let ghost before = out@;
    let mut cell = String::new();
    push_decimal(&mut cell, streams as u128);
    push_padded_left(out, cell.as_str(), 5);
    out.append(" ");
    let mut cell = String::new();
    push_decimal(&mut cell, blocks as u128);
    push_padded_left(out, cell.as_str(), 7);
    out.append(" ");
    let mut cell = String::new();
    push_human(&mut cell, compressed);
    push_padded_left(out, cell.as_str(), 12);
    out.append(" ");
    let mut cell = String::new();
    push_human(&mut cell, uncompressed);
    push_padded_left(out, cell.as_str(), 12);
    out.append("  ");
    out.append(ratio);
    out.append("  ");
    push_padded_right(out, check, 7);
    out.append(" ");
    out.append(name);
    out.append("\n");
    assert(out@ =~= before + row_text(streams, blocks, compressed, uncompressed, ratio@, check@, name@));
}

/// Render `summaries` in the upstream `xz -l` style. `ratios[i]` is the
/// ratio column of `summaries[i]` and `total_ratio` that of the totals
/// line, as printed. Returns the table and, when it has one, its totals
/// line, so callers may inspect it.
pub fn print_summary(summaries: &[FileSummary], ratios: &[String], total_ratio: &str, verbose: bool) -> (r: (
    String,
    Option<String>,
))
    requires
        ratios.len() == summaries.len(),
        totals_fit(summaries@),
    ensures
        r.0@ == summary_table(summaries@, ratios@.map_values(|r: String| r@), total_ratio@, verbose),
        r.1 is Some <==> has_totals(summaries@, verbose),
        r.1 matches Some(t) ==> t@ == totals_row(summaries@, total_ratio@),
{
    let ghost rv = ratios@.map_values(|r: String| r@);
    let mut out = String::new();
    out.append("Strms  Blocks   Compressed Uncompressed  Ratio  Check   Filename\n");
    let mut t_streams: u64 = 0;
    let mut t_blocks: u64 = 0;
    let mut t_compressed: u64 = 0;
    let mut t_uncompressed: u64 = 0;
    let mut i: usize = 0;
    while i < summaries.len()
        invariant
            i <= summaries.len(),
            ratios.len() == summaries.len(),
            rv == ratios@.map_values(|r: String| r@),
            totals_fit(summaries@),
            out@ == table_header() + rows_text(summaries@.subrange(0, i as int), rv.subrange(0, i as int)),
            t_streams == total_streams(summaries@.subrange(0, i as int)),
            t_blocks == total_blocks(summaries@.subrange(0, i as int)),
            t_compressed == total_compressed(summaries@.subrange(0, i as int)),
            t_uncompressed == total_uncompressed(summaries@.subrange(0, i as int)),
        decreases summaries.len() - i,
    {
        let s = &summaries[i];
        let ghost pre = summaries@.subrange(0, i + 1);
        assert(pre.drop_last() =~= summaries@.subrange(0, i as int));
        assert(rv.subrange(0, i + 1).drop_last() =~= rv.subrange(0, i as int));
        assert(rv.subrange(0, i + 1)[i as int] == ratios@[i as int]@);
        proof {
            lemma_totals_prefix(summaries@, i + 1);
        }
        let ghost before = out@;
        push_row(
            &mut out,
            s.streams,
            s.blocks,
            s.compressed,
            s.uncompressed,
            ratios[i].as_str(),
            check_name(s.check),
            s.name.as_str(),
        );
        assert(out@ =~= table_header() + rows_text(pre, rv.subrange(0, i + 1)));
        t_streams = t_streams + s.streams;
        t_blocks = t_blocks + s.blocks;
        t_compressed = t_compressed + s.compressed;
        t_uncompressed = t_uncompressed + s.uncompressed;
        i = i + 1;
    }
    assert(summaries@.subrange(0, i as int) =~= summaries@);
    assert(rv.subrange(0, i as int) =~= rv);
    let mut totals: Option<String> = None;
    if verbose && summaries.len() > 1 {
        let mut line = String::new();
        push_row(&mut line, t_streams, t_blocks, t_compressed, t_uncompressed, total_ratio, "\u{2014}", "(totals)");
        out.append(line.as_str());
        totals = Some(line);
    }
    proof {
        reveal_strlit("Strms  Blocks   Compressed Uncompressed  Ratio  Check   Filename\n");
    }
    assert(out@ =~= summary_table(summaries@, rv, total_ratio@, verbose));
    (out, totals)
}

} // verus!
