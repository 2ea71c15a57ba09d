//! Compression and decompression of in-memory buffers over liblzma.
//!
//! The codec picks the container (`.xz`, `.lzma`, `.lz`, raw), checks
//! filter chains, routes `Format::Auto` input to the lzip or the
//! auto-detecting decoder, and passes unrecognised input through in
//! `-dfc` mode. liblzma itself is reached through `crate::lzma`.

use vstd::prelude::*;
use crate::options::{BcjArch, FilterChain, FilterKind, Format};
use crate::lzma::{
    IoErrorKind, LzmaFailure, lzma_error_text, filter_entries, preset_is_valid, lzma1_id, lzma2_id, delta_id, x86_id, arm_id, arm64_id,
    armthumb_id, powerpc_id, ia64_id, sparc_id, riscv_id, filters_new, filters_add_lzma1, filters_add_lzma2,
    filters_add_delta, filters_add_x86, filters_add_arm, filters_add_arm64, filters_add_arm_thumb,
    filters_add_powerpc, filters_add_ia64, filters_add_sparc, filters_add_riscv, io_error_kind, io_error_text,
    begins_with, xz_crc64_stream_shape, xz_chain_ok, auto_refuses, lzma_props_ok, xz_magic, lzip_magic, xz_preset_encoding, xz_chain_encoding, lzma_alone_encoding, raw_encoding,
    auto_decoding, xz_decoding, lzma_alone_decoding, lzip_decoding, raw_decoding, encode_xz_preset, encode_xz_chain,
    encode_lzma_alone, encode_raw, decode_auto, decode_xz, decode_lzma_alone, decode_lzip, decode_raw,
};

verus! {

// ---------------------------------------------------------------------
// Errors
// ---------------------------------------------------------------------

/// What is wrong with a filter chain.
#[derive(Debug, Clone, Copy, PartialEq, Eq, Structural)]
pub enum ChainError {
    /// The chain has no filter.
    Empty,
    /// LZMA1/LZMA2 stands before the end of the chain.
    LzmaNotLast,
    /// The chain does not end with LZMA1/LZMA2.
    NoLzma,
}

/// A request the codec refuses before calling liblzma.
#[derive(Debug, Clone, Copy, PartialEq, Eq, Structural)]
pub enum Refusal {
    /// The filter chain is malformed.
    Chain(ChainError),
    /// Raw format without a filter chain.
    MissingFilterChain,
    /// Lzip compression (lzip is decode-only).
    LzipUnsupported,
}

/// Why compression or decompression failed.
#[derive(Debug, Clone)]
pub enum CodecError {
    /// Refused before liblzma was called.
    Refused(Refusal),
    /// liblzma (or reading its output) failed.
    Lzma { kind: IoErrorKind, message: String },
}

/// The error kind of `std::io` a `CodecError` is reported as.
pub open spec fn error_kind(e: CodecError) -> IoErrorKind {
    match e {
        CodecError::Refused(Refusal::LzipUnsupported) => IoErrorKind::Unsupported,
        CodecError::Refused(_) => IoErrorKind::InvalidInput,
        CodecError::Lzma { kind, .. } => kind,
    }
}

/// The text a `CodecError` is reported with.
pub open spec fn error_text(e: CodecError) -> Seq<char> {
    match e {
        CodecError::Refused(Refusal::Chain(ChainError::Empty)) => "empty filter chain"@,
        CodecError::Refused(Refusal::Chain(ChainError::LzmaNotLast)) => "LZMA1/LZMA2 must be the final filter in the chain"@,
        CodecError::Refused(Refusal::Chain(ChainError::NoLzma)) => "filter chain must end with LZMA1 or LZMA2"@,
        CodecError::Refused(Refusal::MissingFilterChain) => "raw format requires a filter chain (--lzma1=/--lzma2=/--filters=) and --suffix="@,
        CodecError::Refused(Refusal::LzipUnsupported) => "lzip compression is not supported (decompression only)"@,
        CodecError::Lzma { message, .. } => message@,
    }
}

impl CodecError {
    /// The error kind of `std::io` this error is reported as.
    pub fn io_kind(&self) -> (k: IoErrorKind)
        ensures
            k == error_kind(*self),
    {
        match self {
            CodecError::Refused(Refusal::LzipUnsupported) => IoErrorKind::Unsupported,
            CodecError::Refused(_) => IoErrorKind::InvalidInput,
            CodecError::Lzma { kind, .. } => *kind,
        }
    }

    /// The text the error is reported with.
    pub fn message(&self) -> (s: String)
        ensures
            s@ == error_text(*self),
    {
        match self {
            CodecError::Refused(Refusal::Chain(ChainError::Empty)) => "empty filter chain".to_owned(),
            CodecError::Refused(Refusal::Chain(ChainError::LzmaNotLast)) => "LZMA1/LZMA2 must be the final filter in the chain".to_owned(),
            CodecError::Refused(Refusal::Chain(ChainError::NoLzma)) => "filter chain must end with LZMA1 or LZMA2".to_owned(),
            CodecError::Refused(Refusal::MissingFilterChain) => "raw format requires a filter chain (--lzma1=/--lzma2=/--filters=) and --suffix=".to_owned(),
            CodecError::Refused(Refusal::LzipUnsupported) => "lzip compression is not supported (decompression only)".to_owned(),
            CodecError::Lzma { message, .. } => message.clone(),
        }
    }
}

/// A liblzma set-up failure as a `CodecError`: reported as `InvalidInput`,
/// with the liblzma error's text.
pub(crate) fn setup_failure(e: &liblzma::stream::Error) -> (r: CodecError)
    ensures
        r matches CodecError::Lzma { kind, .. } && kind == IoErrorKind::InvalidInput,
{
    CodecError::Lzma { kind: IoErrorKind::InvalidInput, message: lzma_error_text(e) }
}

/// A failure of a liblzma encoder or decoder as a `CodecError`; a set-up
/// failure is reported as `InvalidInput`.
pub(crate) fn failure(f: LzmaFailure) -> (r: CodecError)
    ensures
        r is Lzma,
        f is Setup ==> error_kind(r) == IoErrorKind::InvalidInput,
{
    match f {
        LzmaFailure::Setup(e) => setup_failure(&e),
        LzmaFailure::Io(e) => lzma_failure(&e),
    }
}

/// A liblzma failure as a `CodecError`.
pub(crate) fn lzma_failure(e: &std::io::Error) -> (r: CodecError)
    ensures
        r is Lzma,
{
    CodecError::Lzma { kind: io_error_kind(e), message: io_error_text(e) }
}

// ---------------------------------------------------------------------
// Filter chains
// ---------------------------------------------------------------------

pub open spec fn is_lzma(k: FilterKind) -> bool {
    k is Lzma1Preset || k is Lzma2Preset
}

/// What is wrong with the chain `c`, if anything: LZMA1/LZMA2 must occur
/// exactly once, as the final entry.
pub open spec fn chain_error(c: Seq<FilterKind>) -> Option<ChainError> {
    if c.len() == 0 {
        Some(ChainError::Empty)
    } else if exists|k: int| 0 <= k < c.len() - 1 && is_lzma(#[trigger] c[k]) {
        Some(ChainError::LzmaNotLast)
    } else if !is_lzma(c.last()) {
        Some(ChainError::NoLzma)
    } else {
        None
    }
}

/// The liblzma filter an element of a chain stands for.
pub open spec fn kind_entry(k: FilterKind) -> (u64, u32) {
    match k {
        FilterKind::Lzma1Preset(p) => (lzma1_id(), p),
        FilterKind::Lzma2Preset(p) => (lzma2_id(), p),
        FilterKind::Delta => (delta_id(), 0u32),
        FilterKind::Bcj(BcjArch::X86) => (x86_id(), 0u32),
        FilterKind::Bcj(BcjArch::Arm) => (arm_id(), 0u32),
        FilterKind::Bcj(BcjArch::Arm64) => (arm64_id(), 0u32),
        FilterKind::Bcj(BcjArch::ArmThumb) => (armthumb_id(), 0u32),
        FilterKind::Bcj(BcjArch::PowerPc) => (powerpc_id(), 0u32),
        FilterKind::Bcj(BcjArch::Ia64) => (ia64_id(), 0u32),
        FilterKind::Bcj(BcjArch::Sparc) => (sparc_id(), 0u32),
        FilterKind::Bcj(BcjArch::RiscV) => (riscv_id(), 0u32),
    }
}

/// The liblzma filters a chain stands for.
pub open spec fn chain_entries(c: Seq<FilterKind>) -> Seq<(u64, u32)> {
    c.map_values(|k: FilterKind| kind_entry(k))
}

/// The preset of an LZMA1/LZMA2 element.
pub open spec fn lzma_preset(k: FilterKind) -> u32 {
    match k {
        FilterKind::Lzma1Preset(p) => p,
        FilterKind::Lzma2Preset(p) => p,
        _ => 0,
    }
}

/// Check that LZMA1/LZMA2 occurs once, as the final filter.
fn check_chain(chain: &FilterChain) -> (r: Option<ChainError>)
    ensures
        r == chain_error(chain@),
{
    let items = chain.as_slice();
    if items.len() == 0 {
        return Some(ChainError::Empty);
    }
    let last = items.len() - 1;
    let mut i: usize = 0;
    while i < last
        invariant
            items@ == chain@,
            last == items.len() - 1,
            i <= last,
            forall|k: int| 0 <= k < i ==> !is_lzma(#[trigger] items@[k]),
        decreases last - i,
    {
        match items[i] {
            FilterKind::Lzma1Preset(_) | FilterKind::Lzma2Preset(_) => {
                assert(is_lzma(chain@[i as int]));
                return Some(ChainError::LzmaNotLast);
            },
            _ => {},
        }
        i = i + 1;
    }
    match items[last] {
        FilterKind::Lzma1Preset(_) | FilterKind::Lzma2Preset(_) => None,
        _ => Some(ChainError::NoLzma),
    }
}

/// Build the liblzma filter chain for `chain`. LZMA1/LZMA2 must occur
/// exactly once, as the final entry; the chain is checked before any
/// filter is set up.
pub fn build_filters(chain: &FilterChain) -> (r: Result<liblzma::stream::Filters, CodecError>)
    ensures
        chain_error(chain@) matches Some(e) ==> r matches Err(CodecError::Refused(Refusal::Chain(x))) && x == e,
        chain_error(chain@) is None ==> {
            &&& r matches Ok(f) ==> filter_entries(f) == chain_entries(chain@)
            &&& r matches Err(e) ==> e is Lzma && error_kind(e) == IoErrorKind::InvalidInput
            &&& !preset_is_valid(lzma_preset(chain@.last())) ==> r is Err
            &&& preset_is_valid(lzma_preset(chain@.last())) ==> r is Ok
        },
{
    if let Some(e) = check_chain(chain) {
        return Err(CodecError::Refused(Refusal::Chain(e)));
    }
    let items = chain.as_slice();
    let mut filters = filters_new();
    let mut i: usize = 0;
    while i < items.len()
        invariant
            items@ == chain@,
            chain_error(chain@) is None,
            i <= items.len(),
            filter_entries(filters) == chain_entries(chain@).subrange(0, i as int),
            forall|k: int| 0 <= k < i && is_lzma(#[trigger] items@[k]) ==> preset_is_valid(lzma_preset(items@[k])),
        decreases items.len() - i,
    {
        let ghost before = filter_entries(filters);
        proof {
            if i + 1 < items.len() {
                assert(!is_lzma(chain@[i as int]));
            }
        }
        match items[i] {
            FilterKind::Lzma1Preset(p) => {
                assert(i == items.len() - 1);
                if let Err(e) = filters_add_lzma1(&mut filters, p) {
                    return Err(setup_failure(&e));
                }
            },
            FilterKind::Lzma2Preset(p) => {
                assert(i == items.len() - 1);
                if let Err(e) = filters_add_lzma2(&mut filters, p) {
                    return Err(setup_failure(&e));
                }
            },
            FilterKind::Delta => {
                if let Err(e) = filters_add_delta(&mut filters) {
                    return Err(setup_failure(&e));
                }
            },
            FilterKind::Bcj(BcjArch::X86) => filters_add_x86(&mut filters),
            FilterKind::Bcj(BcjArch::Arm) => filters_add_arm(&mut filters),
            FilterKind::Bcj(BcjArch::Arm64) => filters_add_arm64(&mut filters),
            FilterKind::Bcj(BcjArch::ArmThumb) => filters_add_arm_thumb(&mut filters),
            FilterKind::Bcj(BcjArch::PowerPc) => filters_add_powerpc(&mut filters),
            FilterKind::Bcj(BcjArch::Ia64) => filters_add_ia64(&mut filters),
            FilterKind::Bcj(BcjArch::Sparc) => filters_add_sparc(&mut filters),
            FilterKind::Bcj(BcjArch::RiscV) => filters_add_riscv(&mut filters),
        }
        assert(chain_entries(chain@).subrange(0, i + 1) =~= chain_entries(chain@).subrange(0, i as int).push(
            kind_entry(chain@[i as int]),
        ));
        i = i + 1;
    }
    assert(chain_entries(chain@).subrange(0, i as int) =~= chain_entries(chain@));
    assert(is_lzma(items@[items.len() - 1]));
    Ok(filters)
}

/// A malformed chain is refused before liblzma is called, and the refusal
/// is reported as `InvalidInput`.
pub proof fn lemma_malformed_chain_is_invalid_input(c: Seq<FilterKind>)
    requires
        chain_error(c) is Some,
    ensures
        chain_refusal(c) is Some,
        error_kind(CodecError::Refused(chain_refusal(c)->0)) == IoErrorKind::InvalidInput,
{
}

/// Each filter of a chain is handed to liblzma under its own filter ID
/// (`LZMA_FILTER_*`): LZMA1 and LZMA2 with their preset, the others with
/// no options; different filters get different IDs.
pub proof fn lemma_filter_ids(p: u32)
    ensures
        kind_entry(FilterKind::Lzma1Preset(p)) == (0x4000_0000_0000_0001u64, p),
        kind_entry(FilterKind::Lzma2Preset(p)) == (0x21u64, p),
        kind_entry(FilterKind::Delta) == (0x03u64, 0u32),
        kind_entry(FilterKind::Bcj(BcjArch::X86)) == (0x04u64, 0u32),
        kind_entry(FilterKind::Bcj(BcjArch::PowerPc)) == (0x05u64, 0u32),
        kind_entry(FilterKind::Bcj(BcjArch::Ia64)) == (0x06u64, 0u32),
        kind_entry(FilterKind::Bcj(BcjArch::Arm)) == (0x07u64, 0u32),
        kind_entry(FilterKind::Bcj(BcjArch::ArmThumb)) == (0x08u64, 0u32),
        kind_entry(FilterKind::Bcj(BcjArch::Sparc)) == (0x09u64, 0u32),
        kind_entry(FilterKind::Bcj(BcjArch::Arm64)) == (0x0au64, 0u32),
        kind_entry(FilterKind::Bcj(BcjArch::RiscV)) == (0x0bu64, 0u32),
        forall|a: FilterKind, b: FilterKind| #[trigger] kind_entry(a) == #[trigger] kind_entry(b) ==> a == b,
{
}

/// The filters handed to liblzma are those of the chain, in its order.
pub proof fn lemma_chain_entries_in_order(c: Seq<FilterKind>)
    ensures
        chain_entries(c).len() == c.len(),
        forall|k: int| 0 <= k < c.len() ==> #[trigger] chain_entries(c)[k] == kind_entry(c[k]),
{
}

/// What compression produces is made with the caller's own preset or
/// chain: the `.xz` stream of `level` (or of the chain), the `.lzma`
/// stream of `level`, or the raw stream of the chain.
pub proof fn lemma_compressed_form_uses_request(input: Seq<u8>, level: u32, c: Seq<FilterKind>)
    ensures
        compressed_form(input, level, Format::Xz, None) == xz_preset_encoding(input, level),
        compressed_form(input, level, Format::Auto, None) == xz_preset_encoding(input, level),
        compressed_form(input, level, Format::Xz, Some(c)) == xz_chain_encoding(input, chain_entries(c)),
        compressed_form(input, level, Format::Lzma, None) == lzma_alone_encoding(input, level),
        compressed_form(input, level, Format::Lzma, Some(c)) == lzma_alone_encoding(input, level),
        compressed_form(input, level, Format::Raw, Some(c)) == raw_encoding(input, chain_entries(c)),
{
}

// ---------------------------------------------------------------------
// Compression
// ---------------------------------------------------------------------

pub open spec fn chain_view(filter: Option<&FilterChain>) -> Option<Seq<FilterKind>> {
    match filter {
        Some(c) => Some(c@),
        None => None,
    }
}

/// The refusal a chain draws, if any.
pub open spec fn chain_refusal(c: Seq<FilterKind>) -> Option<Refusal> {
    match chain_error(c) {
        Some(e) => Some(Refusal::Chain(e)),
        None => None,
    }
}

/// The requests `compress_stream` refuses without calling liblzma: lzip
/// output, raw output without a chain, and malformed chains (which the
/// `.xz` container uses too when one is given; `.lzma` ignores it).
pub open spec fn compress_refusal(format: Format, chain: Option<Seq<FilterKind>>) -> Option<Refusal> {
    match format {
        Format::Lzip => Some(Refusal::LzipUnsupported),
        Format::Raw => match chain {
            Some(c) => chain_refusal(c),
            None => Some(Refusal::MissingFilterChain),
        },
        Format::Xz | Format::Auto => match chain {
            Some(c) => chain_refusal(c),
            None => None,
        },
        Format::Lzma => None,
    }
}

/// What `compress_stream` produces: the `.xz` stream of the preset (or of
/// the chain, when one is given), the `.lzma` stream of the preset, or
/// the raw stream of the chain.
pub open spec fn compressed_form(input: Seq<u8>, level: u32, format: Format, chain: Option<Seq<FilterKind>>) -> Seq<u8> {
    match format {
        Format::Xz | Format::Auto => match chain {
            Some(c) => xz_chain_encoding(input, chain_entries(c)),
            None => xz_preset_encoding(input, level),
        },
        Format::Lzma => lzma_alone_encoding(input, level),
        Format::Raw => match chain {
            Some(c) => raw_encoding(input, chain_entries(c)),
            None => Seq::empty(),
        },
        Format::Lzip => Seq::empty(),
    }
}

/// A chain liblzma encodes and decodes under `format`: well formed, at
/// most four filters, a valid preset, and (outside raw) LZMA2 last.
pub open spec fn chain_encodable(format: Format, c: Seq<FilterKind>) -> bool {
    &&& chain_error(c) is None
    &&& preset_is_valid(lzma_preset(c.last()))
    &&& c.len() <= 4
    &&& (format is Raw || c.last() is Lzma2Preset)
}

/// The requests `compress_stream` always completes: `.xz` with a valid
/// preset or an encodable chain, `.lzma` with a valid preset, raw with an
/// encodable chain.
pub open spec fn compress_succeeds(format: Format, level: u32, chain: Option<Seq<FilterKind>>) -> bool {
    match format {
        Format::Xz | Format::Auto => match chain {
            Some(c) => chain_encodable(format, c),
            None => preset_is_valid(level),
        },
        Format::Lzma => preset_is_valid(level),
        Format::Raw => chain matches Some(c) && chain_encodable(format, c),
        Format::Lzip => false,
    }
}

/// A well-formed chain, used by `format`, whose LZMA1/LZMA2 preset
/// liblzma refuses.
pub open spec fn bad_preset_chain(format: Format, chain: Option<Seq<FilterKind>>) -> bool {
    &&& (format is Xz || format is Auto || format is Raw)
    &&& chain matches Some(c) && chain_error(c) is None && !preset_is_valid(lzma_preset(c.last()))
}

/// Whether `level` is a preset liblzma accepts: 0-9, optionally with the
/// "extreme" flag (bit 31).
pub fn preset_valid(level: u32) -> (r: bool)
    ensures
        r == preset_is_valid(level),
{
    (level & 0x1f) <= 9 && (level & 0x7fff_ffe0) == 0
}

/// Compress `input`. `level` is the preset (used by `.xz` without a
/// chain and by `.lzma`); `format` selects the container; `filter` is
/// the filter chain (required by `Format::Raw`). An `.xz` stream without
/// a chain needs a valid preset.
pub fn compress_stream(input: &[u8], level: u32, format: Format, filter: Option<&FilterChain>) -> (r: Result<Vec<u8>, CodecError>)
    requires
        (format is Xz || format is Auto) && filter is None ==> preset_is_valid(level),
    ensures
        format is Lzma && !preset_is_valid(level) ==> (r matches Err(e) && error_kind(e) == IoErrorKind::InvalidInput),
        bad_preset_chain(format, chain_view(filter)) ==> (r matches Err(e) && error_kind(e) == IoErrorKind::InvalidInput),
        compress_refusal(format, chain_view(filter)) matches Some(e) ==> r matches Err(CodecError::Refused(x)) && x == e,
        compress_refusal(format, chain_view(filter)) is None ==> {
            &&& r matches Ok(v) ==> v@ == compressed_form(input@, level, format, chain_view(filter))
            &&& r matches Err(e) ==> e is Lzma
        },
        compress_succeeds(format, level, chain_view(filter)) ==> r is Ok,
        // the caller's preset and chain are the ones used
        (format is Xz || format is Auto) && filter is None ==> (r matches Ok(v) ==> v@ == xz_preset_encoding(
            input@,
            level,
        )),
        (format is Xz || format is Auto) && filter is Some ==> (r matches Ok(v) ==> v@ == xz_chain_encoding(
            input@,
            chain_entries(filter->0@),
        )),
        format is Lzma ==> (r matches Ok(v) ==> v@ == lzma_alone_encoding(input@, level)),
        format is Raw && filter is Some ==> (r matches Ok(v) ==> v@ == raw_encoding(input@, chain_entries(filter->0@))),
        (format is Xz || format is Auto) ==> (r matches Ok(v) ==> xz_crc64_stream_shape(v@)),
        format is Lzma ==> (r matches Ok(v) ==> v@.len() > 0 && v@[0] == 0x5du8),
{
    match format {
        Format::Xz | Format::Auto => {
            match filter {
                Some(chain) => {
                    let filters = match build_filters(chain) {
                        Ok(f) => f,
                        Err(e) => return Err(e),
                    };
                    match encode_xz_chain(input, &filters) {
                        Ok(v) => Ok(v),
                        Err(e) => Err(failure(e)),
                    }
                },
                None => match encode_xz_preset(input, level) {
                    Ok(v) => Ok(v),
                    Err(e) => Err(failure(e)),
                },
            }
        },
        Format::Lzma => match encode_lzma_alone(input, level) {
            Ok(v) => Ok(v),
            Err(e) => Err(failure(e)),
        },
        Format::Lzip => Err(CodecError::Refused(Refusal::LzipUnsupported)),
        Format::Raw => {
            let chain = match filter {
                Some(c) => c,
                None => return Err(CodecError::Refused(Refusal::MissingFilterChain)),
            };
            let filters = match build_filters(chain) {
                Ok(f) => f,
                Err(e) => return Err(e),
            };
            match encode_raw(input, &filters) {
                Ok(v) => Ok(v),
                Err(e) => Err(failure(e)),
            }
        },
    }
}

// ---------------------------------------------------------------------
// Decompression
// ---------------------------------------------------------------------

/// The decoder flags: `LZMA_CONCATENATED` (0x08, every concatenated
/// stream) and, unless `-Q`, `LZMA_TELL_UNSUPPORTED_CHECK` (0x02, an error
/// on an unsupported integrity check).
pub open spec fn decoder_flags_spec(no_warn: bool) -> u32 {
    if no_warn {
        0x08
    } else {
        0x0a
    }
}

fn decoder_flags(no_warn: bool) -> (f: u32)
    ensures
        f == decoder_flags_spec(no_warn),
{
    assert(0x08u32 | 0x02u32 == 0x0au32) by (bit_vector);
    if no_warn {
        0x08
    } else {
        0x08 | 0x02
    }
}

proof fn lemma_flags_concatenated(no_warn: bool)
    ensures
        (decoder_flags_spec(no_warn) & 0x08) != 0,
{
    assert(0x08u32 & 0x08u32 != 0) by (bit_vector);
    assert(0x0au32 & 0x08u32 != 0) by (bit_vector);
}

/// `r` gives back the data of `input` if `input` is one or two `.xz`
/// streams the encoders made (valid presets, or an `.xz` chain).
pub open spec fn gives_back_xz(input: Seq<u8>, r: Result<Vec<u8>, CodecError>) -> bool {
    &&& forall|p: Seq<u8>, l: u32|
        preset_is_valid(l) && input == #[trigger] xz_preset_encoding(p, l) ==> (r matches Ok(v) && v@ == p)
    &&& forall|p: Seq<u8>, c: Seq<(u64, u32)>|
        xz_chain_ok(c) && input == #[trigger] xz_chain_encoding(p, c) ==> (r matches Ok(v) && v@ == p)
    &&& forall|p: Seq<u8>, l: u32, q: Seq<u8>, m: u32|
        preset_is_valid(l) && preset_is_valid(m) && input == #[trigger] xz_preset_encoding(p, l)
            + #[trigger] xz_preset_encoding(q, m) ==> (r matches Ok(v) && v@ == p + q)
}

/// `r` gives back the data of `input` if `input` is what the `.lzma`
/// encoder made (valid preset).
pub open spec fn gives_back_alone(input: Seq<u8>, r: Result<Vec<u8>, CodecError>) -> bool {
    forall|p: Seq<u8>, l: u32|
        preset_is_valid(l) && input == #[trigger] lzma_alone_encoding(p, l) ==> (r matches Ok(v) && v@ == p)
}

/// `r` gives back the data of `input` if `input` is what the raw encoder
/// made over the filters `e`.
pub open spec fn gives_back_raw(input: Seq<u8>, e: Seq<(u64, u32)>, r: Result<Vec<u8>, CodecError>) -> bool {
    forall|p: Seq<u8>| input == #[trigger] raw_encoding(p, e) ==> (r matches Ok(v) && v@ == p)
}

/// An lzip member of a version other than 0 and 1.
pub open spec fn bad_lzip_version(b: Seq<u8>) -> bool {
    begins_with(b, lzip_magic()) && b.len() > 4 && b[4] > 1
}

/// Input the decoder of `format` refuses from its first bytes.
pub open spec fn refused_input(format: Format, b: Seq<u8>) -> bool {
    match format {
        Format::Auto => auto_refuses(b) || bad_lzip_version(b),
        Format::Xz => !begins_with(b, xz_magic()),
        Format::Lzip => !begins_with(b, lzip_magic()) || bad_lzip_version(b),
        Format::Lzma => b.len() == 0 || !lzma_props_ok(b[0]),
        Format::Raw => false,
    }
}

/// The requests the decoders refuse without calling liblzma: raw input
/// without a chain, or with a malformed one.
pub open spec fn decompress_refusal(format: Format, chain: Option<Seq<FilterKind>>) -> Option<Refusal> {
    match format {
        Format::Raw => match chain {
            Some(c) => chain_refusal(c),
            None => Some(Refusal::MissingFilterChain),
        },
        _ => None,
    }
}

/// What `decompress_stream_opts` produces: `Format::Auto` sends input
/// that starts with the lzip magic to the lzip decoder and everything
/// else to the auto-detecting (`.xz`/`.lzma`) decoder.
pub open spec fn decompressed_form(input: Seq<u8>, no_warn: bool, format: Format, chain: Option<Seq<FilterKind>>) -> Seq<u8> {
    let flags = decoder_flags_spec(no_warn);
    match format {
        Format::Raw => match chain {
            Some(c) => raw_decoding(input, chain_entries(c)),
            None => Seq::empty(),
        },
        Format::Lzip => lzip_decoding(input, flags),
        Format::Lzma => lzma_alone_decoding(input),
        Format::Xz => xz_decoding(input, flags),
        Format::Auto => if begins_with(input, lzip_magic()) {
            lzip_decoding(input, flags)
        } else {
            auto_decoding(input, flags)
        },
    }
}

/// Whether `buf` starts with the lzip magic.
fn has_lzip_magic(buf: &[u8]) -> (r: bool)
    ensures
        r == begins_with(buf@, lzip_magic()),
{
    let r = buf.len() >= 4 && buf[0] == 0x4c && buf[1] == 0x5a && buf[2] == 0x49 && buf[3] == 0x50;
    proof {
        if buf.len() >= 4 {
            if r {
                assert(buf@.subrange(0, 4) =~= lzip_magic());
            } else {
                assert(buf@.subrange(0, 4) != lzip_magic()) by {
                    if buf@.subrange(0, 4) == lzip_magic() {
                        assert(buf@.subrange(0, 4)[0] == buf@[0]);
                        assert(buf@.subrange(0, 4)[1] == buf@[1]);
                        assert(buf@.subrange(0, 4)[2] == buf@[2]);
                        assert(buf@.subrange(0, 4)[3] == buf@[3]);
                    }
                }
            }
        }
    }
    r
}

/// Whether `buf` starts with the `.xz` magic.
pub(crate) fn has_xz_magic(buf: &[u8]) -> (r: bool)
    ensures
        r == begins_with(buf@, xz_magic()),
{
    let r = buf.len() >= 6 && buf[0] == 0xfd && buf[1] == 0x37 && buf[2] == 0x7a && buf[3] == 0x58 && buf[4] == 0x5a
        && buf[5] == 0x00;
    proof {
        if buf.len() >= 6 {
            if r {
                assert(buf@.subrange(0, 6) =~= xz_magic());
            } else {
                assert(buf@.subrange(0, 6) != xz_magic()) by {
                    if buf@.subrange(0, 6) == xz_magic() {
                        assert(buf@.subrange(0, 6)[0] == buf@[0]);
                        assert(buf@.subrange(0, 6)[1] == buf@[1]);
                        assert(buf@.subrange(0, 6)[2] == buf@[2]);
                        assert(buf@.subrange(0, 6)[3] == buf@[3]);
                        assert(buf@.subrange(0, 6)[4] == buf@[4]);
                        assert(buf@.subrange(0, 6)[5] == buf@[5]);
                    }
                }
            }
        }
    }
    r
}

/// The decoded form of `input`, through a decoder's result.
fn decoded(r: Result<Vec<u8>, LzmaFailure>) -> (out: Result<Vec<u8>, CodecError>)
    ensures
        r matches Ok(v) ==> out == Ok::<Vec<u8>, CodecError>(v),
        r is Err ==> (out matches Err(e) && e is Lzma),
{
    match r {
        Ok(v) => Ok(v),
        Err(e) => Err(failure(e)),
    }
}

/// Decompress `input` with explicit options. `format` selects the
/// decoder (`Format::Auto` detects `.xz`, `.lzma` and `.lz`;
/// `Format::Raw` requires `filter`). `no_warn` (`-Q`) lets a stream
/// whose integrity check is unsupported be decoded anyway.
pub fn decompress_stream_opts(input: &[u8], no_warn: bool, format: Format, filter: Option<&FilterChain>) -> (r: Result<Vec<u8>, CodecError>)
    ensures
        decompress_refusal(format, chain_view(filter)) matches Some(e) ==> r matches Err(CodecError::Refused(x)) && x == e,
        format is Raw && bad_preset_chain(format, chain_view(filter)) ==> (r matches Err(e) && error_kind(e)
            == IoErrorKind::InvalidInput),
        decompress_refusal(format, chain_view(filter)) is None ==> {
            &&& r matches Ok(v) ==> v@ == decompressed_form(input@, no_warn, format, chain_view(filter))
            &&& r matches Err(e) ==> e is Lzma
        },
        // what the matching compressor produced comes back
        (format is Auto || format is Xz) && begins_with(input@, xz_magic()) ==> gives_back_xz(input@, r),
        (format is Auto || format is Lzma) && input@.len() > 0 && input@[0] == 0x5du8 ==> gives_back_alone(input@, r),
        format is Raw && (filter matches Some(c) && chain_encodable(format, c@)) ==> gives_back_raw(
            input@,
            chain_entries(filter->0@),
            r,
        ),
        refused_input(format, input@) ==> r is Err,
{
    let flags = decoder_flags(no_warn);
    proof {
        lemma_flags_concatenated(no_warn);
    }
    match format {
        Format::Raw => {
            let chain = match filter {
                Some(c) => c,
                None => return Err(CodecError::Refused(Refusal::MissingFilterChain)),
            };
            let filters = match build_filters(chain) {
                Ok(f) => f,
                Err(e) => return Err(e),
            };
            decoded(decode_raw(input, &filters))
        },
        Format::Lzip => decoded(decode_lzip(input, flags)),
        Format::Lzma => decoded(decode_lzma_alone(input)),
        Format::Xz => decoded(decode_xz(input, flags)),
        Format::Auto => {
            if has_lzip_magic(input) {
                decoded(decode_lzip(input, flags))
            } else {
                decoded(decode_auto(input, flags))
            }
        },
    }
}

/// Decompress `input`, detecting `.xz`, `.lzma` and `.lz`.
pub fn decompress_stream(input: &[u8]) -> (r: Result<Vec<u8>, CodecError>)
    ensures
        r matches Ok(v) ==> v@ == decompressed_form(input@, false, Format::Auto, None),
        r matches Err(e) ==> e is Lzma,
        begins_with(input@, xz_magic()) ==> gives_back_xz(input@, r),
        input@.len() > 0 && input@[0] == 0x5du8 ==> gives_back_alone(input@, r),
        refused_input(Format::Auto, input@) ==> r is Err,
{
    decompress_stream_opts(input, false, Format::Auto, None)
}

/// Returns true if `buf` looks like the start of a recognised compressed
/// stream: `.xz` or lzip magic (`.lzma` has no reliable magic).
pub fn looks_compressed(buf: &[u8]) -> (r: bool)
    ensures
        r == (begins_with(buf@, xz_magic()) || begins_with(buf@, lzip_magic())),
{
    has_xz_magic(buf) || has_lzip_magic(buf)
}

/// Decompress in `-dfc` mode: like `decompress_stream_opts`, but in
/// `Format::Auto`, input that does not look compressed is returned
/// unchanged.
pub fn decompress_or_passthrough(input: &[u8], no_warn: bool, format: Format, filter: Option<&FilterChain>) -> (r: Result<Vec<u8>, CodecError>)
    ensures
        format is Auto && !(begins_with(input@, xz_magic()) || begins_with(input@, lzip_magic())) ==> (r matches Ok(v)
            && v@ == input@),
        decompress_refusal(format, chain_view(filter)) matches Some(e) ==> r matches Err(CodecError::Refused(x)) && x == e,
        format is Raw && bad_preset_chain(format, chain_view(filter)) ==> (r matches Err(e) && error_kind(e)
            == IoErrorKind::InvalidInput),
        decompress_refusal(format, chain_view(filter)) is None && !(format is Auto && !(begins_with(input@, xz_magic())
            || begins_with(input@, lzip_magic()))) ==> {
            &&& r matches Ok(v) ==> v@ == decompressed_form(input@, no_warn, format, chain_view(filter))
            &&& r matches Err(e) ==> e is Lzma
        },
        (format is Auto || format is Xz) && begins_with(input@, xz_magic()) ==> gives_back_xz(input@, r),
        format is Lzma && input@.len() > 0 && input@[0] == 0x5du8 ==> gives_back_alone(input@, r),
        format is Raw && (filter matches Some(c) && chain_encodable(format, c@)) ==> gives_back_raw(
            input@,
            chain_entries(filter->0@),
            r,
        ),
        format is Auto && bad_lzip_version(input@) ==> r is Err,
        !(format is Auto) && refused_input(format, input@) ==> r is Err,
{
    if format == Format::Auto && !looks_compressed(input) {
        return Ok(vstd::slice::slice_to_vec(input));
    }
    let flags = decoder_flags(no_warn);
    match format {
        Format::Raw => {
            let chain = match filter {
                Some(c) => c,
                None => return Err(CodecError::Refused(Refusal::MissingFilterChain)),
            };
            let filters = match build_filters(chain) {
                Ok(f) => f,
                Err(e) => return Err(e),
            };
            decoded(decode_raw(input, &filters))
        },
        Format::Lzip => decoded(decode_lzip(input, flags)),
        Format::Lzma => decoded(decode_lzma_alone(input)),
        Format::Xz => decoded(decode_xz(input, flags)),
        Format::Auto => {
            if has_lzip_magic(input) {
                decoded(decode_lzip(input, flags))
            } else {
                decoded(decode_auto(input, flags))
            }
        },
    }
}

} // verus!
