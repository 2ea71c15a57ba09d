//! The liblzma items the codec calls, with the contracts they are
//! trusted to meet, and the names given to the data they produce.
//!
//! Each encoder or decoder below sets up one liblzma `Stream` and runs
//! it over an in-memory buffer with liblzma's `read::XzEncoder` /
//! `read::XzDecoder`. What comes out is named (the compressed forms are
//! pages of algorithm), and the decoders carry the one fact the library
//! relies on: decoding an encoding made by the matching encoder, when it
//! succeeds, gives back the encoded data.

use vstd::prelude::*;
use std::io::Read;

verus! {

#[verifier::external_type_specification]
#[verifier::external_body]
pub struct ExFilters(liblzma::stream::Filters);

#[verifier::external_type_specification]
#[verifier::external_body]
pub struct ExIoError(std::io::Error);

#[verifier::external_type_specification]
#[verifier::external_body]
pub struct ExLzmaError(liblzma::stream::Error);

/// How a liblzma encoder or decoder failed: setting the stream (or its
/// options) up, or while the data ran through it.
pub enum LzmaFailure {
    Setup(liblzma::stream::Error),
    Io(std::io::Error),
}

// ---------------------------------------------------------------------
// Constants of the formats
// ---------------------------------------------------------------------

/// liblzma filter IDs (`LZMA_FILTER_*`).
pub open spec fn lzma1_id() -> u64 { 0x4000_0000_0000_0001 }
pub open spec fn lzma2_id() -> u64 { 0x21 }
pub open spec fn delta_id() -> u64 { 0x03 }
pub open spec fn x86_id() -> u64 { 0x04 }
pub open spec fn powerpc_id() -> u64 { 0x05 }
pub open spec fn ia64_id() -> u64 { 0x06 }
pub open spec fn arm_id() -> u64 { 0x07 }
pub open spec fn armthumb_id() -> u64 { 0x08 }
pub open spec fn sparc_id() -> u64 { 0x09 }
pub open spec fn arm64_id() -> u64 { 0x0a }
pub open spec fn riscv_id() -> u64 { 0x0b }

/// The `.xz` stream header magic.
pub open spec fn xz_magic() -> Seq<u8> {
    seq![0xfdu8, 0x37u8, 0x7au8, 0x58u8, 0x5au8, 0x00u8]
}

/// The `.lz` (lzip) magic, "LZIP".
pub open spec fn lzip_magic() -> Seq<u8> {
    seq![0x4cu8, 0x5au8, 0x49u8, 0x50u8]
}

pub open spec fn begins_with(b: Seq<u8>, m: Seq<u8>) -> bool {
    m.len() <= b.len() && b.subrange(0, m.len() as int) == m
}

/// The shape of one `.xz` stream with a CRC64 check: the magic, the
/// stream flags 00 04, at least a header, an empty index and a footer
/// (32 bytes), and a length that is a multiple of 4.
pub open spec fn xz_crc64_stream_shape(v: Seq<u8>) -> bool {
    &&& begins_with(v, xz_magic())
    &&& v.len() >= 32
    &&& v.len() % 4 == 0
    &&& v[6] == 0x00u8
    &&& v[7] == 0x04u8
}

/// The filter IDs that may stand before LZMA1/LZMA2 in a chain: delta and
/// the branch/call/jump filters.
pub open spec fn leading_filter_id(id: u64) -> bool {
    id == delta_id() || id == x86_id() || id == powerpc_id() || id == ia64_id() || id == arm_id() || id
        == armthumb_id() || id == sparc_id() || id == arm64_id() || id == riscv_id()
}

/// A chain liblzma's raw coders accept: one to four filters (at most
/// `LZMA_FILTERS_MAX`), LZMA1 or LZMA2 with a valid preset last, and only
/// delta and branch/call/jump filters before it.
pub open spec fn raw_chain_ok(e: Seq<(u64, u32)>) -> bool {
    &&& 1 <= e.len() <= 4
    &&& (e.last().0 == lzma1_id() || e.last().0 == lzma2_id())
    &&& preset_is_valid(e.last().1)
    &&& forall|k: int| 0 <= k < e.len() - 1 ==> leading_filter_id(#[trigger] e[k].0)
}

/// A chain the `.xz` coders accept: as for raw, with LZMA2 last (the
/// `.xz` format has no LZMA1).
pub open spec fn xz_chain_ok(e: Seq<(u64, u32)>) -> bool {
    raw_chain_ok(e) && e.last().0 == lzma2_id()
}

/// Whether `b` is a valid `.lzma` properties byte: at most
/// `(4 * 5 + 4) * 9 + 8`, with `lc + lp <= 4`.
pub open spec fn lzma_props_ok(b: u8) -> bool {
    b <= 224 && (b % 45) / 9 + (b % 45) % 9 <= 4
}

/// The bits of `d` spread right as the `.lzma` decoder does before it
/// compares a dictionary size with the sizes it accepts.
pub open spec fn dict_smear(d: u32) -> u32 {
    let d1 = d | (d >> 2u32);
    let d2 = d1 | (d1 >> 3u32);
    let d3 = d2 | (d2 >> 4u32);
    let d4 = d3 | (d3 >> 8u32);
    d4 | (d4 >> 16u32)
}

/// The dictionary sizes the auto decoder accepts in a `.lzma` header
/// (2^n or 2^n + 2^(n-1), or `u32::MAX`), computed in `u32` as it does.
pub open spec fn picky_dict_ok(dict: u32) -> bool {
    let d = if dict == 0 { u32::MAX } else { (dict - 1) as u32 };
    let s = dict_smear(d);
    dict == u32::MAX || (if s == u32::MAX { 0u32 } else { (s + 1) as u32 }) == dict
}

/// The little-endian `u32` at `b[i..i + 4]`.
pub open spec fn le_u32_at(b: Seq<u8>, i: int) -> u32 {
    (b[i] + 256 * b[i + 1] + 65536 * b[i + 2] + 16777216 * b[i + 3]) as u32
}

/// Input the auto decoder refuses from its first bytes: none at all, or
/// (neither `.xz` nor lzip) a `.lzma` header with a bad properties byte
/// or dictionary size.
pub open spec fn auto_refuses(b: Seq<u8>) -> bool {
    ||| b.len() == 0
    ||| {
        &&& b[0] != 0xfdu8
        &&& b[0] != 0x4cu8
        &&& (!lzma_props_ok(b[0]) || (b.len() >= 5 && !picky_dict_ok(le_u32_at(b, 1))))
    }
}

/// The decoder flags the codec uses: `LZMA_CONCATENATED`, with or without
/// `LZMA_TELL_UNSUPPORTED_CHECK`.
pub open spec fn codec_flags(flags: u32) -> bool {
    flags == 0x08 || flags == 0x0a
}

/// Whether `lzma_lzma_preset` accepts `preset`: a level 0-9, optionally
/// with `LZMA_PRESET_EXTREME`, and no other bits.
pub open spec fn preset_is_valid(preset: u32) -> bool {
    (preset & 0x1f) <= 9 && (preset & 0x7fff_ffe0) == 0
}

// ---------------------------------------------------------------------
// Names
// ---------------------------------------------------------------------

/// The filters a `Filters` chain holds, in order: the filter ID and, for
/// LZMA1/LZMA2, the preset its options were made from (0 otherwise).
pub uninterp spec fn filter_entries(f: liblzma::stream::Filters) -> Seq<(u64, u32)>;

/// `.xz` encoding of `data` by `Stream::new_easy_encoder(preset, Crc64)`.
pub uninterp spec fn xz_preset_encoding(data: Seq<u8>, preset: u32) -> Seq<u8>;

/// `.xz` encoding of `data` by `Stream::new_stream_encoder` over a chain.
pub uninterp spec fn xz_chain_encoding(data: Seq<u8>, chain: Seq<(u64, u32)>) -> Seq<u8>;

/// `.lzma` encoding of `data` by `Stream::new_lzma_encoder` with the
/// options of `preset`.
pub uninterp spec fn lzma_alone_encoding(data: Seq<u8>, preset: u32) -> Seq<u8>;

/// Raw encoding of `data` by `Stream::new_raw_encoder` over a chain.
pub uninterp spec fn raw_encoding(data: Seq<u8>, chain: Seq<(u64, u32)>) -> Seq<u8>;

/// What `Stream::new_auto_decoder(u64::MAX, flags)` decodes `data` to.
pub uninterp spec fn auto_decoding(data: Seq<u8>, flags: u32) -> Seq<u8>;

/// What `Stream::new_stream_decoder(u64::MAX, flags)` decodes `data` to.
pub uninterp spec fn xz_decoding(data: Seq<u8>, flags: u32) -> Seq<u8>;

/// What `Stream::new_lzma_decoder(u64::MAX)` decodes `data` to.
pub uninterp spec fn lzma_alone_decoding(data: Seq<u8>) -> Seq<u8>;

/// What `Stream::new_lzip_decoder(u64::MAX, flags)` decodes `data` to.
pub uninterp spec fn lzip_decoding(data: Seq<u8>, flags: u32) -> Seq<u8>;

/// What `Stream::new_raw_decoder` over a chain decodes `data` to.
pub uninterp spec fn raw_decoding(data: Seq<u8>, chain: Seq<(u64, u32)>) -> Seq<u8>;

// ---------------------------------------------------------------------
// Building filter chains
// ---------------------------------------------------------------------

/// `Filters::new()`: an empty chain.
#[verifier::external_body]
pub(crate) fn filters_new() -> (f: liblzma::stream::Filters)
    ensures
        filter_entries(f) == Seq::<(u64, u32)>::empty(),
{
    liblzma::stream::Filters::new()
}

/// `LzmaOptions::new_preset(preset)` then `Filters::lzma1`: appends an
/// LZMA1 filter; `new_preset` refuses exactly the invalid presets (with
/// its error), and nothing is appended then.
#[verifier::external_body]
pub(crate) fn filters_add_lzma1(f: &mut liblzma::stream::Filters, preset: u32) -> (r: Result<(), liblzma::stream::Error>)
    ensures
        r is Ok <==> preset_is_valid(preset),
        r is Ok ==> filter_entries(*final(f)) == filter_entries(*old(f)).push((lzma1_id(), preset)),
        r is Err ==> filter_entries(*final(f)) == filter_entries(*old(f)),
{
    match liblzma::stream::LzmaOptions::new_preset(preset) {
        Ok(opts) => {
            f.lzma1(&opts);
            Ok(())
        },
        Err(e) => Err(e),
    }
}

/// `LzmaOptions::new_preset(preset)` then `Filters::lzma2`, as above.
#[verifier::external_body]
pub(crate) fn filters_add_lzma2(f: &mut liblzma::stream::Filters, preset: u32) -> (r: Result<(), liblzma::stream::Error>)
    ensures
        r is Ok <==> preset_is_valid(preset),
        r is Ok ==> filter_entries(*final(f)) == filter_entries(*old(f)).push((lzma2_id(), preset)),
        r is Err ==> filter_entries(*final(f)) == filter_entries(*old(f)),
{
    match liblzma::stream::LzmaOptions::new_preset(preset) {
        Ok(opts) => {
            f.lzma2(&opts);
            Ok(())
        },
        Err(e) => Err(e),
    }
}

/// `Filters::delta_properties(&[0])`: a delta filter of distance 1. The
/// properties byte 0 is valid; decoding it only allocates the options,
/// and liblzma fails there only when memory runs out, which, as
/// elsewhere in Rust, is not an outcome this library handles.
#[verifier::external_body]
pub(crate) fn filters_add_delta(f: &mut liblzma::stream::Filters) -> (r: Result<(), liblzma::stream::Error>)
    ensures
        r is Ok,
        filter_entries(*final(f)) == filter_entries(*old(f)).push((delta_id(), 0u32)),
{
    match f.delta_properties(&[0u8]) {
        Ok(_) => Ok(()),
        Err(e) => Err(e),
    }
}

/// `Filters::x86()`.
#[verifier::external_body]
pub(crate) fn filters_add_x86(f: &mut liblzma::stream::Filters)
    ensures
        filter_entries(*final(f)) == filter_entries(*old(f)).push((x86_id(), 0u32)),
{
    f.x86();
}

/// `Filters::arm()`.
#[verifier::external_body]
pub(crate) fn filters_add_arm(f: &mut liblzma::stream::Filters)
    ensures
        filter_entries(*final(f)) == filter_entries(*old(f)).push((arm_id(), 0u32)),
{
    f.arm();
}

/// `Filters::arm64()`.
#[verifier::external_body]
pub(crate) fn filters_add_arm64(f: &mut liblzma::stream::Filters)
    ensures
        filter_entries(*final(f)) == filter_entries(*old(f)).push((arm64_id(), 0u32)),
{
    f.arm64();
}

/// `Filters::arm_thumb()`.
#[verifier::external_body]
pub(crate) fn filters_add_arm_thumb(f: &mut liblzma::stream::Filters)
    ensures
        filter_entries(*final(f)) == filter_entries(*old(f)).push((armthumb_id(), 0u32)),
{
    f.arm_thumb();
}

/// `Filters::powerpc()`.
#[verifier::external_body]
pub(crate) fn filters_add_powerpc(f: &mut liblzma::stream::Filters)
    ensures
        filter_entries(*final(f)) == filter_entries(*old(f)).push((powerpc_id(), 0u32)),
{
    f.powerpc();
}

/// `Filters::ia64()`.
#[verifier::external_body]
pub(crate) fn filters_add_ia64(f: &mut liblzma::stream::Filters)
    ensures
        filter_entries(*final(f)) == filter_entries(*old(f)).push((ia64_id(), 0u32)),
{
    f.ia64();
}

/// `Filters::sparc()`.
#[verifier::external_body]
pub(crate) fn filters_add_sparc(f: &mut liblzma::stream::Filters)
    ensures
        filter_entries(*final(f)) == filter_entries(*old(f)).push((sparc_id(), 0u32)),
{
    f.sparc();
}

/// `Filters::riscv()`.
#[verifier::external_body]
pub(crate) fn filters_add_riscv(f: &mut liblzma::stream::Filters)
    ensures
        filter_entries(*final(f)) == filter_entries(*old(f)).push((riscv_id(), 0u32)),
{
    f.riscv();
}

// ---------------------------------------------------------------------
// Encoders
// ---------------------------------------------------------------------

// The encoders and decoders below fail on the inputs they accept only
// when liblzma cannot allocate memory, which is not an outcome this
// library handles (as an allocation failure in Rust is none).

/// `.xz` encoding with `Stream::new_easy_encoder(preset, Check::Crc64)`
/// run by `read::XzEncoder::new_stream`. What comes out is one `.xz`
/// stream with a CRC64 check. A preset is refused exactly when it is
/// invalid, when the stream is set up.
#[verifier::external_body]
pub(crate) fn encode_xz_preset(input: &[u8], preset: u32) -> (r: Result<Vec<u8>, LzmaFailure>)
    ensures
        r matches Ok(v) ==> v@ == xz_preset_encoding(input@, preset) && xz_crc64_stream_shape(v@),
        !preset_is_valid(preset) ==> r matches Err(LzmaFailure::Setup(_)),
        preset_is_valid(preset) ==> r is Ok,
{
    let stream = match liblzma::stream::Stream::new_easy_encoder(preset, liblzma::stream::Check::Crc64) {
        Ok(s) => s,
        Err(e) => return Err(LzmaFailure::Setup(e)),
    };
    let mut out = Vec::new();
    match liblzma::read::XzEncoder::new_stream(input, stream).read_to_end(&mut out) {
        Ok(_) => Ok(out),
        Err(e) => Err(LzmaFailure::Io(e)),
    }
}

/// `.xz` encoding with `Stream::new_stream_encoder(filters, Check::Crc64)`
/// run by `read::XzEncoder::new_stream`: one `.xz` stream with a CRC64
/// check.
#[verifier::external_body]
pub(crate) fn encode_xz_chain(input: &[u8], filters: &liblzma::stream::Filters) -> (r: Result<Vec<u8>, LzmaFailure>)
    ensures
        r matches Ok(v) ==> v@ == xz_chain_encoding(input@, filter_entries(*filters)) && xz_crc64_stream_shape(v@),
        xz_chain_ok(filter_entries(*filters)) ==> r is Ok,
{
    let stream = match liblzma::stream::Stream::new_stream_encoder(filters, liblzma::stream::Check::Crc64) {
        Ok(s) => s,
        Err(e) => return Err(LzmaFailure::Setup(e)),
    };
    let mut out = Vec::new();
    match liblzma::read::XzEncoder::new_stream(input, stream).read_to_end(&mut out) {
        Ok(_) => Ok(out),
        Err(e) => Err(LzmaFailure::Io(e)),
    }
}

/// `.lzma` encoding: `LzmaOptions::new_preset(preset)`, then
/// `Stream::new_lzma_encoder`, run by `read::XzEncoder::new_stream`. The
/// stream starts with the lc/lp/pb byte, 0x5d for every preset;
/// `new_preset` refuses an invalid preset.
#[verifier::external_body]
pub(crate) fn encode_lzma_alone(input: &[u8], preset: u32) -> (r: Result<Vec<u8>, LzmaFailure>)
    ensures
        r matches Ok(v) ==> v@ == lzma_alone_encoding(input@, preset) && v@.len() > 0 && v@[0] == 0x5du8,
        !preset_is_valid(preset) ==> r matches Err(LzmaFailure::Setup(_)),
        preset_is_valid(preset) ==> r is Ok,
{
    let opts = match liblzma::stream::LzmaOptions::new_preset(preset) {
        Ok(o) => o,
        Err(e) => return Err(LzmaFailure::Setup(e)),
    };
    let stream = match liblzma::stream::Stream::new_lzma_encoder(&opts) {
        Ok(s) => s,
        Err(e) => return Err(LzmaFailure::Setup(e)),
    };
    let mut out = Vec::new();
    match liblzma::read::XzEncoder::new_stream(input, stream).read_to_end(&mut out) {
        Ok(_) => Ok(out),
        Err(e) => Err(LzmaFailure::Io(e)),
    }
}

/// Raw encoding with `Stream::new_raw_encoder(filters)` run by
/// `read::XzEncoder::new_stream`.
#[verifier::external_body]
pub(crate) fn encode_raw(input: &[u8], filters: &liblzma::stream::Filters) -> (r: Result<Vec<u8>, LzmaFailure>)
    ensures
        r matches Ok(v) ==> v@ == raw_encoding(input@, filter_entries(*filters)),
        raw_chain_ok(filter_entries(*filters)) ==> r is Ok,
{
    let stream = match liblzma::stream::Stream::new_raw_encoder(filters) {
        Ok(s) => s,
        Err(e) => return Err(LzmaFailure::Setup(e)),
    };
    let mut out = Vec::new();
    match liblzma::read::XzEncoder::new_stream(input, stream).read_to_end(&mut out) {
        Ok(_) => Ok(out),
        Err(e) => Err(LzmaFailure::Io(e)),
    }
}

// ---------------------------------------------------------------------
// Decoders
// ---------------------------------------------------------------------

/// Decoding with `Stream::new_auto_decoder(u64::MAX, flags)` (which takes
/// `.xz`, lzip and `.lzma`, telling them apart by the first byte) run by
/// `read::XzDecoder::new_stream`. What one of the `.xz`/`.lzma` encoders
/// made of some data decodes to that data; with `LZMA_CONCATENATED`, two
/// `.xz` streams one after the other give their data one after the
/// other. No input, or a bad `.lzma` header, is refused.
#[verifier::external_body]
pub(crate) fn decode_auto(input: &[u8], flags: u32) -> (r: Result<Vec<u8>, LzmaFailure>)
    requires
        codec_flags(flags),
    ensures
        r matches Ok(v) ==> v@ == auto_decoding(input@, flags),
        forall|p: Seq<u8>, l: u32| preset_is_valid(l) && input@ == #[trigger] xz_preset_encoding(p, l) ==> (r is Ok && (r matches Ok(v) ==> v@ == p)),
        forall|p: Seq<u8>, c: Seq<(u64, u32)>| xz_chain_ok(c) && input@ == #[trigger] xz_chain_encoding(p, c) ==> (r is Ok && (r matches Ok(v) ==> v@ == p)),
        forall|p: Seq<u8>, l: u32| preset_is_valid(l) && input@ == #[trigger] lzma_alone_encoding(p, l) ==> (r is Ok && (r matches Ok(v) ==> v@ == p)),
        forall|p: Seq<u8>, l: u32, q: Seq<u8>, m: u32| preset_is_valid(l) && preset_is_valid(m) && input@ == #[trigger] xz_preset_encoding(p, l)
                + #[trigger] xz_preset_encoding(q, m) ==> (r is Ok && (r matches Ok(v) ==> v@ == p + q)),
        auto_refuses(input@) ==> r is Err,
{
    let stream = match liblzma::stream::Stream::new_auto_decoder(u64::MAX, flags) {
        Ok(s) => s,
        Err(e) => return Err(LzmaFailure::Setup(e)),
    };
    let mut out = Vec::new();
    match liblzma::read::XzDecoder::new_stream(input, stream).read_to_end(&mut out) {
        Ok(_) => Ok(out),
        Err(e) => Err(LzmaFailure::Io(e)),
    }
}

/// Decoding with `Stream::new_stream_decoder(u64::MAX, flags)` (`.xz`
/// only) run by `read::XzDecoder::new_stream`: gives back what the `.xz`
/// encoders encoded, and refuses input that does not start with the
/// `.xz` magic.
#[verifier::external_body]
pub(crate) fn decode_xz(input: &[u8], flags: u32) -> (r: Result<Vec<u8>, LzmaFailure>)
    requires
        codec_flags(flags),
    ensures
        r matches Ok(v) ==> v@ == xz_decoding(input@, flags),
        forall|p: Seq<u8>, l: u32| preset_is_valid(l) && input@ == #[trigger] xz_preset_encoding(p, l) ==> (r is Ok && (r matches Ok(v) ==> v@ == p)),
        forall|p: Seq<u8>, c: Seq<(u64, u32)>| xz_chain_ok(c) && input@ == #[trigger] xz_chain_encoding(p, c) ==> (r is Ok && (r matches Ok(v) ==> v@ == p)),
        forall|p: Seq<u8>, l: u32, q: Seq<u8>, m: u32| preset_is_valid(l) && preset_is_valid(m) && input@ == #[trigger] xz_preset_encoding(p, l)
                + #[trigger] xz_preset_encoding(q, m) ==> (r is Ok && (r matches Ok(v) ==> v@ == p + q)),
        !begins_with(input@, xz_magic()) ==> r is Err,
{
    let stream = match liblzma::stream::Stream::new_stream_decoder(u64::MAX, flags) {
        Ok(s) => s,
        Err(e) => return Err(LzmaFailure::Setup(e)),
    };
    let mut out = Vec::new();
    match liblzma::read::XzDecoder::new_stream(input, stream).read_to_end(&mut out) {
        Ok(_) => Ok(out),
        Err(e) => Err(LzmaFailure::Io(e)),
    }
}

/// Decoding with `Stream::new_lzma_decoder(u64::MAX)` (`.lzma` only) run
/// by `read::XzDecoder::new_stream`: gives back what the `.lzma` encoder
/// encoded, and refuses no input or a bad properties byte.
#[verifier::external_body]
pub(crate) fn decode_lzma_alone(input: &[u8]) -> (r: Result<Vec<u8>, LzmaFailure>)
    ensures
        r matches Ok(v) ==> v@ == lzma_alone_decoding(input@),
        forall|p: Seq<u8>, l: u32| preset_is_valid(l) && input@ == #[trigger] lzma_alone_encoding(p, l) ==> (r is Ok && (r matches Ok(v) ==> v@ == p)),
        input@.len() == 0 || !lzma_props_ok(input@[0]) ==> r is Err,
{
    let stream = match liblzma::stream::Stream::new_lzma_decoder(u64::MAX) {
        Ok(s) => s,
        Err(e) => return Err(LzmaFailure::Setup(e)),
    };
    let mut out = Vec::new();
    match liblzma::read::XzDecoder::new_stream(input, stream).read_to_end(&mut out) {
        Ok(_) => Ok(out),
        Err(e) => Err(LzmaFailure::Io(e)),
    }
}

/// Decoding with `Stream::new_lzip_decoder(u64::MAX, flags)` run by
/// `read::XzDecoder::new_stream`: refuses input without the lzip magic,
/// and a member of a version other than 0 and 1.
#[verifier::external_body]
pub(crate) fn decode_lzip(input: &[u8], flags: u32) -> (r: Result<Vec<u8>, LzmaFailure>)
    requires
        codec_flags(flags),
    ensures
        r matches Ok(v) ==> v@ == lzip_decoding(input@, flags),
        !begins_with(input@, lzip_magic()) ==> r is Err,
        input@.len() > 4 && input@[4] > 1 ==> r is Err,
{
    let stream = match liblzma::stream::Stream::new_lzip_decoder(u64::MAX, flags) {
        Ok(s) => s,
        Err(e) => return Err(LzmaFailure::Setup(e)),
    };
    let mut out = Vec::new();
    match liblzma::read::XzDecoder::new_stream(input, stream).read_to_end(&mut out) {
        Ok(_) => Ok(out),
        Err(e) => Err(LzmaFailure::Io(e)),
    }
}

/// Decoding with `Stream::new_raw_decoder(filters)` run by
/// `read::XzDecoder::new_stream`: gives back what the raw encoder encoded
/// over the same chain.
#[verifier::external_body]
pub(crate) fn decode_raw(input: &[u8], filters: &liblzma::stream::Filters) -> (r: Result<Vec<u8>, LzmaFailure>)
    ensures
        r matches Ok(v) ==> v@ == raw_decoding(input@, filter_entries(*filters)),
        forall|p: Seq<u8>| raw_chain_ok(filter_entries(*filters)) && input@ == #[trigger] raw_encoding(p, filter_entries(*filters)) ==> (r is Ok && (r matches Ok(v) ==> v@ == p)),
{
    let stream = match liblzma::stream::Stream::new_raw_decoder(filters) {
        Ok(s) => s,
        Err(e) => return Err(LzmaFailure::Setup(e)),
    };
    let mut out = Vec::new();
    match liblzma::read::XzDecoder::new_stream(input, stream).read_to_end(&mut out) {
        Ok(_) => Ok(out),
        Err(e) => Err(LzmaFailure::Io(e)),
    }
}

// ---------------------------------------------------------------------
// I/O errors
// ---------------------------------------------------------------------

/// The kinds of `std::io::Error` the codec tells apart.
#[derive(Debug, Clone, Copy, PartialEq, Eq, Structural)]
pub enum IoErrorKind {
    InvalidInput,
    InvalidData,
    AlreadyExists,
    UnexpectedEof,
    Unsupported,
    Other,
}

/// `std::io::Error::kind`, as one of the kinds above (others are `Other`).
#[verifier::external_body]
pub(crate) fn io_error_kind(e: &std::io::Error) -> IoErrorKind {
    match e.kind() {
        std::io::ErrorKind::InvalidInput => IoErrorKind::InvalidInput,
        std::io::ErrorKind::InvalidData => IoErrorKind::InvalidData,
        std::io::ErrorKind::AlreadyExists => IoErrorKind::AlreadyExists,
        std::io::ErrorKind::UnexpectedEof => IoErrorKind::UnexpectedEof,
        std::io::ErrorKind::Unsupported => IoErrorKind::Unsupported,
        _ => IoErrorKind::Other,
    }
}

/// The `Display` text of a liblzma error.
#[verifier::external_body]
pub(crate) fn lzma_error_text(e: &liblzma::stream::Error) -> String {
    e.to_string()
}

/// The `Display` text of a `std::io::Error`.
#[verifier::external_body]
pub(crate) fn io_error_text(e: &std::io::Error) -> String {
    e.to_string()
}

} // verus!
