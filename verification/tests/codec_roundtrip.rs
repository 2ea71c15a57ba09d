use rust_xz::codec::{
    build_filters, compress_stream, decompress_or_passthrough, decompress_stream, decompress_stream_opts,
    looks_compressed, preset_valid, ChainError, CodecError, Refusal,
};
use rust_xz::lzma::IoErrorKind;
use rust_xz::options::{BcjArch, FilterChain, FilterKind, Format};

fn chain_lzma1(preset: u32) -> FilterChain {
    let mut c = FilterChain::default();
    c.push(FilterKind::Lzma1Preset(preset));
    c
}

fn chain_lzma2(preset: u32) -> FilterChain {
    let mut c = FilterChain::default();
    c.push(FilterKind::Lzma2Preset(preset));
    c
}

fn chain_bcj_lzma2(arch: BcjArch, preset: u32) -> FilterChain {
    let mut c = FilterChain::default();
    c.push(FilterKind::Bcj(arch));
    c.push(FilterKind::Lzma2Preset(preset));
    c
}

fn roundtrip(payload: &[u8], level: u32, format: Format) {
    let compressed = compress_stream(payload, level, format, None).expect("compress");
    let decompressed = decompress_stream(&compressed[..]).expect("decompress");
    assert_eq!(decompressed, payload);
}

fn words(n: u32) -> Vec<u8> {
    (0..n).flat_map(|k| k.to_le_bytes()).collect()
}

#[test]
fn roundtrip_hello_world_xz() {
    roundtrip(b"hello, world!\n", 6, Format::Xz);
}

#[test]
fn roundtrip_hello_world_lzma() {
    roundtrip(b"hello, world!\n", 6, Format::Lzma);
}

#[test]
fn roundtrip_empty_xz() {
    let compressed = compress_stream(&b""[..], 6, Format::Xz, None).unwrap();
    let decompressed = decompress_stream(&compressed[..]).unwrap();
    assert_eq!(decompressed, b"");
}

#[test]
fn roundtrip_every_preset_xz() {
    let payload = words(4096);
    for level in 0..=9 {
        roundtrip(&payload, level, Format::Xz);
    }
}

#[test]
fn roundtrip_every_preset_lzma() {
    let payload = words(4096);
    for level in 0..=9 {
        roundtrip(&payload, level, Format::Lzma);
    }
}

#[test]
fn decompress_rejects_garbage() {
    let err = decompress_stream(&b"not actually xz data"[..]);
    assert!(err.is_err());
}

#[test]
fn concatenated_xz_streams_decode() {
    let mut a = compress_stream(&b"AAA"[..], 6, Format::Xz, None).unwrap();
    let b = compress_stream(&b"BBB"[..], 6, Format::Xz, None).unwrap();
    a.extend_from_slice(&b);
    let decoded = decompress_stream(&a[..]).unwrap();
    assert_eq!(decoded, b"AAABBB");
}

#[test]
fn lzip_magic_is_routed_to_lzip_decoder() {
    let err = decompress_stream(&b"LZIPnot-actually-a-valid-lzip-stream"[..]).unwrap_err();
    let msg = err.message();
    assert!(!msg.contains("format not recognized"), "should have reached the lzip decoder, got: {msg}");
}

#[test]
fn roundtrip_raw_lzma1() {
    let payload = b"raw filter chain test payload that should compress nicely";
    let chain = chain_lzma1(0);
    let compressed = compress_stream(&payload[..], 0, Format::Raw, Some(&chain)).unwrap();
    let decompressed = decompress_stream_opts(&compressed[..], false, Format::Raw, Some(&chain)).unwrap();
    assert_eq!(&decompressed[..], &payload[..]);
}

#[test]
fn roundtrip_raw_lzma2() {
    let payload = b"raw lzma2 filter chain test payload";
    let chain = chain_lzma2(0);
    let compressed = compress_stream(&payload[..], 0, Format::Raw, Some(&chain)).unwrap();
    let decompressed = decompress_stream_opts(&compressed[..], false, Format::Raw, Some(&chain)).unwrap();
    assert_eq!(&decompressed[..], &payload[..]);
}

#[test]
fn roundtrip_xz_with_bcj_x86_chain() {
    let payload = words(8192);
    let chain = chain_bcj_lzma2(BcjArch::X86, 4);
    let compressed = compress_stream(&payload[..], 4, Format::Xz, Some(&chain)).unwrap();
    let decompressed = decompress_stream(&compressed[..]).unwrap();
    assert_eq!(decompressed, payload);
}

#[test]
fn roundtrip_xz_with_bcj_arm64_chain() {
    let payload = words(8192);
    let chain = chain_bcj_lzma2(BcjArch::Arm64, 4);
    let compressed = compress_stream(&payload[..], 4, Format::Xz, Some(&chain)).unwrap();
    let decompressed = decompress_stream(&compressed[..]).unwrap();
    assert_eq!(decompressed, payload);
}

#[test]
fn roundtrip_xz_with_bcj_riscv_chain() {
    let payload = words(8192);
    let chain = chain_bcj_lzma2(BcjArch::RiscV, 4);
    let compressed = compress_stream(&payload[..], 4, Format::Xz, Some(&chain)).unwrap();
    let decompressed = decompress_stream(&compressed[..]).unwrap();
    assert_eq!(decompressed, payload);
}

#[test]
fn roundtrip_xz_with_delta_chain() {
    let payload: Vec<u8> = (0..4096u32).flat_map(|n| (n as u8).to_le_bytes()).collect();
    let mut chain = FilterChain::default();
    chain.push(FilterKind::Delta);
    chain.push(FilterKind::Lzma2Preset(4));
    let compressed = compress_stream(&payload[..], 4, Format::Xz, Some(&chain)).unwrap();
    let decompressed = decompress_stream(&compressed[..]).unwrap();
    assert_eq!(decompressed, payload);
}

#[test]
fn build_filters_rejects_lzma_not_last() {
    let mut chain = FilterChain::default();
    chain.push(FilterKind::Lzma2Preset(0));
    chain.push(FilterKind::Bcj(BcjArch::X86));
    match build_filters(&chain) {
        Ok(_) => panic!("expected build_filters to fail"),
        Err(e) => assert_eq!(e.io_kind(), IoErrorKind::InvalidInput),
    }
}

#[test]
fn build_filters_rejects_chain_without_lzma() {
    let mut chain = FilterChain::default();
    chain.push(FilterKind::Bcj(BcjArch::X86));
    match build_filters(&chain) {
        Ok(_) => panic!("expected build_filters to fail"),
        Err(e) => assert_eq!(e.io_kind(), IoErrorKind::InvalidInput),
    }
}

#[test]
fn build_filters_rejects_two_lzma() {
    let mut chain = FilterChain::default();
    chain.push(FilterKind::Lzma1Preset(0));
    chain.push(FilterKind::Lzma2Preset(0));
    match build_filters(&chain) {
        Ok(_) => panic!("expected build_filters to fail"),
        Err(e) => assert_eq!(e.io_kind(), IoErrorKind::InvalidInput),
    }
}

#[test]
fn raw_compress_without_filter_errors() {
    let err = compress_stream(&b"x"[..], 6, Format::Raw, None).unwrap_err();
    assert_eq!(err.io_kind(), IoErrorKind::InvalidInput);
}

#[test]
fn raw_decompress_without_filter_errors() {
    let err = decompress_stream_opts(&b"x"[..], false, Format::Raw, None).unwrap_err();
    assert_eq!(err.io_kind(), IoErrorKind::InvalidInput);
}

// ---------------------------------------------------------------------
// Further cases
// ---------------------------------------------------------------------

fn refusal(r: Result<Vec<u8>, CodecError>) -> Refusal {
    match r {
        Err(CodecError::Refused(x)) => x,
        other => panic!("expected a refusal, got {:?}", other),
    }
}

#[test]
fn chain_errors_and_their_messages() {
    let empty = FilterChain::default();
    let r = refusal(compress_stream(b"x", 6, Format::Raw, Some(&empty)));
    assert_eq!(r, Refusal::Chain(ChainError::Empty));
    assert_eq!(CodecError::Refused(r).message(), "empty filter chain");

    let mut not_last = FilterChain::default();
    not_last.push(FilterKind::Lzma2Preset(1));
    not_last.push(FilterKind::Delta);
    let r = refusal(compress_stream(b"x", 6, Format::Xz, Some(&not_last)));
    assert_eq!(r, Refusal::Chain(ChainError::LzmaNotLast));
    assert_eq!(CodecError::Refused(r).message(), "LZMA1/LZMA2 must be the final filter in the chain");

    let mut no_lzma = FilterChain::default();
    no_lzma.push(FilterKind::Delta);
    let r = refusal(decompress_stream_opts(b"x", false, Format::Raw, Some(&no_lzma)));
    assert_eq!(r, Refusal::Chain(ChainError::NoLzma));
    assert_eq!(CodecError::Refused(r).message(), "filter chain must end with LZMA1 or LZMA2");
}

#[test]
fn lzip_compression_is_unsupported() {
    let err = compress_stream(b"data", 6, Format::Lzip, None).unwrap_err();
    assert_eq!(err.io_kind(), IoErrorKind::Unsupported);
    assert_eq!(err.message(), "lzip compression is not supported (decompression only)");
}

#[test]
fn raw_refusal_message() {
    let err = compress_stream(b"x", 6, Format::Raw, None).unwrap_err();
    assert_eq!(
        err.message(),
        "raw format requires a filter chain (--lzma1=/--lzma2=/--filters=) and --suffix="
    );
}

#[test]
fn invalid_preset_fails_without_panicking() {
    let chain = chain_lzma2(10);
    match build_filters(&chain) {
        Ok(_) => panic!("expected build_filters to fail"),
        Err(err) => {
            assert!(matches!(err, CodecError::Lzma { .. }));
            assert_eq!(err.io_kind(), IoErrorKind::InvalidInput);
        }
    }
    let err = compress_stream(b"abc", 10, Format::Lzma, None).unwrap_err();
    assert_eq!(err.io_kind(), IoErrorKind::InvalidInput);
    let err = compress_stream(b"abc", 0, Format::Raw, Some(&chain_lzma1(12))).unwrap_err();
    assert_eq!(err.io_kind(), IoErrorKind::InvalidInput);
    let err = decompress_stream_opts(b"abc", false, Format::Raw, Some(&chain)).unwrap_err();
    assert_eq!(err.io_kind(), IoErrorKind::InvalidInput);
    assert!(!preset_valid(10));
    assert!(preset_valid(9) && preset_valid(0) && preset_valid(0x8000_0006));
    assert!(!preset_valid(0x4000_0006));
}

#[test]
fn xz_output_starts_with_magic_and_lzma_with_0x5d() {
    let x = compress_stream(b"payload", 3, Format::Xz, None).unwrap();
    assert_eq!(&x[..6], b"\xfd7zXZ\x00");
    let a = compress_stream(b"payload", 3, Format::Auto, None).unwrap();
    assert_eq!(&a[..6], b"\xfd7zXZ\x00");
    let l = compress_stream(b"payload", 3, Format::Lzma, None).unwrap();
    assert_eq!(l[0], 0x5d);
    assert_ne!(x, b"payload".to_vec());
}

#[test]
fn explicit_decoders_read_their_own_format() {
    let x = compress_stream(b"xz stream", 1, Format::Xz, None).unwrap();
    assert_eq!(decompress_stream_opts(&x, true, Format::Xz, None).unwrap(), b"xz stream");
    let l = compress_stream(b"alone stream", 1, Format::Lzma, None).unwrap();
    assert_eq!(decompress_stream_opts(&l, false, Format::Lzma, None).unwrap(), b"alone stream");
    assert_eq!(decompress_stream(&l).unwrap(), b"alone stream");
    assert!(decompress_stream_opts(&l, false, Format::Xz, None).is_err());
    assert!(decompress_stream_opts(&x, false, Format::Lzip, None).is_err());
}

#[test]
fn raw_with_bcj_chain_roundtrips() {
    let payload = words(2048);
    let chain = chain_bcj_lzma2(BcjArch::Sparc, 2);
    let c = compress_stream(&payload, 9, Format::Raw, Some(&chain)).unwrap();
    assert_eq!(decompress_stream_opts(&c, false, Format::Raw, Some(&chain)).unwrap(), payload);
}

#[test]
fn looks_compressed_checks_magic() {
    assert!(looks_compressed(b"\xfd7zXZ\x00rest"));
    assert!(looks_compressed(b"LZIP"));
    assert!(!looks_compressed(b"LZI"));
    assert!(!looks_compressed(b"\xfd7zXZ"));
    assert!(!looks_compressed(b"plain text"));
    assert!(!looks_compressed(b""));
}

#[test]
fn passthrough_copies_unrecognised_input() {
    let plain = b"just some text\n".to_vec();
    assert_eq!(decompress_or_passthrough(&plain, false, Format::Auto, None).unwrap(), plain);
    assert_eq!(decompress_or_passthrough(b"", false, Format::Auto, None).unwrap(), b"");
    let x = compress_stream(b"inside", 6, Format::Xz, None).unwrap();
    assert_eq!(decompress_or_passthrough(&x, false, Format::Auto, None).unwrap(), b"inside");
    assert_eq!(decompress_or_passthrough(&x, false, Format::Xz, None).unwrap(), b"inside");
    assert!(decompress_or_passthrough(&plain, false, Format::Xz, None).is_err());
    assert!(decompress_or_passthrough(&plain, false, Format::Raw, None).is_err());
}

#[test]
fn truncated_stream_is_an_error() {
    let x = compress_stream(&words(1000), 6, Format::Xz, None).unwrap();
    assert!(decompress_stream(&x[..x.len() / 2]).is_err());
}

// ---------------------------------------------------------------------
// Round trips over pseudo-random buffers
// ---------------------------------------------------------------------

struct Lcg(u64);

impl Lcg {
    fn next(&mut self) -> u64 {
        self.0 = self.0.wrapping_mul(6364136223846793005).wrapping_add(1442695040888963407);
        self.0 >> 33
    }

    fn buffer(&mut self, max_len: u64) -> Vec<u8> {
        let len = self.next() % max_len;
        let alphabet = 1 + self.next() % 256;
        (0..len).map(|_| (self.next() % alphabet) as u8).collect()
    }
}

#[test]
fn xz_roundtrip_arbitrary_buffer() {
    let mut g = Lcg(1);
    for case in 0..24u32 {
        let payload = g.buffer(32 * 1024);
        roundtrip(&payload, case % 5, Format::Xz);
    }
}

#[test]
fn lzma_roundtrip_arbitrary_buffer() {
    let mut g = Lcg(2);
    for case in 0..24u32 {
        let payload = g.buffer(32 * 1024);
        roundtrip(&payload, case % 5, Format::Lzma);
    }
}

#[test]
fn raw_lzma2_roundtrip_arbitrary_buffer() {
    let mut g = Lcg(3);
    let chain = chain_lzma2(0);
    for _ in 0..24 {
        let payload = g.buffer(32 * 1024);
        let c = compress_stream(&payload, 0, Format::Raw, Some(&chain)).unwrap();
        assert_eq!(decompress_stream_opts(&c, false, Format::Raw, Some(&chain)).unwrap(), payload);
    }
}

#[test]
fn bcj_x86_lzma2_roundtrip_arbitrary_buffer() {
    let mut g = Lcg(4);
    let chain = chain_bcj_lzma2(BcjArch::X86, 0);
    for _ in 0..24 {
        let payload = g.buffer(32 * 1024);
        let c = compress_stream(&payload, 0, Format::Xz, Some(&chain)).unwrap();
        assert_eq!(decompress_stream(&c).unwrap(), payload);
    }
}

#[test]
fn decompressing_garbage_never_panics() {
    let mut g = Lcg(5);
    for _ in 0..256 {
        let garbage = g.buffer(1024);
        let _ = decompress_stream(&garbage);
        let _ = decompress_or_passthrough(&garbage, true, Format::Auto, None);
    }
    let x = compress_stream(b"some data worth flipping", 6, Format::Xz, None).unwrap();
    for idx in 0..x.len() {
        let mut m = x.clone();
        m[idx] ^= 0xff;
        let _ = decompress_stream(&m);
    }
}

#[test]
fn xz_streams_have_crc64_header_and_whole_words() {
    let mut chain = FilterChain::default();
    chain.push(FilterKind::Delta);
    chain.push(FilterKind::Lzma2Preset(1));
    for x in [
        compress_stream(b"", 6, Format::Xz, None).unwrap(),
        compress_stream(&words(3000), 2, Format::Auto, None).unwrap(),
        compress_stream(b"abcde", 6, Format::Xz, Some(&chain)).unwrap(),
    ] {
        assert!(x.len() >= 32);
        assert_eq!(x.len() % 4, 0);
        assert_eq!(&x[..8], b"\xfd7zXZ\x00\x00\x04");
    }
    assert_eq!(compress_stream(b"", 6, Format::Xz, None).unwrap().len(), 32);
}

#[test]
fn passthrough_xz_format_uses_the_xz_decoder() {
    let alone = compress_stream(b"hello", 6, Format::Lzma, None).unwrap();
    assert!(decompress_or_passthrough(&alone, false, Format::Xz, None).is_err());
    assert!(decompress_stream_opts(&alone, false, Format::Xz, None).is_err());
    assert_eq!(decompress_or_passthrough(&alone, false, Format::Lzma, None).unwrap(), b"hello");
}

#[test]
fn decoders_refuse_what_no_encoder_makes() {
    assert!(decompress_stream(b"").is_err());
    assert!(decompress_stream(b"\xff\x00\x00\x00\x00").is_err());
    assert!(decompress_stream(b"not actually xz data").is_err());
    assert!(decompress_stream(b"LZIP\x07rest").is_err());
    assert!(decompress_stream_opts(b"LZIX", false, Format::Lzip, None).is_err());
    assert!(decompress_stream_opts(b"\xfd7zX", false, Format::Xz, None).is_err());
    assert!(decompress_stream_opts(b"", false, Format::Lzma, None).is_err());
    assert!(decompress_stream_opts(b"\xe1\x00\x00\x01\x00", false, Format::Lzma, None).is_err());
    assert!(decompress_or_passthrough(b"LZIP\x05", false, Format::Auto, None).is_err());
}

#[test]
fn chains_of_up_to_four_filters_round_trip() {
    let payload = words(3000);
    let mut chain = FilterChain::default();
    chain.push(FilterKind::Delta);
    chain.push(FilterKind::Bcj(BcjArch::Arm));
    chain.push(FilterKind::Bcj(BcjArch::Ia64));
    chain.push(FilterKind::Lzma2Preset(3));
    assert!(build_filters(&chain).is_ok());
    let x = compress_stream(&payload, 0, Format::Xz, Some(&chain)).unwrap();
    assert_eq!(decompress_stream(&x).unwrap(), payload);
    let r = compress_stream(&payload, 0, Format::Raw, Some(&chain)).unwrap();
    assert_eq!(decompress_stream_opts(&r, true, Format::Raw, Some(&chain)).unwrap(), payload);
    let mut raw1 = FilterChain::default();
    raw1.push(FilterKind::Delta);
    raw1.push(FilterKind::Lzma1Preset(1));
    let r = compress_stream(&payload, 0, Format::Raw, Some(&raw1)).unwrap();
    assert_eq!(decompress_or_passthrough(&r, false, Format::Raw, Some(&raw1)).unwrap(), payload);
}

#[test]
fn concatenated_streams_decode_with_the_xz_decoder_too() {
    let mut a = compress_stream(b"first ", 1, Format::Xz, None).unwrap();
    a.extend_from_slice(&compress_stream(b"second", 7, Format::Xz, None).unwrap());
    assert_eq!(decompress_stream_opts(&a, false, Format::Xz, None).unwrap(), b"first second");
    assert_eq!(decompress_or_passthrough(&a, false, Format::Auto, None).unwrap(), b"first second");
}
