use rust_xz::options::{BcjArch, FilterChain, FilterKind, Format, Mode, Options};
use rust_xz::suffix::{
    compressed_suffixes, has_compressed_suffix, output_path_compress, output_path_decompress, suffix_for_format,
};

#[test]
fn defaults_for_xz() {
    let o = Options::defaults_for("xz");
    assert_eq!(o.mode, Mode::Compress);
    assert!(!o.stdout);
    assert_eq!(o.format, Format::Auto);
    assert_eq!(o.level, 6);
}

#[test]
fn defaults_for_unxz() {
    let o = Options::defaults_for("unxz");
    assert_eq!(o.mode, Mode::Decompress);
    assert!(!o.stdout);
}

#[test]
fn defaults_for_xzcat() {
    let o = Options::defaults_for("xzcat");
    assert_eq!(o.mode, Mode::Decompress);
    assert!(o.stdout);
}

#[test]
fn defaults_for_lzma_family() {
    assert_eq!(Options::defaults_for("lzma").format, Format::Lzma);
    assert_eq!(Options::defaults_for("lzma").mode, Mode::Compress);
    assert_eq!(Options::defaults_for("unlzma").mode, Mode::Decompress);
    assert_eq!(Options::defaults_for("lzcat").stdout, true);
    assert_eq!(Options::defaults_for("lzcat").format, Format::Auto);
}

#[test]
fn filter_chain_default_is_empty() {
    let c = FilterChain::default();
    assert!(c.is_empty());
}

#[test]
fn filter_chain_push_preserves_order() {
    let mut c = FilterChain::default();
    c.push(FilterKind::Bcj(BcjArch::X86));
    c.push(FilterKind::Lzma2Preset(0));
    assert_eq!(c.as_slice().len(), 2);
    assert_eq!(c.as_slice()[0], FilterKind::Bcj(BcjArch::X86));
}

#[test]
fn compress_xz_suffix() {
    assert_eq!(output_path_compress("foo", Format::Xz, None), Some("foo.xz".to_string()));
}

#[test]
fn compress_lzma_suffix() {
    assert_eq!(output_path_compress("foo", Format::Lzma, None), Some("foo.lzma".to_string()));
}

#[test]
fn compress_custom_suffix_overrides_default() {
    assert_eq!(output_path_compress("foo", Format::Xz, Some(".bar")), Some("foo.bar".to_string()));
}

#[test]
fn compress_raw_without_suffix_returns_none() {
    assert_eq!(output_path_compress("foo", Format::Raw, None), None);
}

#[test]
fn compress_raw_with_custom_suffix() {
    assert_eq!(output_path_compress("foo", Format::Raw, Some(".foo")), Some("foo.foo".to_string()));
}

#[test]
fn decompress_strips_xz() {
    assert_eq!(output_path_decompress("foo.xz", None), Some("foo".to_string()));
}

#[test]
fn decompress_strips_lzma() {
    assert_eq!(output_path_decompress("foo.lzma", None), Some("foo".to_string()));
}

#[test]
fn decompress_strips_lz() {
    assert_eq!(output_path_decompress("foo.lz", None), Some("foo".to_string()));
}

#[test]
fn decompress_rewrites_txz_to_tar() {
    assert_eq!(output_path_decompress("bar.txz", None), Some("bar.tar".to_string()));
}

#[test]
fn decompress_rewrites_tlz_to_tar() {
    assert_eq!(output_path_decompress("bar.tlz", None), Some("bar.tar".to_string()));
}

#[test]
fn decompress_unknown_returns_none() {
    assert_eq!(output_path_decompress("foo.bin", None), None);
}

#[test]
fn decompress_with_custom_suffix() {
    assert_eq!(output_path_decompress("foo.bar", Some(".bar")), Some("foo".to_string()));
    assert_eq!(output_path_decompress("foo.xz", Some(".bar")), None);
}

#[test]
fn compressed_suffixes_table() {
    let s = compressed_suffixes();
    assert!(s.contains(&".xz"));
    assert!(s.contains(&".lzma"));
    assert!(s.contains(&".lz"));
    assert!(s.contains(&".txz"));
    assert!(s.contains(&".tlz"));
}

// ---------------------------------------------------------------------
// Further cases
// ---------------------------------------------------------------------

#[test]
fn other_program_names_get_xz_defaults() {
    for name in ["xz", "rust-xz", "", "XZ", "unxz2"] {
        let o = Options::defaults_for(name);
        assert_eq!(o.mode, Mode::Compress);
        assert_eq!(o.format, Format::Auto);
        assert!(!o.stdout && !o.keep && !o.force && !o.verbose && !o.quiet && !o.no_warn);
        assert_eq!(o.suffix, None);
        assert!(o.filter.is_none());
        assert!(o.files.is_empty());
    }
}

#[test]
fn suffix_for_every_format() {
    assert_eq!(suffix_for_format(Format::Xz), Some(".xz"));
    assert_eq!(suffix_for_format(Format::Auto), Some(".xz"));
    assert_eq!(suffix_for_format(Format::Lzma), Some(".lzma"));
    assert_eq!(suffix_for_format(Format::Lzip), Some(".lz"));
    assert_eq!(suffix_for_format(Format::Raw), None);
}

#[test]
fn suffix_names_round_trip() {
    for name in ["a", "archive.tar", "x.xz", "", "dir/ü.txt"] {
        for format in [Format::Xz, Format::Auto, Format::Lzma, Format::Lzip] {
            let c = output_path_compress(name, format, None).unwrap();
            assert_eq!(output_path_decompress(&c, None), Some(name.to_string()));
        }
        let c = output_path_compress(name, Format::Raw, Some(".r")).unwrap();
        assert_eq!(output_path_decompress(&c, Some(".r")), Some(name.to_string()));
    }
}

#[test]
fn decompress_edge_names() {
    assert_eq!(output_path_decompress(".xz", None), Some(String::new()));
    assert_eq!(output_path_decompress("xz", None), None);
    assert_eq!(output_path_decompress("a.XZ", None), None);
    assert_eq!(output_path_decompress("a.tar.xz", None), Some("a.tar".to_string()));
}

#[test]
fn has_compressed_suffix_matches_table() {
    assert!(has_compressed_suffix("a.xz"));
    assert!(has_compressed_suffix("b.tlz"));
    assert!(has_compressed_suffix(".lz"));
    assert!(!has_compressed_suffix("a.xz.txt"));
    assert!(!has_compressed_suffix("lz"));
}
