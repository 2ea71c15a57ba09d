//! Mapping between input file names and output file names for the
//! compressed formats xz understands.

use vstd::prelude::*;
use crate::options::Format;
use crate::text::{chars_of, ends_with, has_suffix, without_suffix, substring, concat};

verus! {

/// The canonical suffix of each format; raw mode has none.
pub open spec fn format_suffix(format: Format) -> Option<Seq<char>> {
    match format {
        Format::Xz | Format::Auto => Some(".xz"@),
        Format::Lzma => Some(".lzma"@),
        Format::Lzip => Some(".lz"@),
        Format::Raw => None,
    }
}

/// The suffixes that mark a file as already compressed.
pub open spec fn compressed_suffix_list() -> Seq<Seq<char>> {
    seq![".xz"@, ".lzma"@, ".lz"@, ".txz"@, ".tlz"@]
}

pub open spec fn opt_string_view(o: Option<String>) -> Option<Seq<char>> {
    match o {
        Some(s) => Some(s@),
        None => None,
    }
}

pub open spec fn opt_str_view(o: Option<&str>) -> Option<Seq<char>> {
    match o {
        Some(s) => Some(s@),
        None => None,
    }
}

/// The name a compressed copy of `input` gets.
pub open spec fn compressed_name(input: Seq<char>, format: Format, custom: Option<Seq<char>>) -> Option<Seq<char>> {
    let suffix = match custom {
        Some(s) => Some(s),
        None => format_suffix(format),
    };
    match suffix {
        Some(s) => Some(input + s),
        None => None,
    }
}

/// The name the decompressed copy of `name` gets.
pub open spec fn decompressed_name(name: Seq<char>, custom: Option<Seq<char>>) -> Option<Seq<char>> {
    match custom {
        Some(s) => if has_suffix(name, s) { Some(without_suffix(name, s)) } else { None },
        None => if has_suffix(name, ".xz"@) {
            Some(without_suffix(name, ".xz"@))
        } else if has_suffix(name, ".lzma"@) {
            Some(without_suffix(name, ".lzma"@))
        } else if has_suffix(name, ".lz"@) {
            Some(without_suffix(name, ".lz"@))
        } else if has_suffix(name, ".txz"@) {
            Some(without_suffix(name, ".txz"@) + ".tar"@)
        } else if has_suffix(name, ".tlz"@) {
            Some(without_suffix(name, ".tlz"@) + ".tar"@)
        } else {
            None
        },
    }
}

/// Returns the canonical suffix for the format, or `None` if the
/// format has no fixed suffix (raw mode requires an explicit
/// `--suffix=`).
pub fn suffix_for_format(format: Format) -> (r: Option<&'static str>)
    ensures
        opt_str_view(r) == format_suffix(format),
{
    match format {
        Format::Xz | Format::Auto => Some(".xz"),
        Format::Lzma => Some(".lzma"),
        Format::Lzip => Some(".lz"),
        Format::Raw => None,
    }
}

/// The suffixes of already-compressed files, in the order they are tried.
pub fn compressed_suffixes() -> (r: Vec<&'static str>)
    ensures
        r@.map_values(|s: &str| s@) == compressed_suffix_list(),
{
    let v = vec![".xz", ".lzma", ".lz", ".txz", ".tlz"];
    assert(v@.map_values(|s: &str| s@) =~= compressed_suffix_list());
    v
}

/// Returns the output file name when compressing `input` to `format`.
/// `custom_suffix` (from `--suffix=`) overrides the default if set.
pub fn output_path_compress(input: &str, format: Format, custom_suffix: Option<&str>) -> (r: Option<String>)
    ensures
        opt_string_view(r) == compressed_name(input@, format, opt_str_view(custom_suffix)),
{
    let suffix = match custom_suffix {
        Some(s) => Some(s),
        None => suffix_for_format(format),
    };
    match suffix {
        Some(s) => Some(concat(input, s)),
        None => None,
    }
}

/// `name` without the suffix `suffix`, if it ends with it.
fn strip_suffix_of(name: &str, name_chars: &[char], suffix: &str) -> (r: Option<String>)
    requires
        name_chars@ == name@,
    ensures
        opt_string_view(r) == (if has_suffix(name@, suffix@) { Some(without_suffix(name@, suffix@)) } else { None }),
{
    let sc = chars_of(suffix);
    if ends_with(name_chars, sc.as_slice()) {
        Some(substring(name, 0, name_chars.len() - sc.len()))
    } else {
        None
    }
}

/// Returns the output file name when decompressing `input`. A custom
/// suffix is the only one considered when set; otherwise `.xz`,
/// `.lzma`, `.lz`, `.txz` and `.tlz` are tried, the last two turning
/// into `.tar`.
pub fn output_path_decompress(input: &str, custom_suffix: Option<&str>) -> (r: Option<String>)
    ensures
        opt_string_view(r) == decompressed_name(input@, opt_str_view(custom_suffix)),
{
    let name = chars_of(input);
    if let Some(suffix) = custom_suffix {
        return strip_suffix_of(input, name.as_slice(), suffix);
    }
    if let Some(s) = strip_suffix_of(input, name.as_slice(), ".xz") {
        Some(s)
    } else if let Some(s) = strip_suffix_of(input, name.as_slice(), ".lzma") {
        Some(s)
    } else if let Some(s) = strip_suffix_of(input, name.as_slice(), ".lz") {
        Some(s)
    } else if let Some(s) = strip_suffix_of(input, name.as_slice(), ".txz") {
        Some(concat(s.as_str(), ".tar"))
    } else if let Some(s) = strip_suffix_of(input, name.as_slice(), ".tlz") {
        Some(concat(s.as_str(), ".tar"))
    } else {
        None
    }
}

/// Whether `name` ends with one of the compressed suffixes.
pub fn has_compressed_suffix(name: &str) -> (r: bool)
    ensures
        r == (exists|k: int| 0 <= k < compressed_suffix_list().len() && has_suffix(name@, #[trigger] compressed_suffix_list()[k])),
{
    let n = chars_of(name);
    let list = compressed_suffixes();
    let mut i: usize = 0;
    while i < list.len()
        invariant
            n@ == name@,
            list@.map_values(|s: &str| s@) == compressed_suffix_list(),
            i <= list.len(),
            forall|k: int| 0 <= k < i ==> !has_suffix(name@, #[trigger] compressed_suffix_list()[k]),
        decreases list.len() - i,
    {
        let sc = chars_of(list[i]);
        assert(list@.map_values(|s: &str| s@)[i as int] == list@[i as int]@);
        if ends_with(n.as_slice(), sc.as_slice()) {
            return true;
        }
        i = i + 1;
    }
    false
}

/// Decompressed names: `NAME.xz`, `NAME.lzma` and `NAME.lz` give `NAME`,
/// `NAME.txz` and `NAME.tlz` give `NAME.tar`, a custom suffix is removed
/// when the name ends with it, and any other name has none.
pub proof fn lemma_decompressed_names(n: Seq<char>, s: Seq<char>)
    ensures
        decompressed_name(n + ".xz"@, None) == Some(n),
        decompressed_name(n + ".lzma"@, None) == Some(n),
        decompressed_name(n + ".lz"@, None) == Some(n),
        decompressed_name(n + ".txz"@, None) == Some(n + ".tar"@),
        decompressed_name(n + ".tlz"@, None) == Some(n + ".tar"@),
        decompressed_name(n + s, Some(s)) == Some(n),
        !has_suffix(n, ".xz"@) && !has_suffix(n, ".lzma"@) && !has_suffix(n, ".lz"@) && !has_suffix(n, ".txz"@)
            && !has_suffix(n, ".tlz"@) ==> decompressed_name(n, None) is None,
{
    reveal_strlit(".xz");
    reveal_strlit(".lzma");
    reveal_strlit(".lz");
    reveal_strlit(".txz");
    reveal_strlit(".tlz");
    reveal_strlit(".tar");
    let a = n + ".xz"@;
    assert(a.subrange(a.len() - 3, a.len() as int) =~= ".xz"@);
    assert(without_suffix(a, ".xz"@) =~= n);
    let b = n + ".lzma"@;
    assert(b.subrange(b.len() - 5, b.len() as int) =~= ".lzma"@);
    assert(b.subrange(b.len() - 3, b.len() as int)[2] == 'a');
    assert(without_suffix(b, ".lzma"@) =~= n);
    let c = n + ".lz"@;
    assert(c.subrange(c.len() - 3, c.len() as int) =~= ".lz"@);
    assert(c.subrange(c.len() - 3, c.len() as int)[1] == 'l');
    if c.len() >= 5 {
        assert(c.subrange(c.len() - 5, c.len() as int)[4] == 'z');
    }
    assert(without_suffix(c, ".lz"@) =~= n);
    let d = n + ".txz"@;
    assert(d.subrange(d.len() - 4, d.len() as int) =~= ".txz"@);
    assert(d.subrange(d.len() - 3, d.len() as int)[0] == 't');
    assert(d.subrange(d.len() - 3, d.len() as int)[2] == 'z');
    if d.len() >= 5 {
        assert(d.subrange(d.len() - 5, d.len() as int)[4] == 'z');
    }
    assert(without_suffix(d, ".txz"@) =~= n);
    let e = n + ".tlz"@;
    assert(e.subrange(e.len() - 4, e.len() as int) =~= ".tlz"@);
    assert(e.subrange(e.len() - 3, e.len() as int)[0] == 't');
    assert(e.subrange(e.len() - 3, e.len() as int)[1] == 'l');
    if e.len() >= 5 {
        assert(e.subrange(e.len() - 5, e.len() as int)[4] == 'z');
    }
    assert(e.subrange(e.len() - 4, e.len() as int)[1] == 't');
    assert(without_suffix(e, ".tlz"@) =~= n);
    let f = n + s;
    assert(f.subrange(f.len() - s.len(), f.len() as int) =~= s);
    assert(without_suffix(f, s) =~= n);
}

/// Name round trip: the decompressed name of the compressed name of a
/// file is the file's own name, under the same `--suffix=` (or none).
pub proof fn lemma_decompressed_name_inverts_compressed(name: Seq<char>, format: Format, custom: Option<Seq<char>>)
    requires
        compressed_name(name, format, custom) is Some,
    ensures
        decompressed_name(compressed_name(name, format, custom)->0, custom) == Some(name),
{
    let out = compressed_name(name, format, custom)->0;
    match custom {
        Some(s) => {
            assert(out.subrange(out.len() - s.len(), out.len() as int) =~= s);
            assert(without_suffix(out, s) =~= name);
        },
        None => {
            reveal_strlit(".xz");
            reveal_strlit(".lzma");
            reveal_strlit(".lz");
            match format {
                Format::Xz | Format::Auto => {
                    assert(out.subrange(out.len() - 3, out.len() as int) =~= ".xz"@);
                    assert(without_suffix(out, ".xz"@) =~= name);
                },
                Format::Lzma => {
                    assert(out.subrange(out.len() - 5, out.len() as int) =~= ".lzma"@);
                    assert(out.subrange(out.len() - 3, out.len() as int)[1] == 'm');
                    assert(!has_suffix(out, ".xz"@));
                    assert(without_suffix(out, ".lzma"@) =~= name);
                },
                Format::Lzip => {
                    assert(out.subrange(out.len() - 3, out.len() as int) =~= ".lz"@);
                    assert(out.subrange(out.len() - 3, out.len() as int)[1] == 'l');
                    assert(!has_suffix(out, ".xz"@));
                    if out.len() >= 5 {
                        assert(out.subrange(out.len() - 5, out.len() as int)[4] == out[out.len() - 1]);
                        assert(out[out.len() - 1] == 'z');
                    }
                    assert(!has_suffix(out, ".lzma"@));
                    assert(without_suffix(out, ".lz"@) =~= name);
                },
                Format::Raw => {},
            }
        },
    }
}

} // verus!
