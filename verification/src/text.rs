//! Character-level helpers shared by the argument parser, the suffix
//! mapping and the list renderer. Every helper works on the `Seq<char>`
//! view of a string.

use vstd::prelude::*;
use vstd::std_specs::iter::IteratorSpec;

verus! {

broadcast use vstd::string::group_string_axioms;

/// `p` is a prefix of `s`.
pub open spec fn has_prefix(s: Seq<char>, p: Seq<char>) -> bool {
    p.len() <= s.len() && s.subrange(0, p.len() as int) == p
}

/// `p` is a suffix of `s`.
pub open spec fn has_suffix(s: Seq<char>, p: Seq<char>) -> bool {
    p.len() <= s.len() && s.subrange(s.len() - p.len(), s.len() as int) == p
}

/// `s` with the suffix `p` removed (meaningful when `has_suffix(s, p)`).
pub open spec fn without_suffix(s: Seq<char>, p: Seq<char>) -> Seq<char> {
    s.subrange(0, s.len() - p.len())
}

/// The characters of `s`, in order.
pub(crate) fn chars_of(s: &str) -> (v: Vec<char>)
    ensures
        v@ == s@,
{
    let mut v: Vec<char> = Vec::new();
    for c in it: s.chars()
        invariant
            v@ == it.seq().take(it.index() as int),
    {
        v.push(c);
    }
    assert(v@ =~= s@);
    v
}

/// Equality of two character sequences.
pub(crate) fn chars_eq(a: &[char], b: &[char]) -> (r: bool)
    ensures
        r == (a@ == b@),
{
    if a.len() != b.len() {
        return false;
    }
    let mut i: usize = 0;
    while i < a.len()
        invariant
            a.len() == b.len(),
            i <= a.len(),
            forall|k: int| 0 <= k < i ==> a@[k] == b@[k],
        decreases a.len() - i,
    {
        if a[i] != b[i] {
            return false;
        }
        i = i + 1;
    }
    assert(a@ =~= b@);
    true
}

/// Equality of the characters of `a` and the string `lit`.
pub(crate) fn chars_eq_str(a: &[char], lit: &str) -> (r: bool)
    ensures
        r == (a@ == lit@),
{
    let l = chars_of(lit);
    chars_eq(a, l.as_slice())
}

/// Whether `s` begins with the characters of `p`.
pub(crate) fn starts_with(s: &[char], p: &str) -> (r: bool)
    ensures
        r == has_prefix(s@, p@),
{
    let pv = chars_of(p);
    if pv.len() > s.len() {
        return false;
    }
    let mut i: usize = 0;
    while i < pv.len()
        invariant
            pv.len() <= s.len(),
            i <= pv.len(),
            pv@ == p@,
            forall|k: int| 0 <= k < i ==> s@[k] == pv@[k],
        decreases pv.len() - i,
    {
        if s[i] != pv[i] {
            assert(s@.subrange(0, pv@.len() as int)[i as int] != pv@[i as int]);
            return false;
        }
        i = i + 1;
    }
    assert(s@.subrange(0, pv@.len() as int) =~= pv@);
    true
}

/// Whether `s` ends with the characters of `p`.
pub(crate) fn ends_with(s: &[char], p: &[char]) -> (r: bool)
    ensures
        r == has_suffix(s@, p@),
{
    if p.len() > s.len() {
        return false;
    }
    let off = s.len() - p.len();
    let mut i: usize = 0;
    while i < p.len()
        invariant
            p.len() <= s.len(),
            off == s.len() - p.len(),
            i <= p.len(),
            forall|k: int| 0 <= k < i ==> s@[off + k] == p@[k],
        decreases p.len() - i,
    {
        if s[off + i] != p[i] {
            assert(s@.subrange(off as int, s.len() as int)[i as int] != p@[i as int]);
            return false;
        }
        i = i + 1;
    }
    assert(s@.subrange(off as int, s.len() as int) =~= p@);
    true
}

/// A new `String` holding the characters `from..to` of `s`.
pub(crate) fn substring(s: &str, from: usize, to: usize) -> (r: String)
    requires
        from <= to <= s@.len(),
    ensures
        r@ == s@.subrange(from as int, to as int),
{
    s.substring_char(from, to).to_owned()
}

/// `a` followed by `b`.
pub(crate) fn concat(a: &str, b: &str) -> (r: String)
    ensures
        r@ == a@ + b@,
{
    a.to_owned().concat(b)
}

/// Decimal value of the digit characters of `d`.
pub open spec fn decimal_value(d: Seq<char>) -> nat
    decreases d.len(),
{
    if d.len() == 0 {
        0
    } else {
        decimal_value(d.drop_last()) * 10 + ((d.last() as u32) - ('0' as u32)) as nat
    }
}

pub open spec fn is_digit(c: char) -> bool {
    '0' <= c && c <= '9'
}

pub open spec fn all_digits(d: Seq<char>) -> bool {
    forall|k: int| 0 <= k < d.len() ==> is_digit(#[trigger] d[k])
}

/// What `str::parse::<u32>` gives: an optional `+`, then one or more
/// ASCII digits whose value fits in a `u32`.
pub open spec fn u32_of(s: Seq<char>) -> Option<u32> {
    let d = if s.len() > 0 && s[0] == '+' { s.subrange(1, s.len() as int) } else { s };
    if d.len() > 0 && all_digits(d) && decimal_value(d) <= u32::MAX {
        Some(decimal_value(d) as u32)
    } else {
        None
    }
}

proof fn lemma_decimal_value_step(d: Seq<char>, i: int)
    requires
        0 <= i < d.len(),
    ensures
        decimal_value(d.subrange(0, i + 1)) == decimal_value(d.subrange(0, i)) * 10 + ((d[i] as u32) - ('0' as u32)) as nat,
{
    assert(d.subrange(0, i + 1).drop_last() =~= d.subrange(0, i));
}

proof fn lemma_decimal_value_mono(d: Seq<char>, i: int, j: int)
    requires
        0 <= i <= j <= d.len(),
        all_digits(d),
    ensures
        decimal_value(d.subrange(0, i)) <= decimal_value(d.subrange(0, j)),
    decreases j - i,
{
    if i < j {
        lemma_decimal_value_mono(d, i, j - 1);
        lemma_decimal_value_step(d, j - 1);
        assert(is_digit(d[j - 1]));
    }
}

/// Parse a decimal `u32` the way `str::parse::<u32>` does.
pub(crate) fn parse_u32(s: &[char]) -> (r: Option<u32>)
    ensures
        r == u32_of(s@),
{
    let start: usize = if s.len() > 0 && s[0] == '+' { 1 } else { 0 };
    let ghost d = if s@.len() > 0 && s@[0] == '+' { s@.subrange(1, s@.len() as int) } else { s@ };
    assert(d =~= s@.subrange(start as int, s@.len() as int));
    if start == s.len() {
        return None;
    }
    let mut v: u64 = 0;
    let mut i: usize = start;
    while i < s.len()
        invariant
            start <= i <= s.len(),
            start < s.len(),
            d == s@.subrange(start as int, s@.len() as int),
            d == (if s@.len() > 0 && s@[0] == '+' { s@.subrange(1, s@.len() as int) } else { s@ }),
            all_digits(d.subrange(0, i - start)),
            v == decimal_value(d.subrange(0, i - start)),
            v <= u32::MAX,
        decreases s.len() - i,
    {
        let c = s[i];
        if !('0' <= c && c <= '9') {
            proof {
                assert(d[i - start] == c);
                assert(!is_digit(d[i - start]));
                assert(!all_digits(d));
            }
            return None;
        }
        let digit = (c as u32) - ('0' as u32);
        proof {
            lemma_decimal_value_step(d, (i - start) as int);
            assert(d[i - start] == c);
        }
        let nv = v * 10 + digit as u64;
        if nv > 0xFFFF_FFFFu64 {
            proof {
                assert(d.subrange(0, i + 1 - start)[i - start] == c);
                assert forall|k: int| 0 <= k < i + 1 - start implies is_digit(#[trigger] d.subrange(0, i + 1 - start)[k]) by {
                    if k < i - start {
                        assert(d.subrange(0, i + 1 - start)[k] == d.subrange(0, i - start)[k]);
                    }
                }
                if all_digits(d) {
                    lemma_decimal_value_mono(d, i + 1 - start, d.len() as int);
                    assert(d.subrange(0, d.len() as int) =~= d);
                    assert(decimal_value(d) > u32::MAX);
                }
                assert(u32_of(s@) is None);
            }
            return None;
        }
        proof {
            assert forall|k: int| 0 <= k < i + 1 - start implies is_digit(#[trigger] d.subrange(0, i + 1 - start)[k]) by {
                if k < i - start {
                    assert(d.subrange(0, i + 1 - start)[k] == d.subrange(0, i - start)[k]);
                } else {
                    assert(d.subrange(0, i + 1 - start)[k] == c);
                }
            }
        }
        v = nv;
        i = i + 1;
    }
    assert(d.subrange(0, i - start) =~= d);
    Some(v as u32)
}

/// Unicode `White_Space`, the property `char::is_whitespace` tests.
pub open spec fn is_white(c: char) -> bool {
    ||| ('\u{9}' <= c && c <= '\u{d}')
    ||| c == ' '
    ||| c == '\u{85}'
    ||| c == '\u{a0}'
    ||| c == '\u{1680}'
    ||| ('\u{2000}' <= c && c <= '\u{200a}')
    ||| c == '\u{2028}'
    ||| c == '\u{2029}'
    ||| c == '\u{202f}'
    ||| c == '\u{205f}'
    ||| c == '\u{3000}'
}

/// Whether `c` is Unicode white space.
pub(crate) fn white(c: char) -> (r: bool)
    ensures
        r == is_white(c),
{
    ('\u{9}' <= c && c <= '\u{d}') || c == ' ' || c == '\u{85}' || c == '\u{a0}' || c == '\u{1680}'
        || ('\u{2000}' <= c && c <= '\u{200a}') || c == '\u{2028}' || c == '\u{2029}' || c == '\u{202f}'
        || c == '\u{205f}' || c == '\u{3000}'
}

/// `n` spaces.
pub open spec fn spaces(n: int) -> Seq<char> {
    Seq::new(if n > 0 { n as nat } else { 0 }, |k: int| ' ')
}

/// `s` right-aligned in a field of `w` characters (`{:>w}`).
pub open spec fn pad_left(s: Seq<char>, w: int) -> Seq<char> {
    spaces(w - s.len()) + s
}

/// `s` left-aligned in a field of `w` characters (`{:<w}`).
pub open spec fn pad_right(s: Seq<char>, w: int) -> Seq<char> {
    s + spaces(w - s.len())
}

/// Append `n` spaces to `out`.
pub(crate) fn push_spaces(out: &mut String, n: usize)
    ensures
        final(out)@ == old(out)@ + spaces(n as int),
{
    proof {
        reveal_strlit(" ");
    }
    let mut i: usize = 0;
    while i < n
        invariant
            i <= n,
            out@ == old(out)@ + spaces(i as int),
            " "@ == seq![' '],
        decreases n - i,
    {
        out.append(" ");
        assert(out@ =~= old(out)@ + spaces(i + 1));
        i = i + 1;
    }
}

/// Append `s` right-aligned in a field of `w` characters.
pub(crate) fn push_padded_left(out: &mut String, s: &str, w: usize)
    ensures
        final(out)@ == old(out)@ + pad_left(s@, w as int),
{
    let len = chars_of(s).len();
    let fill = if len < w { w - len } else { 0 };
    push_spaces(out, fill);
    out.append(s);
    assert(spaces(fill as int) =~= spaces(w - s@.len()));
    assert(out@ =~= old(out)@ + pad_left(s@, w as int));
}

/// Append `s` left-aligned in a field of `w` characters.
pub(crate) fn push_padded_right(out: &mut String, s: &str, w: usize)
    ensures
        final(out)@ == old(out)@ + pad_right(s@, w as int),
{
    let len = chars_of(s).len();
    out.append(s);
    let fill = if len < w { w - len } else { 0 };
    push_spaces(out, fill);
    assert(spaces(fill as int) =~= spaces(w - s@.len()));
    assert(out@ =~= old(out)@ + pad_right(s@, w as int));
}

/// The character of the decimal digit `d`.
pub open spec fn digit_char(d: nat) -> char {
    (('0' as u32) + d) as char
}

/// Decimal representation of `n`, without leading zeros.
pub open spec fn decimal(n: nat) -> Seq<char>
    decreases n,
{
    if n < 10 {
        seq![digit_char(n)]
    } else {
        decimal(n / 10).push(digit_char(n % 10))
    }
}

/// The decimal digit `d`, as a one-character string.
pub(crate) fn digit_str(d: u128) -> (s: &'static str)
    requires
        d < 10,
    ensures
        s@ == seq![digit_char(d as nat)],
{
    proof {
        reveal_strlit("0");
        reveal_strlit("1");
        reveal_strlit("2");
        reveal_strlit("3");
        reveal_strlit("4");
        reveal_strlit("5");
        reveal_strlit("6");
        reveal_strlit("7");
        reveal_strlit("8");
        reveal_strlit("9");
    }
    if d == 0 {
        "0"
    } else if d == 1 {
        "1"
    } else if d == 2 {
        "2"
    } else if d == 3 {
        "3"
    } else if d == 4 {
        "4"
    } else if d == 5 {
        "5"
    } else if d == 6 {
        "6"
    } else if d == 7 {
        "7"
    } else if d == 8 {
        "8"
    } else {
        "9"
    }
}

/// Append the decimal representation of `n` to `out`.
pub(crate) fn push_decimal(out: &mut String, n: u128)
    ensures
        final(out)@ == old(out)@ + decimal(n as nat),
    decreases n,
{
    if n >= 10 {
        push_decimal(out, n / 10);
        out.append(digit_str(n % 10));
        assert(out@ =~= old(out)@ + decimal(n as nat));
    } else {
        out.append(digit_str(n));
        assert(out@ =~= old(out)@ + decimal(n as nat));
    }
}

} // verus!
