//! Character-level string helpers shared by the engine: conversion between
//! `String` and character vectors, Unicode lowercasing, ASCII lowercasing,
//! and decimal formatting of integers and of two-decimal fixed-point values.

use vstd::prelude::*;
use vstd::string::StrSliceExecFns;

verus! {

/// The Unicode lowercase form of a sequence of characters, as
/// `str::to_lowercase` computes it.  The mapping depends on the characters
/// alone, so it can be given a name without a body.
pub uninterp spec fn lower_of(s: Seq<char>) -> Seq<char>;

/// Relies on `str::to_lowercase`: the result is a function of the characters
/// alone, and lowercasing the empty string yields the empty string.
#[verifier::external_body]
pub(crate) fn lowercase(s: &str) -> (r: String)
    ensures
        r@ == lower_of(s@),
        s@.len() == 0 ==> r@.len() == 0,
{
    s.to_lowercase()
}

/// Relies on `String`'s `FromIterator<char>` impl: collecting characters
/// yields the string holding exactly those characters in order.
#[verifier::external_body]
pub(crate) fn string_from_chars(v: &Vec<char>) -> (r: String)
    ensures
        r@ == v@,
{
    v.iter().collect()
}

/// The characters of a string as a vector, in order.
pub fn chars_of(s: &str) -> (r: Vec<char>)
    ensures
        r@ == s@,
{
    let n = s.unicode_len();
    let mut r: Vec<char> = Vec::new();
    let mut i: usize = 0;
    while i < n
        invariant
            n == s@.len(),
            i <= n,
            r@ == s@.take(i as int),
        decreases n - i,
    {
        let c = s.get_char(i);
        r.push(c);
        i = i + 1;
        proof {
            assert(s@.take(i as int) =~= s@.take(i - 1).push(s@[i - 1]));
        }
    }
    proof {
        assert(s@.take(n as int) =~= s@);
    }
    r
}

/// Addition on `usize` that sticks at the largest value instead of wrapping.
pub fn sat_add(a: usize, b: usize) -> (r: usize)
    ensures
        r == if a + b <= usize::MAX { a + b } else { usize::MAX as int },
{
    if a <= usize::MAX - b {
        a + b
    } else {
        usize::MAX
    }
}

/// The smaller of two `usize` values.
pub fn min_usize(a: usize, b: usize) -> (r: usize)
    ensures
        r == if a <= b { a as int } else { b as int },
{
    if a <= b {
        a
    } else {
        b
    }
}

/// The ASCII lowercase form of one character; characters outside `A`..`Z`
/// are unchanged.
pub open spec fn ascii_lower_char(c: char) -> char {
    if 65 <= c as u32 && c as u32 <= 90 {
        (((c as u32) + 32) as u8) as char
    } else {
        c
    }
}

/// The ASCII lowercase form of a character sequence.
pub open spec fn ascii_lower(s: Seq<char>) -> Seq<char> {
    Seq::new(s.len(), |i: int| ascii_lower_char(s[i]))
}

/// Lowercases the ASCII letters of a character vector.
pub fn to_ascii_lower(v: &Vec<char>) -> (r: Vec<char>)
    ensures
        r@ == ascii_lower(v@),
{
    let mut r: Vec<char> = Vec::new();
    let mut i: usize = 0;
    while i < v.len()
        invariant
            i <= v@.len(),
            r@ == ascii_lower(v@).take(i as int),
        decreases v@.len() - i,
    {
        let c = v[i];
        let u = c as u32;
        if 65 <= u && u <= 90 {
            r.push(((u + 32) as u8) as char);
        } else {
            r.push(c);
        }
        i = i + 1;
        proof {
            assert(ascii_lower(v@).take(i as int) =~= ascii_lower(v@).take(i - 1).push(
                ascii_lower_char(v@[i - 1]),
            ));
        }
    }
    proof {
        assert(ascii_lower(v@).take(v@.len() as int) =~= ascii_lower(v@));
    }
    r
}

/// The characters of `v` between `from` (inclusive) and `to` (exclusive).
pub fn subvec(v: &Vec<char>, from: usize, to: usize) -> (r: Vec<char>)
    requires
        from <= to <= v@.len(),
    ensures
        r@ == v@.subrange(from as int, to as int),
{
    let mut r: Vec<char> = Vec::new();
    let mut i: usize = from;
    while i < to
        invariant
            from <= i <= to <= v@.len(),
            r@ == v@.subrange(from as int, i as int),
        decreases to - i,
    {
        r.push(v[i]);
        i = i + 1;
        proof {
            assert(v@.subrange(from as int, i as int) =~= v@.subrange(from as int, i - 1).push(
                v@[i - 1],
            ));
        }
    }
    r
}

/// Appends all characters of `v` to `out`.
pub fn push_chars(out: &mut Vec<char>, v: &Vec<char>)
    ensures
        final(out)@ == old(out)@ + v@,
{
    let mut i: usize = 0;
    while i < v.len()
        invariant
            i <= v@.len(),
            out@ == old(out)@ + v@.take(i as int),
        decreases v@.len() - i,
    {
        out.push(v[i]);
        i = i + 1;
        proof {
            assert(old(out)@ + v@.take(i as int) =~= (old(out)@ + v@.take(i - 1)).push(v@[i - 1]));
        }
    }
    proof {
        assert(old(out)@ + v@.take(v@.len() as int) =~= old(out)@ + v@);
    }
}

/// The last position at or below `i` where `c` occurs in `p`, or `-1`.
pub open spec fn rfind(p: Seq<char>, c: char, i: int) -> int
    decreases i + 1,
{
    if i < 0 || i >= p.len() {
        -1
    } else if p[i] == c {
        i
    } else {
        rfind(p, c, i - 1)
    }
}

/// The last position at or below `i` where `c` occurs in `v`, if any.
pub fn rfind_from(v: &Vec<char>, c: char, i: usize) -> (r: Option<usize>)
    requires
        i < v@.len(),
    ensures
        match r {
            Some(k) => rfind(v@, c, i as int) == k && k <= i,
            None => rfind(v@, c, i as int) == -1,
        },
    decreases i,
{
    if v[i] == c {
        proof {
            assert(rfind(v@, c, i as int) == i);
        }
        Some(i)
    } else if i == 0 {
        proof {
            assert(rfind(v@, c, 0) == rfind(v@, c, -1));
        }
        None
    } else {
        rfind_from(v, c, i - 1)
    }
}

/// The character for a decimal digit.
pub open spec fn digit_char(d: int) -> char {
    ((d + 48) as u8) as char
}

/// The decimal notation of a natural number, most significant digit first.
pub open spec fn dec_str(n: nat) -> Seq<char>
    decreases n,
{
    if n < 10 {
        seq![digit_char(n as int)]
    } else {
        dec_str(n / 10).push(digit_char((n % 10) as int))
    }
}

/// Appends the decimal notation of `n` to `out`.
pub fn push_dec(out: &mut Vec<char>, n: u128)
    ensures
        final(out)@ == old(out)@ + dec_str(n as nat),
    decreases n,
{
    if n >= 10 {
        push_dec(out, n / 10);
    }
    let d = ((n % 10) as u8) + 48;
    out.push(d as char);
    proof {
        if n < 10 {
            assert(old(out)@ + dec_str(n as nat) =~= old(out)@.push(digit_char(n as int)));
        } else {
            assert(old(out)@ + dec_str(n as nat) =~= (old(out)@ + dec_str((n / 10) as nat)).push(
                digit_char((n % 10) as int),
            ));
        }
    }
}

/// `n` spaces.
pub open spec fn spaces(n: int) -> Seq<char>
    decreases n,
{
    if n <= 0 {
        Seq::empty()
    } else {
        spaces(n - 1).push(' ')
    }
}

/// `s` padded with spaces on the right to width `w`; a longer `s` is kept
/// as it is.
pub open spec fn pad_to(s: Seq<char>, w: int) -> Seq<char> {
    s + spaces(w - s.len())
}

/// Appends the decimal notation of `n`, space-padded to width `w`.
pub fn push_pad_dec(out: &mut Vec<char>, n: u128, w: usize)
    ensures
        final(out)@ == old(out)@ + pad_to(dec_str(n as nat), w as int),
{
    let mut tmp: Vec<char> = Vec::new();
    push_dec(&mut tmp, n);
    push_chars(out, &tmp);
    let mut c: usize = tmp.len();
    proof {
        assert(out@ =~= old(out)@ + dec_str(n as nat) + spaces(c - tmp@.len()));
    }
    while c < w
        invariant
            c >= tmp@.len(),
            c <= w || c == tmp@.len(),
            out@ == old(out)@ + dec_str(n as nat) + spaces(c - tmp@.len()),
        decreases w - c,
    {
        out.push(' ');
        c = c + 1;
        proof {
            assert(out@ =~= old(out)@ + dec_str(n as nat) + spaces(c - tmp@.len()));
        }
    }
    proof {
        assert(out@ =~= old(out)@ + pad_to(dec_str(n as nat), w as int));
    }
}

/// Appends the characters of `s` to `out`.
pub fn push_str_chars(out: &mut Vec<char>, s: &str)
    ensures
        final(out)@ == old(out)@ + s@,
{
    let v = chars_of(s);
    push_chars(out, &v);
}

/// The value of the fraction `num / den` in hundredths, rounded to the
/// nearest hundredth with halves rounding up.
pub open spec fn hundredths_of(num: int, den: int) -> int {
    (200 * num + den) / (2 * den)
}

/// The two-decimal notation of the fraction `num / den`.
pub open spec fn fixed2_str(num: int, den: int) -> Seq<char> {
    let h = hundredths_of(num, den);
    dec_str((h / 100) as nat) + seq![
        '.',
        digit_char(h / 10 % 10),
        digit_char(h % 10),
    ]
}

/// Appends the two-decimal notation of `num / den` to `out`.
pub fn push_fixed2(out: &mut Vec<char>, num: u128, den: u128)
    requires
        0 < den <= 0x7fffffffffffffffffffffffffffffff,
        num <= 0x7fffffffffffffffffffffffffffff,
    ensures
        final(out)@ == old(out)@ + fixed2_str(num as int, den as int),
{
    let h = (200 * num + den) / (2 * den);
    proof {
        assert(h == hundredths_of(num as int, den as int));
        assert(h as int <= 200 * (num as int) / (den as int) + 1) by (nonlinear_arith)
            requires
                den > 0,
                num >= 0,
                h as int == (200 * (num as int) + den as int) / (2 * (den as int)),
        ;
    }
    push_dec(out, h / 100);
    out.push('.');
    out.push((((h / 10 % 10) as u8) + 48) as char);
    out.push((((h % 10) as u8) + 48) as char);
    proof {
        assert(final(out)@ =~= old(out)@ + fixed2_str(num as int, den as int));
    }
}

} // verus!
