//! Interpretation of text as hexadecimal byte strings and as numbers:
//! full-width-aware hex digit normalization, the hex-vs-literal test, hex
//! decoding, and radix-aware number parsing.

use vstd::prelude::*;

verus! {

/// The numeric value of a hex digit, accepting half-width and full-width
/// digits and letters in either case; `None` for any other character.
pub open spec fn spec_hex_digit(c: char) -> Option<u8> {
    let cp = c as u32;
    if 0x30 <= cp && cp <= 0x39 {
        Some((cp - 0x30) as u8)
    } else if 0x41 <= cp && cp <= 0x46 {
        Some((cp - 0x37) as u8)
    } else if 0x61 <= cp && cp <= 0x66 {
        Some((cp - 0x57) as u8)
    } else if 0xFF10 <= cp && cp <= 0xFF19 {
        Some((cp - 0xFF10) as u8)
    } else if 0xFF21 <= cp && cp <= 0xFF26 {
        Some((cp - 0xFF17) as u8)
    } else if 0xFF41 <= cp && cp <= 0xFF46 {
        Some((cp - 0xFF37) as u8)
    } else {
        None
    }
}

/// The upper-case hex character for a digit value below 16.
pub open spec fn hex_digit_char(v: u8) -> char {
    if v == 0 {
        '0'
    } else if v == 1 {
        '1'
    } else if v == 2 {
        '2'
    } else if v == 3 {
        '3'
    } else if v == 4 {
        '4'
    } else if v == 5 {
        '5'
    } else if v == 6 {
        '6'
    } else if v == 7 {
        '7'
    } else if v == 8 {
        '8'
    } else if v == 9 {
        '9'
    } else if v == 10 {
        'A'
    } else if v == 11 {
        'B'
    } else if v == 12 {
        'C'
    } else if v == 13 {
        'D'
    } else if v == 14 {
        'E'
    } else {
        'F'
    }
}

/// The sequence with a leading `0x`/`0X` prefix removed.
pub open spec fn spec_strip_0x(s: Seq<char>) -> Seq<char> {
    if s.len() >= 2 && s[0] == '0' && (s[1] == 'x' || s[1] == 'X') {
        s.subrange(2, s.len() as int)
    } else {
        s
    }
}

/// The digit values of all hex digits in `s`, in order; every other
/// character is dropped.
pub open spec fn spec_hex_vals(s: Seq<char>) -> Seq<u8>
    decreases s.len(),
{
    if s.len() == 0 {
        Seq::empty()
    } else {
        spec_hex_vals(s.drop_last()) + match spec_hex_digit(s.last()) {
            Some(v) => seq![v],
            None => Seq::empty(),
        }
    }
}

/// The normalized hex string: every hex digit of `s` mapped to its
/// upper-case half-width form, everything else dropped.
pub open spec fn spec_norm_hex(s: Seq<char>) -> Seq<char>
    decreases s.len(),
{
    if s.len() == 0 {
        Seq::empty()
    } else {
        spec_norm_hex(s.drop_last()) + match spec_hex_digit(s.last()) {
            Some(v) => seq![hex_digit_char(v)],
            None => Seq::empty(),
        }
    }
}

/// Whether `s` denotes a hexadecimal byte string: after dropping everything
/// but hex digits, at least one byte remains and the digit count is even.
pub open spec fn spec_looks_like_hex(s: Seq<char>) -> bool {
    let n = spec_hex_vals(spec_strip_0x(s)).len();
    n % 2 == 0 && n >= 2
}

/// The bytes formed by consecutive pairs of digit values.
pub open spec fn spec_pair_bytes(vals: Seq<u8>) -> Seq<u8> {
    Seq::new((vals.len() / 2) as nat, |i: int| (16 * vals[2 * i] + vals[2 * i + 1]) as u8)
}

/// The bytes a hex string denotes: pairs of normalized digits, or `None`
/// when an odd number of digits remains.
pub open spec fn spec_hex_to_bytes(s: Seq<char>) -> Option<Seq<u8>> {
    let vals = spec_hex_vals(spec_strip_0x(s));
    if vals.len() % 2 != 0 {
        None
    } else {
        Some(spec_pair_bytes(vals))
    }
}

/// The numeric value of a hex digit, full-width forms included.
pub fn hex_digit_val(c: char) -> (r: Option<u8>)
    ensures
        r == spec_hex_digit(c),
{
    let cp = c as u32;
    if 0x30 <= cp && cp <= 0x39 {
        Some((cp - 0x30) as u8)
    } else if 0x41 <= cp && cp <= 0x46 {
        Some((cp - 0x37) as u8)
    } else if 0x61 <= cp && cp <= 0x66 {
        Some((cp - 0x57) as u8)
    } else if 0xFF10 <= cp && cp <= 0xFF19 {
        Some((cp - 0xFF10) as u8)
    } else if 0xFF21 <= cp && cp <= 0xFF26 {
        Some((cp - 0xFF17) as u8)
    } else if 0xFF41 <= cp && cp <= 0xFF46 {
        Some((cp - 0xFF37) as u8)
    } else {
        None
    }
}

/// The upper-case hex character for a digit value below 16.
pub fn hex_digit_to_char(v: u8) -> (r: char)
    requires
        v < 16,
    ensures
        r == hex_digit_char(v),
{
    match v {
        0 => '0',
        1 => '1',
        2 => '2',
        3 => '3',
        4 => '4',
        5 => '5',
        6 => '6',
        7 => '7',
        8 => '8',
        9 => '9',
        10 => 'A',
        11 => 'B',
        12 => 'C',
        13 => 'D',
        14 => 'E',
        _ => 'F',
    }
}

/// Normalizes one hex digit to upper-case half-width form: full-width to
/// half-width, lower-case to upper-case; `None` for anything else.
pub fn normalize_hex_char(c: char) -> (r: Option<char>)
    ensures
        r == match spec_hex_digit(c) {
            Some(v) => Some(hex_digit_char(v)),
            None => None::<char>,
        },
{
    match hex_digit_val(c) {
        Some(v) => Some(hex_digit_to_char(v)),
        None => None,
    }
}

/// The characters of `v` with a leading `0x`/`0X` prefix removed.
fn strip_0x(v: &Vec<char>) -> (r: Vec<char>)
    ensures
        r@ == spec_strip_0x(v@),
{
    let start: usize = if v.len() >= 2 && v[0] == '0' && (v[1] == 'x' || v[1] == 'X') {
        2
    } else {
        0
    };
    let mut r: Vec<char> = Vec::new();
    let mut i: usize = start;
    while i < v.len()
        invariant
            start <= i <= v@.len(),
            r@ == v@.subrange(start as int, i as int),
        decreases v@.len() - i,
    {
        r.push(v[i]);
        i = i + 1;
        proof {
            assert(r@ =~= v@.subrange(start as int, i as int));
        }
    }
    proof {
        if start == 0 {
            assert(v@.subrange(0, v@.len() as int) =~= v@);
        }
        assert(r@ =~= spec_strip_0x(v@));
    }
    r
}

/// The digit values of all hex digits of `v`, in order.
fn hex_vals_of(v: &Vec<char>) -> (r: Vec<u8>)
    ensures
        r@ == spec_hex_vals(v@),
        forall|k: int| 0 <= k < r@.len() ==> r@[k] < 16,
{
    let mut r: Vec<u8> = Vec::new();
    let mut i: usize = 0;
    proof {
        assert(v@.subrange(0, 0) =~= Seq::<char>::empty());
    }
    while i < v.len()
        invariant
            i <= v@.len(),
            r@ == spec_hex_vals(v@.subrange(0, i as int)),
            forall|k: int| 0 <= k < r@.len() ==> r@[k] < 16,
        decreases v@.len() - i,
    {
        let ghost pre = v@.subrange(0, i as int);
        match hex_digit_val(v[i]) {
            Some(d) => r.push(d),
            None => (),
        }
        i = i + 1;
        proof {
            let t = v@.subrange(0, i as int);
            assert(t.drop_last() =~= pre);
            assert(t.last() == v@[i - 1]);
            assert(r@ =~= spec_hex_vals(t));
        }
    }
    proof {
        assert(v@.subrange(0, v@.len() as int) =~= v@);
    }
    r
}

/// Normalizes a hex string: full-width digits to half-width, lower-case to
/// upper-case, with separators and any other character removed.
pub fn normalize_hex_string(s: &str) -> (r: String)
    ensures
        r@ == spec_norm_hex(spec_strip_0x(s@)),
{
    let full = crate::text::str_to_chars(s);
    let chars = strip_0x(&full);
    let mut r = String::new();
    let mut i: usize = 0;
    proof {
        assert(chars@.subrange(0, 0) =~= Seq::<char>::empty());
    }
    while i < chars.len()
        invariant
            chars@ == spec_strip_0x(s@),
            i <= chars@.len(),
            r@ == spec_norm_hex(chars@.subrange(0, i as int)),
        decreases chars@.len() - i,
    {
        let ghost pre = chars@.subrange(0, i as int);
        match normalize_hex_char(chars[i]) {
            Some(h) => r.push(h),
            None => (),
        }
        i = i + 1;
        proof {
            let t = chars@.subrange(0, i as int);
            assert(t.drop_last() =~= pre);
            assert(t.last() == chars@[i - 1]);
            assert(r@ =~= spec_norm_hex(t));
        }
    }
    proof {
        assert(chars@.subrange(0, chars@.len() as int) =~= chars@);
    }
    r
}

/// Decides whether `s` denotes a hexadecimal byte string: an even number of
/// hex digits, at least two, after normalization and separator removal.
pub fn looks_like_hex(s: &str) -> (r: bool)
    ensures
        r == spec_looks_like_hex(s@),
{
    let chars = crate::text::str_to_chars(s);
    let stripped = strip_0x(&chars);
    let vals = hex_vals_of(&stripped);
    vals.len() % 2 == 0 && vals.len() >= 2
}

/// Decodes a hex string to bytes, pairing normalized digits; `None` when an
/// odd number of digits remains.
pub fn normalized_hex_to_bytes(s: &str) -> (r: Option<Vec<u8>>)
    ensures
        spec_hex_to_bytes(s@) matches Some(bs) ==> (r matches Some(v) && v@ == bs),
        spec_hex_to_bytes(s@) is None ==> r is None,
{
    let chars = crate::text::str_to_chars(s);
    let stripped = strip_0x(&chars);
    let vals = hex_vals_of(&stripped);
    if vals.len() % 2 != 0 {
        return None;
    }
    let mut bytes: Vec<u8> = Vec::new();
    let mut j: usize = 0;
    let half = vals.len() / 2;
    while j < half
        invariant
            vals@.len() % 2 == 0,
            half == vals@.len() / 2,
            forall|k: int| 0 <= k < vals@.len() ==> vals@[k] < 16,
            j <= half,
            bytes@.len() == j,
            forall|k: int|
                0 <= k < j ==> bytes@[k] == (16 * vals@[2 * k] + vals@[2 * k + 1]) as u8,
        decreases half - j,
    {
        proof {
            assert(vals@.len() == vals.len());
            assert(vals@.len() == 2 * (vals@.len() / 2) + vals@.len() % 2);
            assert(2 * j + 1 < vals@.len());
        }
        let lo_idx = 2 * j;
        bytes.push(16 * vals[lo_idx] + vals[lo_idx + 1]);
        j = j + 1;
    }
    proof {
        assert(bytes@ =~= spec_pair_bytes(vals@));
    }
    Some(bytes)
}

/// The numeric value of an ASCII digit under the given radix (10 or 16).
pub open spec fn spec_radix_digit(c: char, radix: u8) -> Option<u8> {
    let cp = c as u32;
    let v = if 0x30 <= cp && cp <= 0x39 {
        Some((cp - 0x30) as u8)
    } else if 0x41 <= cp && cp <= 0x46 {
        Some((cp - 0x37) as u8)
    } else if 0x61 <= cp && cp <= 0x66 {
        Some((cp - 0x57) as u8)
    } else {
        None
    };
    match v {
        Some(d) => if d < radix {
            Some(d)
        } else {
            None
        },
        None => None,
    }
}

/// Whether `s` is a non-empty string of digits under the given radix.
pub open spec fn spec_radix_ok(s: Seq<char>, radix: u8) -> bool {
    s.len() > 0 && forall|i: int| 0 <= i < s.len() ==> spec_radix_digit(s[i], radix) is Some
}

/// The value of a digit string under the given radix (junk digits count 0).
pub open spec fn spec_radix_val(s: Seq<char>, radix: u8) -> int
    decreases s.len(),
{
    if s.len() == 0 {
        0
    } else {
        spec_radix_val(s.drop_last(), radix) * radix + match spec_radix_digit(s.last(), radix) {
            Some(d) => d as int,
            None => 0,
        }
    }
}

/// The parse of `s` as an unsigned number under the given radix: `None` on
/// an empty string, a non-digit, or overflow of the machine word.
pub open spec fn spec_parse_radix(s: Seq<char>, radix: u8) -> Option<usize> {
    if !spec_radix_ok(s, radix) {
        None
    } else if spec_radix_val(s, radix) > usize::MAX {
        None
    } else {
        Some(spec_radix_val(s, radix) as usize)
    }
}

/// The parse of `s` as a number: hexadecimal after a `0x`/`0X` prefix,
/// decimal otherwise.
pub open spec fn spec_parse_number(s: Seq<char>) -> Option<usize> {
    if s.len() >= 2 && s[0] == '0' && (s[1] == 'x' || s[1] == 'X') {
        spec_parse_radix(s.subrange(2, s.len() as int), 16)
    } else {
        spec_parse_radix(s, 10)
    }
}

/// A digit string's value never shrinks as the string grows to the right.
proof fn lemma_radix_val_prefix(s: Seq<char>, i: int, radix: u8)
    requires
        0 <= i <= s.len(),
        radix >= 1,
    ensures
        0 <= spec_radix_val(s.subrange(0, i), radix) <= spec_radix_val(s, radix),
    decreases s.len() - i,
{
    if i == s.len() {
        assert(s.subrange(0, i) =~= s);
        lemma_radix_val_nonneg(s, radix);
    } else {
        let t = s.subrange(0, i + 1);
        lemma_radix_val_prefix(s, i + 1, radix);
        assert(t.drop_last() =~= s.subrange(0, i));
        let a = spec_radix_val(s.subrange(0, i), radix);
        let d = match spec_radix_digit(t.last(), radix) {
            Some(d) => d as int,
            None => 0,
        };
        lemma_radix_val_nonneg(s.subrange(0, i), radix);
        assert(a * radix >= a) by (nonlinear_arith)
            requires
                a >= 0,
                radix >= 1,
        ;
        assert(spec_radix_val(t, radix) == a * radix + d);
    }
}

/// A digit string's value is never negative.
proof fn lemma_radix_val_nonneg(s: Seq<char>, radix: u8)
    requires
        radix >= 1,
    ensures
        spec_radix_val(s, radix) >= 0,
    decreases s.len(),
{
    if s.len() > 0 {
        lemma_radix_val_nonneg(s.drop_last(), radix);
        let a = spec_radix_val(s.drop_last(), radix);
        assert(a * radix >= 0) by (nonlinear_arith)
            requires
                a >= 0,
                radix >= 1,
        ;
    }
}

/// Parses the digits of `v` from `start` on under the given radix.
pub fn parse_radix(v: &Vec<char>, start: usize, radix: u8) -> (r: Option<usize>)
    requires
        start <= v@.len(),
        radix == 10 || radix == 16,
    ensures
        r == spec_parse_radix(v@.subrange(start as int, v@.len() as int), radix),
{
    let ghost s = v@.subrange(start as int, v@.len() as int);
    let n = v.len();
    if start == n {
        return None;
    }
    let mut acc: usize = 0;
    let mut i: usize = start;
    proof {
        assert(s.subrange(0, 0) =~= Seq::<char>::empty());
    }
    while i < n
        invariant
            start <= i <= n,
            n == v@.len(),
            radix == 10 || radix == 16,
            s == v@.subrange(start as int, v@.len() as int),
            spec_radix_ok(s.subrange(0, i - start), radix) || i == start,
            acc == spec_radix_val(s.subrange(0, i - start), radix),
        decreases n - i,
    {
        let d: u8 = {
            let cp = v[i] as u32;
            if 0x30 <= cp && cp <= 0x39 {
                (cp - 0x30) as u8
            } else if 0x41 <= cp && cp <= 0x46 {
                (cp - 0x37) as u8
            } else if 0x61 <= cp && cp <= 0x66 {
                (cp - 0x57) as u8
            } else {
                proof {
                    assert(s[i - start] == v@[i as int]);
                    assert(spec_radix_digit(s[i - start], radix) is None);
                }
                return None;
            }
        };
        if d >= radix {
            proof {
                assert(s[i - start] == v@[i as int]);
                assert(spec_radix_digit(s[i - start], radix) is None);
            }
            return None;
        }
        proof {
            assert(s[i - start] == v@[i as int]);
            assert(spec_radix_digit(s[i - start], radix) == Some(d));
        }
        let ghost pre = s.subrange(0, i - start);
        let ghost ext = s.subrange(0, i + 1 - start);
        proof {
            assert(ext.drop_last() =~= pre);
            assert(ext.last() == s[i - start]);
            assert(spec_radix_val(ext, radix) == spec_radix_val(pre, radix) * radix + d);
        }
        let stepped = match acc.checked_mul(radix as usize) {
            Some(m) => m.checked_add(d as usize),
            None => None,
        };
        match stepped {
            Some(next) => {
                acc = next;
            },
            None => {
                proof {
                    assert(spec_radix_val(ext, radix) > usize::MAX);
                    lemma_radix_val_prefix(s, i + 1 - start, radix);
                    assert(spec_radix_val(s, radix) > usize::MAX);
                }
                return None;
            },
        }
        i = i + 1;
        proof {
            assert(forall|k: int|
                0 <= k < ext.len() ==> spec_radix_digit(ext[k], radix) is Some);
        }
    }
    proof {
        assert(s.subrange(0, n - start) =~= s);
    }
    Some(acc)
}

/// Parses a number: hexadecimal after a `0x`/`0X` prefix, else decimal.
pub fn parse_number(s: &str) -> (r: Option<usize>)
    ensures
        r == spec_parse_number(s@),
{
    let chars = crate::text::str_to_chars(s);
    if chars.len() >= 2 && chars[0] == '0' && (chars[1] == 'x' || chars[1] == 'X') {
        parse_radix(&chars, 2, 16)
    } else {
        proof {
            assert(chars@.subrange(0, chars@.len() as int) =~= chars@);
        }
        parse_radix(&chars, 0, 10)
    }
}

/// The parse of `s` as a byte value: hexadecimal after a `0x` prefix or
/// when it is at most two hex digits, else decimal; `None` above 255.
pub open spec fn spec_parse_byte(s: Seq<char>) -> Option<u8> {
    let n = if s.len() >= 2 && s[0] == '0' && (s[1] == 'x' || s[1] == 'X') {
        spec_parse_radix(s.subrange(2, s.len() as int), 16)
    } else if 1 <= s.len() <= 2 && spec_radix_ok(s, 16) {
        spec_parse_radix(s, 16)
    } else {
        spec_parse_radix(s, 10)
    };
    match n {
        Some(v) => if v <= 255 {
            Some(v as u8)
        } else {
            None::<u8>
        },
        None => None::<u8>,
    }
}

/// Parses a byte value: `0x`-prefixed hex, bare one- or two-digit hex, or
/// decimal; `None` when malformed or above 255.
pub fn parse_byte(s: &str) -> (r: Option<u8>)
    ensures
        r == spec_parse_byte(s@),
{
    let chars = crate::text::str_to_chars(s);
    let n = if chars.len() >= 2 && chars[0] == '0' && (chars[1] == 'x' || chars[1] == 'X') {
        parse_radix(&chars, 2, 16)
    } else {
        let short = chars.len() >= 1 && chars.len() <= 2;
        let mut all_hex = true;
        let mut i: usize = 0;
        while i < chars.len()
            invariant
                i <= chars@.len(),
                all_hex == forall|k: int|
                    0 <= k < i ==> spec_radix_digit(chars@[k], 16) is Some,
            decreases chars@.len() - i,
        {
            let cp = chars[i] as u32;
            let is_digit = (0x30 <= cp && cp <= 0x39) || (0x41 <= cp && cp <= 0x46) || (0x61 <= cp
                && cp <= 0x66);
            proof {
                assert(is_digit == (spec_radix_digit(chars@[i as int], 16) is Some));
            }
            all_hex = all_hex && is_digit;
            i = i + 1;
        }
        proof {
            assert(chars@.subrange(0, chars@.len() as int) =~= chars@);
        }
        if short && all_hex {
            parse_radix(&chars, 0, 16)
        } else {
            parse_radix(&chars, 0, 10)
        }
    };
    match n {
        Some(v) => if v <= 255 {
            Some(v as u8)
        } else {
            None
        },
        None => None,
    }
}

} // verus!
