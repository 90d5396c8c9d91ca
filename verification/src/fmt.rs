//! Verified text formatting of numbers and byte runs: hex digits, padded
//! hex and decimal numerals, and space-separated hex dumps of byte slices.

use vstd::prelude::*;
use crate::hexparse::{hex_digit_char, hex_digit_to_char};

verus! {

/// The two upper-case hex characters of a byte.
pub open spec fn spec_hex_byte(b: u8) -> Seq<char> {
    seq![hex_digit_char(b / 16), hex_digit_char(b % 16)]
}

/// The bytes rendered as upper-case hex pairs separated by single spaces.
pub open spec fn spec_hex_spaced(bs: Seq<u8>) -> Seq<char>
    decreases bs.len(),
{
    if bs.len() == 0 {
        Seq::empty()
    } else if bs.len() == 1 {
        spec_hex_byte(bs[0])
    } else {
        spec_hex_spaced(bs.drop_last()) + seq![' '] + spec_hex_byte(bs.last())
    }
}

/// The hex numeral of `v`, zero-padded to at least `width` digits.
pub open spec fn spec_hex_pad(v: nat, width: nat) -> Seq<char>
    decreases v + width,
{
    if v < 16 && width <= 1 {
        seq![hex_digit_char(v as u8)]
    } else {
        spec_hex_pad(v / 16, if width == 0 {
            0
        } else {
            (width - 1) as nat
        }) + seq![hex_digit_char((v % 16) as u8)]
    }
}

/// The decimal numeral of `v`, zero-padded to at least `width` digits.
pub open spec fn spec_dec_pad(v: nat, width: nat) -> Seq<char>
    decreases v + width,
{
    if v < 10 && width <= 1 {
        seq![hex_digit_char(v as u8)]
    } else {
        spec_dec_pad(v / 10, if width == 0 {
            0
        } else {
            (width - 1) as nat
        }) + seq![hex_digit_char((v % 10) as u8)]
    }
}

/// Appends the two hex characters of a byte.
pub fn push_hex_byte(out: &mut Vec<char>, b: u8)
    ensures
        final(out)@ == old(out)@ + spec_hex_byte(b),
{
    out.push(hex_digit_to_char(b / 16));
    out.push(hex_digit_to_char(b % 16));
    proof {
        assert(final(out)@ =~= old(out)@ + spec_hex_byte(b));
    }
}

/// The bytes as upper-case hex pairs separated by single spaces.
pub fn hex_spaced_chars(data: &[u8]) -> (r: Vec<char>)
    ensures
        r@ == spec_hex_spaced(data@),
{
    let mut r: Vec<char> = Vec::new();
    let n = data.len();
    let mut i: usize = 0;
    proof {
        assert(data@.subrange(0, 0) =~= Seq::<u8>::empty());
    }
    while i < n
        invariant
            n == data@.len(),
            i <= n,
            r@ == spec_hex_spaced(data@.subrange(0, i as int)),
        decreases n - i,
    {
        if i > 0 {
            r.push(' ');
        }
        push_hex_byte(&mut r, data[i]);
        i = i + 1;
        proof {
            let t = data@.subrange(0, i as int);
            assert(t.drop_last() =~= data@.subrange(0, i - 1));
            assert(t.last() == data@[i - 1]);
            assert(r@ =~= spec_hex_spaced(t));
        }
    }
    proof {
        assert(data@.subrange(0, n as int) =~= data@);
    }
    r
}

/// Appends the hex numeral of `v`, zero-padded to at least `width` digits.
pub fn push_hex_pad(out: &mut Vec<char>, v: usize, width: usize)
    ensures
        final(out)@ == old(out)@ + spec_hex_pad(v as nat, width as nat),
    decreases v + width,
{
    if v < 16 && width <= 1 {
        out.push(hex_digit_to_char((v % 16) as u8));
        proof {
            assert(final(out)@ =~= old(out)@ + spec_hex_pad(v as nat, width as nat));
        }
    } else {
        let w2 = if width == 0 {
            0
        } else {
            width - 1
        };
        push_hex_pad(out, v / 16, w2);
        out.push(hex_digit_to_char((v % 16) as u8));
        proof {
            assert(final(out)@ =~= old(out)@ + spec_hex_pad(v as nat, width as nat));
        }
    }
}

/// Appends the decimal numeral of `v`, zero-padded to at least `width`
/// digits.
pub fn push_dec_pad(out: &mut Vec<char>, v: usize, width: usize)
    ensures
        final(out)@ == old(out)@ + spec_dec_pad(v as nat, width as nat),
    decreases v + width,
{
    if v < 10 && width <= 1 {
        out.push(hex_digit_to_char((v % 10) as u8));
        proof {
            assert(final(out)@ =~= old(out)@ + spec_dec_pad(v as nat, width as nat));
        }
    } else {
        let w2 = if width == 0 {
            0
        } else {
            width - 1
        };
        push_dec_pad(out, v / 10, w2);
        out.push(hex_digit_to_char((v % 10) as u8));
        proof {
            assert(final(out)@ =~= old(out)@ + spec_dec_pad(v as nat, width as nat));
        }
    }
}

} // verus!
