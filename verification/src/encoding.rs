//! The character codec: a selectable encoding, conversion of a Unicode
//! scalar to its encoded bytes, and decoding of a byte window back to
//! characters with their byte lengths.

use vstd::prelude::*;
use vstd::utf8::*;

verus! {

/// The character encodings the editor can interpret text input in.
#[derive(Clone, Copy, Debug, PartialEq, Eq, Structural)]
pub enum CharEncoding {
    Utf8,
    Ascii,
}

impl CharEncoding {
    /// The next encoding in the cycle the encoding-toggle action walks.
    pub fn next(self) -> (r: CharEncoding)
        ensures
            self is Utf8 ==> r is Ascii,
            self is Ascii ==> r is Utf8,
    {
        match self {
            CharEncoding::Utf8 => CharEncoding::Ascii,
            CharEncoding::Ascii => CharEncoding::Utf8,
        }
    }

    /// The display name of the encoding.
    pub fn name(self) -> (r: String)
        ensures
            self is Utf8 ==> r@ == "UTF-8"@,
            self is Ascii ==> r@ == "ASCII"@,
    {
        match self {
            CharEncoding::Utf8 => String::from_str("UTF-8"),
            CharEncoding::Ascii => String::from_str("ASCII"),
        }
    }
}

/// The bytes that encode `c` under `enc`: its UTF-8 encoding, or its code
/// point as a single byte under ASCII; `None` when unrepresentable.
pub open spec fn spec_encode_char(c: char, enc: CharEncoding) -> Option<Seq<u8>> {
    match enc {
        CharEncoding::Utf8 => Some(encode_scalar(c as u32)),
        CharEncoding::Ascii => if (c as u32) < 0x80 {
            Some(seq![(c as u32) as u8])
        } else {
            None
        },
    }
}

/// The UTF-8 encoding of one character, as vstd's `encode_scalar` defines it.
pub fn encode_char_utf8(c: char) -> (r: Vec<u8>)
    ensures
        r@ == encode_scalar(c as u32),
        1 <= r@.len() <= 4,
{
    let cp = c as u32;
    let mut r: Vec<u8> = Vec::new();
    if cp <= 0x7F {
        proof {
            assert(cp & 0x7F <= 0x7F) by (bit_vector);
        }
        r.push((cp & 0x7F) as u8);
        proof {
            assert(r@ =~= encode_scalar(cp));
        }
    } else if cp <= 0x7FF {
        proof {
            assert((cp >> 6) & 0x1F <= 0x1F) by (bit_vector);
            assert(cp & 0x3F <= 0x3F) by (bit_vector);
        }
        r.push(0xC0 | ((cp >> 6) & 0x1F) as u8);
        r.push(0x80 | (cp & 0x3F) as u8);
        proof {
            assert(r@ =~= encode_scalar(cp));
        }
    } else if cp <= 0xFFFF {
        proof {
            assert((cp >> 12) & 0x0F <= 0x0F) by (bit_vector);
            assert((cp >> 6) & 0x3F <= 0x3F) by (bit_vector);
            assert(cp & 0x3F <= 0x3F) by (bit_vector);
        }
        r.push(0xE0 | ((cp >> 12) & 0x0F) as u8);
        r.push(0x80 | ((cp >> 6) & 0x3F) as u8);
        r.push(0x80 | (cp & 0x3F) as u8);
        proof {
            assert(r@ =~= encode_scalar(cp));
        }
    } else {
        proof {
            assert((cp >> 18) & 0x7 <= 0x7) by (bit_vector);
            assert((cp >> 12) & 0x3F <= 0x3F) by (bit_vector);
            assert((cp >> 6) & 0x3F <= 0x3F) by (bit_vector);
            assert(cp & 0x3F <= 0x3F) by (bit_vector);
        }
        r.push(0xF0 | ((cp >> 18) & 0x7) as u8);
        r.push(0x80 | ((cp >> 12) & 0x3F) as u8);
        r.push(0x80 | ((cp >> 6) & 0x3F) as u8);
        r.push(0x80 | (cp & 0x3F) as u8);
        proof {
            assert(r@ =~= encode_scalar(cp));
        }
    }
    r
}

/// Encodes one character under the given encoding; `None` when the
/// character has no representation there.
pub fn encode_char(c: char, enc: CharEncoding) -> (r: Option<Vec<u8>>)
    ensures
        spec_encode_char(c, enc) matches Some(bs) ==> (r matches Some(v) && v@ == bs && 1 <= v@.len()
            <= 4),
        spec_encode_char(c, enc) is None ==> r is None,
{
    match enc {
        CharEncoding::Utf8 => Some(encode_char_utf8(c)),
        CharEncoding::Ascii => {
            let cp = c as u32;
            if cp < 0x80 {
                let mut v: Vec<u8> = Vec::new();
                v.push(cp as u8);
                proof {
                    assert(v@ =~= seq![(c as u32) as u8]);
                }
                Some(v)
            } else {
                None
            }
        },
    }
}

/// Decodes the UTF-8 character starting at offset `i` of `data`: the
/// character and its byte length, or `None` when no well-formed encoding
/// starts there.
pub fn decode_utf8_char_at(data: &[u8], i: usize) -> (r: Option<(char, usize)>)
    ensures
        r matches Some((c, l)) ==> {
            let tail = data@.subrange(i as int, data@.len() as int);
            &&& i < data@.len()
            &&& valid_first_scalar(tail)
            &&& c as u32 == decode_first_scalar(tail)
            &&& l == length_of_first_scalar(tail)
            &&& 1 <= l <= 4
            &&& i + l <= data@.len()
        },
        r is None ==> i >= data@.len() || !valid_first_scalar(
            data@.subrange(i as int, data@.len() as int),
        ),
{
    let n = data.len();
    if i >= n {
        return None;
    }
    let ghost tail = data@.subrange(i as int, data@.len() as int);
    proof {
        assert(tail[0] == data@[i as int]);
    }
    let b0 = data[i];
    let (len, cp): (usize, u32) = if b0 <= 0x7F {
        let cp: u32 = b0 as u32;
        proof {
            assert((b0 & 0x7F) == b0) by (bit_vector)
                requires
                    b0 <= 0x7F,
            ;
            assert(valid_leading_and_continuation_bytes_first_codepoint(tail));
            assert(decode_first_codepoint(tail) == cp);
            assert(length_of_first_codepoint(tail) == 1);
        }
        (1, cp)
    } else if 0xC0 <= b0 && b0 <= 0xDF {
        if n - i < 2 {
            return None;
        }
        let b1 = data[i + 1];
        proof {
            assert(tail[1] == data@[i + 1]);
        }
        if !(0x80 <= b1 && b1 <= 0xBF) {
            return None;
        }
        let cp: u32 = (((b1 & 0x3F) as u32) | (((b0 & 0x1F) as u32) << 6)) as u32;
        proof {
            assert(cp == ((((b0 & 0x1F) as u32) << 6) | ((b1 & 0x3F) as u32)) && cp <= 0x7FF)
                by (bit_vector)
                requires
                    cp == (((b1 & 0x3F) as u32) | (((b0 & 0x1F) as u32) << 6)),
            ;
            assert(valid_leading_and_continuation_bytes_first_codepoint(tail));
            assert(decode_first_codepoint(tail) == cp);
            assert(length_of_first_codepoint(tail) == 2);
        }
        (2, cp)
    } else if 0xE0 <= b0 && b0 <= 0xEF {
        if n - i < 3 {
            return None;
        }
        let b1 = data[i + 1];
        let b2 = data[i + 2];
        proof {
            assert(tail[1] == data@[i + 1] && tail[2] == data@[i + 2]);
        }
        if !(0x80 <= b1 && b1 <= 0xBF) || !(0x80 <= b2 && b2 <= 0xBF) {
            return None;
        }
        let hi: u32 = ((b0 & 0x0F) as u32) << 12;
        let mid: u32 = ((b1 & 0x3F) as u32) << 6;
        let lo: u32 = (b2 & 0x3F) as u32;
        let cp: u32 = (hi | mid) | lo;
        proof {
            assert(cp == ((((b0 & 0x0F) as u32) << 12) | (((b1 & 0x3F) as u32) << 6)) | ((b2
                & 0x3F) as u32) && cp <= 0xFFFF) by (bit_vector)
                requires
                    cp == ((((b0 & 0x0F) as u32) << 12) | (((b1 & 0x3F) as u32) << 6)) | ((b2
                        & 0x3F) as u32),
            ;
            assert(valid_leading_and_continuation_bytes_first_codepoint(tail));
            assert(decode_first_codepoint(tail) == cp);
            assert(length_of_first_codepoint(tail) == 3);
        }
        (3, cp)
    } else if 0xF0 <= b0 && b0 <= 0xF7 {
        if n - i < 4 {
            return None;
        }
        let b1 = data[i + 1];
        let b2 = data[i + 2];
        let b3 = data[i + 3];
        proof {
            assert(tail[1] == data@[i + 1] && tail[2] == data@[i + 2] && tail[3] == data@[i + 3]);
        }
        if !(0x80 <= b1 && b1 <= 0xBF) || !(0x80 <= b2 && b2 <= 0xBF) || !(0x80 <= b3 && b3
            <= 0xBF) {
            return None;
        }
        let hi: u32 = ((b0 & 0x07) as u32) << 18;
        let m1: u32 = ((b1 & 0x3F) as u32) << 12;
        let m2: u32 = ((b2 & 0x3F) as u32) << 6;
        let lo: u32 = (b3 & 0x3F) as u32;
        let cp: u32 = ((hi | m1) | m2) | lo;
        proof {
            assert(cp <= 0x1FFFFF) by (bit_vector)
                requires
                    cp == (((((b0 & 0x07) as u32) << 18) | (((b1 & 0x3F) as u32) << 12)) | (((b2
                        & 0x3F) as u32) << 6)) | ((b3 & 0x3F) as u32),
            ;
            assert(valid_leading_and_continuation_bytes_first_codepoint(tail));
            assert(decode_first_codepoint(tail) == cp);
            assert(length_of_first_codepoint(tail) == 4);
        }
        (4, cp)
    } else {
        proof {
            assert(!valid_leading_and_continuation_bytes_first_codepoint(tail)) by {
                assert(tail[0] == b0);
            }
        }
        return None;
    };
    // Reject overlong encodings and the surrogate range, as UTF-8 demands.
    if len == 2 && cp < 0x80 {
        return None;
    }
    if len == 3 && cp < 0x800 {
        return None;
    }
    if len == 4 && !(0x10000 <= cp && cp <= 0x10FFFF) {
        return None;
    }
    if 0xD800 <= cp && cp <= 0xDFFF {
        return None;
    }
    proof {
        assert(valid_first_scalar(tail));
    }
    match char::from_u32(cp) {
        Some(c) => Some((c, len)),
        None => None,
    }
}

} // verus!
