//! Character and string groundwork: the few std string operations the crate
//! relies on, conversion between `&str` and `Vec<char>`, full-width
//! normalization, and blank-trimming of character sequences.

use vstd::prelude::*;

verus! {

/// Relies on `String::push`: appends exactly the given character.
pub assume_specification[ String::push ](s: &mut String, c: char)
    ensures
        final(s)@ == old(s)@.push(c),
;

/// Whether a code point is a Unicode scalar value, i.e. a legal `char`.
pub open spec fn is_scalar_value(v: u32) -> bool {
    v < 0xD800 || (0xE000 <= v && v <= 0x10FFFF)
}

/// Relies on `char::from_u32`: yields the character with the given code
/// point exactly when that code point is a Unicode scalar value.
pub assume_specification[ char::from_u32 ](v: u32) -> (r: Option<char>)
    ensures
        is_scalar_value(v) <==> (r matches Some(c) && c as u32 == v),
        !is_scalar_value(v) <==> r is None,
;

/// The characters of a string slice, as a vector.
pub fn str_to_chars(s: &str) -> (r: Vec<char>)
    ensures
        r@ == s@,
{
    let n = s.unicode_len();
    let mut r: Vec<char> = Vec::new();
    let mut i: usize = 0;
    while i < n
        invariant
            n == s@.len(),
            i <= n,
            r@ == s@.subrange(0, i as int),
        decreases n - i,
    {
        r.push(s.get_char(i));
        i = i + 1;
        proof {
            assert(r@ =~= s@.subrange(0, i as int));
        }
    }
    proof {
        assert(r@ =~= s@);
    }
    r
}

/// A `String` holding exactly the given characters.
pub fn string_from_chars(v: &Vec<char>) -> (r: String)
    ensures
        r@ == v@,
{
    let mut r = String::new();
    let mut i: usize = 0;
    while i < v.len()
        invariant
            i <= v@.len(),
            r@ == v@.subrange(0, i as int),
        decreases v@.len() - i,
    {
        r.push(v[i]);
        i = i + 1;
        proof {
            assert(r@ =~= v@.subrange(0, i as int));
        }
    }
    proof {
        assert(r@ =~= v@);
    }
    r
}

/// The half-width counterpart of a full-width ASCII-range character
/// (U+FF01..=U+FF5E and the ideographic space), other characters unchanged.
pub open spec fn spec_normalize_fullwidth(c: char) -> char {
    let cp = c as u32;
    if 0xFF01 <= cp && cp <= 0xFF5E {
        ((cp - 0xFEE0) as u32) as char
    } else if cp == 0x3000 {
        ' '
    } else {
        c
    }
}

/// Maps a full-width ASCII-range character to its half-width counterpart.
pub fn normalize_fullwidth(c: char) -> (r: char)
    ensures
        r == spec_normalize_fullwidth(c),
{
    let cp = c as u32;
    if 0xFF01 <= cp && cp <= 0xFF5E {
        match char::from_u32(cp - 0xFEE0) {
            Some(h) => {
                proof {
                    lemma_char_cast_roundtrip(h);
                    assert(h == spec_normalize_fullwidth(c));
                }
                h
            },
            None => c,
        }
    } else if cp == 0x3000 {
        ' '
    } else {
        c
    }
}

/// The lower-case form of an ASCII letter, other characters unchanged.
pub open spec fn spec_ascii_lower(c: char) -> char {
    let cp = c as u32;
    if 0x41 <= cp && cp <= 0x5A {
        ((cp + 0x20) as u32) as char
    } else {
        c
    }
}

/// Maps an ASCII upper-case letter to lower case.
pub fn ascii_lower(c: char) -> (r: char)
    ensures
        r == spec_ascii_lower(c),
{
    let cp = c as u32;
    if 0x41 <= cp && cp <= 0x5A {
        match char::from_u32(cp + 0x20) {
            Some(l) => {
                proof {
                    lemma_char_cast_roundtrip(l);
                    assert(l == spec_ascii_lower(c));
                }
                l
            },
            None => c,
        }
    } else {
        c
    }
}

/// The sequence lower-cased character by character (ASCII letters only).
pub open spec fn spec_ascii_lower_seq(s: Seq<char>) -> Seq<char> {
    s.map_values(|c: char| spec_ascii_lower(c))
}

/// Lower-cases the ASCII letters of a character vector.
pub fn ascii_lower_chars(v: &Vec<char>) -> (r: Vec<char>)
    ensures
        r@ == spec_ascii_lower_seq(v@),
{
    let mut r: Vec<char> = Vec::new();
    let mut i: usize = 0;
    while i < v.len()
        invariant
            i <= v@.len(),
            r@.len() == i,
            forall|k: int| 0 <= k < i ==> r@[k] == spec_ascii_lower(v@[k]),
        decreases v@.len() - i,
    {
        r.push(ascii_lower(v[i]));
        i = i + 1;
    }
    proof {
        assert(r@ =~= spec_ascii_lower_seq(v@));
    }
    r
}

/// Whether a character vector holds exactly the characters of a string.
pub fn chars_eq_str(v: &Vec<char>, s: &str) -> (r: bool)
    ensures
        r == (v@ == s@),
{
    let n = s.unicode_len();
    if v.len() != n {
        proof {
            assert(v@.len() != s@.len());
        }
        return false;
    }
    let mut i: usize = 0;
    while i < n
        invariant
            n == s@.len() == v@.len(),
            i <= n,
            forall|k: int| 0 <= k < i ==> v@[k] == s@[k],
        decreases n - i,
    {
        if v[i] != s.get_char(i) {
            return false;
        }
        i = i + 1;
    }
    proof {
        assert(v@ =~= s@);
    }
    true
}

/// Whether a character counts as blank for trimming purposes: ASCII
/// whitespace or the ideographic space.
pub open spec fn spec_is_blank(c: char) -> bool {
    c == ' ' || c == '\t' || c == '\n' || c == '\r' || c as u32 == 0x3000
}

fn is_blank(c: char) -> (r: bool)
    ensures
        r == spec_is_blank(c),
{
    c == ' ' || c == '\t' || c == '\n' || c == '\r' || c as u32 == 0x3000
}

/// The sequence with leading and trailing blanks removed: the subrange from
/// the first non-blank character to just past the last one.
pub open spec fn spec_trim(s: Seq<char>) -> Seq<char>
    decreases s.len(),
{
    if s.len() == 0 {
        s
    } else if spec_is_blank(s.first()) {
        spec_trim(s.drop_first())
    } else if spec_is_blank(s.last()) {
        spec_trim(s.drop_last())
    } else {
        s
    }
}

/// The characters of `v` with leading and trailing blanks removed.
pub fn trim_chars(v: &Vec<char>) -> (r: Vec<char>)
    ensures
        r@ == spec_trim(v@),
{
    let mut start: usize = 0;
    let mut end: usize = v.len();
    proof {
        assert(v@.subrange(0, v@.len() as int) =~= v@);
    }
    while start < end && is_blank(v[start])
        invariant
            start <= end <= v@.len(),
            spec_trim(v@) == spec_trim(v@.subrange(start as int, end as int)),
            end == v@.len(),
        decreases end - start,
    {
        proof {
            let t = v@.subrange(start as int, end as int);
            assert(t.drop_first() =~= v@.subrange(start as int + 1, end as int));
        }
        start = start + 1;
    }
    while start < end && is_blank(v[end - 1])
        invariant
            start <= end <= v@.len(),
            spec_trim(v@) == spec_trim(v@.subrange(start as int, end as int)),
            start < end ==> !spec_is_blank(v@[start as int]),
        decreases end - start,
    {
        proof {
            let t = v@.subrange(start as int, end as int);
            assert(t.drop_last() =~= v@.subrange(start as int, end as int - 1));
        }
        end = end - 1;
    }
    let mut r: Vec<char> = Vec::new();
    let mut i: usize = start;
    while i < end
        invariant
            start <= i <= end <= v@.len(),
            r@ == v@.subrange(start as int, i as int),
        decreases end - i,
    {
        r.push(v[i]);
        i = i + 1;
        proof {
            assert(r@ =~= v@.subrange(start as int, i as int));
        }
    }
    proof {
        let t = v@.subrange(start as int, end as int);
        if start < end {
            assert(!spec_is_blank(t.first()));
            assert(!spec_is_blank(t.last()));
            assert(spec_trim(t) == t);
        } else {
            assert(t.len() == 0);
        }
        assert(r@ =~= t);
    }
    r
}

/// Casting a character to its code point and back yields the character.
pub proof fn lemma_char_cast_roundtrip(c: char)
    ensures
        ((c as u32) as char) == c,
{
}

} // verus!
