//! Substring search over byte slices: first occurrence at or after a start
//! offset, last occurrence strictly before an end offset, and all
//! occurrences. Wraparound is a caller-level protocol built on these.

use vstd::prelude::*;

verus! {

/// Whether `pat` occurs in `data` at offset `i`.
pub open spec fn is_match_at(data: Seq<u8>, pat: Seq<u8>, i: int) -> bool {
    0 <= i && i + pat.len() <= data.len() && data.subrange(i, i + pat.len()) == pat
}

/// Whether the bytes of `pat` occur at offset `i` of `data`.
fn match_at(data: &[u8], pat: &[u8], i: usize) -> (r: bool)
    requires
        i + pat@.len() <= data@.len(),
    ensures
        r == is_match_at(data@, pat@, i as int),
{
    let n = data.len();
    let mut k: usize = 0;
    while k < pat.len()
        invariant
            n == data@.len(),
            i + pat@.len() <= data@.len(),
            k <= pat@.len(),
            forall|t: int| 0 <= t < k ==> data@[i + t] == pat@[t],
        decreases pat@.len() - k,
    {
        if data[i + k] != pat[k] {
            proof {
                assert(data@.subrange(i as int, i + pat@.len())[k as int] == data@[i + k]);
            }
            return false;
        }
        k = k + 1;
    }
    proof {
        assert(data@.subrange(i as int, i + pat@.len()) =~= pat@);
    }
    true
}

/// Whether two byte slices hold the same bytes.
pub fn bytes_eq(a: &[u8], b: &[u8]) -> (r: bool)
    ensures
        r == (a@ == b@),
{
    if a.len() != b.len() {
        return false;
    }
    let n = a.len();
    let mut i: usize = 0;
    while i < n
        invariant
            n == a@.len() == b@.len(),
            i <= n,
            forall|t: int| 0 <= t < i ==> a@[t] == b@[t],
        decreases n - i,
    {
        if a[i] != b[i] {
            return false;
        }
        i = i + 1;
    }
    proof {
        assert(a@ =~= b@);
    }
    true
}

/// Finds the first occurrence of `pattern` at or after `start`; `None` when
/// the pattern is empty or does not occur there.
pub fn find_pattern(data: &[u8], pattern: &[u8], start: usize) -> (r: Option<usize>)
    ensures
        pattern@.len() == 0 ==> r is None,
        r matches Some(p) ==> pattern@.len() > 0 && start <= p && is_match_at(
            data@,
            pattern@,
            p as int,
        ) && forall|j: int| start <= j < p ==> !is_match_at(data@, pattern@, j),
        r is None ==> pattern@.len() == 0 || forall|j: int|
            j >= start ==> !is_match_at(data@, pattern@, j),
{
    if pattern.is_empty() || pattern.len() > data.len() || start > data.len() - pattern.len() {
        proof {
            if pattern@.len() > 0 {
                assert(forall|j: int| j >= start ==> !is_match_at(data@, pattern@, j));
            }
        }
        return None;
    }
    let last = data.len() - pattern.len();
    let mut i: usize = start;
    while i <= last
        invariant
            pattern@.len() > 0,
            last == data@.len() - pattern@.len(),
            last < usize::MAX,
            start <= i,
            forall|j: int| start <= j < i ==> !is_match_at(data@, pattern@, j),
        decreases last + 1 - i,
    {
        if match_at(data, pattern, i) {
            return Some(i);
        }
        i = i + 1;
    }
    proof {
        assert(forall|j: int| j > last ==> !is_match_at(data@, pattern@, j));
    }
    None
}

/// Finds the last occurrence of `pattern` that ends at or before
/// `min(end, data.len())`; `None` when the pattern is empty or none fits.
pub fn find_pattern_reverse(data: &[u8], pattern: &[u8], end: usize) -> (r: Option<usize>)
    ensures
        pattern@.len() == 0 ==> r is None,
        r matches Some(p) ==> pattern@.len() > 0 && is_match_at(data@, pattern@, p as int) && p
            + pattern@.len() <= spec_search_end(data@, end as int) && forall|j: int|
            p < j && j + pattern@.len() <= spec_search_end(data@, end as int) ==> !is_match_at(
                data@,
                pattern@,
                j,
            ),
        r is None ==> pattern@.len() == 0 || forall|j: int|
            j + pattern@.len() <= spec_search_end(data@, end as int) ==> !is_match_at(
                data@,
                pattern@,
                j,
            ),
{
    if pattern.is_empty() || end == 0 {
        proof {
            if pattern@.len() > 0 {
                assert(forall|j: int|
                    j + pattern@.len() <= spec_search_end(data@, end as int) ==> !is_match_at(
                        data@,
                        pattern@,
                        j,
                    ));
            }
        }
        return None;
    }
    let search_end = if end < data.len() {
        end
    } else {
        data.len()
    };
    if search_end < pattern.len() {
        return None;
    }
    let mut i: usize = search_end - pattern.len();
    loop
        invariant
            pattern@.len() > 0,
            search_end == spec_search_end(data@, end as int),
            pattern@.len() <= search_end,
            i + pattern@.len() <= search_end,
            forall|j: int|
                i < j && j + pattern@.len() <= search_end ==> !is_match_at(data@, pattern@, j),
        decreases i,
    {
        if match_at(data, pattern, i) {
            return Some(i);
        }
        if i == 0 {
            return None;
        }
        i = i - 1;
    }
}

/// The end of the region a backward search inspects: `min(end, data.len())`.
pub open spec fn spec_search_end(data: Seq<u8>, end: int) -> int {
    if end < data.len() {
        end
    } else {
        data.len() as int
    }
}

/// All offsets at which `pattern` occurs in `data`, in increasing order;
/// empty when the pattern is empty or longer than the data.
pub fn find_all(data: &[u8], pattern: &[u8]) -> (r: Vec<usize>)
    ensures
        pattern@.len() == 0 ==> r@.len() == 0,
        pattern@.len() > 0 ==> forall|p: usize|
            is_match_at(data@, pattern@, p as int) <==> r@.contains(p),
        forall|k1: int, k2: int| 0 <= k1 < k2 < r@.len() ==> r@[k1] < r@[k2],
{
    let mut r: Vec<usize> = Vec::new();
    if pattern.is_empty() || pattern.len() > data.len() {
        proof {
            if pattern@.len() > 0 {
                assert(forall|p: usize| !is_match_at(data@, pattern@, p as int));
                assert(forall|p: usize| !r@.contains(p));
            }
        }
        return r;
    }
    let last = data.len() - pattern.len();
    let mut i: usize = 0;
    while i <= last
        invariant
            pattern@.len() > 0,
            last == data@.len() - pattern@.len(),
            last < usize::MAX,
            i <= last + 1,
            forall|p: usize| #![auto] p < i && is_match_at(data@, pattern@, p as int)
                ==> r@.contains(p),
            forall|k: int| #![auto] 0 <= k < r@.len() ==> r@[k] < i && is_match_at(
                data@,
                pattern@,
                r@[k] as int,
            ),
            forall|k1: int, k2: int| 0 <= k1 < k2 < r@.len() ==> r@[k1] < r@[k2],
        decreases last + 1 - i,
    {
        let ghost old_r = r@;
        if match_at(data, pattern, i) {
            r.push(i);
            proof {
                assert forall|p: usize| #![auto]
                    p < i + 1 && is_match_at(data@, pattern@, p as int) implies r@.contains(
                    p,
                ) by {
                    if p == i {
                        assert(r@[r@.len() - 1] == p);
                    } else {
                        assert(p < i);
                        assert(old_r.contains(p));
                        let k = choose|k: int| 0 <= k < old_r.len() && old_r[k] == p;
                        assert(r@ == old_r.push(i));
                        assert(old_r.push(i)[k] == old_r[k]);
                        assert(r@[k] == p);
                    }
                }
            }
        } else {
            proof {
                assert forall|p: usize| #![auto]
                    p < i + 1 && is_match_at(data@, pattern@, p as int) implies r@.contains(
                    p,
                ) by {
                    assert(!is_match_at(data@, pattern@, i as int));
                    assert(p < i);
                    assert(old_r.contains(p));
                    let k = choose|k: int| 0 <= k < old_r.len() && old_r[k] == p;
                    assert(r@[k] == p);
                }
            }
        }
        i = i + 1;
    }
    proof {
        assert(forall|p: usize| #![auto] is_match_at(data@, pattern@, p as int) ==> p <= last);
    }
    r
}

} // verus!
