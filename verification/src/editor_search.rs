//! Incremental search, find next/previous with wraparound, and the
//! interactive query-replace automaton.

use vstd::prelude::*;
use crate::editor::{
    spec_goto_scrolled, spec_scroll_offset, App, AppView, Effect, ModeKey, ReplaceMode, StatusMsg,
};
use crate::editor_edit::{
    lemma_del_desc, lemma_del_desc_data, lemma_ins_bytes, lemma_ins_bytes_data, spec_del_desc,
    spec_ins_bytes, spec_pattern_bytes,
};
use crate::search::{find_pattern, find_pattern_reverse, is_match_at, spec_search_end};
use vstd::string::StrSliceExecFns;

verus! {

/// The offset of the first occurrence of `pat` at or after `start`.
pub open spec fn spec_find_first(data: Seq<u8>, pat: Seq<u8>, start: int) -> Option<int>
    decreases data.len() + 1 - start,
{
    if start < 0 {
        None
    } else if start + pat.len() > data.len() {
        None
    } else if is_match_at(data, pat, start) {
        Some(start)
    } else {
        spec_find_first(data, pat, start + 1)
    }
}

/// The offset of the last occurrence of `pat` starting at or below `from`.
pub open spec fn spec_find_last_from(data: Seq<u8>, pat: Seq<u8>, from: int) -> Option<int>
    decreases from + 1,
{
    if from < 0 {
        None
    } else if is_match_at(data, pat, from) {
        Some(from)
    } else {
        spec_find_last_from(data, pat, from - 1)
    }
}

/// A first-match characterization pins down `spec_find_first`.
pub proof fn lemma_find_first_of_match(data: Seq<u8>, pat: Seq<u8>, start: int, pos: int)
    requires
        0 <= start <= pos,
        is_match_at(data, pat, pos),
        forall|j: int| start <= j < pos ==> !is_match_at(data, pat, j),
    ensures
        spec_find_first(data, pat, start) == Some(pos),
    decreases pos - start,
{
    if start < pos {
        lemma_find_first_of_match(data, pat, start + 1, pos);
    }
}

/// Absence of matches pins `spec_find_first` to `None`.
pub proof fn lemma_find_first_of_no_match(data: Seq<u8>, pat: Seq<u8>, start: int)
    requires
        0 <= start,
        forall|j: int| j >= start ==> !is_match_at(data, pat, j),
    ensures
        spec_find_first(data, pat, start) is None,
    decreases data.len() + 1 - start,
{
    if start + pat.len() <= data.len() {
        lemma_find_first_of_no_match(data, pat, start + 1);
    }
}

/// What a found offset satisfies: in range, matching, and first.
pub proof fn lemma_find_first_some(data: Seq<u8>, pat: Seq<u8>, start: int)
    requires
        0 <= start,
        spec_find_first(data, pat, start) is Some,
    ensures
        ({
            let pos = spec_find_first(data, pat, start)->0;
            &&& start <= pos
            &&& pos + pat.len() <= data.len()
            &&& is_match_at(data, pat, pos)
        }),
    decreases data.len() + 1 - start,
{
    if start + pat.len() <= data.len() && !is_match_at(data, pat, start) {
        lemma_find_first_some(data, pat, start + 1);
    }
}

/// A last-match characterization pins down `spec_find_last_from`.
pub proof fn lemma_find_last_of_match(data: Seq<u8>, pat: Seq<u8>, from: int, pos: int)
    requires
        pos <= from,
        is_match_at(data, pat, pos),
        forall|j: int| pos < j <= from ==> !is_match_at(data, pat, j),
    ensures
        spec_find_last_from(data, pat, from) == Some(pos),
    decreases from - pos,
{
    if pos < from {
        lemma_find_last_of_match(data, pat, from - 1, pos);
    }
}

/// Absence of matches at or below `from` pins `spec_find_last_from` to
/// `None`.
pub proof fn lemma_find_last_of_no_match(data: Seq<u8>, pat: Seq<u8>, from: int)
    requires
        forall|j: int| j <= from ==> !is_match_at(data, pat, j),
    ensures
        spec_find_last_from(data, pat, from) is None,
    decreases from + 1,
{
    if from >= 0 {
        lemma_find_last_of_no_match(data, pat, from - 1);
    }
}

/// The search pattern of the live query, or of the remembered one when the
/// live query is empty and a remembered one exists.
pub open spec fn spec_effective_query(v: AppView) -> Seq<char> {
    if v.search_query.len() == 0 && v.last_search_query.len() > 0 {
        v.last_search_query
    } else {
        v.search_query
    }
}

/// The transition of "find next": search forward from one past the cursor,
/// wrapping to the start and accepting a wrapped hit only before the
/// original start; an empty pattern does nothing.
pub open spec fn spec_find_next(v: AppView) -> AppView {
    let pat = spec_pattern_bytes(v.search_query);
    if pat.len() == 0 {
        v
    } else {
        let start = v.cursor + 1;
        match spec_find_first(v.doc.data, pat, start) {
            Some(pos) => AppView {
                status: Some(StatusMsg::FoundAt(pos as usize)),
                ..spec_goto_scrolled(v, pos)
            },
            None => match spec_find_first(v.doc.data, pat, 0) {
                Some(pos) => if pos < start {
                    AppView {
                        status: Some(StatusMsg::WrappedFoundAt(pos as usize)),
                        ..spec_goto_scrolled(v, pos)
                    }
                } else {
                    AppView { status: Some(StatusMsg::NotFound), ..v }
                },
                None => AppView { status: Some(StatusMsg::NotFound), ..v },
            },
        }
    }
}

/// The transition of "find previous": search backward from just before the
/// cursor, wrapping to the end and accepting a wrapped hit only after the
/// original position; an empty pattern does nothing.
pub open spec fn spec_find_prev(v: AppView) -> AppView {
    let pat = spec_pattern_bytes(v.search_query);
    if pat.len() == 0 {
        v
    } else {
        let last1 = spec_search_end(v.doc.data, v.cursor) - pat.len();
        match (if v.cursor == 0 {
            None
        } else {
            spec_find_last_from(v.doc.data, pat, last1)
        }) {
            Some(pos) => AppView {
                status: Some(StatusMsg::FoundAt(pos as usize)),
                ..spec_goto_scrolled(v, pos)
            },
            None => {
                let last2 = v.doc.data.len() - pat.len();
                match spec_find_last_from(v.doc.data, pat, last2) {
                    Some(pos) => if pos > v.cursor {
                        AppView {
                            status: Some(StatusMsg::WrappedFoundAt(pos as usize)),
                            ..spec_goto_scrolled(v, pos)
                        }
                    } else {
                        AppView { status: Some(StatusMsg::NotFound), ..v }
                    },
                    None => AppView { status: Some(StatusMsg::NotFound), ..v },
                }
            },
        }
    }
}

/// The transition of one incremental-search step: seek from the search
/// anchor, wrapping to the start; an empty pattern does nothing.
pub open spec fn spec_incremental_search(v: AppView) -> AppView {
    let pat = spec_pattern_bytes(v.search_query);
    if pat.len() == 0 {
        v
    } else {
        match spec_find_first(v.doc.data, pat, v.search_start_pos) {
            Some(pos) => spec_goto_scrolled(v, pos),
            None => match spec_find_first(v.doc.data, pat, 0) {
                Some(pos) => spec_goto_scrolled(v, pos),
                None => v,
            },
        }
    }
}

/// The transition of seeking the next match during query-replace: the
/// cursor lands on the match and a decision is requested, or the mode ends.
pub open spec fn spec_find_next_for_replace(v: AppView) -> AppView {
    let pat = spec_pattern_bytes(v.search_query);
    if pat.len() == 0 {
        AppView { replace_mode: ReplaceMode::Off, ..v }
    } else {
        match spec_find_first(v.doc.data, pat, v.cursor) {
            Some(pos) => AppView {
                status: Some(StatusMsg::ReplacePrompt(pos as usize)),
                ..spec_goto_scrolled(v, pos)
            },
            None => AppView {
                replace_mode: ReplaceMode::Off,
                status: Some(StatusMsg::NoMoreMatches),
                ..v
            },
        }
    }
}

/// The transition of replacing the match under the cursor: only when the
/// bytes there still equal the search pattern are they deleted (highest
/// offset first) and the replacement inserted, the cursor landing after it.
pub open spec fn spec_replace_current(v: AppView) -> AppView {
    let from = spec_pattern_bytes(v.search_query);
    let to = spec_pattern_bytes(v.replace_with);
    if from.len() == 0 {
        v
    } else if v.cursor + from.len() <= v.doc.data.len() && v.doc.data.subrange(
        v.cursor,
        v.cursor + from.len(),
    ) == from {
        let doc1 = spec_del_desc(v.doc, v.cursor, from.len());
        let doc2 = spec_ins_bytes(doc1, v.cursor, to);
        AppView { doc: doc2, cursor: v.cursor + to.len(), ..v }
    } else {
        v
    }
}

/// The bytes, cursor and replacement count after replacing every match of
/// `from` at or after `cursor` with `to`, each search resuming just past
/// the inserted replacement.
pub open spec fn spec_replace_all(
    data: Seq<u8>,
    from: Seq<u8>,
    to: Seq<u8>,
    cursor: int,
    count: nat,
) -> (Seq<u8>, int, nat)
    decreases data.len() - cursor,
    when from.len() >= 1 && 0 <= cursor <= data.len()
    via spec_replace_all_dec
{
    match spec_find_first(data, from, cursor) {
        None => (data, cursor, count),
        Some(pos) => {
            let data2 = data.subrange(0, pos) + to + data.subrange(
                pos + from.len(),
                data.len() as int,
            );
            spec_replace_all(data2, from, to, pos + to.len(), (count + 1) as nat)
        },
    }
}

#[via_fn]
proof fn spec_replace_all_dec(data: Seq<u8>, from: Seq<u8>, to: Seq<u8>, cursor: int, count: nat) {
    match spec_find_first(data, from, cursor) {
        Some(pos) => {
            lemma_find_first_some(data, from, cursor);
        },
        None => {},
    }
}

impl App {
    /// The pattern a query denotes, under the uniform hex-or-literal rule.
    pub(crate) fn chars_to_pattern(q: &Vec<char>) -> (r: Vec<u8>)
        ensures
            r@ == spec_pattern_bytes(q@),
    {
        let s = crate::text::string_from_chars(q);
        if crate::hexparse::looks_like_hex(s.as_str()) {
            match crate::hexparse::normalized_hex_to_bytes(s.as_str()) {
                Some(b) => b,
                None => s.as_str().as_bytes_vec(),
            }
        } else {
            s.as_str().as_bytes_vec()
        }
    }

    /// The live search query converted to pattern bytes.
    pub fn search_query_to_bytes(&self) -> (r: Vec<u8>)
        ensures
            r@ == spec_pattern_bytes(self@.search_query),
    {
        Self::chars_to_pattern(&self.search_query)
    }

    /// The replacement text converted to pattern bytes.
    pub fn replace_with_to_bytes(&self) -> (r: Vec<u8>)
        ensures
            r@ == spec_pattern_bytes(self@.replace_with),
    {
        Self::chars_to_pattern(&self.replace_with)
    }

    /// Seeks the next occurrence of the query after the cursor, wrapping.
    #[verifier::rlimit(100)]
    pub fn find_next(&mut self)
        requires
            old(self)@.wf(),
        ensures
            final(self)@.wf(),
            final(self)@ == spec_find_next(old(self)@),
    {
        let pattern = self.search_query_to_bytes();
        if pattern.is_empty() {
            return ;
        }
        proof {
            self.document.lemma_len_bound();
        }
        let start = self.cursor.saturating_add(1);
        let ghost gstart = old(self)@.cursor + 1;
        let ghost data = self@.doc.data;
        let ghost pat = pattern@;
        let r1 = find_pattern(self.document.data(), pattern.as_slice(), start);
        match r1 {
            Some(pos) => {
                proof {
                    lemma_find_first_of_match(data, pat, gstart, pos as int);
                }
                self.cursor = pos;
                self.ensure_cursor_visible();
                self.status = Some(StatusMsg::FoundAt(pos));
                proof {
                    assert(final(self)@ =~= spec_find_next(old(self)@));
                }
            },
            None => {
                proof {
                    lemma_find_first_of_no_match(data, pat, gstart);
                }
                let r2 = find_pattern(self.document.data(), pattern.as_slice(), 0);
                match r2 {
                    Some(pos) => {
                        proof {
                            lemma_find_first_of_match(data, pat, 0, pos as int);
                        }
                        if pos < start {
                            self.cursor = pos;
                            self.ensure_cursor_visible();
                            self.status = Some(StatusMsg::WrappedFoundAt(pos));
                            proof {
                                assert(final(self)@ =~= spec_find_next(old(self)@));
                            }
                        } else {
                            self.status = Some(StatusMsg::NotFound);
                            proof {
                                assert(final(self)@ =~= spec_find_next(old(self)@));
                            }
                        }
                    },
                    None => {
                        proof {
                            lemma_find_first_of_no_match(data, pat, 0);
                        }
                        self.status = Some(StatusMsg::NotFound);
                        proof {
                            assert(final(self)@ =~= spec_find_next(old(self)@));
                        }
                    },
                }
            },
        }
    }

    /// Seeks the previous occurrence of the query before the cursor,
    /// wrapping from the end.
    #[verifier::rlimit(100)]
    pub fn find_prev(&mut self)
        requires
            old(self)@.wf(),
        ensures
            final(self)@.wf(),
            final(self)@ == spec_find_prev(old(self)@),
    {
        let pattern = self.search_query_to_bytes();
        if pattern.is_empty() {
            return ;
        }
        proof {
            self.document.lemma_len_bound();
        }
        let ghost data = self@.doc.data;
        let ghost pat = pattern@;
        let end = self.cursor;
        let r1 = find_pattern_reverse(self.document.data(), pattern.as_slice(), end);
        proof {
            let last1 = spec_search_end(data, end as int) - pat.len();
            match r1 {
                Some(pos) => {
                    assert(forall|j: int|
                        pos < j <= last1 ==> !is_match_at(data, pat, j));
                    lemma_find_last_of_match(data, pat, last1, pos as int);
                    assert(end != 0);
                },
                None => {
                    if end != 0 {
                        assert(forall|j: int| j <= last1 ==> !is_match_at(data, pat, j));
                        lemma_find_last_of_no_match(data, pat, last1);
                    }
                },
            }
        }
        match r1 {
            Some(pos) => {
                self.cursor = pos;
                self.ensure_cursor_visible();
                self.status = Some(StatusMsg::FoundAt(pos));
                proof {
                    assert(final(self)@ =~= spec_find_prev(old(self)@));
                }
            },
            None => {
                let dl = self.document.len();
                let r2 = find_pattern_reverse(self.document.data(), pattern.as_slice(), dl);
                proof {
                    let last2 = data.len() - pat.len();
                    assert(spec_search_end(data, dl as int) == data.len() as int);
                    match r2 {
                        Some(pos) => {
                            assert(forall|j: int|
                                pos < j <= last2 ==> !is_match_at(data, pat, j));
                            lemma_find_last_of_match(data, pat, last2, pos as int);
                        },
                        None => {
                            assert(forall|j: int| j <= last2 ==> !is_match_at(data, pat, j));
                            lemma_find_last_of_no_match(data, pat, last2);
                        },
                    }
                }
                match r2 {
                    Some(pos) => {
                        if pos > end {
                            self.cursor = pos;
                            self.ensure_cursor_visible();
                            self.status = Some(StatusMsg::WrappedFoundAt(pos));
                            proof {
                                assert(final(self)@ =~= spec_find_prev(old(self)@));
                            }
                        } else {
                            self.status = Some(StatusMsg::NotFound);
                            proof {
                                assert(final(self)@ =~= spec_find_prev(old(self)@));
                            }
                        }
                    },
                    None => {
                        self.status = Some(StatusMsg::NotFound);
                        proof {
                            assert(final(self)@ =~= spec_find_prev(old(self)@));
                        }
                    },
                }
            },
        }
    }

    /// Recomputes the incremental-search hit for the current query, seeking
    /// from the search anchor and wrapping to the start.
    #[verifier::rlimit(100)]
    pub fn do_incremental_search(&mut self)
        requires
            old(self)@.wf(),
        ensures
            final(self)@.wf(),
            final(self)@ == spec_incremental_search(old(self)@),
    {
        let pattern = self.search_query_to_bytes();
        if pattern.is_empty() {
            return ;
        }
        proof {
            self.document.lemma_len_bound();
        }
        let ghost data = self@.doc.data;
        let ghost pat = pattern@;
        let r1 = find_pattern(self.document.data(), pattern.as_slice(), self.search_start_pos);
        match r1 {
            Some(pos) => {
                proof {
                    lemma_find_first_of_match(
                        data,
                        pat,
                        old(self)@.search_start_pos,
                        pos as int,
                    );
                }
                self.cursor = pos;
                self.ensure_cursor_visible();
                proof {
                    assert(final(self)@ =~= spec_incremental_search(old(self)@));
                }
            },
            None => {
                proof {
                    lemma_find_first_of_no_match(data, pat, old(self)@.search_start_pos);
                }
                let r2 = find_pattern(self.document.data(), pattern.as_slice(), 0);
                match r2 {
                    Some(pos) => {
                        proof {
                            lemma_find_first_of_match(data, pat, 0, pos as int);
                        }
                        self.cursor = pos;
                        self.ensure_cursor_visible();
                        proof {
                            assert(final(self)@ =~= spec_incremental_search(old(self)@));
                        }
                    },
                    None => {
                        proof {
                            lemma_find_first_of_no_match(data, pat, 0);
                            assert(final(self)@ =~= spec_incremental_search(old(self)@));
                        }
                    },
                }
            },
        }
    }

    /// Seeks the next match during query-replace: the cursor lands on it
    /// and a decision is requested, or the mode ends.
    #[verifier::rlimit(100)]
    pub fn find_next_for_replace(&mut self)
        requires
            old(self)@.wf(),
        ensures
            final(self)@.wf(),
            final(self)@ == spec_find_next_for_replace(old(self)@),
    {
        let pattern = self.search_query_to_bytes();
        if pattern.is_empty() {
            self.replace_mode = ReplaceMode::Off;
            proof {
                assert(final(self)@ =~= spec_find_next_for_replace(old(self)@));
            }
            return ;
        }
        let ghost data = self@.doc.data;
        let ghost pat = pattern@;
        let r = find_pattern(self.document.data(), pattern.as_slice(), self.cursor);
        match r {
            Some(pos) => {
                proof {
                    lemma_find_first_of_match(data, pat, old(self)@.cursor, pos as int);
                }
                self.cursor = pos;
                self.ensure_cursor_visible();
                self.status = Some(StatusMsg::ReplacePrompt(pos));
                proof {
                    assert(final(self)@ =~= spec_find_next_for_replace(old(self)@));
                }
            },
            None => {
                proof {
                    lemma_find_first_of_no_match(data, pat, old(self)@.cursor);
                }
                self.replace_mode = ReplaceMode::Off;
                self.status = Some(StatusMsg::NoMoreMatches);
                proof {
                    assert(final(self)@ =~= spec_find_next_for_replace(old(self)@));
                }
            },
        }
    }

    /// Replaces the match under the cursor, when the bytes there still
    /// equal the search pattern, and advances past the replacement.
    #[verifier::rlimit(100)]
    pub fn do_replace_current(&mut self)
        requires
            old(self)@.wf(),
        ensures
            final(self)@.wf(),
            final(self)@ == spec_replace_current(old(self)@),
    {
        let from_bytes = self.search_query_to_bytes();
        let to_bytes = self.replace_with_to_bytes();
        if from_bytes.is_empty() {
            proof {
                assert(final(self)@ =~= spec_replace_current(old(self)@));
            }
            return ;
        }
        let flen = from_bytes.len();
        let dl = self.document.len();
        if self.cursor >= dl || flen > dl - self.cursor {
            proof {
                assert(final(self)@ =~= spec_replace_current(old(self)@));
            }
            return ;
        }
        let matches_here = match self.document.get_range(self.cursor, self.cursor + flen) {
            Some(window) => crate::search::bytes_eq(window, from_bytes.as_slice()),
            None => false,
        };
        if matches_here {
            let start = self.cursor;
            self.del_range_desc(start, start + flen - 1);
            proof {
                lemma_del_desc_data(old(self)@.doc, start as int, flen as nat);
            }
            self.ins_bytes_at(start, &to_bytes);
            proof {
                self.document.lemma_len_bound();
            }
            self.cursor = start + to_bytes.len();
            proof {
                assert(final(self)@ =~= spec_replace_current(old(self)@));
            }
        } else {
            proof {
                assert(final(self)@ =~= spec_replace_current(old(self)@));
            }
        }
    }

    /// Replaces every remaining match from the cursor on, reporting how
    /// many were replaced, and ends query-replace.
    #[verifier::rlimit(100)]
    pub fn do_replace_all_remaining(&mut self)
        requires
            old(self)@.wf(),
        ensures
            final(self)@.wf(),
            ({
                let from = spec_pattern_bytes(old(self)@.search_query);
                let to = spec_pattern_bytes(old(self)@.replace_with);
                if from.len() == 0 {
                    final(self)@ == (AppView {
                        replace_mode: ReplaceMode::Off,
                        status: Some(StatusMsg::ReplacedCount(0)),
                        ..old(self)@
                    })
                } else {
                    let r = spec_replace_all(old(self)@.doc.data, from, to, old(self)@.cursor, 0);
                    &&& final(self)@.doc.data == r.0
                    &&& final(self)@.cursor == r.1
                    &&& final(self)@.doc.readonly == old(self)@.doc.readonly
                    &&& final(self)@.doc.path == old(self)@.doc.path
                    &&& final(self)@ == (AppView {
                        doc: final(self)@.doc,
                        cursor: final(self)@.cursor,
                        replace_mode: ReplaceMode::Off,
                        status: Some(StatusMsg::ReplacedCount(r.2 as usize)),
                        ..old(self)@
                    })
                }
            }),
    {
        let from_bytes = self.search_query_to_bytes();
        let to_bytes = self.replace_with_to_bytes();
        let mut count: usize = 0;
        let ghost from_s = from_bytes@;
        let ghost to_s = to_bytes@;
        let ghost v0 = old(self)@;
        if from_bytes.is_empty() {
            self.replace_mode = ReplaceMode::Off;
            self.status = Some(StatusMsg::ReplacedCount(0));
            proof {
                assert(final(self)@ =~= (AppView {
                    replace_mode: ReplaceMode::Off,
                    status: Some(StatusMsg::ReplacedCount(0)),
                    ..old(self)@
                }));
            }
            return ;
        }
        proof {
            self.document.lemma_len_bound();
            assert(v0.doc.data.len() <= usize::MAX);
        }
        let mut done = false;
        while !done
            invariant
                from_s.len() >= 1,
                from_bytes@ == from_s,
                to_bytes@ == to_s,
                from_s == spec_pattern_bytes(v0.search_query),
                to_s == spec_pattern_bytes(v0.replace_with),
                v0.doc.data.len() <= usize::MAX,
                v0 == old(self)@,
                v0.wf(),
                self@.wf(),
                count + (self@.doc.data.len() - self@.cursor) <= v0.doc.data.len()
                    - v0.cursor,
                self@ == (AppView { doc: self@.doc, cursor: self@.cursor, ..v0 }),
                self@.doc.readonly == v0.doc.readonly,
                self@.doc.path == v0.doc.path,
                spec_replace_all(v0.doc.data, from_s, to_s, v0.cursor, 0) == spec_replace_all(
                    self@.doc.data,
                    from_s,
                    to_s,
                    self@.cursor,
                    count as nat,
                ),
                done ==> spec_find_first(self@.doc.data, from_s, self@.cursor) is None,
            decreases self@.doc.data.len() - self@.cursor + (if done {
                0int
            } else {
                1int
            }),
        {
            let ghost d_i = self@.doc.data;
            let ghost c_i = self@.cursor;
            proof {
                self.document.lemma_len_bound();
            }
            let r = find_pattern(self.document.data(), from_bytes.as_slice(), self.cursor);
            match r {
                Some(pos) => {
                    proof {
                        lemma_find_first_of_match(d_i, from_s, c_i, pos as int);
                    }
                    self.cursor = pos;
                    let ghost v_pre = self@;
                    self.do_replace_current();
                    proof {
                        assert(v_pre.search_query == v0.search_query);
                        assert(spec_pattern_bytes(v_pre.search_query) == from_s);
                        assert(spec_pattern_bytes(v_pre.replace_with) == to_s);
                        assert(v_pre.doc.data.subrange(pos as int, pos + from_s.len())
                            == from_s);
                        assert(self@ == spec_replace_current(v_pre));
                        lemma_del_desc(v_pre.doc, pos as int, from_s.len());
                        lemma_del_desc_data(v_pre.doc, pos as int, from_s.len());
                        let dmid = spec_del_desc(v_pre.doc, pos as int, from_s.len());
                        assert(pos <= dmid.data.len());
                        lemma_ins_bytes(dmid, pos as int, to_s);
                        lemma_ins_bytes_data(dmid, pos as int, to_s);
                        assert(self@.cursor == pos + to_s.len());
                        assert(self@.doc.data =~= d_i.subrange(0, pos as int) + to_s
                            + d_i.subrange(pos + from_s.len(), d_i.len() as int));
                        assert(spec_replace_all(d_i, from_s, to_s, c_i, count as nat)
                            == spec_replace_all(
                            self@.doc.data,
                            from_s,
                            to_s,
                            self@.cursor,
                            (count + 1) as nat,
                        ));
                        assert(self@.doc.data.len() - self@.cursor < d_i.len() - c_i);
                        assert(count + 1 <= v0.doc.data.len() - v0.cursor);
                        assert(v0.doc.data.len() <= usize::MAX);
                    }
                    count = count + 1;
                },
                None => {
                    proof {
                        lemma_find_first_of_no_match(d_i, from_s, c_i);
                    }
                    done = true;
                },
            }
        }
        self.replace_mode = ReplaceMode::Off;
        self.status = Some(StatusMsg::ReplacedCount(count));
        proof {
            assert(spec_replace_all(final(self)@.doc.data, from_s, to_s, final(self)@.cursor,
                count as nat) == (final(self)@.doc.data, final(self)@.cursor, count as nat));
        }
    }

    /// Leaves an elevated mode, restoring the cursor to the search anchor.
    fn cancel_to_anchor(&mut self)
        requires
            old(self)@.wf(),
        ensures
            final(self)@.wf(),
            final(self)@ == spec_cancel_to_anchor(old(self)@),
    {
        let dl = self.document.len();
        self.cursor = if self.search_start_pos < dl {
            self.search_start_pos
        } else {
            dl
        };
        self.ensure_cursor_visible();
        self.status = Some(StatusMsg::Cancelled);
        proof {
            assert(final(self)@ =~= spec_cancel_to_anchor(old(self)@));
        }
    }

    /// Handles one key press while incremental search is active.
    pub fn handle_search_key(&mut self, k: ModeKey)
        requires
            old(self)@.wf(),
        ensures
            final(self)@.wf(),
            final(self)@ == spec_handle_search_key(old(self)@, k),
    {
        match k {
            ModeKey::Esc | ModeKey::Enter | ModeKey::Del => self.search_key_plain(k),
            ModeKey::CtrlChr(_) => self.search_key_ctrl(k),
            ModeKey::Chr(_) | ModeKey::Backspace => self.search_key_edit(k),
        }
    }

    /// The search-mode keys that leave the query alone: accept, cancel, and
    /// the ignored delete key.
    #[verifier::rlimit(100)]
    fn search_key_plain(&mut self, k: ModeKey)
        requires
            old(self)@.wf(),
            k is Esc || k is Enter || k is Del,
        ensures
            final(self)@.wf(),
            final(self)@ == spec_handle_search_key(old(self)@, k),
    {
        match k {
            ModeKey::Esc => {
                self.search_mode = false;
                self.cancel_to_anchor();
                proof {
                    assert(final(self)@ =~= spec_handle_search_key(old(self)@, k));
                }
            },
            ModeKey::Enter => {
                self.search_mode = false;
                if !self.search_query.is_empty() {
                    self.last_search_query = self.search_query.clone();
                    self.status = Some(StatusMsg::SearchCommitted);
                } else {
                    self.status = Some(StatusMsg::SearchCancelled);
                }
                proof {
                    assert(final(self)@ =~= spec_handle_search_key(old(self)@, k));
                }
            },
            _ => {
                proof {
                    assert(final(self)@ =~= spec_handle_search_key(old(self)@, k));
                }
            },
        }
    }

    /// The control-modified search-mode keys: cancel, repeat forward, and
    /// repeat backward (reusing the remembered query when the live one is
    /// empty).
    #[verifier::rlimit(100)]
    #[verifier::spinoff_prover]
    fn search_key_ctrl(&mut self, k: ModeKey)
        requires
            old(self)@.wf(),
            k is CtrlChr,
        ensures
            final(self)@.wf(),
            final(self)@ == spec_handle_search_key(old(self)@, k),
    {
        match k {
            ModeKey::CtrlChr(c) => {
                if c == 'g' {
                    self.search_mode = false;
                    self.cancel_to_anchor();
                } else if c == 's' {
                    if self.search_query.is_empty() && !self.last_search_query.is_empty() {
                        self.search_query = self.last_search_query.clone();
                    }
                    self.find_next();
                } else if c == 'r' {
                    if self.search_query.is_empty() && !self.last_search_query.is_empty() {
                        self.search_query = self.last_search_query.clone();
                    }
                    self.find_prev();
                }
                proof {
                    assert(final(self)@ =~= spec_handle_search_key(old(self)@, k));
                }
            },
            _ => (),
        }
    }

    /// The query-editing search-mode keys: a typed character or backspace,
    /// each followed by an incremental re-search.
    #[verifier::rlimit(100)]
    #[verifier::spinoff_prover]
    fn search_key_edit(&mut self, k: ModeKey)
        requires
            old(self)@.wf(),
            k is Chr || k is Backspace,
        ensures
            final(self)@.wf(),
            final(self)@ == spec_handle_search_key(old(self)@, k),
    {
        match k {
            ModeKey::Backspace => {
                let _ = self.search_query.pop();
                if self.search_query.is_empty() {
                    let dl = self.document.len();
                    self.cursor = if self.search_start_pos < dl {
                        self.search_start_pos
                    } else {
                        dl
                    };
                    self.ensure_cursor_visible();
                    proof {
                        assert(final(self)@ =~= spec_handle_search_key(old(self)@, k));
                    }
                } else {
                    self.do_incremental_search();
                    proof {
                        assert(final(self)@ =~= spec_handle_search_key(old(self)@, k));
                    }
                }
            },
            ModeKey::Chr(c) => {
                self.search_query.push(c);
                self.do_incremental_search();
                proof {
                    assert(final(self)@ =~= spec_handle_search_key(old(self)@, k));
                }
            },
            _ => (),
        }
    }

    /// Handles one key press while query-replace is active.
    #[verifier::rlimit(100)]
    #[verifier::spinoff_prover]
    pub fn handle_replace_key(&mut self, k: ModeKey)
        requires
            old(self)@.wf(),
        ensures
            final(self)@.wf(),
            old(self)@.replace_mode is EnteringSearch ==> final(self)@
                == spec_replace_key_entering_search(old(self)@, k),
            old(self)@.replace_mode is EnteringReplace ==> final(self)@
                == spec_replace_key_entering_replace(old(self)@, k),
            old(self)@.replace_mode is Off ==> final(self)@ == old(self)@,
            old(self)@.replace_mode is Confirming ==> spec_replace_key_confirming(
                old(self)@,
                final(self)@,
                k,
            ),
    {
        match self.replace_mode {
            ReplaceMode::EnteringSearch => {
                match k {
                    ModeKey::Esc => {
                        self.replace_mode = ReplaceMode::Off;
                        self.cancel_to_anchor();
                    },
                    ModeKey::CtrlChr(c) => {
                        if c == 'g' {
                            self.replace_mode = ReplaceMode::Off;
                            self.cancel_to_anchor();
                        }
                    },
                    ModeKey::Enter => {
                        if self.search_query.is_empty() {
                            self.replace_mode = ReplaceMode::Off;
                            self.status = Some(StatusMsg::EmptySearchPattern);
                        } else {
                            self.replace_mode = ReplaceMode::EnteringReplace;
                        }
                    },
                    ModeKey::Backspace => {
                        let _ = self.search_query.pop();
                    },
                    ModeKey::Chr(c) => {
                        self.search_query.push(c);
                    },
                    ModeKey::Del => (),
                }
                proof {
                    assert(final(self)@ =~= spec_replace_key_entering_search(old(self)@, k));
                }
            },
            ReplaceMode::EnteringReplace => {
                match k {
                    ModeKey::Esc => {
                        self.replace_mode = ReplaceMode::Off;
                        self.cancel_to_anchor();
                    },
                    ModeKey::CtrlChr(c) => {
                        if c == 'g' {
                            self.replace_mode = ReplaceMode::Off;
                            self.cancel_to_anchor();
                        }
                    },
                    ModeKey::Enter => {
                        self.replace_mode = ReplaceMode::Confirming;
                        self.find_next_for_replace();
                    },
                    ModeKey::Backspace => {
                        let _ = self.replace_with.pop();
                    },
                    ModeKey::Chr(c) => {
                        self.replace_with.push(c);
                    },
                    ModeKey::Del => (),
                }
                proof {
                    assert(final(self)@ =~= spec_replace_key_entering_replace(old(self)@, k));
                }
            },
            ReplaceMode::Confirming => {
                let norm = match k {
                    ModeKey::Chr(c) => ModeKey::Chr(crate::text::normalize_fullwidth(c)),
                    other => other,
                };
                match norm {
                    ModeKey::Chr(c) => {
                        if c == 'y' || c == 'Y' || c == ' ' {
                            self.do_replace_current();
                            self.find_next_for_replace();
                        } else if c == 'n' || c == 'N' {
                            self.find_next_for_replace();
                        } else if c == '!' {
                            self.do_replace_all_remaining();
                        } else if c == 'q' || c == 'Q' {
                            self.replace_mode = ReplaceMode::Off;
                            self.status = Some(StatusMsg::ReplaceFinished);
                        }
                    },
                    ModeKey::Del => {
                        self.find_next_for_replace();
                    },
                    ModeKey::Esc => {
                        self.replace_mode = ReplaceMode::Off;
                        self.status = Some(StatusMsg::ReplaceFinished);
                    },
                    ModeKey::CtrlChr(c) => {
                        if c == 'g' {
                            self.replace_mode = ReplaceMode::Off;
                            self.status = Some(StatusMsg::ReplaceFinished);
                        }
                    },
                    _ => (),
                }
            },
            ReplaceMode::Off => (),
        }
    }
}

/// The cursor restored to the search anchor (clamped into the buffer), the
/// viewport following, and a cancellation reported.
pub open spec fn spec_cancel_to_anchor(v: AppView) -> AppView {
    let c = if v.search_start_pos < v.doc.data.len() {
        v.search_start_pos
    } else {
        v.doc.data.len() as int
    };
    AppView { status: Some(StatusMsg::Cancelled), ..spec_goto_scrolled(v, c) }
}

/// The transition of one key press during incremental search.
pub open spec fn spec_handle_search_key(v: AppView, k: ModeKey) -> AppView {
    match k {
        ModeKey::Esc => spec_cancel_to_anchor(AppView { search_mode: false, ..v }),
        ModeKey::CtrlChr(c) => {
            if c == 'g' {
                spec_cancel_to_anchor(AppView { search_mode: false, ..v })
            } else if c == 's' {
                spec_find_next(AppView { search_query: spec_effective_query(v), ..v })
            } else if c == 'r' {
                spec_find_prev(AppView { search_query: spec_effective_query(v), ..v })
            } else {
                v
            }
        },
        ModeKey::Enter => {
            if v.search_query.len() > 0 {
                AppView {
                    search_mode: false,
                    last_search_query: v.search_query,
                    status: Some(StatusMsg::SearchCommitted),
                    ..v
                }
            } else {
                AppView { search_mode: false, status: Some(StatusMsg::SearchCancelled), ..v }
            }
        },
        ModeKey::Backspace => {
            let q2 = if v.search_query.len() > 0 {
                v.search_query.drop_last()
            } else {
                v.search_query
            };
            let v1 = AppView { search_query: q2, ..v };
            if q2.len() == 0 {
                let c = if v.search_start_pos < v.doc.data.len() {
                    v.search_start_pos
                } else {
                    v.doc.data.len() as int
                };
                spec_goto_scrolled(v1, c)
            } else {
                spec_incremental_search(v1)
            }
        },
        ModeKey::Chr(c) => spec_incremental_search(
            AppView { search_query: v.search_query.push(c), ..v },
        ),
        ModeKey::Del => v,
    }
}

/// The transition of one key press while the replace search pattern is
/// being typed.
pub open spec fn spec_replace_key_entering_search(v: AppView, k: ModeKey) -> AppView {
    match k {
        ModeKey::Esc => spec_cancel_to_anchor(AppView { replace_mode: ReplaceMode::Off, ..v }),
        ModeKey::CtrlChr(c) => if c == 'g' {
            spec_cancel_to_anchor(AppView { replace_mode: ReplaceMode::Off, ..v })
        } else {
            v
        },
        ModeKey::Enter => if v.search_query.len() == 0 {
            AppView {
                replace_mode: ReplaceMode::Off,
                status: Some(StatusMsg::EmptySearchPattern),
                ..v
            }
        } else {
            AppView { replace_mode: ReplaceMode::EnteringReplace, ..v }
        },
        ModeKey::Backspace => AppView {
            search_query: if v.search_query.len() > 0 {
                v.search_query.drop_last()
            } else {
                v.search_query
            },
            ..v
        },
        ModeKey::Chr(c) => AppView { search_query: v.search_query.push(c), ..v },
        ModeKey::Del => v,
    }
}

/// The transition of one key press while the replacement text is being
/// typed.
pub open spec fn spec_replace_key_entering_replace(v: AppView, k: ModeKey) -> AppView {
    match k {
        ModeKey::Esc => spec_cancel_to_anchor(AppView { replace_mode: ReplaceMode::Off, ..v }),
        ModeKey::CtrlChr(c) => if c == 'g' {
            spec_cancel_to_anchor(AppView { replace_mode: ReplaceMode::Off, ..v })
        } else {
            v
        },
        ModeKey::Enter => spec_find_next_for_replace(
            AppView { replace_mode: ReplaceMode::Confirming, ..v },
        ),
        ModeKey::Backspace => AppView {
            replace_with: if v.replace_with.len() > 0 {
                v.replace_with.drop_last()
            } else {
                v.replace_with
            },
            ..v
        },
        ModeKey::Chr(c) => AppView { replace_with: v.replace_with.push(c), ..v },
        ModeKey::Del => v,
    }
}

/// What one confirming key press does: `y`/space replaces then seeks, `n`
/// or delete seeks, `!` replaces the rest, `q`/escape ends the mode.
/// Full-width letters count as their half-width forms.
pub open spec fn spec_replace_key_confirming(v: AppView, r: AppView, k: ModeKey) -> bool {
    let norm = match k {
        ModeKey::Chr(c) => ModeKey::Chr(crate::text::spec_normalize_fullwidth(c)),
        other => other,
    };
    match norm {
        ModeKey::Chr(c) => {
            if c == 'y' || c == 'Y' || c == ' ' {
                r == spec_find_next_for_replace(spec_replace_current(v))
            } else if c == 'n' || c == 'N' {
                r == spec_find_next_for_replace(v)
            } else if c == '!' {
                spec_replace_all_post(v, r)
            } else if c == 'q' || c == 'Q' {
                r == (AppView {
                    replace_mode: ReplaceMode::Off,
                    status: Some(StatusMsg::ReplaceFinished),
                    ..v
                })
            } else {
                r == v
            }
        },
        ModeKey::Del => r == spec_find_next_for_replace(v),
        ModeKey::Esc => r == (AppView {
            replace_mode: ReplaceMode::Off,
            status: Some(StatusMsg::ReplaceFinished),
            ..v
        }),
        ModeKey::CtrlChr(c) => if c == 'g' {
            r == (AppView {
                replace_mode: ReplaceMode::Off,
                status: Some(StatusMsg::ReplaceFinished),
                ..v
            })
        } else {
            r == v
        },
        _ => r == v,
    }
}

/// What replacing all remaining matches leaves behind, as
/// `do_replace_all_remaining` promises it.
pub open spec fn spec_replace_all_post(v: AppView, r: AppView) -> bool {
    let from = spec_pattern_bytes(v.search_query);
    let to = spec_pattern_bytes(v.replace_with);
    if from.len() == 0 {
        r == (AppView {
            replace_mode: ReplaceMode::Off,
            status: Some(StatusMsg::ReplacedCount(0)),
            ..v
        })
    } else {
        let t = spec_replace_all(v.doc.data, from, to, v.cursor, 0);
        &&& r.doc.data == t.0
        &&& r.cursor == t.1
        &&& r.doc.readonly == v.doc.readonly
        &&& r.doc.path == v.doc.path
        &&& r == (AppView {
            doc: r.doc,
            cursor: r.cursor,
            replace_mode: ReplaceMode::Off,
            status: Some(StatusMsg::ReplacedCount(t.2 as usize)),
            ..v
        })
    }
}

} // verus!
