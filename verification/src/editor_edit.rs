//! Buffer-mutating interaction: two-keystroke hex byte entry, text input
//! through the active encoding, selection extension, and the content side
//! of copy, cut and paste.

use vstd::prelude::*;
use crate::document::{spec_delete, spec_insert, spec_set, DocView};
use crate::editor::{
    spec_cursor_right, spec_cursor_up, spec_scroll_offset, spec_update_selection, App, AppView,
    EditMode, Effect, InputState, StatusMsg,
};
use crate::encoding::{encode_char, spec_encode_char};
use crate::hexparse::{hex_digit_val, spec_hex_digit};
use vstd::string::StrSliceExecFns;

verus! {

/// The byte formed from a high nibble `d` and the low nibble of `b`.
pub open spec fn spec_nib_over(d: u8, b: u8) -> u8
    recommends
        d < 16,
{
    (16 * d + (b % 16)) as u8
}

/// The document after writing `bs` from `pos` on in overwrite style:
/// existing bytes are overwritten, bytes past the end are appended.
pub open spec fn spec_over_bytes(m: DocView, pos: int, bs: Seq<u8>) -> DocView
    decreases bs.len(),
{
    if bs.len() == 0 {
        m
    } else {
        let m1 = if pos < m.data.len() {
            spec_set(m, pos as usize, bs[0])
        } else {
            spec_insert(m, pos as usize, bs[0])
        };
        spec_over_bytes(m1, pos + 1, bs.drop_first())
    }
}

/// The document after inserting `bs` at `pos`, shifting the rest right.
pub open spec fn spec_ins_bytes(m: DocView, pos: int, bs: Seq<u8>) -> DocView
    decreases bs.len(),
{
    if bs.len() == 0 {
        m
    } else {
        spec_ins_bytes(spec_insert(m, pos as usize, bs[0]), pos + 1, bs.drop_first())
    }
}

/// The document after deleting positions `s + n - 1` down to `s`, skipping
/// any position already past the end.
pub open spec fn spec_del_desc(m: DocView, s: int, n: nat) -> DocView
    decreases n,
{
    if n == 0 {
        m
    } else {
        let i = s + n - 1;
        let m1 = if 0 <= i < m.data.len() {
            spec_delete(m, i as usize)
        } else {
            m
        };
        spec_del_desc(m1, s, (n - 1) as nat)
    }
}

/// The view after `n` single cursor steps right.
pub open spec fn spec_cursor_right_n(v: AppView, n: nat) -> AppView
    decreases n,
{
    if n == 0 {
        v
    } else {
        spec_cursor_right_n(spec_cursor_right(v), (n - 1) as nat)
    }
}

/// Overwrite-writing preserves document well-formedness and grows the
/// buffer exactly as far as the written bytes outrun the end.
pub proof fn lemma_over_bytes(m: DocView, pos: int, bs: Seq<u8>)
    requires
        m.wf(),
        0 <= pos <= m.data.len(),
        pos + bs.len() <= usize::MAX,
    ensures
        spec_over_bytes(m, pos, bs).wf(),
        spec_over_bytes(m, pos, bs).data.len() == if pos + bs.len() >= m.data.len() {
            pos + bs.len()
        } else {
            m.data.len() as int
        },
        spec_over_bytes(m, pos, bs).readonly == m.readonly,
        spec_over_bytes(m, pos, bs).path == m.path,
    decreases bs.len(),
{
    if bs.len() > 0 {
        let m1 = if pos < m.data.len() {
            spec_set(m, pos as usize, bs[0])
        } else {
            spec_insert(m, pos as usize, bs[0])
        };
        if pos < m.data.len() {
            crate::document::lemma_set_wf(m, pos as usize, bs[0]);
        } else {
            crate::document::lemma_insert_wf(m, pos as usize, bs[0]);
        }
        lemma_over_bytes(m1, pos + 1, bs.drop_first());
    }
}

/// Insert-writing preserves well-formedness and grows the buffer by the
/// byte count.
pub proof fn lemma_ins_bytes(m: DocView, pos: int, bs: Seq<u8>)
    requires
        m.wf(),
        0 <= pos <= m.data.len(),
        pos + bs.len() <= usize::MAX,
    ensures
        spec_ins_bytes(m, pos, bs).wf(),
        spec_ins_bytes(m, pos, bs).data.len() == m.data.len() + bs.len(),
        spec_ins_bytes(m, pos, bs).readonly == m.readonly,
        spec_ins_bytes(m, pos, bs).path == m.path,
    decreases bs.len(),
{
    if bs.len() > 0 {
        crate::document::lemma_insert_wf(m, pos as usize, bs[0]);
        lemma_ins_bytes(spec_insert(m, pos as usize, bs[0]), pos + 1, bs.drop_first());
    }
}

/// Insert-writing splices the bytes in exactly at the position.
pub proof fn lemma_ins_bytes_data(m: DocView, pos: int, bs: Seq<u8>)
    requires
        m.wf(),
        0 <= pos <= m.data.len(),
        pos + bs.len() <= usize::MAX,
    ensures
        spec_ins_bytes(m, pos, bs).data =~= m.data.subrange(0, pos) + bs + m.data.subrange(
            pos,
            m.data.len() as int,
        ),
    decreases bs.len(),
{
    if bs.len() == 0 {
        assert(spec_ins_bytes(m, pos, bs).data =~= m.data.subrange(0, pos) + bs
            + m.data.subrange(pos, m.data.len() as int));
    } else {
        let m1 = spec_insert(m, pos as usize, bs[0]);
        crate::document::lemma_insert_wf(m, pos as usize, bs[0]);
        m.data.insert_ensures(pos, bs[0]);
        lemma_ins_bytes_data(m1, pos + 1, bs.drop_first());
        assert(m1.data.subrange(0, pos + 1) =~= m.data.subrange(0, pos) + seq![bs[0]]);
        assert(m1.data.subrange(pos + 1, m1.data.len() as int) =~= m.data.subrange(
            pos,
            m.data.len() as int,
        ));
        assert(spec_ins_bytes(m, pos, bs).data =~= m.data.subrange(0, pos) + bs
            + m.data.subrange(pos, m.data.len() as int));
    }
}

/// Descending deletion preserves well-formedness and never grows the
/// buffer.
pub proof fn lemma_del_desc(m: DocView, s: int, n: nat)
    requires
        m.wf(),
        0 <= s,
        s + n <= usize::MAX + 1,
    ensures
        spec_del_desc(m, s, n).wf(),
        spec_del_desc(m, s, n).data.len() <= m.data.len(),
        spec_del_desc(m, s, n).readonly == m.readonly,
        spec_del_desc(m, s, n).path == m.path,
    decreases n,
{
    if n > 0 {
        let i = s + n - 1;
        if 0 <= i < m.data.len() {
            crate::document::lemma_delete_wf(m, i as usize);
            lemma_del_desc(spec_delete(m, i as usize), s, (n - 1) as nat);
        } else {
            lemma_del_desc(m, s, (n - 1) as nat);
        }
    }
}

/// A fully in-range descending deletion removes exactly the byte range.
pub proof fn lemma_del_desc_data(m: DocView, s: int, n: nat)
    requires
        m.wf(),
        0 <= s,
        s + n <= m.data.len(),
        s + n <= usize::MAX + 1,
    ensures
        spec_del_desc(m, s, n).data =~= m.data.subrange(0, s) + m.data.subrange(
            s + n,
            m.data.len() as int,
        ),
    decreases n,
{
    if n == 0 {
        assert(spec_del_desc(m, s, n).data =~= m.data.subrange(0, s) + m.data.subrange(
            s,
            m.data.len() as int,
        ));
    } else {
        let i = s + n - 1;
        let m1 = spec_delete(m, i as usize);
        crate::document::lemma_delete_wf(m, i as usize);
        m.data.remove_ensures(i);
        lemma_del_desc_data(m1, s, (n - 1) as nat);
        assert(m1.data.subrange(0, s) =~= m.data.subrange(0, s));
        assert(m1.data.subrange(s + n - 1, m1.data.len() as int) =~= m.data.subrange(
            s + n,
            m.data.len() as int,
        ));
        assert(spec_del_desc(m, s, n).data =~= m.data.subrange(0, s) + m.data.subrange(
            s + n,
            m.data.len() as int,
        ));
    }
}

/// Peeling one step off the end of an `n + 1`-fold cursor advance.
proof fn lemma_cursor_right_n_snoc(v: AppView, n: nat)
    ensures
        spec_cursor_right_n(v, n + 1) == spec_cursor_right(spec_cursor_right_n(v, n)),
    decreases n,
{
    if n > 0 {
        lemma_cursor_right_n_snoc(spec_cursor_right(v), (n - 1) as nat);
        assert(spec_cursor_right_n(v, n + 1) == spec_cursor_right_n(spec_cursor_right(v), n));
        assert(spec_cursor_right_n(v, n) == spec_cursor_right_n(
            spec_cursor_right(v),
            (n - 1) as nat,
        ));
    } else {
        assert(spec_cursor_right_n(v, 1) == spec_cursor_right_n(spec_cursor_right(v), 0));
    }
}

/// The anchor set to the cursor when no selection is underway.
pub open spec fn spec_with_anchor(v: AppView) -> AppView {
    match v.selection_start {
        Some(a) => v,
        None => AppView { selection_start: Some(v.cursor), ..v },
    }
}

/// The transition of two-keystroke hex input: the first digit writes the
/// high nibble in place (or starts a new byte), the second completes the
/// byte and advances the cursor; anything but a hex digit is ignored.
pub open spec fn spec_input_hex(v: AppView, ch: char) -> AppView {
    match spec_hex_digit(ch) {
        None => v,
        Some(d) => match v.input_state {
            InputState::Normal => {
                let doc2 = match v.edit_mode {
                    EditMode::Overwrite => {
                        if v.cursor < v.doc.data.len() {
                            spec_set(
                                v.doc,
                                v.cursor as usize,
                                spec_nib_over(d, v.doc.data[v.cursor]),
                            )
                        } else {
                            spec_insert(v.doc, v.cursor as usize, (16 * d) as u8)
                        }
                    },
                    EditMode::Insert => spec_insert(v.doc, v.cursor as usize, (16 * d) as u8),
                };
                AppView { doc: doc2, input_state: InputState::HexFirstDigit(d), ..v }
            },
            InputState::HexFirstDigit(first) => {
                let doc2 = if v.cursor < v.doc.data.len() {
                    spec_set(v.doc, v.cursor as usize, (16 * first + d) as u8)
                } else {
                    v.doc
                };
                spec_cursor_right(AppView { doc: doc2, input_state: InputState::Normal, ..v })
            },
        },
    }
}

/// The transition of text input: the character's encoded bytes are written
/// per edit mode and the cursor steps right once per byte; an
/// unrepresentable character only reports a status.
pub open spec fn spec_input_ascii(v: AppView, ch: char) -> AppView {
    match spec_encode_char(ch, v.encoding) {
        None => AppView { status: Some(StatusMsg::CannotEncode(ch)), ..v },
        Some(bs) => {
            let doc2 = match v.edit_mode {
                EditMode::Overwrite => spec_over_bytes(v.doc, v.cursor, bs),
                EditMode::Insert => spec_ins_bytes(v.doc, v.cursor, bs),
            };
            spec_cursor_right_n(AppView { doc: doc2, ..v }, bs.len())
        },
    }
}

impl App {
    /// Enters one hex digit of a byte: the first keystroke writes the high
    /// nibble in place, the second completes the byte and advances.
    #[verifier::rlimit(80)]
    pub fn input_hex(&mut self, ch: char)
        requires
            old(self)@.wf(),
        ensures
            final(self)@.wf(),
            final(self)@ == spec_input_hex(old(self)@, ch),
    {
        let d = match hex_digit_val(ch) {
            Some(d) => d,
            None => {
                return ;
            },
        };
        match self.input_state {
            InputState::Normal => {
                match self.edit_mode {
                    EditMode::Overwrite => {
                        if self.cursor < self.document.len() {
                            let low = match self.document.get(self.cursor) {
                                Some(b) => b % 16,
                                None => 0,
                            };
                            let _ = self.document.set(self.cursor, 16 * d + low);
                        } else {
                            let _ = self.document.insert(self.cursor, 16 * d);
                        }
                    },
                    EditMode::Insert => {
                        let _ = self.document.insert(self.cursor, 16 * d);
                    },
                }
                self.input_state = InputState::HexFirstDigit(d);
                proof {
                    assert(final(self)@ =~= spec_input_hex(old(self)@, ch));
                }
            },
            InputState::HexFirstDigit(first) => {
                proof {
                    assert(old(self)@.doc.wf());
                }
                let _ = self.document.set(self.cursor, 16 * first + d);
                self.input_state = InputState::Normal;
                self.cursor_right();
                proof {
                    let mid = AppView {
                        doc: if old(self)@.cursor < old(self)@.doc.data.len() {
                            spec_set(
                                old(self)@.doc,
                                old(self)@.cursor as usize,
                                (16 * first + d) as u8,
                            )
                        } else {
                            old(self)@.doc
                        },
                        input_state: InputState::Normal,
                        ..old(self)@
                    };
                    assert(final(self)@ =~= spec_cursor_right(mid));
                }
            },
        }
    }

    /// Enters one character of text: its encoded bytes are written per edit
    /// mode and the cursor advances past them; an unrepresentable character
    /// is reported and the buffer left untouched.
    #[verifier::rlimit(80)]
    pub fn input_ascii(&mut self, ch: char)
        requires
            old(self)@.wf(),
        ensures
            final(self)@.wf(),
            final(self)@ == spec_input_ascii(old(self)@, ch),
    {
        let bytes = match encode_char(ch, self.encoding) {
            Some(b) => b,
            None => {
                self.status = Some(StatusMsg::CannotEncode(ch));
                proof {
                    assert(final(self)@ =~= spec_input_ascii(old(self)@, ch));
                }
                return ;
            },
        };
        let ghost bs = bytes@;
        let ghost v0 = old(self)@;
        match self.edit_mode {
            EditMode::Overwrite => {
                let mut i: usize = 0;
                while i < bytes.len()
                    invariant
                        old(self)@.wf(),
                        i <= bs.len(),
                        bytes@ == bs,
                        bs.len() <= 4,
                        self@ == (AppView {
                            doc: spec_over_bytes(v0.doc, v0.cursor, bs.subrange(0, i as int)),
                            ..v0
                        }),
                        v0 == old(self)@,
                        self@.doc.wf(),
                        v0.cursor + i <= self@.doc.data.len(),
                        v0.cursor + i <= usize::MAX,
                    decreases bs.len() - i,
                {
                    proof {
                        lemma_over_bytes(v0.doc, v0.cursor, bs.subrange(0, i as int));
                    }
                    let dl = self.document.len();
                    proof {
                        assert(v0.cursor + i <= dl <= usize::MAX);
                    }
                    let pos = self.cursor + i;
                    if pos < dl {
                        let _ = self.document.set(pos, bytes[i]);
                    } else {
                        let _ = self.document.insert(pos, bytes[i]);
                    }
                    i = i + 1;
                    proof {
                        self.document.lemma_len_bound();
                        let pre = bs.subrange(0, i - 1);
                        let cur = bs.subrange(0, i as int);
                        assert(cur.drop_first() =~= bs.subrange(1, i as int));
                        lemma_over_bytes_snoc(v0.doc, v0.cursor, bs, i as int);
                        assert(self@ == (AppView {
                            doc: spec_over_bytes(v0.doc, v0.cursor, cur),
                            ..v0
                        }));
                        lemma_over_bytes(v0.doc, v0.cursor, cur);
                    }
                }
                proof {
                    assert(bs.subrange(0, bs.len() as int) =~= bs);
                }
            },
            EditMode::Insert => {
                let mut i: usize = 0;
                while i < bytes.len()
                    invariant
                        old(self)@.wf(),
                        i <= bs.len(),
                        bytes@ == bs,
                        bs.len() <= 4,
                        self@ == (AppView {
                            doc: spec_ins_bytes(v0.doc, v0.cursor, bs.subrange(0, i as int)),
                            ..v0
                        }),
                        v0 == old(self)@,
                        self@.doc.wf(),
                        v0.cursor + i <= self@.doc.data.len(),
                        v0.cursor + i <= usize::MAX,
                    decreases bs.len() - i,
                {
                    proof {
                        lemma_ins_bytes(v0.doc, v0.cursor, bs.subrange(0, i as int));
                    }
                    let dl = self.document.len();
                    proof {
                        assert(v0.cursor + i <= dl <= usize::MAX);
                    }
                    let pos = self.cursor + i;
                    let _ = self.document.insert(pos, bytes[i]);
                    i = i + 1;
                    proof {
                        self.document.lemma_len_bound();
                        lemma_ins_bytes_snoc(v0.doc, v0.cursor, bs, i as int);
                        assert(self@ == (AppView {
                            doc: spec_ins_bytes(v0.doc, v0.cursor, bs.subrange(0, i as int)),
                            ..v0
                        }));
                        lemma_ins_bytes(v0.doc, v0.cursor, bs.subrange(0, i as int));
                    }
                }
                proof {
                    assert(bs.subrange(0, bs.len() as int) =~= bs);
                }
            },
        }
        let ghost mid = self@;
        proof {
            match v0.edit_mode {
                EditMode::Overwrite => lemma_over_bytes(v0.doc, v0.cursor, bs),
                EditMode::Insert => lemma_ins_bytes(v0.doc, v0.cursor, bs),
            }
        }
        let n = bytes.len();
        let mut k: usize = 0;
        while k < n
            invariant
                mid.wf(),
                k <= n,
                n == bs.len(),
                self@ == spec_cursor_right_n(mid, k as nat),
                self@.wf(),
            decreases n - k,
        {
            self.cursor_right();
            k = k + 1;
            proof {
                lemma_cursor_right_n_snoc(mid, (k - 1) as nat);
            }
        }
        proof {
            assert(final(self)@ == spec_cursor_right_n(mid, bs.len()));
            assert(mid =~= (AppView {
                doc: match v0.edit_mode {
                    EditMode::Overwrite => spec_over_bytes(v0.doc, v0.cursor, bs),
                    EditMode::Insert => spec_ins_bytes(v0.doc, v0.cursor, bs),
                },
                ..v0
            }));
        }
    }
}

/// The state transition of copying the selection: on a valid selection the
/// count is reported and the selection dropped; a stale selection does
/// nothing; no selection is reported as such.
pub open spec fn spec_copy(v: AppView) -> AppView {
    match v.selection {
        Some((s, e)) => {
            if e + 1 <= v.doc.data.len() {
                AppView {
                    selection: None,
                    selection_start: None,
                    status: Some(StatusMsg::Copied((e + 1 - s) as usize)),
                    ..v
                }
            } else {
                v
            }
        },
        None => AppView { status: Some(StatusMsg::NoSelection), ..v },
    }
}

/// The text a copy of `data[s ..= e]` hands the clipboard: spaced hex.
pub open spec fn spec_copy_text(v: AppView, s: int, e: int) -> Seq<char> {
    crate::fmt::spec_hex_spaced(v.doc.data.subrange(s, e + 1))
}

/// The state transition of cutting the selection: the selected bytes are
/// deleted highest first, the cursor moves to the selection start, and the
/// count is reported.
pub open spec fn spec_cut(v: AppView) -> AppView {
    match v.selection {
        Some((s, e)) => {
            if e + 1 <= v.doc.data.len() {
                AppView {
                    doc: spec_del_desc(v.doc, s, (e + 1 - s) as nat),
                    cursor: s,
                    selection: None,
                    selection_start: None,
                    status: Some(StatusMsg::CutBytes((e + 1 - s) as usize)),
                    ..v
                }
            } else {
                v
            }
        },
        None => AppView { status: Some(StatusMsg::NoSelection), ..v },
    }
}

/// The bytes a text pattern denotes, uniformly for paste, search and
/// replacement input: hex-decoded when it reads as a hex
/// byte string, else its UTF-8 bytes.
pub open spec fn spec_pattern_bytes(s: Seq<char>) -> Seq<u8> {
    if crate::hexparse::spec_looks_like_hex(s) {
        match crate::hexparse::spec_hex_to_bytes(s) {
            Some(b) => b,
            None => vstd::utf8::encode_utf8(s),
        }
    } else {
        vstd::utf8::encode_utf8(s)
    }
}

/// The state transition of pasting text: any selection is deleted first,
/// then the denoted bytes are written at the cursor per edit mode, and the
/// cursor lands after them.
pub open spec fn spec_paste(v: AppView, s: Seq<char>) -> AppView {
    let bytes = spec_pattern_bytes(s);
    if bytes.len() == 0 {
        v
    } else {
        let v1 = match v.selection {
            Some((st, e)) => {
                let doc1 = spec_del_desc(v.doc, st, (e + 1 - st) as nat);
                AppView {
                    doc: doc1,
                    cursor: if st <= doc1.data.len() {
                        st
                    } else {
                        doc1.data.len() as int
                    },
                    selection: None,
                    selection_start: None,
                    ..v
                }
            },
            None => v,
        };
        let doc2 = match v1.edit_mode {
            EditMode::Overwrite => spec_over_bytes(v1.doc, v1.cursor, bytes),
            EditMode::Insert => spec_ins_bytes(v1.doc, v1.cursor, bytes),
        };
        let c2 = v1.cursor + bytes.len();
        AppView {
            doc: doc2,
            cursor: c2,
            offset: spec_scroll_offset(c2, v1.offset, v1.bytes_per_row, v1.visible_rows),
            status: Some(StatusMsg::Pasted(bytes.len() as usize)),
            ..v1
        }
    }
}

impl App {
    /// Moves up one row, extending the selection from the anchor.
    pub fn select_up(&mut self)
        requires
            old(self)@.wf(),
        ensures
            final(self)@.wf(),
            final(self)@ == spec_update_selection(spec_cursor_up(spec_with_anchor(old(self)@))),
    {
        if self.selection_start.is_none() {
            self.selection_start = Some(self.cursor);
        }
        proof {
            assert(self@ =~= spec_with_anchor(old(self)@));
        }
        self.cursor_up();
        self.update_selection();
    }

    /// Moves down one row, extending the selection from the anchor.
    pub fn select_down(&mut self)
        requires
            old(self)@.wf(),
        ensures
            final(self)@.wf(),
            final(self)@ == spec_update_selection(
                crate::editor::spec_cursor_down(spec_with_anchor(old(self)@)),
            ),
    {
        if self.selection_start.is_none() {
            self.selection_start = Some(self.cursor);
        }
        proof {
            assert(self@ =~= spec_with_anchor(old(self)@));
        }
        self.cursor_down();
        self.update_selection();
    }

    /// Moves left one byte, extending the selection from the anchor.
    pub fn select_left(&mut self)
        requires
            old(self)@.wf(),
        ensures
            final(self)@.wf(),
            final(self)@ == spec_update_selection(
                crate::editor::spec_cursor_left(spec_with_anchor(old(self)@)),
            ),
    {
        if self.selection_start.is_none() {
            self.selection_start = Some(self.cursor);
        }
        proof {
            assert(self@ =~= spec_with_anchor(old(self)@));
        }
        self.cursor_left();
        self.update_selection();
    }

    /// Moves right one byte, extending the selection from the anchor.
    pub fn select_right(&mut self)
        requires
            old(self)@.wf(),
        ensures
            final(self)@.wf(),
            final(self)@ == spec_update_selection(spec_cursor_right(spec_with_anchor(old(self)@))),
    {
        if self.selection_start.is_none() {
            self.selection_start = Some(self.cursor);
        }
        proof {
            assert(self@ =~= spec_with_anchor(old(self)@));
        }
        self.cursor_right();
        self.update_selection();
    }

    /// Copies the selected bytes, handing them to the clipboard as spaced
    /// hex text.
    pub fn copy(&mut self) -> (r: Option<Effect>)
        requires
            old(self)@.wf(),
        ensures
            final(self)@.wf(),
            final(self)@ == spec_copy(old(self)@),
            match old(self)@.selection {
                Some((s, e)) => if e + 1 <= old(self)@.doc.data.len() {
                    r matches Some(ef) && (ef matches Effect::CopyText(t) && t@ == spec_copy_text(
                        old(self)@,
                        s,
                        e,
                    ))
                } else {
                    r is None
                },
                None => r is None,
            },
    {
        match self.selection {
            Some((start, end)) => {
                if end < usize::MAX && start <= end {
                    match self.document.get_range(start, end + 1) {
                        Some(data) => {
                            let text = crate::fmt::hex_spaced_chars(data);
                            self.status = Some(StatusMsg::Copied(end - start + 1));
                            self.clear_selection();
                            proof {
                                assert(final(self)@ =~= spec_copy(old(self)@));
                            }
                            Some(Effect::CopyText(text))
                        },
                        None => {
                            proof {
                                assert(final(self)@ =~= spec_copy(old(self)@));
                            }
                            None
                        },
                    }
                } else {
                    proof {
                        self.document.lemma_len_bound();
                        assert(final(self)@ =~= spec_copy(old(self)@));
                    }
                    None
                }
            },
            None => {
                self.status = Some(StatusMsg::NoSelection);
                proof {
                    assert(final(self)@ =~= spec_copy(old(self)@));
                }
                None
            },
        }
    }

    /// Copies the selection as hex text; without a selection, copies the
    /// single byte under the cursor without touching any state.
    pub fn copy_hex(&mut self) -> (r: Option<Effect>)
        requires
            old(self)@.wf(),
        ensures
            final(self)@.wf(),
            match old(self)@.selection {
                Some((s, e)) => if e + 1 <= old(self)@.doc.data.len() {
                    final(self)@ == (AppView {
                        selection: None,
                        selection_start: None,
                        status: Some(StatusMsg::CopiedHex),
                        ..old(self)@
                    }) && (r matches Some(ef) && (ef matches Effect::CopyText(t) && t@
                        == spec_copy_text(old(self)@, s, e)))
                } else {
                    final(self)@ == old(self)@ && r is None
                },
                None => if old(self)@.cursor < old(self)@.doc.data.len() {
                    final(self)@ == old(self)@ && (r matches Some(ef) && (ef
                        matches Effect::CopyText(t) && t@ == spec_copy_text(
                        old(self)@,
                        old(self)@.cursor,
                        old(self)@.cursor,
                    )))
                } else {
                    final(self)@ == old(self)@ && r is None
                },
            },
    {
        match self.selection {
            Some((start, end)) => {
                if end < usize::MAX && start <= end {
                    match self.document.get_range(start, end + 1) {
                        Some(data) => {
                            let text = crate::fmt::hex_spaced_chars(data);
                            self.status = Some(StatusMsg::CopiedHex);
                            self.clear_selection();
                            proof {
                                assert(final(self)@ =~= (AppView {
                                    selection: None,
                                    selection_start: None,
                                    status: Some(StatusMsg::CopiedHex),
                                    ..old(self)@
                                }));
                            }
                            Some(Effect::CopyText(text))
                        },
                        None => None,
                    }
                } else {
                    proof {
                        self.document.lemma_len_bound();
                    }
                    None
                }
            },
            None => {
                let dl = self.document.len();
                if self.cursor < dl {
                    match self.document.get_range(self.cursor, self.cursor + 1) {
                        Some(data) => {
                            let text = crate::fmt::hex_spaced_chars(data);
                            Some(Effect::CopyText(text))
                        },
                        None => None,
                    }
                } else {
                    None
                }
            },
        }
    }

    /// Cuts the selected bytes: hands them to the clipboard as hex text and
    /// deletes them, leaving the cursor at the selection start.
    pub fn cut(&mut self) -> (r: Option<Effect>)
        requires
            old(self)@.wf(),
        ensures
            final(self)@.wf(),
            final(self)@ == spec_cut(old(self)@),
            match old(self)@.selection {
                Some((s, e)) => if e + 1 <= old(self)@.doc.data.len() {
                    r matches Some(ef) && (ef matches Effect::CopyText(t) && t@ == spec_copy_text(
                        old(self)@,
                        s,
                        e,
                    ))
                } else {
                    r is None
                },
                None => r is None,
            },
    {
        match self.selection {
            Some((start, end)) => {
                if end < usize::MAX && start <= end {
                    match self.document.get_range(start, end + 1) {
                        Some(data) => {
                            let text = crate::fmt::hex_spaced_chars(data);
                            self.del_range_desc(start, end);
                            proof {
                                lemma_del_desc_data(
                                    old(self)@.doc,
                                    start as int,
                                    (end + 1 - start) as nat,
                                );
                            }
                            self.cursor = start;
                            self.status = Some(StatusMsg::CutBytes(end - start + 1));
                            self.clear_selection();
                            proof {
                                assert(final(self)@ =~= spec_cut(old(self)@));
                            }
                            Some(Effect::CopyText(text))
                        },
                        None => {
                            proof {
                                assert(final(self)@ =~= spec_cut(old(self)@));
                            }
                            None
                        },
                    }
                } else {
                    proof {
                        self.document.lemma_len_bound();
                        assert(final(self)@ =~= spec_cut(old(self)@));
                    }
                    None
                }
            },
            None => {
                self.status = Some(StatusMsg::NoSelection);
                proof {
                    assert(final(self)@ =~= spec_cut(old(self)@));
                }
                None
            },
        }
    }

    /// Interprets pasted text (from the terminal or the system clipboard)
    /// as hex or raw bytes and writes it at the cursor, replacing any
    /// selection.
    #[verifier::rlimit(100)]
    pub fn paste_from_terminal(&mut self, content: &str)
        requires
            old(self)@.wf(),
        ensures
            final(self)@.wf(),
            final(self)@ == spec_paste(old(self)@, content@),
    {
        let bytes = if crate::hexparse::looks_like_hex(content) {
            match crate::hexparse::normalized_hex_to_bytes(content) {
                Some(b) => b,
                None => content.as_bytes_vec(),
            }
        } else {
            content.as_bytes_vec()
        };
        if bytes.is_empty() {
            proof {
                assert(final(self)@ =~= spec_paste(old(self)@, content@));
            }
            return ;
        }
        match self.selection {
            Some((start, end)) => {
                if start <= end {
                    self.del_range_desc(start, end);
                }
                let dl = self.document.len();
                self.cursor = if start <= dl {
                    start
                } else {
                    dl
                };
                self.clear_selection();
            },
            None => (),
        }
        let ghost v1 = self@;
        proof {
            assert(v1.wf());
        }
        match self.edit_mode {
            EditMode::Overwrite => {
                self.over_bytes_at(self.cursor, &bytes);
            },
            EditMode::Insert => {
                self.ins_bytes_at(self.cursor, &bytes);
            },
        }
        proof {
            self.document.lemma_len_bound();
        }
        self.cursor = self.cursor + bytes.len();
        self.ensure_cursor_visible();
        self.status = Some(StatusMsg::Pasted(bytes.len()));
        proof {
            assert(final(self)@ =~= spec_paste(old(self)@, content@));
        }
    }
}

/// Peeling the lowest position off a descending deletion.
proof fn lemma_del_desc_snoc(m: DocView, s: int, n: nat)
    ensures
        spec_del_desc(m, s, n + 1) == ({
            let d = spec_del_desc(m, s + 1, n);
            if 0 <= s < d.data.len() {
                spec_delete(d, s as usize)
            } else {
                d
            }
        }),
    decreases n,
{
    if n == 0 {
        let m1 = if 0 <= s < m.data.len() {
            spec_delete(m, s as usize)
        } else {
            m
        };
        assert(spec_del_desc(m, s + 1, 0) == m);
        assert(spec_del_desc(m, s, 1) == spec_del_desc(m1, s, 0));
        assert(spec_del_desc(m1, s, 0) == m1);
    } else {
        let m1 = if 0 <= s + n < m.data.len() {
            spec_delete(m, (s + n) as usize)
        } else {
            m
        };
        lemma_del_desc_snoc(m1, s, (n - 1) as nat);
        assert(spec_del_desc(m, s, n + 1) == spec_del_desc(m1, s, n));
        assert(spec_del_desc(m, s + 1, n) == spec_del_desc(m1, s + 1, (n - 1) as nat));
    }
}

impl App {
    /// Writes `bytes` from `pos` on in overwrite style: existing bytes are
    /// overwritten and bytes past the end appended.
    pub(crate) fn over_bytes_at(&mut self, pos: usize, bytes: &Vec<u8>)
        requires
            old(self)@.wf(),
            pos <= old(self)@.doc.data.len(),
        ensures
            final(self)@.wf(),
            final(self)@ == (AppView {
                doc: spec_over_bytes(old(self)@.doc, pos as int, bytes@),
                ..old(self)@
            }),
            final(self)@.doc.data.len() >= old(self)@.doc.data.len(),
            pos + bytes@.len() <= final(self)@.doc.data.len(),
    {
        let ghost bs = bytes@;
        let ghost v0 = old(self)@;
        let mut i: usize = 0;
        proof {
            assert(bs.subrange(0, 0) =~= Seq::<u8>::empty());
        }
        while i < bytes.len()
            invariant
                v0.wf(),
                i <= bs.len(),
                bytes@ == bs,
                self@ == (AppView {
                    doc: spec_over_bytes(v0.doc, pos as int, bs.subrange(0, i as int)),
                    ..v0
                }),
                v0 == old(self)@,
                self@.doc.wf(),
                pos <= v0.doc.data.len(),
                pos + i <= self@.doc.data.len(),
                pos + i <= usize::MAX,
            decreases bs.len() - i,
        {
            proof {
                lemma_over_bytes(v0.doc, pos as int, bs.subrange(0, i as int));
            }
            let dl = self.document.len();
            let p = pos + i;
            if p < dl {
                let _ = self.document.set(p, bytes[i]);
            } else {
                let _ = self.document.insert(p, bytes[i]);
            }
            i = i + 1;
            proof {
                self.document.lemma_len_bound();
                let cur = bs.subrange(0, i as int);
                lemma_over_bytes_snoc(v0.doc, pos as int, bs, i as int);
                assert(self@ == (AppView {
                    doc: spec_over_bytes(v0.doc, pos as int, cur),
                    ..v0
                }));
                lemma_over_bytes(v0.doc, pos as int, cur);
            }
        }
        proof {
            assert(bs.subrange(0, bs.len() as int) =~= bs);
            lemma_over_bytes(v0.doc, pos as int, bs);
        }
    }

    /// Inserts `bytes` at `pos`, shifting what follows to the right.
    pub(crate) fn ins_bytes_at(&mut self, pos: usize, bytes: &Vec<u8>)
        requires
            old(self)@.wf(),
            pos <= old(self)@.doc.data.len(),
        ensures
            final(self)@.wf(),
            final(self)@ == (AppView {
                doc: spec_ins_bytes(old(self)@.doc, pos as int, bytes@),
                ..old(self)@
            }),
            final(self)@.doc.data.len() == old(self)@.doc.data.len() + bytes@.len(),
    {
        let ghost bs = bytes@;
        let ghost v0 = old(self)@;
        let mut i: usize = 0;
        proof {
            assert(bs.subrange(0, 0) =~= Seq::<u8>::empty());
        }
        while i < bytes.len()
            invariant
                v0.wf(),
                i <= bs.len(),
                bytes@ == bs,
                self@ == (AppView {
                    doc: spec_ins_bytes(v0.doc, pos as int, bs.subrange(0, i as int)),
                    ..v0
                }),
                v0 == old(self)@,
                self@.doc.wf(),
                pos <= v0.doc.data.len(),
                pos + i <= self@.doc.data.len(),
                pos + i <= usize::MAX,
            decreases bs.len() - i,
        {
            proof {
                lemma_ins_bytes(v0.doc, pos as int, bs.subrange(0, i as int));
            }
            let p = pos + i;
            let _ = self.document.insert(p, bytes[i]);
            i = i + 1;
            proof {
                self.document.lemma_len_bound();
                lemma_ins_bytes_snoc(v0.doc, pos as int, bs, i as int);
                assert(self@ == (AppView {
                    doc: spec_ins_bytes(v0.doc, pos as int, bs.subrange(0, i as int)),
                    ..v0
                }));
                lemma_ins_bytes(v0.doc, pos as int, bs.subrange(0, i as int));
            }
        }
        proof {
            assert(bs.subrange(0, bs.len() as int) =~= bs);
            lemma_ins_bytes(v0.doc, pos as int, bs);
        }
    }

    /// Deletes the bytes of `s..=e` from highest position to lowest,
    /// silently skipping positions past the end.
    pub(crate) fn del_range_desc(&mut self, s: usize, e: usize)
        requires
            old(self)@.wf(),
            s <= e,
        ensures
            final(self)@.doc.wf(),
            final(self)@ == (AppView {
                doc: spec_del_desc(old(self)@.doc, s as int, (e + 1 - s) as nat),
                ..old(self)@
            }),
            final(self)@.doc.data.len() <= old(self)@.doc.data.len(),
    {
        let ghost v0 = old(self)@;
        let mut i: usize = e;
        let mut done = false;
        while !done
            invariant
                v0.wf(),
                s <= i <= e,
                v0 == old(self)@,
                self@.doc.wf(),
                self@.doc.data.len() <= v0.doc.data.len(),
                !done ==> self@ == (AppView {
                    doc: spec_del_desc(v0.doc, i + 1, (e - i) as nat),
                    ..v0
                }),
                done ==> self@ == (AppView {
                    doc: spec_del_desc(v0.doc, s as int, (e + 1 - s) as nat),
                    ..v0
                }),
            decreases (i - s) + (if done {
                0int
            } else {
                1int
            }),
        {
            proof {
                lemma_del_desc(v0.doc, i + 1, (e - i) as nat);
            }
            let dl = self.document.len();
            if i < dl {
                let _ = self.document.delete(i);
            }
            proof {
                lemma_del_desc_snoc(v0.doc, i as int, (e - i) as nat);
                assert(self@ == (AppView {
                    doc: spec_del_desc(v0.doc, i as int, (e - i + 1) as nat),
                    ..v0
                }));
                lemma_del_desc(v0.doc, i as int, (e - i + 1) as nat);
            }
            if i == s {
                done = true;
            } else {
                i = i - 1;
            }
        }
    }
}

/// Extending an overwrite-fold by one byte appends one write.
proof fn lemma_over_bytes_snoc(m: DocView, pos: int, bs: Seq<u8>, i: int)
    requires
        0 < i <= bs.len(),
    ensures
        ({
            let pre = spec_over_bytes(m, pos, bs.subrange(0, i - 1));
            spec_over_bytes(m, pos, bs.subrange(0, i)) == if pos + i - 1 < pre.data.len() {
                spec_set(pre, (pos + i - 1) as usize, bs[i - 1])
            } else {
                spec_insert(pre, (pos + i - 1) as usize, bs[i - 1])
            }
        }),
    decreases i,
{
    let m1 = if pos < m.data.len() {
        spec_set(m, pos as usize, bs[0])
    } else {
        spec_insert(m, pos as usize, bs[0])
    };
    if i == 1 {
        assert(bs.subrange(0, 0) =~= Seq::<u8>::empty());
        assert(bs.subrange(0, 1).drop_first() =~= Seq::<u8>::empty());
        assert(bs.subrange(0, 1)[0] == bs[0]);
        assert(spec_over_bytes(m, pos, bs.subrange(0, 0)) == m);
        assert(spec_over_bytes(m, pos, bs.subrange(0, 1)) == spec_over_bytes(
            m1,
            pos + 1,
            bs.subrange(0, 1).drop_first(),
        ));
        assert(spec_over_bytes(m1, pos + 1, bs.subrange(0, 1).drop_first()) == m1);
    } else {
        let tail = bs.drop_first();
        assert(bs.subrange(0, i).drop_first() =~= tail.subrange(0, i - 1));
        assert(bs.subrange(0, i - 1).drop_first() =~= tail.subrange(0, i - 2));
        assert(bs.subrange(0, i)[0] == bs[0]);
        assert(bs.subrange(0, i - 1)[0] == bs[0]);
        lemma_over_bytes_snoc(m1, pos + 1, tail, i - 1);
        assert(tail[i - 2] == bs[i - 1]);
        assert(spec_over_bytes(m, pos, bs.subrange(0, i)) == spec_over_bytes(
            m1,
            pos + 1,
            tail.subrange(0, i - 1),
        ));
        assert(spec_over_bytes(m, pos, bs.subrange(0, i - 1)) == spec_over_bytes(
            m1,
            pos + 1,
            tail.subrange(0, i - 2),
        ));
    }
}

/// Extending an insert-fold by one byte appends one insertion.
proof fn lemma_ins_bytes_snoc(m: DocView, pos: int, bs: Seq<u8>, i: int)
    requires
        0 < i <= bs.len(),
    ensures
        spec_ins_bytes(m, pos, bs.subrange(0, i)) == spec_insert(
            spec_ins_bytes(m, pos, bs.subrange(0, i - 1)),
            (pos + i - 1) as usize,
            bs[i - 1],
        ),
    decreases i,
{
    let m1 = spec_insert(m, pos as usize, bs[0]);
    if i == 1 {
        assert(bs.subrange(0, 0) =~= Seq::<u8>::empty());
        assert(bs.subrange(0, 1).drop_first() =~= Seq::<u8>::empty());
        assert(bs.subrange(0, 1)[0] == bs[0]);
        assert(spec_ins_bytes(m, pos, bs.subrange(0, 0)) == m);
        assert(spec_ins_bytes(m, pos, bs.subrange(0, 1)) == spec_ins_bytes(
            m1,
            pos + 1,
            bs.subrange(0, 1).drop_first(),
        ));
        assert(spec_ins_bytes(m1, pos + 1, bs.subrange(0, 1).drop_first()) == m1);
    } else {
        let tail = bs.drop_first();
        assert(bs.subrange(0, i).drop_first() =~= tail.subrange(0, i - 1));
        assert(bs.subrange(0, i - 1).drop_first() =~= tail.subrange(0, i - 2));
        assert(bs.subrange(0, i)[0] == bs[0]);
        assert(bs.subrange(0, i - 1)[0] == bs[0]);
        lemma_ins_bytes_snoc(m1, pos + 1, tail, i - 1);
        assert(tail[i - 2] == bs[i - 1]);
        assert(spec_ins_bytes(m, pos, bs.subrange(0, i)) == spec_ins_bytes(
            m1,
            pos + 1,
            tail.subrange(0, i - 1),
        ));
        assert(spec_ins_bytes(m, pos, bs.subrange(0, i - 1)) == spec_ins_bytes(
            m1,
            pos + 1,
            tail.subrange(0, i - 2),
        ));
    }
}

} // verus!
