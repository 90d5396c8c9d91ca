//! The byte buffer under edit: an in-memory sequence of bytes together with
//! a log of reversible single-byte operations, exposing undo and redo.

use vstd::prelude::*;
use vstd::pervasive::VecAdditionalExecFns;

verus! {

/// A single reversible byte-level mutation record.
#[derive(Clone, Copy, Debug, PartialEq, Eq, Structural)]
pub enum UndoOp {
    /// Overwrite: position, old value, new value.
    Overwrite(usize, u8, u8),
    /// Insertion of the given byte at the given position.
    Insert(usize, u8),
    /// Deletion of the byte that stood at the given position.
    Delete(usize, u8),
}

/// Errors reported by buffer mutations.
#[derive(Clone, Copy, Debug, PartialEq, Eq, Structural)]
pub enum BufferError {
    /// A mutation addressed a position outside the legal range.
    OutOfBounds(usize),
}

/// Mathematical model of a [`Document`]: the byte sequence, its flags, and
/// the two operation logs (most recent operation last).
#[verifier::ext_equal]
pub ghost struct DocView {
    pub data: Seq<u8>,
    pub modified: bool,
    pub readonly: bool,
    pub path: Option<Seq<char>>,
    pub undo: Seq<UndoOp>,
    pub redo: Seq<UndoOp>,
}

/// Whether undoing `op` is meaningful on `data`: the recorded position is in
/// range and the byte found there is the one the operation says it wrote.
pub open spec fn undo_op_ok(data: Seq<u8>, op: UndoOp) -> bool {
    match op {
        UndoOp::Overwrite(pos, old_b, new_b) => pos < data.len() && data[pos as int] == new_b,
        UndoOp::Insert(pos, b) => pos < data.len() && data[pos as int] == b,
        UndoOp::Delete(pos, b) => pos <= data.len(),
    }
}

/// The byte sequence after undoing `op` (applying its inverse).
pub open spec fn apply_undo_op(data: Seq<u8>, op: UndoOp) -> Seq<u8> {
    match op {
        UndoOp::Overwrite(pos, old_b, new_b) => data.update(pos as int, old_b),
        UndoOp::Insert(pos, b) => data.remove(pos as int),
        UndoOp::Delete(pos, b) => data.insert(pos as int, b),
    }
}

/// Whether redoing `op` is meaningful on `data`.
pub open spec fn redo_op_ok(data: Seq<u8>, op: UndoOp) -> bool {
    match op {
        UndoOp::Overwrite(pos, old_b, new_b) => pos < data.len() && data[pos as int] == old_b,
        UndoOp::Insert(pos, b) => pos <= data.len(),
        UndoOp::Delete(pos, b) => pos < data.len() && data[pos as int] == b,
    }
}

/// The byte sequence after redoing `op` (applying it forward).
pub open spec fn apply_redo_op(data: Seq<u8>, op: UndoOp) -> Seq<u8> {
    match op {
        UndoOp::Overwrite(pos, old_b, new_b) => data.update(pos as int, new_b),
        UndoOp::Insert(pos, b) => data.insert(pos as int, b),
        UndoOp::Delete(pos, b) => data.remove(pos as int),
    }
}

/// The undo log replays against `data`: its last entry undoes cleanly, and
/// the rest of the log replays against the resulting sequence.
pub open spec fn undo_stack_ok(data: Seq<u8>, undo: Seq<UndoOp>) -> bool
    decreases undo.len(),
{
    undo.len() == 0 || {
        &&& undo_op_ok(data, undo.last())
        &&& undo_stack_ok(apply_undo_op(data, undo.last()), undo.drop_last())
    }
}

/// The redo log replays forward against `data`.
pub open spec fn redo_stack_ok(data: Seq<u8>, redo: Seq<UndoOp>) -> bool
    decreases redo.len(),
{
    redo.len() == 0 || {
        &&& redo_op_ok(data, redo.last())
        &&& redo_stack_ok(apply_redo_op(data, redo.last()), redo.drop_last())
    }
}

impl DocView {
    /// Well-formedness: both logs replay cleanly against the current bytes.
    pub open spec fn wf(self) -> bool {
        undo_stack_ok(self.data, self.undo) && redo_stack_ok(self.data, self.redo)
    }
}

/// Model transition of a successful `set` (requires `pos < data.len()`).
/// A write of the byte already present changes nothing and records nothing.
pub open spec fn spec_set(m: DocView, pos: usize, value: u8) -> DocView {
    if m.data[pos as int] == value {
        m
    } else {
        DocView {
            data: m.data.update(pos as int, value),
            modified: true,
            undo: m.undo.push(UndoOp::Overwrite(pos, m.data[pos as int], value)),
            redo: Seq::empty(),
            ..m
        }
    }
}

/// Model transition of a successful `insert` (requires `pos <= data.len()`).
pub open spec fn spec_insert(m: DocView, pos: usize, value: u8) -> DocView {
    DocView {
        data: m.data.insert(pos as int, value),
        modified: true,
        undo: m.undo.push(UndoOp::Insert(pos, value)),
        redo: Seq::empty(),
        ..m
    }
}

/// Model transition of a successful `delete` (requires `pos < data.len()`).
pub open spec fn spec_delete(m: DocView, pos: usize) -> DocView {
    DocView {
        data: m.data.remove(pos as int),
        modified: true,
        undo: m.undo.push(UndoOp::Delete(pos, m.data[pos as int])),
        redo: Seq::empty(),
        ..m
    }
}

/// Model transition of `undo`: pop the last operation, apply its inverse,
/// move it to the redo log, and re-derive the modified flag.
pub open spec fn spec_undo1(m: DocView) -> DocView {
    if m.undo.len() == 0 {
        m
    } else {
        let op = m.undo.last();
        DocView {
            data: apply_undo_op(m.data, op),
            modified: m.undo.drop_last().len() > 0,
            undo: m.undo.drop_last(),
            redo: m.redo.push(op),
            ..m
        }
    }
}

/// Model transition of `redo`: pop the last undone operation, apply it
/// forward, and move it back to the undo log.
pub open spec fn spec_redo1(m: DocView) -> DocView {
    if m.redo.len() == 0 {
        m
    } else {
        let op = m.redo.last();
        DocView {
            data: apply_redo_op(m.data, op),
            modified: true,
            undo: m.undo.push(op),
            redo: m.redo.drop_last(),
            ..m
        }
    }
}

/// The clamp `min(a, b)` on integers.
pub open spec fn spec_min(a: int, b: int) -> int {
    if a < b { a } else { b }
}

/// The byte offset `undo` reports: the most relevant position of the undone
/// change, clamped into the new buffer (requires a non-empty undo log).
pub open spec fn spec_undo_pos(m: DocView) -> int {
    let op = m.undo.last();
    match op {
        UndoOp::Overwrite(pos, old_b, new_b) => pos as int,
        UndoOp::Insert(pos, b) => {
            let n = apply_undo_op(m.data, op).len() as int;
            spec_min(if pos > 0 { pos - 1 } else { 0 }, if n > 0 { n - 1 } else { 0 })
        },
        UndoOp::Delete(pos, b) => pos as int,
    }
}

/// The byte offset `redo` reports (requires a non-empty redo log).
pub open spec fn spec_redo_pos(m: DocView) -> int {
    let op = m.redo.last();
    match op {
        UndoOp::Overwrite(pos, old_b, new_b) => pos as int,
        UndoOp::Insert(pos, b) => pos as int,
        UndoOp::Delete(pos, b) => {
            let n = apply_redo_op(m.data, op).len() as int;
            spec_min(pos as int, if n > 0 { n - 1 } else { 0 })
        },
    }
}

/// The index after the last `/` of a path, or 0 when it has none.
pub open spec fn spec_base_start(p: Seq<char>) -> int
    decreases p.len(),
{
    if p.len() == 0 {
        0
    } else if p.last() == '/' {
        p.len() as int
    } else {
        spec_base_start(p.drop_last())
    }
}

/// What follows the last `/` of a path: its file name.
pub open spec fn spec_basename(p: Seq<char>) -> Seq<char> {
    p.subrange(spec_base_start(p), p.len() as int)
}

/// The in-memory byte sequence under edit, with its undo and redo logs.
pub struct Document {
    path: Option<String>,
    data: Vec<u8>,
    modified: bool,
    readonly: bool,
    undo_stack: Vec<UndoOp>,
    redo_stack: Vec<UndoOp>,
}

impl View for Document {
    type V = DocView;

    closed spec fn view(&self) -> DocView {
        DocView {
            data: self.data@,
            modified: self.modified,
            readonly: self.readonly,
            path: match self.path {
                Some(p) => Some(p@),
                None => None,
            },
            undo: self.undo_stack@,
            redo: self.redo_stack@,
        }
    }
}

impl Document {
    /// Creates an empty document.
    pub fn new() -> (r: Document)
        ensures
            r@.wf(),
            r@.data.len() == 0,
            r@.modified == false,
            r@.readonly == false,
            r@.path is None,
            r@.undo.len() == 0,
            r@.redo.len() == 0,
    {
        Document {
            path: None,
            data: Vec::new(),
            modified: false,
            readonly: false,
            undo_stack: Vec::new(),
            redo_stack: Vec::new(),
        }
    }

    /// Creates a document holding the given bytes.
    pub fn from_bytes(data: Vec<u8>) -> (r: Document)
        ensures
            r@.wf(),
            r@.data == data@,
            r@.modified == false,
            r@.readonly == false,
            r@.path is None,
            r@.undo.len() == 0,
            r@.redo.len() == 0,
    {
        Document {
            path: None,
            data,
            modified: false,
            readonly: false,
            undo_stack: Vec::new(),
            redo_stack: Vec::new(),
        }
    }

    /// The number of bytes in the buffer.
    pub fn len(&self) -> (r: usize)
        ensures
            r == self@.data.len(),
    {
        self.data.len()
    }

    /// Whether the buffer holds no bytes.
    pub fn is_empty(&self) -> (r: bool)
        ensures
            r == (self@.data.len() == 0),
    {
        self.data.is_empty()
    }

    /// The byte at `pos`, or `None` past the end.
    pub fn get(&self, pos: usize) -> (r: Option<u8>)
        ensures
            pos < self@.data.len() ==> r == Some(self@.data[pos as int]),
            pos >= self@.data.len() ==> r is None,
    {
        if pos < self.data.len() {
            Some(self.data[pos])
        } else {
            None
        }
    }

    /// The bytes in `[start, end)`, or `None` when the range is invalid.
    pub fn get_range(&self, start: usize, end: usize) -> (r: Option<&[u8]>)
        ensures
            start <= end <= self@.data.len() ==> (r matches Some(s) && s@
                == self@.data.subrange(start as int, end as int)),
            !(start <= end <= self@.data.len()) ==> r is None,
    {
        if start <= end && end <= self.data.len() {
            Some(vstd::slice::slice_subrange(self.data.as_slice(), start, end))
        } else {
            None
        }
    }

    /// Overwrites the byte at `pos`, recording the change for undo.
    /// Writing the value already present changes nothing and records nothing.
    pub fn set(&mut self, pos: usize, value: u8) -> (r: Result<(), BufferError>)
        requires
            old(self)@.wf(),
        ensures
            final(self)@.wf(),
            pos < old(self)@.data.len() ==> r is Ok && final(self)@ == spec_set(
                old(self)@,
                pos,
                value,
            ),
            pos < old(self)@.data.len() && old(self)@.data[pos as int] == value ==> final(self)@
                == old(self)@,
            pos >= old(self)@.data.len() ==> r == Err::<(), BufferError>(
                BufferError::OutOfBounds(pos),
            ) && final(self)@ == old(self)@,
    {
        if pos < self.data.len() {
            let old_value = self.data[pos];
            if old_value != value {
                self.data.set(pos, value);
                self.modified = true;
                self.undo_stack.push(UndoOp::Overwrite(pos, old_value, value));
                self.redo_stack.clear();
                proof {
                    lemma_set_wf(old(self)@, pos, value);
                    assert(final(self)@ =~= spec_set(old(self)@, pos, value));
                }
            }
            Ok(())
        } else {
            Err(BufferError::OutOfBounds(pos))
        }
    }

    /// Inserts a byte at `pos` (appending when `pos == len`), recording the
    /// change for undo.
    pub fn insert(&mut self, pos: usize, value: u8) -> (r: Result<(), BufferError>)
        requires
            old(self)@.wf(),
        ensures
            final(self)@.wf(),
            pos <= old(self)@.data.len() ==> r is Ok && final(self)@ == spec_insert(
                old(self)@,
                pos,
                value,
            ),
            pos > old(self)@.data.len() ==> r == Err::<(), BufferError>(
                BufferError::OutOfBounds(pos),
            ) && final(self)@ == old(self)@,
    {
        if pos <= self.data.len() {
            self.data.insert(pos, value);
            self.modified = true;
            self.undo_stack.push(UndoOp::Insert(pos, value));
            self.redo_stack.clear();
            proof {
                lemma_insert_wf(old(self)@, pos, value);
                assert(final(self)@ =~= spec_insert(old(self)@, pos, value));
            }
            Ok(())
        } else {
            Err(BufferError::OutOfBounds(pos))
        }
    }

    /// Removes and returns the byte at `pos`, recording the change for undo.
    pub fn delete(&mut self, pos: usize) -> (r: Result<u8, BufferError>)
        requires
            old(self)@.wf(),
        ensures
            final(self)@.wf(),
            pos < old(self)@.data.len() ==> r == Ok::<u8, BufferError>(
                old(self)@.data[pos as int],
            ) && final(self)@ == spec_delete(old(self)@, pos),
            pos >= old(self)@.data.len() ==> r == Err::<u8, BufferError>(
                BufferError::OutOfBounds(pos),
            ) && final(self)@ == old(self)@,
    {
        if pos < self.data.len() {
            let value = self.data.remove(pos);
            self.modified = true;
            self.undo_stack.push(UndoOp::Delete(pos, value));
            self.redo_stack.clear();
            proof {
                lemma_delete_wf(old(self)@, pos);
                assert(final(self)@ =~= spec_delete(old(self)@, pos));
            }
            Ok(value)
        } else {
            Err(BufferError::OutOfBounds(pos))
        }
    }

    /// Undoes the most recent operation and reports the offset most relevant
    /// to the reverted change, or `None` when there is nothing to undo.
    pub fn undo(&mut self) -> (r: Option<usize>)
        requires
            old(self)@.wf(),
        ensures
            final(self)@.wf(),
            old(self)@.undo.len() == 0 ==> r is None && final(self)@ == old(self)@,
            old(self)@.undo.len() > 0 ==> final(self)@ == spec_undo1(old(self)@) && (r matches Some(
                p,
            ) && p == spec_undo_pos(old(self)@)),
    {
        let op = match self.undo_stack.pop() {
            Some(op) => op,
            None => {
                proof {
                    assert(final(self)@ =~= old(self)@);
                }
                return None;
            },
        };
        proof {
            assert(undo_op_ok(old(self)@.data, op));
        }
        let pos = match op {
            UndoOp::Overwrite(pos, old_value, new_value) => {
                self.data.set(pos, old_value);
                self.redo_stack.push(UndoOp::Overwrite(pos, old_value, new_value));
                pos
            },
            UndoOp::Insert(pos, value) => {
                self.data.remove(pos);
                self.redo_stack.push(UndoOp::Insert(pos, value));
                let back = if pos > 0 {
                    pos - 1
                } else {
                    0
                };
                let limit = if self.data.len() > 0 {
                    self.data.len() - 1
                } else {
                    0
                };
                if back < limit {
                    back
                } else {
                    limit
                }
            },
            UndoOp::Delete(pos, value) => {
                self.data.insert(pos, value);
                self.redo_stack.push(UndoOp::Delete(pos, value));
                pos
            },
        };
        self.modified = !self.undo_stack.is_empty();
        proof {
            lemma_undo1_wf(old(self)@);
            assert(final(self)@ =~= spec_undo1(old(self)@));
        }
        Some(pos)
    }

    /// Redoes the most recently undone operation and reports the offset most
    /// relevant to it, or `None` when there is nothing to redo.
    pub fn redo(&mut self) -> (r: Option<usize>)
        requires
            old(self)@.wf(),
        ensures
            final(self)@.wf(),
            old(self)@.redo.len() == 0 ==> r is None && final(self)@ == old(self)@,
            old(self)@.redo.len() > 0 ==> final(self)@ == spec_redo1(old(self)@) && (r matches Some(
                p,
            ) && p == spec_redo_pos(old(self)@)),
    {
        let op = match self.redo_stack.pop() {
            Some(op) => op,
            None => {
                proof {
                    assert(final(self)@ =~= old(self)@);
                }
                return None;
            },
        };
        proof {
            assert(redo_op_ok(old(self)@.data, op));
        }
        let pos = match op {
            UndoOp::Overwrite(pos, old_value, new_value) => {
                self.data.set(pos, new_value);
                self.undo_stack.push(UndoOp::Overwrite(pos, old_value, new_value));
                pos
            },
            UndoOp::Insert(pos, value) => {
                self.data.insert(pos, value);
                self.undo_stack.push(UndoOp::Insert(pos, value));
                pos
            },
            UndoOp::Delete(pos, value) => {
                self.data.remove(pos);
                self.undo_stack.push(UndoOp::Delete(pos, value));
                let limit = if self.data.len() > 0 {
                    self.data.len() - 1
                } else {
                    0
                };
                if pos < limit {
                    pos
                } else {
                    limit
                }
            },
        };
        self.modified = true;
        proof {
            lemma_redo1_wf(old(self)@);
            assert(final(self)@ =~= spec_redo1(old(self)@));
        }
        Some(pos)
    }

    /// How many operations the undo log holds.
    pub fn undo_depth(&self) -> (r: usize)
        ensures
            r == self@.undo.len(),
    {
        self.undo_stack.len()
    }

    /// How many operations the redo log holds.
    pub fn redo_depth(&self) -> (r: usize)
        ensures
            r == self@.redo.len(),
    {
        self.redo_stack.len()
    }

    /// Whether the buffer differs from its last saved state.
    pub fn is_modified(&self) -> (r: bool)
        ensures
            r == self@.modified,
    {
        self.modified
    }

    /// Whether the buffer is flagged read-only.
    pub fn is_readonly(&self) -> (r: bool)
        ensures
            r == self@.readonly,
    {
        self.readonly
    }

    /// Sets the read-only flag.
    pub fn set_readonly(&mut self, readonly: bool)
        requires
            old(self)@.wf(),
        ensures
            final(self)@.wf(),
            final(self)@ == (DocView { readonly, ..old(self)@ }),
    {
        self.readonly = readonly;
        proof {
            assert(final(self)@ =~= (DocView { readonly, ..old(self)@ }));
        }
    }

    /// Records that the whole buffer was just written to `path`; the caller
    /// performs the actual write before calling this.
    pub fn save_as(&mut self, path: String)
        requires
            old(self)@.wf(),
        ensures
            final(self)@.wf(),
            final(self)@ == (DocView {
                path: Some(path@),
                modified: false,
                ..old(self)@
            }),
    {
        self.path = Some(path);
        self.modified = false;
        proof {
            assert(final(self)@ =~= (DocView {
                path: Some(path@),
                modified: false,
                ..old(self)@
            }));
        }
    }

    /// Records that the whole buffer was just written to its current path.
    pub fn mark_saved(&mut self)
        requires
            old(self)@.wf(),
        ensures
            final(self)@.wf(),
            final(self)@ == (DocView { modified: false, ..old(self)@ }),
    {
        self.modified = false;
        proof {
            assert(final(self)@ =~= (DocView { modified: false, ..old(self)@ }));
        }
    }

    /// The path the document was last saved to or loaded from.
    pub fn path(&self) -> (r: Option<&String>)
        ensures
            self@.path is Some <==> (r matches Some(p) && p@ == self@.path->0),
            self@.path is None <==> r is None,
    {
        self.path.as_ref()
    }

    /// The file name of the document: what follows the last `/` of its
    /// path, when it has one.
    pub fn filename(&self) -> (r: Option<&str>)
        ensures
            self@.path is Some <==> (r matches Some(f) && f@ == spec_basename(self@.path->0)),
            self@.path is None <==> r is None,
    {
        match &self.path {
            Some(p) => {
                let s = p.as_str();
                let n = s.unicode_len();
                let mut start: usize = n;
                proof {
                    assert(p@.subrange(0, n as int) =~= p@);
                }
                while start > 0 && s.get_char(start - 1) != '/'
                    invariant
                        start <= n,
                        n == p@.len(),
                        s@ == p@,
                        spec_base_start(p@) == spec_base_start(p@.subrange(0, start as int)),
                    decreases start,
                {
                    proof {
                        let t = p@.subrange(0, start as int);
                        assert(t.drop_last() =~= p@.subrange(0, start as int - 1));
                        assert(t.last() == p@[start as int - 1]);
                    }
                    start = start - 1;
                }
                proof {
                    let t = p@.subrange(0, start as int);
                    if start > 0 {
                        assert(t.last() == p@[start as int - 1]);
                        assert(spec_base_start(t) == start);
                    } else {
                        assert(t.len() == 0);
                    }
                    assert(spec_base_start(p@) == start);
                }
                Some(s.substring_char(start, n))
            },
            None => None,
        }
    }

    /// The modeled byte sequence fits the machine word, as any real buffer
    /// must.
    pub proof fn lemma_len_bound(&self)
        ensures
            self@.data.len() <= usize::MAX,
    {
        assert(vstd::std_specs::vec::spec_vec_len(&self.data) == self.data@.len());
    }

    /// A borrow of the raw bytes.
    pub fn data(&self) -> (r: &[u8])
        ensures
            r@ == self@.data,
    {
        self.data.as_slice()
    }
}

/// A successful `set` preserves well-formedness.
pub proof fn lemma_set_wf(m: DocView, pos: usize, value: u8)
    requires
        m.wf(),
        pos < m.data.len(),
    ensures
        spec_set(m, pos, value).wf(),
{
    if m.data[pos as int] != value {
        let m2 = spec_set(m, pos, value);
        let op = UndoOp::Overwrite(pos, m.data[pos as int], value);
        assert(m2.undo.last() == op);
        assert(m2.undo.drop_last() =~= m.undo);
        assert(apply_undo_op(m2.data, op) =~= m.data);
    }
}

/// A successful `insert` preserves well-formedness.
pub proof fn lemma_insert_wf(m: DocView, pos: usize, value: u8)
    requires
        m.wf(),
        pos <= m.data.len(),
    ensures
        spec_insert(m, pos, value).wf(),
{
    let m2 = spec_insert(m, pos, value);
    let op = UndoOp::Insert(pos, value);
    assert(m2.undo.last() == op);
    assert(m2.undo.drop_last() =~= m.undo);
    m.data.insert_ensures(pos as int, value);
    assert(m2.data[pos as int] == value);
    assert(apply_undo_op(m2.data, op) =~= m.data) by {
        lemma_insert_then_remove(m.data, pos as int, value);
    }
}

/// A successful `delete` preserves well-formedness.
pub proof fn lemma_delete_wf(m: DocView, pos: usize)
    requires
        m.wf(),
        pos < m.data.len(),
    ensures
        spec_delete(m, pos).wf(),
{
    let m2 = spec_delete(m, pos);
    let op = UndoOp::Delete(pos, m.data[pos as int]);
    assert(m2.undo.last() == op);
    assert(m2.undo.drop_last() =~= m.undo);
    m.data.remove_ensures(pos as int);
    assert(apply_undo_op(m2.data, op) =~= m.data) by {
        lemma_remove_then_insert(m.data, pos as int);
    }
}

/// Inserting an element and removing it again restores the sequence.
pub proof fn lemma_insert_then_remove(s: Seq<u8>, i: int, v: u8)
    requires
        0 <= i <= s.len(),
    ensures
        s.insert(i, v).remove(i) =~= s,
{
    s.insert_ensures(i, v);
    s.insert(i, v).remove_ensures(i);
}

/// Removing an element and re-inserting the same value restores the sequence.
pub proof fn lemma_remove_then_insert(s: Seq<u8>, i: int)
    requires
        0 <= i < s.len(),
    ensures
        s.remove(i).insert(i, s[i]) =~= s,
{
    s.remove_ensures(i);
    s.remove(i).insert_ensures(i, s[i]);
}

/// A buffer mutation, described abstractly: what a caller asks `set`,
/// `insert` or `delete` to do.
pub ghost enum Mutation {
    Put { pos: usize, value: u8 },
    Ins { pos: usize, value: u8 },
    Del { pos: usize },
}

/// Whether the mutation is in range and actually records an undo entry
/// (a `set` of the byte already present records nothing).
pub open spec fn mutation_recorded(m: DocView, mu: Mutation) -> bool {
    match mu {
        Mutation::Put { pos, value } => pos < m.data.len() && m.data[pos as int] != value,
        Mutation::Ins { pos, value } => pos <= m.data.len(),
        Mutation::Del { pos } => pos < m.data.len(),
    }
}

/// The model after applying one mutation.
pub open spec fn apply_mutation(m: DocView, mu: Mutation) -> DocView {
    match mu {
        Mutation::Put { pos, value } => spec_set(m, pos, value),
        Mutation::Ins { pos, value } => spec_insert(m, pos, value),
        Mutation::Del { pos } => spec_delete(m, pos),
    }
}

/// The model after applying a sequence of mutations in order.
pub open spec fn apply_mutations(m: DocView, ms: Seq<Mutation>) -> DocView
    decreases ms.len(),
{
    if ms.len() == 0 {
        m
    } else {
        apply_mutations(apply_mutation(m, ms[0]), ms.drop_first())
    }
}

/// Whether every mutation in the sequence, applied in order, is in range
/// and records an undo entry.
pub open spec fn mutations_recorded(m: DocView, ms: Seq<Mutation>) -> bool
    decreases ms.len(),
{
    ms.len() == 0 || {
        &&& mutation_recorded(m, ms[0])
        &&& mutations_recorded(apply_mutation(m, ms[0]), ms.drop_first())
    }
}

/// The model after `n` undo steps.
pub open spec fn undo_n(m: DocView, n: nat) -> DocView
    decreases n,
{
    if n == 0 {
        m
    } else {
        spec_undo1(undo_n(m, (n - 1) as nat))
    }
}

/// One recorded mutation followed by one undo restores the bytes, the undo
/// log, and (when the modified flag agreed with the undo log) the flag.
proof fn lemma_undo1_reverses(m: DocView, mu: Mutation)
    requires
        m.wf(),
        mutation_recorded(m, mu),
    ensures
        spec_undo1(apply_mutation(m, mu)).data == m.data,
        spec_undo1(apply_mutation(m, mu)).undo == m.undo,
        spec_undo1(apply_mutation(m, mu)).modified == (m.undo.len() > 0),
        spec_undo1(apply_mutation(m, mu)).readonly == m.readonly,
        spec_undo1(apply_mutation(m, mu)).path == m.path,
{
    let m1 = apply_mutation(m, mu);
    let r = spec_undo1(m1);
    assert(m1.undo.drop_last() =~= m.undo);
    match mu {
        Mutation::Put { pos, value } => {
            assert(r.data =~= m.data);
        },
        Mutation::Ins { pos, value } => {
            lemma_insert_then_remove(m.data, pos as int, value);
            assert(r.data =~= m.data);
        },
        Mutation::Del { pos } => {
            lemma_remove_then_insert(m.data, pos as int);
            assert(r.data =~= m.data);
        },
    }
}

/// The data, undo log and modified flag that `undo` produces depend only on
/// the data and undo log it starts from.
proof fn lemma_undo1_congruent(a: DocView, b: DocView)
    requires
        a.data == b.data,
        a.undo == b.undo,
        a.undo.len() > 0,
    ensures
        spec_undo1(a).data == spec_undo1(b).data,
        spec_undo1(a).undo == spec_undo1(b).undo,
        spec_undo1(a).modified == spec_undo1(b).modified,
{
}

/// A recorded mutation preserves well-formedness.
proof fn lemma_mutation_wf(m: DocView, mu: Mutation)
    requires
        m.wf(),
        mutation_recorded(m, mu),
    ensures
        apply_mutation(m, mu).wf(),
{
    match mu {
        Mutation::Put { pos, value } => lemma_set_wf(m, pos, value),
        Mutation::Ins { pos, value } => lemma_insert_wf(m, pos, value),
        Mutation::Del { pos } => lemma_delete_wf(m, pos),
    }
}

/// Edit reversibility: after any sequence of recorded `set`/`insert`/`delete`
/// mutations, the same number of undo steps restores the byte sequence, the
/// undo log, and the modified flag to what they were before the sequence
/// (provided the flag agreed with the undo log beforehand, as it does except
/// immediately after a save).
pub proof fn lemma_undo_reverts_mutations(m: DocView, ms: Seq<Mutation>)
    requires
        m.wf(),
        mutations_recorded(m, ms),
        m.modified == (m.undo.len() > 0),
    ensures
        undo_n(apply_mutations(m, ms), ms.len()).data == m.data,
        undo_n(apply_mutations(m, ms), ms.len()).undo == m.undo,
        undo_n(apply_mutations(m, ms), ms.len()).modified == m.modified,
    decreases ms.len(),
{
    if ms.len() > 0 {
        let mu = ms[0];
        let m1 = apply_mutation(m, mu);
        lemma_mutation_wf(m, mu);
        assert(m1.undo.len() > 0 && m1.modified);
        lemma_undo_reverts_mutations(m1, ms.drop_first());
        let a = apply_mutations(m, ms);
        assert(a == apply_mutations(m1, ms.drop_first()));
        let b = undo_n(a, (ms.len() - 1) as nat);
        assert(undo_n(a, ms.len()) == spec_undo1(b));
        lemma_undo1_congruent(b, m1);
        lemma_undo1_reverses(m, mu);
    }
}

/// Redo exactness: an undo followed by a redo, with no mutation in between,
/// reproduces the exact post-mutation state: bytes, both logs, and the
/// modified flag (which is true after any recorded mutation).
pub proof fn lemma_redo_after_undo(m: DocView)
    requires
        m.wf(),
        m.undo.len() > 0,
        m.modified,
    ensures
        spec_redo1(spec_undo1(m)) == m,
{
    let op = m.undo.last();
    let m1 = spec_undo1(m);
    let r = spec_redo1(m1);
    assert(m1.redo.last() == op);
    assert(m1.redo.drop_last() =~= m.redo);
    assert(m1.undo.push(op) =~= m.undo);
    match op {
        UndoOp::Overwrite(pos, old_b, new_b) => {
            assert(r.data =~= m.data);
        },
        UndoOp::Insert(pos, b) => {
            lemma_remove_then_insert(m.data, pos as int);
            assert(r.data =~= m.data);
        },
        UndoOp::Delete(pos, b) => {
            lemma_insert_then_remove(m.data, pos as int, b);
            assert(r.data =~= m.data);
        },
    }
    assert(r =~= m);
}

/// `undo` preserves well-formedness.
pub proof fn lemma_undo1_wf(m: DocView)
    requires
        m.wf(),
    ensures
        spec_undo1(m).wf(),
{
    if m.undo.len() > 0 {
        let op = m.undo.last();
        let m2 = spec_undo1(m);
        assert(undo_stack_ok(m2.data, m2.undo));
        assert(m2.redo.last() == op);
        assert(m2.redo.drop_last() =~= m.redo);
        match op {
            UndoOp::Overwrite(pos, old_b, new_b) => {
                assert(redo_op_ok(m2.data, op));
                assert(apply_redo_op(m2.data, op) =~= m.data);
            },
            UndoOp::Insert(pos, b) => {
                m.data.remove_ensures(pos as int);
                assert(redo_op_ok(m2.data, op));
                assert(apply_redo_op(m2.data, op) =~= m.data) by {
                    lemma_remove_then_insert(m.data, pos as int);
                }
            },
            UndoOp::Delete(pos, b) => {
                m.data.insert_ensures(pos as int, b);
                assert(redo_op_ok(m2.data, op));
                assert(apply_redo_op(m2.data, op) =~= m.data) by {
                    lemma_insert_then_remove(m.data, pos as int, b);
                }
            },
        }
        assert(redo_stack_ok(m2.data, m2.redo));
    }
}

/// `redo` preserves well-formedness.
pub proof fn lemma_redo1_wf(m: DocView)
    requires
        m.wf(),
    ensures
        spec_redo1(m).wf(),
{
    if m.redo.len() > 0 {
        let op = m.redo.last();
        let m2 = spec_redo1(m);
        assert(redo_stack_ok(m2.data, m2.redo));
        assert(m2.undo.last() == op);
        assert(m2.undo.drop_last() =~= m.undo);
        match op {
            UndoOp::Overwrite(pos, old_b, new_b) => {
                assert(undo_op_ok(m2.data, op));
                assert(apply_undo_op(m2.data, op) =~= m.data);
            },
            UndoOp::Insert(pos, b) => {
                m.data.insert_ensures(pos as int, b);
                assert(undo_op_ok(m2.data, op));
                assert(apply_undo_op(m2.data, op) =~= m.data) by {
                    lemma_insert_then_remove(m.data, pos as int, b);
                }
            },
            UndoOp::Delete(pos, b) => {
                m.data.remove_ensures(pos as int);
                assert(undo_op_ok(m2.data, op));
                assert(apply_undo_op(m2.data, op) =~= m.data) by {
                    lemma_remove_then_insert(m.data, pos as int);
                }
            },
        }
        assert(undo_stack_ok(m2.data, m2.undo));
    }
}

} // verus!
