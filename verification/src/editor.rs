//! The editor controller: cursor, selection, scroll state, the edit-mode
//! and elevated-mode automaton, and the dispatch of logical actions onto
//! the document.

use vstd::prelude::*;
use crate::document::{DocView, Document};
use crate::encoding::CharEncoding;

verus! {

/// Whether byte input replaces bytes in place or shifts the buffer.
#[derive(Clone, Copy, Debug, PartialEq, Eq, Structural)]
pub enum EditMode {
    Overwrite,
    Insert,
}

/// Hex byte entry happens two keystrokes at a time; this records a pending
/// first digit.
#[derive(Clone, Copy, Debug, PartialEq, Eq, Structural)]
pub enum InputState {
    Normal,
    /// The first hex digit of a byte has been entered.
    HexFirstDigit(u8),
}

/// Emacs-style two-stroke prefix key state.
#[derive(Clone, Copy, Debug, PartialEq, Eq, Structural)]
pub enum PrefixKey {
    Idle,
    /// `C-x` has been pressed.
    CtrlX,
}

/// The sub-state of an interactive query-replace.
#[derive(Clone, Copy, Debug, PartialEq, Eq, Structural)]
pub enum ReplaceMode {
    Off,
    /// The search pattern is being typed.
    EnteringSearch,
    /// The replacement text is being typed.
    EnteringReplace,
    /// Waiting for a per-match decision.
    Confirming,
}

/// Which single-line prompt is open.
#[derive(Clone, Copy, Debug, PartialEq, Eq, Structural)]
pub enum PromptMode {
    Off,
    GotoAddress,
    OpenFile,
    SaveAs,
    Command,
    CommandArg,
}

/// Which unsaved-changes confirmation is pending.
#[derive(Clone, Copy, Debug, PartialEq, Eq, Structural)]
pub enum ConfirmMode {
    Off,
    Quit,
    /// A file open is pending; the path sits in `pending_open_path`.
    OpenFile,
    KillBuffer,
}

/// A status-line report. Rendering it as text is the host's concern.
#[derive(Clone, Copy, Debug, PartialEq, Eq, Structural)]
pub enum StatusMsg {
    CtrlXPrefix,
    CancelHint,
    MarkSet,
    NoSelection,
    Copied(usize),
    CopiedHex,
    CutBytes(usize),
    Pasted(usize),
    ClipboardUnavailable,
    CannotEncode(char),
    Saved,
    SaveFailed,
    Opened,
    OpenFailed,
    NoFileGiven,
    Undone,
    NothingToUndo,
    Redone,
    NothingToRedo,
    EncodingChanged(CharEncoding),
    FoundAt(usize),
    WrappedFoundAt(usize),
    NotFound,
    SearchCommitted,
    SearchCancelled,
    Cancelled,
    EmptySearchPattern,
    ReplacePrompt(usize),
    NoMoreMatches,
    ReplaceFinished,
    ReplacedCount(usize),
    NoAddress,
    JumpedTo(usize),
    AddressTooLarge(usize, usize),
    InvalidAddress,
    UnknownCommand,
    HelpText,
    InvalidByteValue,
    InvalidCount,
    CountMustBePositive,
    InsertUsage,
    Filled(usize, u8),
    InsertedFill(usize, u8),
    BufferKilled,
    FocusGained,
}

/// Work the controller asks its host to perform: the I/O half of an action.
/// The host performs it and reports back through the matching completion
/// method.
#[derive(Clone, Debug, PartialEq, Eq)]
pub enum Effect {
    /// Write the whole buffer to its current path; report via `save_done`.
    SaveFile,
    /// Write the whole buffer to this path; report via `save_as_done`.
    SaveFileAs(Vec<char>),
    /// Write the buffer to its path, then finish the pending confirmation
    /// via `confirm_save_done`.
    SaveThenProceed,
    /// Read the file at this path; report via `open_done` or `open_failed`.
    OpenPath(Vec<char>),
    /// Hand this text to the system clipboard.
    CopyText(Vec<char>),
    /// Fetch clipboard text and hand it to `paste_from_terminal`.
    FetchClipboard,
}

/// Mathematical model of an [`Effect`]: payloads as character sequences.
pub ghost enum EffectView {
    SaveFile,
    SaveFileAs(Seq<char>),
    SaveThenProceed,
    OpenPath(Seq<char>),
    CopyText(Seq<char>),
    FetchClipboard,
}

/// A logical editor action, decoded from raw input by the host.
#[derive(Clone, Debug, PartialEq, Eq)]
pub enum Action {
    Quit,
    Save,
    SaveAs(String),
    CursorUp,
    CursorDown,
    CursorLeft,
    CursorRight,
    CursorHome,
    CursorEnd,
    PageUp,
    PageDown,
    GotoBeginning,
    GotoEnd,
    GotoAddress(usize),
    InputHex(char),
    InputAscii(char),
    Delete,
    Backspace,
    ToggleMode,
    ToggleEditMode,
    StartSelection,
    ClearSelection,
    SelectAll,
    SelectUp,
    SelectDown,
    SelectLeft,
    SelectRight,
    Copy,
    CopyHex,
    Cut,
    Paste,
    PasteHex,
    ToggleEncoding,
    SetBytesPerRow(usize),
    StartSearch,
    StartSearchBack,
    Search(Vec<u8>),
    SearchNext,
    SearchPrev,
    StartReplace,
    StartGoto,
    OpenFile,
    StartSaveAs,
    KillBuffer,
    ExecuteCommand,
    Undo,
    Redo,
    EnterCtrlX,
    Cancel,
    Noop,
}

/// Key modifier flags, as the host decodes them.
#[derive(Clone, Copy, Debug, Default)]
pub struct KeyMod {
    pub ctrl: bool,
    pub shift: bool,
    pub alt: bool,
}

/// A key press as the elevated modes (search, replace, prompt, confirm)
/// consume it, decoded from raw input by the host.
#[derive(Clone, Copy, Debug, PartialEq, Eq, Structural)]
pub enum ModeKey {
    /// A printable character without control held.
    Chr(char),
    /// A character with control held.
    CtrlChr(char),
    Enter,
    Backspace,
    Del,
    Esc,
}

/// Mathematical model of the whole controller state.
#[verifier::ext_equal]
pub ghost struct AppView {
    pub doc: DocView,
    pub cursor: int,
    pub offset: int,
    pub bytes_per_row: int,
    pub visible_rows: int,
    pub hex_mode: bool,
    pub edit_mode: EditMode,
    pub input_state: InputState,
    pub prefix_key: PrefixKey,
    pub selection: Option<(int, int)>,
    pub selection_start: Option<int>,
    pub encoding: CharEncoding,
    pub should_quit: bool,
    pub status: Option<StatusMsg>,
    pub search_mode: bool,
    pub search_query: Seq<char>,
    pub last_search_query: Seq<char>,
    pub search_start_pos: int,
    pub replace_mode: ReplaceMode,
    pub replace_with: Seq<char>,
    pub prompt_mode: PromptMode,
    pub prompt_input: Seq<char>,
    pub confirm_mode: ConfirmMode,
    pub pending_open_path: Seq<char>,
    pub current_command: Seq<char>,
}

impl AppView {
    /// Controller well-formedness: the document is well-formed, the cursor
    /// lies in `[0, len]` (one past the end is the insertion point), rows
    /// hold at least one byte, and any selection is ordered.
    pub open spec fn wf(self) -> bool {
        &&& self.doc.wf()
        &&& 0 <= self.cursor <= self.doc.data.len()
        &&& self.bytes_per_row >= 1
        &&& 0 <= self.visible_rows
        &&& 0 <= self.offset
        &&& 0 <= self.search_start_pos
        &&& match self.selection {
            Some((s, e)) => 0 <= s <= e,
            None => true,
        }
        &&& match self.input_state {
            InputState::HexFirstDigit(d) => d < 16,
            InputState::Normal => true,
        }
    }
}

/// The editor controller: one document under edit plus all interaction
/// state.
pub struct App {
    pub(crate) document: Document,
    pub(crate) cursor: usize,
    pub(crate) offset: usize,
    pub(crate) bytes_per_row: usize,
    pub(crate) visible_rows: usize,
    pub(crate) hex_mode: bool,
    pub(crate) edit_mode: EditMode,
    pub(crate) input_state: InputState,
    pub(crate) prefix_key: PrefixKey,
    pub(crate) selection: Option<(usize, usize)>,
    pub(crate) selection_start: Option<usize>,
    pub(crate) encoding: CharEncoding,
    pub(crate) should_quit: bool,
    pub(crate) status: Option<StatusMsg>,
    pub(crate) search_mode: bool,
    pub(crate) search_query: Vec<char>,
    pub(crate) last_search_query: Vec<char>,
    pub(crate) search_start_pos: usize,
    pub(crate) replace_mode: ReplaceMode,
    pub(crate) replace_with: Vec<char>,
    pub(crate) prompt_mode: PromptMode,
    pub(crate) prompt_input: Vec<char>,
    pub(crate) confirm_mode: ConfirmMode,
    pub(crate) pending_open_path: Vec<char>,
    pub(crate) current_command: Vec<char>,
}

impl View for App {
    type V = AppView;

    open(crate) spec fn view(&self) -> AppView {
        AppView {
            doc: self.document@,
            cursor: self.cursor as int,
            offset: self.offset as int,
            bytes_per_row: self.bytes_per_row as int,
            visible_rows: self.visible_rows as int,
            hex_mode: self.hex_mode,
            edit_mode: self.edit_mode,
            input_state: self.input_state,
            prefix_key: self.prefix_key,
            selection: match self.selection {
                Some((s, e)) => Some((s as int, e as int)),
                None => None,
            },
            selection_start: match self.selection_start {
                Some(s) => Some(s as int),
                None => None,
            },
            encoding: self.encoding,
            should_quit: self.should_quit,
            status: self.status,
            search_mode: self.search_mode,
            search_query: self.search_query@,
            last_search_query: self.last_search_query@,
            search_start_pos: self.search_start_pos as int,
            replace_mode: self.replace_mode,
            replace_with: self.replace_with@,
            prompt_mode: self.prompt_mode,
            prompt_input: self.prompt_input@,
            confirm_mode: self.confirm_mode,
            pending_open_path: self.pending_open_path@,
            current_command: self.current_command@,
        }
    }
}

/// The scroll offset after clamping the viewport around the cursor: scroll
/// up to the cursor's row, or down so the cursor sits on the last visible
/// row (a zero-height viewport counts as one row tall).
pub open spec fn spec_scroll_offset(cursor: int, offset: int, bpr: int, visible: int) -> int
    recommends
        bpr >= 1,
{
    let vis = if visible >= 1 {
        visible
    } else {
        1
    };
    let cursor_row = cursor / bpr;
    let offset_row = offset / bpr;
    if cursor_row < offset_row {
        cursor_row * bpr
    } else if cursor_row >= offset_row + vis {
        (cursor_row - vis + 1) * bpr
    } else {
        offset
    }
}

/// The view with the cursor moved to `c` and the viewport scrolled to it.
pub open spec fn spec_goto_scrolled(v: AppView, c: int) -> AppView {
    AppView {
        cursor: c,
        offset: spec_scroll_offset(c, v.offset, v.bytes_per_row, v.visible_rows),
        ..v
    }
}

/// One cursor step up a row, when a full row lies above.
pub open spec fn spec_cursor_up(v: AppView) -> AppView {
    if v.cursor >= v.bytes_per_row {
        spec_goto_scrolled(v, v.cursor - v.bytes_per_row)
    } else {
        v
    }
}

/// One cursor step down a row, when the target is inside the buffer.
pub open spec fn spec_cursor_down(v: AppView) -> AppView {
    if v.cursor + v.bytes_per_row < v.doc.data.len() {
        spec_goto_scrolled(v, v.cursor + v.bytes_per_row)
    } else {
        v
    }
}

/// One cursor step left.
pub open spec fn spec_cursor_left(v: AppView) -> AppView {
    if v.cursor > 0 {
        spec_goto_scrolled(v, v.cursor - 1)
    } else {
        v
    }
}

/// One cursor step right; the end-of-buffer position is reachable.
pub open spec fn spec_cursor_right(v: AppView) -> AppView {
    if v.cursor < v.doc.data.len() {
        spec_goto_scrolled(v, v.cursor + 1)
    } else {
        v
    }
}

/// The cursor moved to the start of its row.
pub open spec fn spec_cursor_home(v: AppView) -> AppView {
    AppView { cursor: (v.cursor / v.bytes_per_row) * v.bytes_per_row, ..v }
}

/// The cursor moved one past its row's last byte, clamped to buffer end.
pub open spec fn spec_cursor_end(v: AppView) -> AppView {
    let row_start = (v.cursor / v.bytes_per_row) * v.bytes_per_row;
    let row_end = if row_start + v.bytes_per_row < v.doc.data.len() {
        row_start + v.bytes_per_row
    } else {
        v.doc.data.len() as int
    };
    AppView { cursor: row_end, ..v }
}

/// One page up: cursor and offset both retreat a viewport, stopping at 0.
pub open spec fn spec_page_up(v: AppView) -> AppView {
    let page = v.visible_rows * v.bytes_per_row;
    AppView {
        cursor: if v.cursor >= page {
            v.cursor - page
        } else {
            0
        },
        offset: if v.offset >= page {
            v.offset - page
        } else {
            0
        },
        ..v
    }
}

/// One page down: cursor advances a viewport clamped to end-of-buffer, the
/// offset advances clamped so a last full page stays visible, and the
/// viewport then re-centers on the cursor.
pub open spec fn spec_page_down(v: AppView) -> AppView {
    let page = v.visible_rows * v.bytes_per_row;
    let len = v.doc.data.len() as int;
    let cursor = if v.cursor + page < len {
        v.cursor + page
    } else {
        len
    };
    let rows = len / v.bytes_per_row;
    let bound = (if rows >= v.visible_rows {
        rows - v.visible_rows
    } else {
        0
    }) * v.bytes_per_row;
    let offset = if v.offset + page < bound {
        v.offset + page
    } else {
        bound
    };
    spec_goto_scrolled(AppView { cursor, offset, ..v }, cursor)
}

/// The selection re-stretched between the anchor and the cursor, when an
/// anchor is set.
pub open spec fn spec_update_selection(v: AppView) -> AppView {
    match v.selection_start {
        Some(anchor) => AppView {
            selection: Some(
                (
                    if anchor <= v.cursor {
                        anchor
                    } else {
                        v.cursor
                    },
                    if anchor <= v.cursor {
                        v.cursor
                    } else {
                        anchor
                    },
                ),
            ),
            ..v
        },
        None => v,
    }
}

/// Rounding down to a multiple of `d` never grows a non-negative value.
proof fn lemma_div_mul_le(x: int, d: int)
    requires
        x >= 0,
        d >= 1,
    ensures
        0 <= (x / d) * d <= x,
{
    vstd::arithmetic::div_mod::lemma_fundamental_div_mod(x, d);
    let q = x / d;
    assert(q * d == d * q) by (nonlinear_arith);
    assert(q * d >= 0) by (nonlinear_arith)
        requires
            q >= 0,
            d >= 1,
    ;
}

impl App {
    /// Creates a controller over an empty document.
    pub fn new() -> (r: App)
        ensures
            r@.wf(),
            r@.doc.data.len() == 0,
            r@.doc.undo.len() == 0,
            r@.doc.redo.len() == 0,
            r@.doc.modified == false,
            r@.cursor == 0,
            r@.offset == 0,
            r@.bytes_per_row == 16,
            r@.visible_rows == 24,
            r@.hex_mode == true,
            r@.edit_mode is Overwrite,
            r@.input_state is Normal,
            r@.prefix_key is Idle,
            r@.selection is None,
            r@.selection_start is None,
            r@.encoding is Utf8,
            r@.should_quit == false,
            r@.status is None,
            r@.search_mode == false,
            r@.search_query.len() == 0,
            r@.last_search_query.len() == 0,
            r@.search_start_pos == 0,
            r@.replace_mode is Off,
            r@.replace_with.len() == 0,
            r@.prompt_mode is Off,
            r@.prompt_input.len() == 0,
            r@.confirm_mode is Off,
            r@.pending_open_path.len() == 0,
            r@.current_command.len() == 0,
    {
        App {
            document: Document::new(),
            cursor: 0,
            offset: 0,
            bytes_per_row: 16,
            visible_rows: 24,
            hex_mode: true,
            edit_mode: EditMode::Overwrite,
            input_state: InputState::Normal,
            prefix_key: PrefixKey::Idle,
            selection: None,
            selection_start: None,
            encoding: CharEncoding::Utf8,
            should_quit: false,
            status: None,
            search_mode: false,
            search_query: Vec::new(),
            last_search_query: Vec::new(),
            search_start_pos: 0,
            replace_mode: ReplaceMode::Off,
            replace_with: Vec::new(),
            prompt_mode: PromptMode::Off,
            prompt_input: Vec::new(),
            confirm_mode: ConfirmMode::Off,
            pending_open_path: Vec::new(),
            current_command: Vec::new(),
        }
    }

    /// Replaces the document with one holding the given bytes (as read from
    /// standard input) and rewinds cursor, scroll, and selection.
    pub fn load_bytes(&mut self, data: Vec<u8>)
        requires
            old(self)@.wf(),
        ensures
            final(self)@.wf(),
            final(self)@ == (AppView {
                doc: DocView {
                    data: data@,
                    modified: false,
                    readonly: false,
                    path: None,
                    undo: Seq::empty(),
                    redo: Seq::empty(),
                },
                cursor: 0,
                offset: 0,
                selection: None,
                ..old(self)@
            }),
    {
        self.document = Document::from_bytes(data);
        self.cursor = 0;
        self.offset = 0;
        self.selection = None;
        proof {
            assert(final(self)@.doc =~= (DocView {
                data: data@,
                modified: false,
                readonly: false,
                path: None,
                undo: Seq::empty(),
                redo: Seq::empty(),
            }));
            assert(final(self)@ =~= (AppView {
                doc: final(self)@.doc,
                cursor: 0,
                offset: 0,
                selection: None,
                ..old(self)@
            }));
        }
    }

    /// Replaces the document with the contents read from `path` and rewinds
    /// cursor, scroll, and selection. The host reads the file and calls
    /// this on success.
    pub fn open_done(&mut self, path: String, data: Vec<u8>)
        requires
            old(self)@.wf(),
        ensures
            final(self)@.wf(),
            final(self)@ == (AppView {
                doc: DocView {
                    data: data@,
                    modified: false,
                    readonly: false,
                    path: Some(path@),
                    undo: Seq::empty(),
                    redo: Seq::empty(),
                },
                cursor: 0,
                offset: 0,
                selection: None,
                status: Some(StatusMsg::Opened),
                ..old(self)@
            }),
    {
        self.document = Document::from_bytes(data);
        self.document.save_as(path);
        self.cursor = 0;
        self.offset = 0;
        self.selection = None;
        self.status = Some(StatusMsg::Opened);
        proof {
            assert(final(self)@ =~= (AppView {
                doc: final(self)@.doc,
                cursor: 0,
                offset: 0,
                selection: None,
                status: Some(StatusMsg::Opened),
                ..old(self)@
            }));
        }
    }

    /// Reports that a requested file open failed; the buffer is untouched.
    pub fn open_failed(&mut self)
        requires
            old(self)@.wf(),
        ensures
            final(self)@.wf(),
            final(self)@ == (AppView { status: Some(StatusMsg::OpenFailed), ..old(self)@ }),
    {
        self.status = Some(StatusMsg::OpenFailed);
        proof {
            assert(final(self)@ =~= (AppView { status: Some(StatusMsg::OpenFailed), ..old(self)@ }));
        }
    }

    /// Whether the session should end.
    pub fn should_quit(&self) -> (r: bool)
        ensures
            r == self@.should_quit,
    {
        self.should_quit
    }

    /// The file name of the document, when it has a path.
    pub fn filename(&self) -> (r: Option<&str>)
        ensures
            self@.doc.path is Some <==> (r matches Some(f) && f@ == crate::document::spec_basename(
                self@.doc.path->0,
            )),
            self@.doc.path is None <==> r is None,
    {
        self.document.filename()
    }

    /// Whether the document differs from its last saved state.
    pub fn is_modified(&self) -> (r: bool)
        ensures
            r == self@.doc.modified,
    {
        self.document.is_modified()
    }

    /// Sets how many rows the viewport can show, reserving one for the
    /// status bar.
    pub fn set_visible_rows(&mut self, rows: usize)
        requires
            old(self)@.wf(),
        ensures
            final(self)@.wf(),
            final(self)@ == (AppView {
                visible_rows: if rows >= 1 {
                    rows - 1
                } else {
                    0
                },
                ..old(self)@
            }),
    {
        self.visible_rows = if rows >= 1 {
            rows - 1
        } else {
            0
        };
        proof {
            assert(final(self)@ =~= (AppView {
                visible_rows: final(self)@.visible_rows,
                ..old(self)@
            }));
        }
    }

    /// The cursor's absolute byte offset.
    pub fn cursor(&self) -> (r: usize)
        ensures
            r == self@.cursor,
    {
        self.cursor
    }

    /// A borrow of the document under edit.
    pub fn document(&self) -> (r: &Document)
        ensures
            r@ == self@.doc,
    {
        &self.document
    }

    /// Whether incremental search is active.
    pub fn in_search_mode(&self) -> (r: bool)
        ensures
            r == self@.search_mode,
    {
        self.search_mode
    }

    /// Whether query-replace is active.
    pub fn in_replace_mode(&self) -> (r: bool)
        ensures
            r == !(self@.replace_mode is Off),
    {
        match self.replace_mode {
            ReplaceMode::Off => false,
            _ => true,
        }
    }

    /// Whether a prompt is open.
    pub fn in_prompt_mode(&self) -> (r: bool)
        ensures
            r == !(self@.prompt_mode is Off),
    {
        match self.prompt_mode {
            PromptMode::Off => false,
            _ => true,
        }
    }

    /// Whether an unsaved-changes confirmation is pending.
    pub fn in_confirm_mode(&self) -> (r: bool)
        ensures
            r == !(self@.confirm_mode is Off),
    {
        match self.confirm_mode {
            ConfirmMode::Off => false,
            _ => true,
        }
    }

    /// Whether a `C-x` prefix is pending; reading it resets the state, as
    /// the next key is interpreted under the prefix.
    pub fn prefix_pending(&mut self) -> (r: bool)
        requires
            old(self)@.wf(),
        ensures
            final(self)@.wf(),
            r == (old(self)@.prefix_key is CtrlX),
            final(self)@ == (AppView { prefix_key: PrefixKey::Idle, ..old(self)@ }),
    {
        let r = match self.prefix_key {
            PrefixKey::CtrlX => true,
            PrefixKey::Idle => false,
        };
        self.prefix_key = PrefixKey::Idle;
        proof {
            assert(final(self)@ =~= (AppView { prefix_key: PrefixKey::Idle, ..old(self)@ }));
        }
        r
    }

    /// Whether byte input is interpreted as hex digits rather than text.
    pub fn in_hex_mode(&self) -> (r: bool)
        ensures
            r == self@.hex_mode,
    {
        self.hex_mode
    }

    /// The current status report, if any.
    pub fn status(&self) -> (r: Option<StatusMsg>)
        ensures
            r == self@.status,
    {
        self.status
    }

    /// Scrolls so the cursor is inside the viewport.
    pub(crate) fn ensure_cursor_visible(&mut self)
        requires
            old(self)@.wf(),
        ensures
            final(self)@.wf(),
            final(self)@ == (AppView {
                offset: spec_scroll_offset(
                    old(self)@.cursor,
                    old(self)@.offset,
                    old(self)@.bytes_per_row,
                    old(self)@.visible_rows,
                ),
                ..old(self)@
            }),
    {
        let vis: usize = if self.visible_rows >= 1 {
            self.visible_rows
        } else {
            1
        };
        let cursor_row = self.cursor / self.bytes_per_row;
        let offset_row = self.offset / self.bytes_per_row;
        proof {
            lemma_div_mul_le(self.cursor as int, self.bytes_per_row as int);
            assert(cursor_row * self.bytes_per_row <= self.cursor);
        }
        if cursor_row < offset_row {
            self.offset = cursor_row * self.bytes_per_row;
        } else {
            match offset_row.checked_add(vis) {
                Some(limit) => {
                    if cursor_row >= limit {
                        let target_row = cursor_row - vis + 1;
                        proof {
                            assert(target_row * self.bytes_per_row <= cursor_row
                                * self.bytes_per_row) by (nonlinear_arith)
                                requires
                                    0 <= target_row <= cursor_row,
                                    self.bytes_per_row >= 1,
                            ;
                        }
                        self.offset = target_row * self.bytes_per_row;
                    }
                },
                None => {
                    proof {
                        assert(cursor_row < offset_row + vis);
                    }
                },
            }
        }
        proof {
            assert(final(self)@ =~= (AppView { offset: final(self)@.offset, ..old(self)@ }));
        }
    }

    /// Moves the cursor up one row, scrolling after it.
    pub(crate) fn cursor_up(&mut self)
        requires
            old(self)@.wf(),
        ensures
            final(self)@.wf(),
            final(self)@ == spec_cursor_up(old(self)@),
    {
        if self.cursor >= self.bytes_per_row {
            self.cursor = self.cursor - self.bytes_per_row;
            self.ensure_cursor_visible();
        }
        proof {
            assert(final(self)@ =~= spec_cursor_up(old(self)@));
        }
    }

    /// Moves the cursor down one row when a byte lies there, scrolling
    /// after it.
    pub(crate) fn cursor_down(&mut self)
        requires
            old(self)@.wf(),
        ensures
            final(self)@.wf(),
            final(self)@ == spec_cursor_down(old(self)@),
    {
        let len = self.document.len();
        if self.cursor < len && self.bytes_per_row < len - self.cursor {
            self.cursor = self.cursor + self.bytes_per_row;
            self.ensure_cursor_visible();
        }
        proof {
            assert(final(self)@ =~= spec_cursor_down(old(self)@));
        }
    }

    /// Moves the cursor left one byte, scrolling after it.
    pub(crate) fn cursor_left(&mut self)
        requires
            old(self)@.wf(),
        ensures
            final(self)@.wf(),
            final(self)@ == spec_cursor_left(old(self)@),
    {
        if self.cursor > 0 {
            self.cursor = self.cursor - 1;
            self.ensure_cursor_visible();
        }
        proof {
            assert(final(self)@ =~= spec_cursor_left(old(self)@));
        }
    }

    /// Moves the cursor right one byte (end-of-buffer reachable),
    /// scrolling after it.
    pub(crate) fn cursor_right(&mut self)
        requires
            old(self)@.wf(),
        ensures
            final(self)@.wf(),
            final(self)@ == spec_cursor_right(old(self)@),
    {
        if self.cursor < self.document.len() {
            self.cursor = self.cursor + 1;
            self.ensure_cursor_visible();
        }
        proof {
            assert(final(self)@ =~= spec_cursor_right(old(self)@));
        }
    }

    /// Moves the cursor to the start of its row.
    pub(crate) fn cursor_home(&mut self)
        requires
            old(self)@.wf(),
        ensures
            final(self)@.wf(),
            final(self)@ == spec_cursor_home(old(self)@),
    {
        proof {
            lemma_div_mul_le(self.cursor as int, self.bytes_per_row as int);
        }
        self.cursor = (self.cursor / self.bytes_per_row) * self.bytes_per_row;
        proof {
            assert(final(self)@ =~= spec_cursor_home(old(self)@));
        }
    }

    /// Moves the cursor one past its row's last byte, clamped to the end
    /// of the buffer.
    pub(crate) fn cursor_end(&mut self)
        requires
            old(self)@.wf(),
        ensures
            final(self)@.wf(),
            final(self)@ == spec_cursor_end(old(self)@),
    {
        proof {
            lemma_div_mul_le(self.cursor as int, self.bytes_per_row as int);
        }
        let row_start = (self.cursor / self.bytes_per_row) * self.bytes_per_row;
        let len = self.document.len();
        self.cursor = if row_start < len && self.bytes_per_row < len - row_start {
            row_start + self.bytes_per_row
        } else {
            len
        };
        proof {
            assert(final(self)@ =~= spec_cursor_end(old(self)@));
        }
    }

    /// Moves cursor and viewport up one page, stopping at the top.
    pub(crate) fn page_up(&mut self)
        requires
            old(self)@.wf(),
        ensures
            final(self)@.wf(),
            final(self)@ == spec_page_up(old(self)@),
    {
        let page = match self.visible_rows.checked_mul(self.bytes_per_row) {
            Some(p) => p,
            None => {
                proof {
                    let vr = old(self)@.visible_rows;
                    let bp = old(self)@.bytes_per_row;
                    let c = old(self)@.cursor;
                    assert(c < vr * bp) by (nonlinear_arith)
                        requires
                            vr * bp > usize::MAX,
                            0 <= c <= usize::MAX,
                    ;
                    assert(old(self)@.offset < vr * bp);
                }
                self.cursor = 0;
                self.offset = 0;
                proof {
                    assert(final(self)@ =~= spec_page_up(old(self)@));
                }
                return ;
            },
        };
        self.cursor = if self.cursor >= page {
            self.cursor - page
        } else {
            0
        };
        self.offset = if self.offset >= page {
            self.offset - page
        } else {
            0
        };
        proof {
            assert(final(self)@ =~= spec_page_up(old(self)@));
        }
    }

    /// Moves cursor and viewport down one page, clamped to the end of the
    /// buffer, then scrolls the cursor into view.
    #[verifier::rlimit(60)]
    pub(crate) fn page_down(&mut self)
        requires
            old(self)@.wf(),
        ensures
            final(self)@.wf(),
            final(self)@ == spec_page_down(old(self)@),
    {
        let len = self.document.len();
        let rows = len / self.bytes_per_row;
        let bound_rows = if rows >= self.visible_rows {
            rows - self.visible_rows
        } else {
            0
        };
        proof {
            lemma_div_mul_le(len as int, self.bytes_per_row as int);
            assert(bound_rows * self.bytes_per_row <= rows * self.bytes_per_row)
                by (nonlinear_arith)
                requires
                    0 <= bound_rows <= rows,
                    self.bytes_per_row >= 1,
            ;
        }
        let bound = bound_rows * self.bytes_per_row;
        match self.visible_rows.checked_mul(self.bytes_per_row) {
            Some(page) => {
                self.cursor = if self.cursor < len && page < len - self.cursor {
                    self.cursor + page
                } else {
                    len
                };
                self.offset = if self.offset < bound && page < bound - self.offset {
                    self.offset + page
                } else {
                    bound
                };
            },
            None => {
                proof {
                    let p = old(self)@.visible_rows * old(self)@.bytes_per_row;
                    assert(old(self)@.cursor + p >= p && old(self)@.offset + p >= p);
                    assert(len <= usize::MAX && bound <= usize::MAX);
                }
                self.cursor = len;
                self.offset = bound;
            },
        }
        proof {
            let v = old(self)@;
            let page = v.visible_rows * v.bytes_per_row;
            let mid = AppView {
                cursor: if v.cursor + page < v.doc.data.len() {
                    v.cursor + page
                } else {
                    v.doc.data.len() as int
                },
                offset: if v.offset + page < (if v.doc.data.len() as int / v.bytes_per_row
                    >= v.visible_rows {
                    v.doc.data.len() as int / v.bytes_per_row - v.visible_rows
                } else {
                    0
                }) * v.bytes_per_row {
                    v.offset + page
                } else {
                    (if v.doc.data.len() as int / v.bytes_per_row >= v.visible_rows {
                        v.doc.data.len() as int / v.bytes_per_row - v.visible_rows
                    } else {
                        0
                    }) * v.bytes_per_row
                },
                ..v
            };
            assert(self@ =~= mid);
        }
        self.ensure_cursor_visible();
        proof {
            assert(final(self)@ =~= spec_page_down(old(self)@));
        }
    }

    /// Re-stretches the selection between anchor and cursor; called after
    /// cursor motion.
    pub(crate) fn update_selection(&mut self)
        requires
            old(self)@.wf(),
        ensures
            final(self)@.wf(),
            final(self)@ == spec_update_selection(old(self)@),
    {
        match self.selection_start {
            Some(anchor) => {
                let pair = if anchor <= self.cursor {
                    (anchor, self.cursor)
                } else {
                    (self.cursor, anchor)
                };
                self.selection = Some(pair);
            },
            None => (),
        }
        proof {
            assert(final(self)@ =~= spec_update_selection(old(self)@));
        }
    }

    /// Sets the selection anchor at the cursor and starts a selection
    /// there.
    pub(crate) fn start_selection(&mut self)
        requires
            old(self)@.wf(),
        ensures
            final(self)@.wf(),
            final(self)@ == (AppView {
                selection_start: Some(old(self)@.cursor),
                selection: Some((old(self)@.cursor, old(self)@.cursor)),
                status: Some(StatusMsg::MarkSet),
                ..old(self)@
            }),
    {
        self.selection_start = Some(self.cursor);
        self.selection = Some((self.cursor, self.cursor));
        self.status = Some(StatusMsg::MarkSet);
        proof {
            assert(final(self)@ =~= (AppView {
                selection_start: Some(old(self)@.cursor),
                selection: Some((old(self)@.cursor, old(self)@.cursor)),
                status: Some(StatusMsg::MarkSet),
                ..old(self)@
            }));
        }
    }

    /// Drops the selection and its anchor.
    pub(crate) fn clear_selection(&mut self)
        requires
            old(self)@.wf(),
        ensures
            final(self)@.wf(),
            final(self)@ == (AppView { selection_start: None, selection: None, ..old(self)@ }),
    {
        self.selection_start = None;
        self.selection = None;
        proof {
            assert(final(self)@ =~= (AppView {
                selection_start: None,
                selection: None,
                ..old(self)@
            }));
        }
    }
}

} // verus!
