//! Dispatch of logical actions onto the controller: the one entry point a
//! host feeds decoded input through while no elevated mode is active.

use vstd::prelude::*;
use crate::document::{spec_redo1, spec_redo_pos, spec_undo1, spec_undo_pos, DocView};
use crate::editor::{
    spec_cursor_down, spec_cursor_end, spec_cursor_home, spec_cursor_left, spec_cursor_right,
    spec_cursor_up, spec_goto_scrolled, spec_page_down, spec_page_up, spec_update_selection, App,
    AppView, Action, ConfirmMode, EditMode, Effect, EffectView, InputState, PrefixKey, PromptMode,
    ReplaceMode, StatusMsg,
};
use crate::editor_edit::{
    spec_copy, spec_cut, spec_input_ascii, spec_input_hex, spec_with_anchor,
};
use crate::editor_search::{spec_find_next, spec_find_prev};

verus! {

/// The transition of `undo` at the controller: the document steps back and
/// the cursor recenters on the reverted offset, clamped into the buffer.
pub open spec fn spec_app_undo(v: AppView) -> AppView {
    if v.doc.undo.len() == 0 {
        AppView { status: Some(StatusMsg::NothingToUndo), ..v }
    } else {
        let doc2 = spec_undo1(v.doc);
        let p = spec_undo_pos(v.doc);
        let c = if p < doc2.data.len() {
            p
        } else if doc2.data.len() > 0 {
            doc2.data.len() - 1
        } else {
            0
        };
        AppView {
            status: Some(StatusMsg::Undone),
            ..spec_goto_scrolled(AppView { doc: doc2, ..v }, c)
        }
    }
}

/// The transition of `redo` at the controller.
pub open spec fn spec_app_redo(v: AppView) -> AppView {
    if v.doc.redo.len() == 0 {
        AppView { status: Some(StatusMsg::NothingToRedo), ..v }
    } else {
        let doc2 = spec_redo1(v.doc);
        let p = spec_redo_pos(v.doc);
        let c = if p < doc2.data.len() {
            p
        } else if doc2.data.len() > 0 {
            doc2.data.len() - 1
        } else {
            0
        };
        AppView {
            status: Some(StatusMsg::Redone),
            ..spec_goto_scrolled(AppView { doc: doc2, ..v }, c)
        }
    }
}

/// The state transition of one logical action. Any previous status is
/// cleared first, except for the prefix key itself.
pub open spec fn spec_execute(v: AppView, a: Action) -> AppView {
    let v0 = if a is EnterCtrlX {
        v
    } else {
        AppView { status: None, ..v }
    };
    match a {
        Action::Quit => if v0.doc.modified {
            AppView { confirm_mode: ConfirmMode::Quit, ..v0 }
        } else {
            AppView { should_quit: true, ..v0 }
        },
        Action::Save => if v0.doc.path is Some {
            v0
        } else {
            AppView { status: Some(StatusMsg::SaveFailed), ..v0 }
        },
        Action::CursorUp => spec_update_selection(spec_cursor_up(v0)),
        Action::CursorDown => spec_update_selection(spec_cursor_down(v0)),
        Action::CursorLeft => spec_update_selection(spec_cursor_left(v0)),
        Action::CursorRight => spec_update_selection(spec_cursor_right(v0)),
        Action::CursorHome => spec_update_selection(spec_cursor_home(v0)),
        Action::CursorEnd => spec_update_selection(spec_cursor_end(v0)),
        Action::PageUp => spec_update_selection(spec_page_up(v0)),
        Action::PageDown => spec_update_selection(spec_page_down(v0)),
        Action::GotoBeginning => spec_update_selection(AppView { cursor: 0, offset: 0, ..v0 }),
        Action::GotoEnd => spec_update_selection(
            spec_goto_scrolled(v0, v0.doc.data.len() as int),
        ),
        Action::StartSelection => AppView {
            selection_start: Some(v0.cursor),
            selection: Some((v0.cursor, v0.cursor)),
            status: Some(StatusMsg::MarkSet),
            ..v0
        },
        Action::ClearSelection => AppView { selection_start: None, selection: None, ..v0 },
        Action::SelectUp => spec_update_selection(spec_cursor_up(spec_with_anchor(v0))),
        Action::SelectDown => spec_update_selection(spec_cursor_down(spec_with_anchor(v0))),
        Action::SelectLeft => spec_update_selection(spec_cursor_left(spec_with_anchor(v0))),
        Action::SelectRight => spec_update_selection(spec_cursor_right(spec_with_anchor(v0))),
        Action::Copy => spec_copy(v0),
        Action::CopyHex => spec_copy_hex_state(v0),
        Action::Cut => spec_cut(v0),
        Action::Paste => v0,
        Action::ToggleMode => AppView { hex_mode: !v0.hex_mode, ..v0 },
        Action::ToggleEditMode => AppView {
            edit_mode: match v0.edit_mode {
                EditMode::Overwrite => EditMode::Insert,
                EditMode::Insert => EditMode::Overwrite,
            },
            ..v0
        },
        Action::ToggleEncoding => {
            let e2 = match v0.encoding {
                crate::encoding::CharEncoding::Utf8 => crate::encoding::CharEncoding::Ascii,
                crate::encoding::CharEncoding::Ascii => crate::encoding::CharEncoding::Utf8,
            };
            AppView { encoding: e2, status: Some(StatusMsg::EncodingChanged(e2)), ..v0 }
        },
        Action::InputHex(ch) => spec_input_hex(v0, ch),
        Action::InputAscii(ch) => spec_input_ascii(v0, ch),
        Action::EnterCtrlX => AppView {
            prefix_key: PrefixKey::CtrlX,
            status: Some(StatusMsg::CtrlXPrefix),
            ..v0
        },
        Action::Cancel => AppView {
            prefix_key: PrefixKey::Idle,
            input_state: InputState::Normal,
            selection_start: None,
            selection: None,
            status: Some(StatusMsg::CancelHint),
            ..v0
        },
        Action::Undo => spec_app_undo(v0),
        Action::Redo => spec_app_redo(v0),
        Action::StartSearch => AppView {
            search_mode: true,
            search_query: Seq::empty(),
            search_start_pos: v0.cursor,
            ..v0
        },
        Action::StartSearchBack => AppView {
            search_mode: true,
            search_query: Seq::empty(),
            search_start_pos: v0.cursor,
            ..v0
        },
        Action::SearchNext => if v0.search_query.len() > 0 {
            spec_find_next(v0)
        } else {
            v0
        },
        Action::SearchPrev => if v0.search_query.len() > 0 {
            spec_find_prev(v0)
        } else {
            v0
        },
        Action::StartReplace => AppView {
            replace_mode: ReplaceMode::EnteringSearch,
            search_query: Seq::empty(),
            replace_with: Seq::empty(),
            search_start_pos: v0.cursor,
            ..v0
        },
        Action::StartGoto => AppView {
            prompt_mode: PromptMode::GotoAddress,
            prompt_input: Seq::empty(),
            ..v0
        },
        Action::OpenFile => AppView {
            prompt_mode: PromptMode::OpenFile,
            prompt_input: Seq::empty(),
            ..v0
        },
        Action::StartSaveAs => AppView {
            prompt_mode: PromptMode::SaveAs,
            prompt_input: match v0.doc.path {
                Some(p) => crate::document::spec_basename(p),
                None => Seq::empty(),
            },
            ..v0
        },
        Action::KillBuffer => if v0.doc.modified {
            AppView { confirm_mode: ConfirmMode::KillBuffer, ..v0 }
        } else {
            AppView {
                doc: DocView {
                    data: Seq::empty(),
                    modified: false,
                    readonly: false,
                    path: None,
                    undo: Seq::empty(),
                    redo: Seq::empty(),
                },
                cursor: 0,
                offset: 0,
                selection: None,
                selection_start: None,
                status: Some(StatusMsg::BufferKilled),
                ..v0
            }
        },
        Action::ExecuteCommand => AppView {
            prompt_mode: PromptMode::Command,
            prompt_input: Seq::empty(),
            current_command: Seq::empty(),
            ..v0
        },
        _ => v0,
    }
}

/// The state half of copying the byte under the cursor or the selection as
/// hex.
pub open spec fn spec_copy_hex_state(v: AppView) -> AppView {
    match v.selection {
        Some((s, e)) => if e + 1 <= v.doc.data.len() {
            AppView {
                selection: None,
                selection_start: None,
                status: Some(StatusMsg::CopiedHex),
                ..v
            }
        } else {
            v
        },
        None => v,
    }
}

/// The effect one logical action asks of the host, if any.
pub open spec fn spec_execute_effect(v: AppView, a: Action) -> Option<EffectView> {
    match a {
        Action::Save => if v.doc.path is Some {
            Some(EffectView::SaveFile)
        } else {
            None
        },
        Action::Copy => match v.selection {
            Some((s, e)) => if e + 1 <= v.doc.data.len() {
                Some(
                    EffectView::CopyText(
                        crate::fmt::spec_hex_spaced(v.doc.data.subrange(s, e + 1)),
                    ),
                )
            } else {
                None
            },
            None => None,
        },
        Action::CopyHex => match v.selection {
            Some((s, e)) => if e + 1 <= v.doc.data.len() {
                Some(
                    EffectView::CopyText(
                        crate::fmt::spec_hex_spaced(v.doc.data.subrange(s, e + 1)),
                    ),
                )
            } else {
                None
            },
            None => if v.cursor < v.doc.data.len() {
                Some(
                    EffectView::CopyText(
                        crate::fmt::spec_hex_spaced(
                            v.doc.data.subrange(v.cursor, v.cursor + 1),
                        ),
                    ),
                )
            } else {
                None
            },
        },
        Action::Cut => match v.selection {
            Some((s, e)) => if e + 1 <= v.doc.data.len() {
                Some(
                    EffectView::CopyText(
                        crate::fmt::spec_hex_spaced(v.doc.data.subrange(s, e + 1)),
                    ),
                )
            } else {
                None
            },
            None => None,
        },
        Action::Paste => Some(EffectView::FetchClipboard),
        _ => None,
    }
}

impl App {
    /// Applies one logical action to the controller, returning any work
    /// the host must perform on its behalf.
    pub fn execute(&mut self, action: Action) -> (r: Option<Effect>)
        requires
            old(self)@.wf(),
        ensures
            final(self)@.wf(),
            final(self)@ == spec_execute(old(self)@, action),
            ({
                let e = spec_execute_effect(spec_execute_mid(old(self)@, action), action);
                match e {
                    Some(ef) => (r matches Some(x)
                        && crate::editor_prompt::spec_effect_matches(x, ef)),
                    None => r is None,
                }
            }),
    {
        match action {
            Action::CursorUp | Action::CursorDown | Action::CursorLeft | Action::CursorRight
                | Action::CursorHome | Action::CursorEnd | Action::PageUp | Action::PageDown
                | Action::GotoBeginning | Action::GotoEnd | Action::StartSelection
                | Action::ClearSelection | Action::SelectUp | Action::SelectDown
                | Action::SelectLeft | Action::SelectRight => self.execute_motion(action),
            Action::Quit | Action::Save | Action::Copy | Action::CopyHex | Action::Cut
                | Action::Paste | Action::ToggleMode | Action::ToggleEditMode
                | Action::ToggleEncoding | Action::InputHex(_) | Action::InputAscii(_) => self
                .execute_edit(action),
            Action::Undo | Action::Redo => self.execute_history(action),
            _ => self.execute_other(action),
        }
    }

    /// The cursor, scroll and selection actions.
    #[verifier::rlimit(100)]
    fn execute_motion(&mut self, action: Action) -> (r: Option<Effect>)
        requires
            old(self)@.wf(),
            is_motion_action(action),
        ensures
            final(self)@.wf(),
            final(self)@ == spec_execute(old(self)@, action),
            r is None,
    {
        self.status = None;
        let ghost v0 = self@;
        proof {
            assert(v0 =~= spec_execute_mid(old(self)@, action));
        }
        match action {
            Action::CursorUp => {
                self.cursor_up();
                self.update_selection();
                None
            },
            Action::CursorDown => {
                self.cursor_down();
                self.update_selection();
                None
            },
            Action::CursorLeft => {
                self.cursor_left();
                self.update_selection();
                None
            },
            Action::CursorRight => {
                self.cursor_right();
                self.update_selection();
                None
            },
            Action::CursorHome => {
                self.cursor_home();
                self.update_selection();
                None
            },
            Action::CursorEnd => {
                self.cursor_end();
                self.update_selection();
                None
            },
            Action::PageUp => {
                self.page_up();
                self.update_selection();
                None
            },
            Action::PageDown => {
                self.page_down();
                self.update_selection();
                None
            },
            Action::GotoBeginning => {
                self.cursor = 0;
                self.offset = 0;
                self.update_selection();
                proof {
                    assert(final(self)@ =~= spec_execute(old(self)@, action));
                }
                None
            },
            Action::GotoEnd => {
                self.cursor = self.document.len();
                self.ensure_cursor_visible();
                self.update_selection();
                proof {
                    assert(final(self)@ =~= spec_execute(old(self)@, action));
                }
                None
            },
            Action::StartSelection => {
                self.start_selection();
                None
            },
            Action::ClearSelection => {
                self.clear_selection();
                None
            },
            Action::SelectUp => {
                self.select_up();
                None
            },
            Action::SelectDown => {
                self.select_down();
                None
            },
            Action::SelectLeft => {
                self.select_left();
                None
            },
            _ => {
                self.select_right();
                None
            },
        }
    }

    /// The buffer-touching and mode-toggle actions.
    #[verifier::rlimit(100)]
    fn execute_edit(&mut self, action: Action) -> (r: Option<Effect>)
        requires
            old(self)@.wf(),
            is_edit_action(action),
        ensures
            final(self)@.wf(),
            final(self)@ == spec_execute(old(self)@, action),
            ({
                let e = spec_execute_effect(spec_execute_mid(old(self)@, action), action);
                match e {
                    Some(ef) => (r matches Some(x)
                        && crate::editor_prompt::spec_effect_matches(x, ef)),
                    None => r is None,
                }
            }),
    {
        self.status = None;
        let ghost v0 = self@;
        proof {
            assert(v0 =~= spec_execute_mid(old(self)@, action));
        }
        match action {
            Action::Quit => {
                if self.document.is_modified() {
                    self.confirm_mode = ConfirmMode::Quit;
                } else {
                    self.should_quit = true;
                }
                proof {
                    assert(final(self)@ =~= spec_execute(old(self)@, action));
                }
                None
            },
            Action::Save => {
                if self.document.path().is_some() {
                    proof {
                        assert(final(self)@ =~= spec_execute(old(self)@, action));
                    }
                    Some(Effect::SaveFile)
                } else {
                    self.status = Some(StatusMsg::SaveFailed);
                    proof {
                        assert(final(self)@ =~= spec_execute(old(self)@, action));
                    }
                    None
                }
            },
            Action::Copy => {
                let r = self.copy();
                r
            },
            Action::CopyHex => {
                let r = self.copy_hex();
                proof {
                    assert(final(self)@ =~= spec_execute(old(self)@, action));
                }
                r
            },
            Action::Cut => {
                let r = self.cut();
                r
            },
            Action::Paste => Some(Effect::FetchClipboard),
            Action::ToggleMode => {
                self.hex_mode = !self.hex_mode;
                proof {
                    assert(final(self)@ =~= spec_execute(old(self)@, action));
                }
                None
            },
            Action::ToggleEditMode => {
                self.edit_mode = match self.edit_mode {
                    EditMode::Overwrite => EditMode::Insert,
                    EditMode::Insert => EditMode::Overwrite,
                };
                proof {
                    assert(final(self)@ =~= spec_execute(old(self)@, action));
                }
                None
            },
            Action::ToggleEncoding => {
                self.encoding = self.encoding.next();
                self.status = Some(StatusMsg::EncodingChanged(self.encoding));
                proof {
                    assert(final(self)@ =~= spec_execute(old(self)@, action));
                }
                None
            },
            Action::InputHex(ch) => {
                self.input_hex(ch);
                None
            },
            Action::InputAscii(ch) => {
                self.input_ascii(ch);
                None
            },
            _ => {
                proof {
                    assert(final(self)@ =~= spec_execute(old(self)@, action));
                }
                None
            },
        }
    }

    /// The undo and redo actions.
    #[verifier::rlimit(100)]
    fn execute_history(&mut self, action: Action) -> (r: Option<Effect>)
        requires
            old(self)@.wf(),
            action is Undo || action is Redo,
        ensures
            final(self)@.wf(),
            final(self)@ == spec_execute(old(self)@, action),
            r is None,
    {
        self.status = None;
        let ghost v0 = self@;
        proof {
            assert(v0 =~= spec_execute_mid(old(self)@, action));
        }
        match action {
            Action::Undo => {
                match self.document.undo() {
                    Some(pos) => {
                        let dl = self.document.len();
                        self.cursor = if pos < dl {
                            pos
                        } else if dl > 0 {
                            dl - 1
                        } else {
                            0
                        };
                        self.ensure_cursor_visible();
                        self.status = Some(StatusMsg::Undone);
                    },
                    None => {
                        self.status = Some(StatusMsg::NothingToUndo);
                    },
                }
                proof {
                    assert(final(self)@ =~= spec_execute(old(self)@, action));
                }
                None
            },
            Action::Redo => {
                match self.document.redo() {
                    Some(pos) => {
                        let dl = self.document.len();
                        self.cursor = if pos < dl {
                            pos
                        } else if dl > 0 {
                            dl - 1
                        } else {
                            0
                        };
                        self.ensure_cursor_visible();
                        self.status = Some(StatusMsg::Redone);
                    },
                    None => {
                        self.status = Some(StatusMsg::NothingToRedo);
                    },
                }
                proof {
                    assert(final(self)@ =~= spec_execute(old(self)@, action));
                }
                None
            },
            _ => {
                proof {
                    assert(final(self)@ =~= spec_execute(old(self)@, action));
                }
                None
            },
        }
    }

    /// Every action besides cursor, scroll and selection motion.
    #[verifier::rlimit(100)]
    fn execute_other(&mut self, action: Action) -> (r: Option<Effect>)
        requires
            old(self)@.wf(),
            !is_motion_action(action),
            !is_edit_action(action),
            !(action is Undo),
            !(action is Redo),
        ensures
            final(self)@.wf(),
            final(self)@ == spec_execute(old(self)@, action),
            ({
                let e = spec_execute_effect(spec_execute_mid(old(self)@, action), action);
                match e {
                    Some(ef) => (r matches Some(x)
                        && crate::editor_prompt::spec_effect_matches(x, ef)),
                    None => r is None,
                }
            }),
    {
        match action {
            Action::EnterCtrlX => (),
            _ => {
                self.status = None;
            },
        }
        let ghost v0 = self@;
        proof {
            assert(v0 =~= spec_execute_mid(old(self)@, action));
        }
        match action {
            Action::EnterCtrlX => {
                self.prefix_key = PrefixKey::CtrlX;
                self.status = Some(StatusMsg::CtrlXPrefix);
                proof {
                    assert(final(self)@ =~= spec_execute(old(self)@, action));
                }
                None
            },
            Action::Cancel => {
                self.prefix_key = PrefixKey::Idle;
                self.input_state = InputState::Normal;
                self.clear_selection();
                self.status = Some(StatusMsg::CancelHint);
                proof {
                    assert(final(self)@ =~= spec_execute(old(self)@, action));
                }
                None
            },
            Action::StartSearch => {
                self.search_mode = true;
                self.search_query = Vec::new();
                self.search_start_pos = self.cursor;
                proof {
                    assert(final(self)@ =~= spec_execute(old(self)@, action));
                }
                None
            },
            Action::StartSearchBack => {
                self.search_mode = true;
                self.search_query = Vec::new();
                self.search_start_pos = self.cursor;
                proof {
                    assert(final(self)@ =~= spec_execute(old(self)@, action));
                }
                None
            },
            Action::SearchNext => {
                if !self.search_query.is_empty() {
                    self.find_next();
                }
                proof {
                    assert(final(self)@ =~= spec_execute(old(self)@, action));
                }
                None
            },
            Action::SearchPrev => {
                if !self.search_query.is_empty() {
                    self.find_prev();
                }
                proof {
                    assert(final(self)@ =~= spec_execute(old(self)@, action));
                }
                None
            },
            Action::StartReplace => {
                self.replace_mode = ReplaceMode::EnteringSearch;
                self.search_query = Vec::new();
                self.replace_with = Vec::new();
                self.search_start_pos = self.cursor;
                proof {
                    assert(final(self)@ =~= spec_execute(old(self)@, action));
                }
                None
            },
            Action::StartGoto => {
                self.prompt_mode = PromptMode::GotoAddress;
                self.prompt_input = Vec::new();
                proof {
                    assert(final(self)@ =~= spec_execute(old(self)@, action));
                }
                None
            },
            Action::OpenFile => {
                self.prompt_mode = PromptMode::OpenFile;
                self.prompt_input = Vec::new();
                proof {
                    assert(final(self)@ =~= spec_execute(old(self)@, action));
                }
                None
            },
            Action::StartSaveAs => {
                self.prompt_mode = PromptMode::SaveAs;
                self.prompt_input = match self.document.filename() {
                    Some(f) => crate::text::str_to_chars(f),
                    None => Vec::new(),
                };
                proof {
                    assert(final(self)@ =~= spec_execute(old(self)@, action));
                }
                None
            },
            Action::KillBuffer => {
                if self.document.is_modified() {
                    self.confirm_mode = ConfirmMode::KillBuffer;
                    proof {
                        assert(final(self)@ =~= spec_execute(old(self)@, action));
                    }
                } else {
                    self.do_kill_buffer();
                    proof {
                        assert(final(self)@ =~= spec_execute(old(self)@, action));
                    }
                }
                None
            },
            Action::ExecuteCommand => {
                self.prompt_mode = PromptMode::Command;
                self.prompt_input = Vec::new();
                self.current_command = Vec::new();
                proof {
                    assert(final(self)@ =~= spec_execute(old(self)@, action));
                }
                None
            },
            _ => {
                proof {
                    assert(final(self)@ =~= spec_execute(old(self)@, action));
                }
                None
            },
        }
    }
}

/// Whether an action is one of the cursor, scroll and selection motions.
pub open spec fn is_motion_action(a: Action) -> bool {
    match a {
        Action::CursorUp | Action::CursorDown | Action::CursorLeft | Action::CursorRight
            | Action::CursorHome | Action::CursorEnd | Action::PageUp | Action::PageDown
            | Action::GotoBeginning | Action::GotoEnd | Action::StartSelection
            | Action::ClearSelection | Action::SelectUp | Action::SelectDown
            | Action::SelectLeft | Action::SelectRight => true,
        _ => false,
    }
}

/// Whether an action edits the buffer, drives the clipboard, or toggles a
/// mode flag.
pub open spec fn is_edit_action(a: Action) -> bool {
    match a {
        Action::Quit | Action::Save | Action::Copy | Action::CopyHex | Action::Cut
            | Action::Paste | Action::ToggleMode | Action::ToggleEditMode
            | Action::ToggleEncoding | Action::InputHex(_) | Action::InputAscii(_) => true,
        _ => false,
    }
}

/// The view after the status-clearing preamble of `execute`.
pub open spec fn spec_execute_mid(v: AppView, a: Action) -> AppView {
    if a is EnterCtrlX {
        v
    } else {
        AppView { status: None, ..v }
    }
}

} // verus!
