//! The single-line prompt: address jumps, file prompts, typed commands
//! with their arguments, and the unsaved-changes confirmation.

use vstd::prelude::*;
use crate::document::{spec_set, DocView, Document};
use crate::editor::{
    spec_goto_scrolled, App, AppView, ConfirmMode, Effect, EffectView, ModeKey, PromptMode,
    StatusMsg,
};
use crate::hexparse::{spec_parse_radix, spec_radix_digit};
use crate::text::{spec_is_blank, spec_trim};

verus! {

broadcast use vstd::string::group_string_axioms;

/// The parse of an address expression: `0x`-prefixed hex, trailing-`h`
/// hex, bare hex when all digits are hex and at least one is a letter,
/// else decimal.
pub open spec fn spec_parse_address(t: Seq<char>) -> Option<usize> {
    if t.len() >= 2 && t[0] == '0' && (t[1] == 'x' || t[1] == 'X') {
        spec_parse_radix(t.subrange(2, t.len() as int), 16)
    } else if t.len() >= 1 && (t.last() == 'h' || t.last() == 'H') {
        spec_parse_radix(t.subrange(0, t.len() - 1), 16)
    } else if t.len() >= 1 && (forall|i: int|
        0 <= i < t.len() ==> spec_radix_digit(t[i], 16) is Some) && (exists|i: int|
        0 <= i < t.len() && spec_radix_digit(t[i], 10) is None) {
        spec_parse_radix(t, 16)
    } else {
        spec_parse_radix(t, 10)
    }
}

/// The transition of an address jump: the only legal targets are
/// `0 ..= len`; beyond that the length is reported, and malformed or empty
/// input is rejected.
pub open spec fn spec_goto_address(v: AppView, s: Seq<char>) -> AppView {
    let t = spec_trim(s);
    if t.len() == 0 {
        AppView { status: Some(StatusMsg::NoAddress), ..v }
    } else {
        match spec_parse_address(t) {
            Some(addr) => if addr <= v.doc.data.len() {
                AppView {
                    status: Some(StatusMsg::JumpedTo(addr)),
                    ..spec_goto_scrolled(v, addr as int)
                }
            } else {
                AppView {
                    status: Some(
                        StatusMsg::AddressTooLarge(addr, v.doc.data.len() as usize),
                    ),
                    ..v
                }
            },
            None => AppView { status: Some(StatusMsg::InvalidAddress), ..v },
        }
    }
}

/// The index of the first non-blank character at or after `i`.
pub open spec fn spec_skip_blanks(s: Seq<char>, i: int) -> int
    decreases s.len() - i,
{
    if i < 0 {
        i
    } else if i >= s.len() || !spec_is_blank(s[i]) {
        i
    } else {
        spec_skip_blanks(s, i + 1)
    }
}

/// The index just past the token starting at `i`.
pub open spec fn spec_take_token(s: Seq<char>, i: int) -> int
    decreases s.len() - i,
{
    if i < 0 {
        i
    } else if i >= s.len() || spec_is_blank(s[i]) {
        i
    } else {
        spec_take_token(s, i + 1)
    }
}

/// The parse of a fill byte: `0x`-prefixed hex, exactly two hex digits, or
/// decimal; `None` when malformed or above 255.
pub open spec fn spec_parse_fill_byte(t: Seq<char>) -> Option<u8> {
    let n = if t.len() >= 2 && t[0] == '0' && (t[1] == 'x' || t[1] == 'X') {
        spec_parse_radix(t.subrange(2, t.len() as int), 16)
    } else if t.len() == 2 && (forall|i: int|
        0 <= i < t.len() ==> spec_radix_digit(t[i], 16) is Some) {
        spec_parse_radix(t, 16)
    } else {
        spec_parse_radix(t, 10)
    };
    match n {
        Some(b) => if b <= 255 {
            Some(b as u8)
        } else {
            None::<u8>
        },
        None => None::<u8>,
    }
}

/// The document after writing `b` to every in-range position of
/// `i ..= e`.
pub open spec fn spec_fill(m: DocView, i: int, e: int, b: u8) -> DocView
    decreases e + 1 - i,
{
    if i > e {
        m
    } else {
        let m1 = if 0 <= i < m.data.len() {
            spec_set(m, i as usize, b)
        } else {
            m
        };
        spec_fill(m1, i + 1, e, b)
    }
}

/// Filling preserves well-formedness and the buffer length.
pub proof fn lemma_fill(m: DocView, i: int, e: int, b: u8)
    requires
        m.wf(),
    ensures
        spec_fill(m, i, e, b).wf(),
        spec_fill(m, i, e, b).data.len() == m.data.len(),
        spec_fill(m, i, e, b).readonly == m.readonly,
        spec_fill(m, i, e, b).path == m.path,
    decreases e + 1 - i,
{
    if i <= e {
        if 0 <= i < m.data.len() {
            crate::document::lemma_set_wf(m, i as usize, b);
            lemma_fill(spec_set(m, i as usize, b), i + 1, e, b);
        } else {
            lemma_fill(m, i + 1, e, b);
        }
    }
}

/// The transition of the `fill` command: the selection is filled with the
/// parsed byte, or the malformed value or missing selection is reported.
pub open spec fn spec_cmd_fill(v: AppView, s: Seq<char>) -> AppView {
    match spec_parse_fill_byte(spec_trim(s)) {
        None => AppView { status: Some(StatusMsg::InvalidByteValue), ..v },
        Some(b) => match v.selection {
            None => AppView { status: Some(StatusMsg::NoSelection), ..v },
            Some((st, e)) => AppView {
                doc: spec_fill(v.doc, st, e, b),
                selection: None,
                selection_start: None,
                status: Some(
                    StatusMsg::Filled(
                        if e - st < usize::MAX {
                            (e - st + 1) as usize
                        } else {
                            usize::MAX as usize
                        },
                        b,
                    ),
                ),
                ..v
            },
        },
    }
}

/// The transition of the `insert` command: `count [byte]` inserts that
/// many copies at the cursor, with every malformed form reported.
pub open spec fn spec_cmd_insert(v: AppView, s: Seq<char>) -> AppView {
    let t = spec_trim(s);
    let t1s = spec_skip_blanks(t, 0);
    let t1e = spec_take_token(t, t1s);
    let t2s = spec_skip_blanks(t, t1e);
    let t2e = spec_take_token(t, t2s);
    let t3s = spec_skip_blanks(t, t2e);
    if t1s >= t.len() || t3s < t.len() {
        AppView { status: Some(StatusMsg::InsertUsage), ..v }
    } else {
        let count = crate::hexparse::spec_parse_number(t.subrange(t1s, t1e));
        let byte = if t2s >= t.len() {
            Some(0u8)
        } else {
            crate::hexparse::spec_parse_byte(t.subrange(t2s, t2e))
        };
        match count {
            None => AppView { status: Some(StatusMsg::InvalidCount), ..v },
            Some(n) => match byte {
                None => AppView { status: Some(StatusMsg::InvalidByteValue), ..v },
                Some(b) => if n == 0 {
                    AppView { status: Some(StatusMsg::CountMustBePositive), ..v }
                } else {
                    AppView {
                        doc: crate::editor_edit::spec_ins_bytes(
                            v.doc,
                            v.cursor,
                            Seq::new(n as nat, |i: int| b),
                        ),
                        status: Some(StatusMsg::InsertedFill(n, b)),
                        ..v
                    }
                },
            },
        }
    }
}

impl App {
    /// Jumps to a typed address; `0 ..= len` are the legal targets.
    #[verifier::rlimit(100)]
    pub fn goto_address(&mut self, input: &str)
        requires
            old(self)@.wf(),
        ensures
            final(self)@.wf(),
            final(self)@ == spec_goto_address(old(self)@, input@),
    {
        let chars = crate::text::str_to_chars(input);
        let t = crate::text::trim_chars(&chars);
        if t.len() == 0 {
            self.status = Some(StatusMsg::NoAddress);
            proof {
                assert(final(self)@ =~= spec_goto_address(old(self)@, input@));
            }
            return ;
        }
        let addr_opt: Option<usize> = if t.len() >= 2 && t[0] == '0' && (t[1] == 'x' || t[1]
            == 'X') {
            crate::hexparse::parse_radix(&t, 2, 16)
        } else {
            let lastc = t[t.len() - 1];
            if lastc == 'h' || lastc == 'H' {
                let mut head = t.clone();
                let _ = head.pop();
                proof {
                    assert(head@ =~= t@.subrange(0, t@.len() - 1));
                    assert(head@.subrange(0, head@.len() as int) =~= head@);
                }
                crate::hexparse::parse_radix(&head, 0, 16)
            } else {
                let mut all_hex = true;
                let mut any_alpha = false;
                let mut i: usize = 0;
                while i < t.len()
                    invariant
                        i <= t@.len(),
                        all_hex == forall|k: int|
                            0 <= k < i ==> spec_radix_digit(t@[k], 16) is Some,
                        any_alpha == exists|k: int|
                            0 <= k < i && spec_radix_digit(t@[k], 10) is None,
                    decreases t@.len() - i,
                {
                    let cp = t[i] as u32;
                    let is_hex = (0x30 <= cp && cp <= 0x39) || (0x41 <= cp && cp <= 0x46) || (0x61
                        <= cp && cp <= 0x66);
                    let is_dec = 0x30 <= cp && cp <= 0x39;
                    proof {
                        assert(is_hex == (spec_radix_digit(t@[i as int], 16) is Some));
                        assert(is_dec == (spec_radix_digit(t@[i as int], 10) is Some));
                    }
                    all_hex = all_hex && is_hex;
                    any_alpha = any_alpha || !is_dec;
                    i = i + 1;
                }
                proof {
                    assert(t@.subrange(0, t@.len() as int) =~= t@);
                }
                if all_hex && any_alpha {
                    crate::hexparse::parse_radix(&t, 0, 16)
                } else {
                    crate::hexparse::parse_radix(&t, 0, 10)
                }
            }
        };
        match addr_opt {
            Some(addr) => {
                let dl = self.document.len();
                if addr <= dl {
                    self.cursor = addr;
                    self.ensure_cursor_visible();
                    self.status = Some(StatusMsg::JumpedTo(addr));
                    proof {
                        assert(final(self)@ =~= spec_goto_address(old(self)@, input@));
                    }
                } else {
                    self.status = Some(StatusMsg::AddressTooLarge(addr, dl));
                    proof {
                        assert(final(self)@ =~= spec_goto_address(old(self)@, input@));
                    }
                }
            },
            None => {
                self.status = Some(StatusMsg::InvalidAddress);
                proof {
                    assert(final(self)@ =~= spec_goto_address(old(self)@, input@));
                }
            },
        }
    }

    /// Fills the selection with a typed byte value.
    #[verifier::rlimit(100)]
    pub fn cmd_fill(&mut self, arg: &str)
        requires
            old(self)@.wf(),
        ensures
            final(self)@.wf(),
            final(self)@ == spec_cmd_fill(old(self)@, arg@),
    {
        let chars = crate::text::str_to_chars(arg);
        let t = crate::text::trim_chars(&chars);
        let byte_opt: Option<u8> = {
            let n: Option<usize> = if t.len() >= 2 && t[0] == '0' && (t[1] == 'x' || t[1] == 'X') {
                crate::hexparse::parse_radix(&t, 2, 16)
            } else if t.len() == 2 {
                let mut all_hex = true;
                let mut i: usize = 0;
                while i < t.len()
                    invariant
                        i <= t@.len(),
                        all_hex == forall|k: int|
                            0 <= k < i ==> spec_radix_digit(t@[k], 16) is Some,
                    decreases t@.len() - i,
                {
                    let cp = t[i] as u32;
                    let is_hex = (0x30 <= cp && cp <= 0x39) || (0x41 <= cp && cp <= 0x46) || (0x61
                        <= cp && cp <= 0x66);
                    proof {
                        assert(is_hex == (spec_radix_digit(t@[i as int], 16) is Some));
                    }
                    all_hex = all_hex && is_hex;
                    i = i + 1;
                }
                proof {
                    assert(t@.subrange(0, t@.len() as int) =~= t@);
                }
                if all_hex {
                    crate::hexparse::parse_radix(&t, 0, 16)
                } else {
                    crate::hexparse::parse_radix(&t, 0, 10)
                }
            } else {
                proof {
                    assert(t@.subrange(0, t@.len() as int) =~= t@);
                }
                crate::hexparse::parse_radix(&t, 0, 10)
            };
            match n {
                Some(b) => if b <= 255 {
                    Some(b as u8)
                } else {
                    None
                },
                None => None,
            }
        };
        let b = match byte_opt {
            Some(b) => b,
            None => {
                self.status = Some(StatusMsg::InvalidByteValue);
                proof {
                    assert(final(self)@ =~= spec_cmd_fill(old(self)@, arg@));
                }
                return ;
            },
        };
        let (start, end) = match self.selection {
            Some(p) => p,
            None => {
                self.status = Some(StatusMsg::NoSelection);
                proof {
                    assert(final(self)@ =~= spec_cmd_fill(old(self)@, arg@));
                }
                return ;
            },
        };
        let ghost v0 = old(self)@;
        let mut i: usize = start;
        let mut done = false;
        proof {
            self.document.lemma_len_bound();
        }
        while !done
            invariant
                v0.wf(),
                v0 == old(self)@,
                start <= i <= end,
                !done ==> self@ == (AppView {
                    doc: spec_fill(v0.doc, start as int, i - 1, b),
                    ..v0
                }),
                self@.doc.wf(),
                self@.doc.data.len() == v0.doc.data.len(),
                done ==> self@ == (AppView {
                    doc: spec_fill(v0.doc, start as int, end as int, b),
                    ..v0
                }),
            decreases (end - i) + (if done {
                0int
            } else {
                1int
            }),
        {
            proof {
                lemma_fill(v0.doc, start as int, i - 1, b);
                lemma_fill_snoc(v0.doc, start as int, i as int, b);
            }
            let dl = self.document.len();
            if i < dl {
                let _ = self.document.set(i, b);
            }
            proof {
                assert(self@ == (AppView { doc: spec_fill(v0.doc, start as int, i as int, b), ..v0 }));
                lemma_fill(v0.doc, start as int, i as int, b);
            }
            if i == end {
                done = true;
            } else {
                i = i + 1;
            }
        }
        let count = (end - start).saturating_add(1);
        self.status = Some(StatusMsg::Filled(count, b));
        self.clear_selection();
        proof {
            assert(final(self)@ =~= spec_cmd_fill(old(self)@, arg@));
        }
    }
}

/// The transition of dispatching a typed command, lower-cased and trimmed.
pub open spec fn spec_dispatch_command(v: AppView, s: Seq<char>) -> AppView {
    let c = spec_trim(crate::text::spec_ascii_lower_seq(s));
    if c == "goto"@ || c == "g"@ {
        AppView { prompt_mode: PromptMode::GotoAddress, prompt_input: Seq::empty(), ..v }
    } else if c == "save"@ || c == "s"@ {
        if v.doc.path is Some {
            v
        } else {
            AppView { status: Some(StatusMsg::SaveFailed), ..v }
        }
    } else if c == "quit"@ || c == "q"@ {
        if v.doc.modified {
            AppView { confirm_mode: ConfirmMode::Quit, ..v }
        } else {
            AppView { should_quit: true, ..v }
        }
    } else if c == "fill"@ || c == "f"@ {
        if v.selection is None {
            AppView { status: Some(StatusMsg::NoSelection), ..v }
        } else {
            AppView {
                current_command: "fill"@,
                prompt_mode: PromptMode::CommandArg,
                prompt_input: Seq::empty(),
                ..v
            }
        }
    } else if c == "insert"@ || c == "i"@ {
        AppView {
            current_command: "insert"@,
            prompt_mode: PromptMode::CommandArg,
            prompt_input: Seq::empty(),
            ..v
        }
    } else if c == "help"@ || c == "?"@ || c == "h"@ {
        AppView { status: Some(StatusMsg::HelpText), ..v }
    } else if c.len() == 0 {
        v
    } else {
        AppView { status: Some(StatusMsg::UnknownCommand), ..v }
    }
}

/// Whether dispatching the command asks the host to save the buffer.
pub open spec fn spec_dispatch_wants_save(v: AppView, s: Seq<char>) -> bool {
    let c = spec_trim(crate::text::spec_ascii_lower_seq(s));
    (c == "save"@ || c == "s"@) && v.doc.path is Some
}

/// The transition of running the remembered command on its argument.
pub open spec fn spec_command_with_arg(v: AppView, arg: Seq<char>) -> AppView {
    let v1 = AppView { current_command: Seq::empty(), ..v };
    if v.current_command == "fill"@ {
        spec_cmd_fill(v1, arg)
    } else if v.current_command == "insert"@ {
        spec_cmd_insert(v1, arg)
    } else {
        AppView { status: Some(StatusMsg::UnknownCommand), ..v1 }
    }
}

impl App {
    /// Inserts `count` copies of a byte (`count [byte]`, byte default 0)
    /// at the cursor.
    #[verifier::rlimit(100)]
    pub fn cmd_insert(&mut self, arg: &str)
        requires
            old(self)@.wf(),
        ensures
            final(self)@.wf(),
            final(self)@ == spec_cmd_insert(old(self)@, arg@),
    {
        let chars = crate::text::str_to_chars(arg);
        let t = crate::text::trim_chars(&chars);
        let t1s = skip_blanks(&t, 0);
        let t1e = take_token(&t, t1s);
        let t2s = skip_blanks(&t, t1e);
        let t2e = take_token(&t, t2s);
        let t3s = skip_blanks(&t, t2e);
        if t1s >= t.len() || t3s < t.len() {
            self.status = Some(StatusMsg::InsertUsage);
            proof {
                assert(final(self)@ =~= spec_cmd_insert(old(self)@, arg@));
            }
            return ;
        }
        let part1 = copy_range(&t, t1s, t1e);
        let count_opt = {
            let s1 = crate::text::string_from_chars(&part1);
            crate::hexparse::parse_number(s1.as_str())
        };
        let byte_opt = if t2s >= t.len() {
            Some(0u8)
        } else {
            let part2 = copy_range(&t, t2s, t2e);
            let s2 = crate::text::string_from_chars(&part2);
            crate::hexparse::parse_byte(s2.as_str())
        };
        let n = match count_opt {
            Some(n) => n,
            None => {
                self.status = Some(StatusMsg::InvalidCount);
                proof {
                    assert(final(self)@ =~= spec_cmd_insert(old(self)@, arg@));
                }
                return ;
            },
        };
        let b = match byte_opt {
            Some(b) => b,
            None => {
                self.status = Some(StatusMsg::InvalidByteValue);
                proof {
                    assert(final(self)@ =~= spec_cmd_insert(old(self)@, arg@));
                }
                return ;
            },
        };
        if n == 0 {
            self.status = Some(StatusMsg::CountMustBePositive);
            proof {
                assert(final(self)@ =~= spec_cmd_insert(old(self)@, arg@));
            }
            return ;
        }
        let buf: Vec<u8> = vec![b; n];
        proof {
            assert(buf@ =~= Seq::new(n as nat, |i: int| b));
        }
        self.ins_bytes_at(self.cursor, &buf);
        self.status = Some(StatusMsg::InsertedFill(n, b));
        proof {
            assert(final(self)@ =~= spec_cmd_insert(old(self)@, arg@));
        }
    }

    /// Dispatches a typed command name, case-insensitively.
    #[verifier::rlimit(100)]
    pub fn dispatch_command(&mut self, cmd: &str) -> (r: Option<Effect>)
        requires
            old(self)@.wf(),
        ensures
            final(self)@.wf(),
            final(self)@ == spec_dispatch_command(old(self)@, cmd@),
            spec_dispatch_wants_save(old(self)@, cmd@) <==> r == Some(Effect::SaveFile),
            !spec_dispatch_wants_save(old(self)@, cmd@) <==> r is None,
    {
        proof {
            reveal_strlit("goto");
            reveal_strlit("g");
            reveal_strlit("save");
            reveal_strlit("s");
            reveal_strlit("quit");
            reveal_strlit("q");
            reveal_strlit("fill");
            reveal_strlit("f");
            reveal_strlit("insert");
            reveal_strlit("i");
            reveal_strlit("help");
            reveal_strlit("?");
            reveal_strlit("h");
            assert("goto"@.len() == 4 && "g"@.len() == 1 && "save"@.len() == 4 && "s"@.len() == 1
                && "quit"@.len() == 4 && "q"@.len() == 1 && "fill"@.len() == 4 && "f"@.len() == 1
                && "insert"@.len() == 6 && "i"@.len() == 1 && "help"@.len() == 4 && "?"@.len() == 1
                && "h"@.len() == 1);
            assert("goto"@[0] == 'g' && "save"@[0] == 's' && "quit"@[0] == 'q' && "fill"@[0] == 'f'
                && "help"@[0] == 'h');
            assert("g"@[0] == 'g' && "s"@[0] == 's' && "q"@[0] == 'q' && "f"@[0] == 'f' && "i"@[0]
                == 'i' && "?"@[0] == '?' && "h"@[0] == 'h');
        }
        let chars = crate::text::str_to_chars(cmd);
        let lowered = crate::text::ascii_lower_chars(&chars);
        let c = crate::text::trim_chars(&lowered);
        if crate::text::chars_eq_str(&c, "goto") || crate::text::chars_eq_str(&c, "g") {
            self.prompt_mode = PromptMode::GotoAddress;
            self.prompt_input = Vec::new();
            proof {
                assert(final(self)@ =~= spec_dispatch_command(old(self)@, cmd@));
            }
            None
        } else if crate::text::chars_eq_str(&c, "save") || crate::text::chars_eq_str(&c, "s") {
            if self.document.path().is_some() {
                proof {
                    assert(final(self)@ =~= spec_dispatch_command(old(self)@, cmd@));
                }
                Some(Effect::SaveFile)
            } else {
                self.status = Some(StatusMsg::SaveFailed);
                proof {
                    assert(final(self)@ =~= spec_dispatch_command(old(self)@, cmd@));
                    }
                None
            }
        } else if crate::text::chars_eq_str(&c, "quit") || crate::text::chars_eq_str(&c, "q") {
            if self.document.is_modified() {
                self.confirm_mode = ConfirmMode::Quit;
            } else {
                self.should_quit = true;
            }
            proof {
                assert(final(self)@ =~= spec_dispatch_command(old(self)@, cmd@));
            }
            None
        } else if crate::text::chars_eq_str(&c, "fill") || crate::text::chars_eq_str(&c, "f") {
            if self.selection.is_none() {
                self.status = Some(StatusMsg::NoSelection);
            } else {
                self.current_command = crate::text::str_to_chars("fill");
                self.prompt_mode = PromptMode::CommandArg;
                self.prompt_input = Vec::new();
            }
            proof {
                assert(final(self)@ =~= spec_dispatch_command(old(self)@, cmd@));
            }
            None
        } else if crate::text::chars_eq_str(&c, "insert") || crate::text::chars_eq_str(&c, "i") {
            self.current_command = crate::text::str_to_chars("insert");
            self.prompt_mode = PromptMode::CommandArg;
            self.prompt_input = Vec::new();
            proof {
                assert(final(self)@ =~= spec_dispatch_command(old(self)@, cmd@));
            }
            None
        } else if crate::text::chars_eq_str(&c, "help") || crate::text::chars_eq_str(&c, "?")
            || crate::text::chars_eq_str(&c, "h") {
            self.status = Some(StatusMsg::HelpText);
            proof {
                assert(final(self)@ =~= spec_dispatch_command(old(self)@, cmd@));
            }
            None
        } else if c.is_empty() {
            proof {
                assert(final(self)@ =~= spec_dispatch_command(old(self)@, cmd@));
            }
            None
        } else {
            self.status = Some(StatusMsg::UnknownCommand);
            proof {
                assert(final(self)@ =~= spec_dispatch_command(old(self)@, cmd@));
            }
            None
        }
    }

    /// Runs the remembered command on the argument just typed.
    pub fn execute_command_with_arg(&mut self, arg: &str)
        requires
            old(self)@.wf(),
        ensures
            final(self)@.wf(),
            final(self)@ == spec_command_with_arg(old(self)@, arg@),
    {
        proof {
            reveal_strlit("fill");
            reveal_strlit("insert");
        }
        let is_fill = crate::text::chars_eq_str(&self.current_command, "fill");
        let is_insert = crate::text::chars_eq_str(&self.current_command, "insert");
        self.current_command = Vec::new();
        if is_fill {
            self.cmd_fill(arg);
        } else if is_insert {
            self.cmd_insert(arg);
        } else {
            self.status = Some(StatusMsg::UnknownCommand);
        }
        proof {
            assert(final(self)@ =~= spec_command_with_arg(old(self)@, arg@));
        }
    }

    /// Replaces the buffer with an empty unnamed document.
    pub fn do_kill_buffer(&mut self)
        requires
            old(self)@.wf(),
        ensures
            final(self)@.wf(),
            final(self)@ == (AppView {
                doc: DocView {
                    data: Seq::empty(),
                    modified: false,
                    readonly: false,
                    path: None,
                    undo: Seq::empty(),
                    redo: Seq::empty(),
                },
                cursor: 0,
                offset: 0,
                selection: None,
                selection_start: None,
                status: Some(StatusMsg::BufferKilled),
                ..old(self)@
            }),
    {
        self.document = Document::new();
        self.cursor = 0;
        self.offset = 0;
        self.selection = None;
        self.selection_start = None;
        self.status = Some(StatusMsg::BufferKilled);
        proof {
            assert(final(self)@.doc =~= (DocView {
                data: Seq::empty(),
                modified: false,
                readonly: false,
                path: None,
                undo: Seq::empty(),
                redo: Seq::empty(),
            }));
            assert(final(self)@ =~= (AppView {
                doc: final(self)@.doc,
                cursor: 0,
                offset: 0,
                selection: None,
                selection_start: None,
                status: Some(StatusMsg::BufferKilled),
                ..old(self)@
            }));
        }
    }

    /// Reports the outcome of a requested whole-buffer save.
    pub fn save_done(&mut self, ok: bool)
        requires
            old(self)@.wf(),
        ensures
            final(self)@.wf(),
            ok ==> final(self)@ == (AppView {
                doc: DocView { modified: false, ..old(self)@.doc },
                status: Some(StatusMsg::Saved),
                ..old(self)@
            }),
            !ok ==> final(self)@ == (AppView { status: Some(StatusMsg::SaveFailed), ..old(self)@ }),
    {
        if ok {
            self.document.mark_saved();
            self.status = Some(StatusMsg::Saved);
            proof {
                assert(final(self)@ =~= (AppView {
                    doc: DocView { modified: false, ..old(self)@.doc },
                    status: Some(StatusMsg::Saved),
                    ..old(self)@
                }));
            }
        } else {
            self.status = Some(StatusMsg::SaveFailed);
            proof {
                assert(final(self)@ =~= (AppView {
                    status: Some(StatusMsg::SaveFailed),
                    ..old(self)@
                }));
            }
        }
    }

    /// Reports the outcome of a requested save to a new path.
    pub fn save_as_done(&mut self, path: String, ok: bool)
        requires
            old(self)@.wf(),
        ensures
            final(self)@.wf(),
            ok ==> final(self)@ == (AppView {
                doc: DocView { modified: false, path: Some(path@), ..old(self)@.doc },
                status: Some(StatusMsg::Saved),
                ..old(self)@
            }),
            !ok ==> final(self)@ == (AppView { status: Some(StatusMsg::SaveFailed), ..old(self)@ }),
    {
        if ok {
            self.document.save_as(path);
            self.status = Some(StatusMsg::Saved);
            proof {
                assert(final(self)@ =~= (AppView {
                    doc: DocView { modified: false, path: Some(path@), ..old(self)@.doc },
                    status: Some(StatusMsg::Saved),
                    ..old(self)@
                }));
            }
        } else {
            self.status = Some(StatusMsg::SaveFailed);
            proof {
                assert(final(self)@ =~= (AppView {
                    status: Some(StatusMsg::SaveFailed),
                    ..old(self)@
                }));
            }
        }
    }
}

/// What pressing Enter in a prompt does to the state, given the typed
/// input; the host-facing effect is stated separately.
pub open spec fn spec_execute_prompt(v: AppView) -> AppView {
    let input = v.prompt_input;
    let v1 = AppView { prompt_mode: PromptMode::Off, ..v };
    match v.prompt_mode {
        PromptMode::GotoAddress => spec_goto_address(v1, input),
        PromptMode::OpenFile => {
            if spec_trim(input).len() == 0 {
                AppView { status: Some(StatusMsg::NoFileGiven), ..v1 }
            } else if v.doc.modified {
                AppView { confirm_mode: ConfirmMode::OpenFile, pending_open_path: input, ..v1 }
            } else {
                v1
            }
        },
        PromptMode::SaveAs => if spec_trim(input).len() == 0 {
            AppView { status: Some(StatusMsg::NoFileGiven), ..v1 }
        } else {
            v1
        },
        PromptMode::Command => spec_dispatch_command(v1, input),
        PromptMode::CommandArg => spec_command_with_arg(v1, input),
        PromptMode::Off => v,
    }
}

/// The effect pressing Enter in a prompt asks of the host.
pub open spec fn spec_execute_prompt_effect(v: AppView) -> Option<EffectView> {
    let input = v.prompt_input;
    match v.prompt_mode {
        PromptMode::OpenFile => if spec_trim(input).len() == 0 || v.doc.modified {
            None
        } else {
            Some(EffectView::OpenPath(input))
        },
        PromptMode::SaveAs => if spec_trim(input).len() == 0 {
            None
        } else {
            Some(EffectView::SaveFileAs(input))
        },
        PromptMode::Command => if spec_dispatch_wants_save(
            AppView { prompt_mode: PromptMode::Off, ..v },
            input,
        ) {
            Some(EffectView::SaveFile)
        } else {
            None
        },
        _ => None,
    }
}

/// The state transition of finishing the pending confirmed action.
pub open spec fn spec_confirmed_action(v: AppView) -> AppView {
    let v1 = AppView { confirm_mode: ConfirmMode::Off, ..v };
    match v.confirm_mode {
        ConfirmMode::Quit => AppView { should_quit: true, ..v1 },
        ConfirmMode::OpenFile => if spec_trim(v.pending_open_path).len() == 0 {
            AppView { status: Some(StatusMsg::NoFileGiven), ..v1 }
        } else {
            v1
        },
        ConfirmMode::KillBuffer => AppView {
            doc: DocView {
                data: Seq::empty(),
                modified: false,
                readonly: false,
                path: None,
                undo: Seq::empty(),
                redo: Seq::empty(),
            },
            cursor: 0,
            offset: 0,
            selection: None,
            selection_start: None,
            status: Some(StatusMsg::BufferKilled),
            ..v1
        },
        ConfirmMode::Off => v,
    }
}

/// The effect finishing the pending confirmed action asks of the host.
pub open spec fn spec_confirmed_action_effect(v: AppView) -> Option<EffectView> {
    match v.confirm_mode {
        ConfirmMode::OpenFile => if spec_trim(v.pending_open_path).len() == 0 {
            None
        } else {
            Some(EffectView::OpenPath(v.pending_open_path))
        },
        _ => None,
    }
}

impl App {
    /// Acts on the prompt input just confirmed with Enter.
    pub fn execute_prompt(&mut self) -> (r: Option<Effect>)
        requires
            old(self)@.wf(),
        ensures
            final(self)@.wf(),
            final(self)@ == spec_execute_prompt(old(self)@),
            ({
                let e = spec_execute_prompt_effect(old(self)@);
                match e {
                    Some(ef) => (r matches Some(x) && spec_effect_matches(x, ef)),
                    None => r is None,
                }
            }),
    {
        let mode = self.prompt_mode;
        self.prompt_mode = PromptMode::Off;
        match mode {
            PromptMode::GotoAddress => {
                let input = crate::text::string_from_chars(&self.prompt_input);
                self.goto_address(input.as_str());
                proof {
                    assert(final(self)@ =~= spec_execute_prompt(old(self)@));
                }
                None
            },
            PromptMode::OpenFile => {
                let t = crate::text::trim_chars(&self.prompt_input);
                if t.is_empty() {
                    self.status = Some(StatusMsg::NoFileGiven);
                    proof {
                        assert(final(self)@ =~= spec_execute_prompt(old(self)@));
                    }
                    None
                } else if self.document.is_modified() {
                    self.confirm_mode = ConfirmMode::OpenFile;
                    self.pending_open_path = self.prompt_input.clone();
                    proof {
                        assert(final(self)@ =~= spec_execute_prompt(old(self)@));
                    }
                    None
                } else {
                    let path = self.prompt_input.clone();
                    proof {
                        assert(final(self)@ =~= spec_execute_prompt(old(self)@));
                    }
                    Some(Effect::OpenPath(path))
                }
            },
            PromptMode::SaveAs => {
                let t = crate::text::trim_chars(&self.prompt_input);
                if t.is_empty() {
                    self.status = Some(StatusMsg::NoFileGiven);
                    proof {
                        assert(final(self)@ =~= spec_execute_prompt(old(self)@));
                    }
                    None
                } else {
                    let path = self.prompt_input.clone();
                    proof {
                        assert(final(self)@ =~= spec_execute_prompt(old(self)@));
                    }
                    Some(Effect::SaveFileAs(path))
                }
            },
            PromptMode::Command => {
                let input = crate::text::string_from_chars(&self.prompt_input);
                let r = self.dispatch_command(input.as_str());
                proof {
                    assert(final(self)@ =~= spec_execute_prompt(old(self)@));
                }
                r
            },
            PromptMode::CommandArg => {
                let input = crate::text::string_from_chars(&self.prompt_input);
                self.execute_command_with_arg(input.as_str());
                proof {
                    assert(final(self)@ =~= spec_execute_prompt(old(self)@));
                }
                None
            },
            PromptMode::Off => {
                proof {
                    assert(final(self)@ =~= spec_execute_prompt(old(self)@));
                }
                None
            },
        }
    }

    /// Handles one key press while a prompt is open.
    pub fn handle_prompt_key(&mut self, k: ModeKey) -> (r: Option<Effect>)
        requires
            old(self)@.wf(),
        ensures
            final(self)@.wf(),
            k is Esc ==> final(self)@ == (AppView {
                prompt_mode: PromptMode::Off,
                status: Some(StatusMsg::Cancelled),
                ..old(self)@
            }) && r is None,
            k matches ModeKey::CtrlChr(c) ==> final(self)@ == (if c == 'g' {
                AppView {
                    prompt_mode: PromptMode::Off,
                    status: Some(StatusMsg::Cancelled),
                    ..old(self)@
                }
            } else {
                old(self)@
            }) && r is None,
            k is Enter ==> final(self)@ == spec_execute_prompt(old(self)@) && ({
                let e = spec_execute_prompt_effect(old(self)@);
                match e {
                    Some(ef) => (r matches Some(x) && spec_effect_matches(x, ef)),
                    None => r is None,
                }
            }),
            k is Backspace ==> final(self)@ == (AppView {
                prompt_input: if old(self)@.prompt_input.len() > 0 {
                    old(self)@.prompt_input.drop_last()
                } else {
                    old(self)@.prompt_input
                },
                ..old(self)@
            }) && r is None,
            k matches ModeKey::Chr(c) ==> final(self)@ == (AppView {
                prompt_input: old(self)@.prompt_input.push(c),
                ..old(self)@
            }) && r is None,
            k is Del ==> final(self)@ == old(self)@ && r is None,
    {
        match k {
            ModeKey::Esc => {
                self.prompt_mode = PromptMode::Off;
                self.status = Some(StatusMsg::Cancelled);
                proof {
                    assert(final(self)@ =~= (AppView {
                        prompt_mode: PromptMode::Off,
                        status: Some(StatusMsg::Cancelled),
                        ..old(self)@
                    }));
                }
                None
            },
            ModeKey::CtrlChr(c) => {
                if c == 'g' {
                    self.prompt_mode = PromptMode::Off;
                    self.status = Some(StatusMsg::Cancelled);
                    proof {
                        assert(final(self)@ =~= (AppView {
                            prompt_mode: PromptMode::Off,
                            status: Some(StatusMsg::Cancelled),
                            ..old(self)@
                        }));
                    }
                }
                None
            },
            ModeKey::Enter => self.execute_prompt(),
            ModeKey::Backspace => {
                let _ = self.prompt_input.pop();
                None
            },
            ModeKey::Chr(c) => {
                self.prompt_input.push(c);
                None
            },
            ModeKey::Del => None,
        }
    }

    /// Handles one key press while an unsaved-changes confirmation is
    /// pending: `y` saves then proceeds, `n` proceeds without saving,
    /// `c`/escape aborts the pending action. Full-width letters count as
    /// their half-width forms.
    pub fn handle_confirm_key(&mut self, k: ModeKey) -> (r: Option<Effect>)
        requires
            old(self)@.wf(),
        ensures
            final(self)@.wf(),
            spec_confirm_key_post(old(self)@, final(self)@, r, k),
    {
        let norm = match k {
            ModeKey::Chr(c) => ModeKey::Chr(crate::text::normalize_fullwidth(c)),
            other => other,
        };
        match norm {
            ModeKey::Chr(c) => {
                if c == 'y' || c == 'Y' {
                    if self.document.path().is_some() {
                        Some(Effect::SaveThenProceed)
                    } else {
                        self.status = Some(StatusMsg::SaveFailed);
                        self.confirm_mode = ConfirmMode::Off;
                        proof {
                            assert(final(self)@ =~= (AppView {
                                status: Some(StatusMsg::SaveFailed),
                                confirm_mode: ConfirmMode::Off,
                                ..old(self)@
                            }));
                        }
                        None
                    }
                } else if c == 'n' || c == 'N' {
                    let r = self.execute_confirmed_action();
                    r
                } else if c == 'c' || c == 'C' {
                    self.confirm_mode = ConfirmMode::Off;
                    self.status = Some(StatusMsg::Cancelled);
                    proof {
                        assert(final(self)@ =~= (AppView {
                            confirm_mode: ConfirmMode::Off,
                            status: Some(StatusMsg::Cancelled),
                            ..old(self)@
                        }));
                    }
                    None
                } else {
                    None
                }
            },
            ModeKey::Esc => {
                self.confirm_mode = ConfirmMode::Off;
                self.status = Some(StatusMsg::Cancelled);
                proof {
                    assert(final(self)@ =~= (AppView {
                        confirm_mode: ConfirmMode::Off,
                        status: Some(StatusMsg::Cancelled),
                        ..old(self)@
                    }));
                }
                None
            },
            ModeKey::CtrlChr(c) => {
                if c == 'g' {
                    self.confirm_mode = ConfirmMode::Off;
                    self.status = Some(StatusMsg::Cancelled);
                    proof {
                        assert(final(self)@ =~= (AppView {
                            confirm_mode: ConfirmMode::Off,
                            status: Some(StatusMsg::Cancelled),
                            ..old(self)@
                        }));
                    }
                }
                None
            },
            _ => None,
        }
    }

    /// Finishes the pending confirmed action: quit, open the pending file,
    /// or kill the buffer.
    pub fn execute_confirmed_action(&mut self) -> (r: Option<Effect>)
        requires
            old(self)@.wf(),
        ensures
            final(self)@.wf(),
            final(self)@ == spec_confirmed_action(old(self)@),
            ({
                let e = spec_confirmed_action_effect(old(self)@);
                match e {
                    Some(ef) => (r matches Some(x) && spec_effect_matches(x, ef)),
                    None => r is None,
                }
            }),
    {
        let mode = self.confirm_mode;
        self.confirm_mode = ConfirmMode::Off;
        match mode {
            ConfirmMode::Quit => {
                self.should_quit = true;
                proof {
                    assert(final(self)@ =~= spec_confirmed_action(old(self)@));
                }
                None
            },
            ConfirmMode::OpenFile => {
                let t = crate::text::trim_chars(&self.pending_open_path);
                if t.is_empty() {
                    self.status = Some(StatusMsg::NoFileGiven);
                    proof {
                        assert(final(self)@ =~= spec_confirmed_action(old(self)@));
                    }
                    None
                } else {
                    let path = self.pending_open_path.clone();
                    proof {
                        assert(final(self)@ =~= spec_confirmed_action(old(self)@));
                    }
                    Some(Effect::OpenPath(path))
                }
            },
            ConfirmMode::KillBuffer => {
                self.do_kill_buffer();
                proof {
                    assert(final(self)@ =~= spec_confirmed_action(old(self)@));
                }
                None
            },
            ConfirmMode::Off => {
                proof {
                    assert(final(self)@ =~= spec_confirmed_action(old(self)@));
                }
                None
            },
        }
    }

    /// Reports the outcome of the save a confirmation requested: on
    /// success the pending action goes ahead, on failure it is abandoned.
    pub fn confirm_save_done(&mut self, ok: bool) -> (r: Option<Effect>)
        requires
            old(self)@.wf(),
        ensures
            final(self)@.wf(),
            !ok ==> final(self)@ == (AppView {
                status: Some(StatusMsg::SaveFailed),
                confirm_mode: ConfirmMode::Off,
                ..old(self)@
            }) && r is None,
            ok ==> final(self)@ == spec_confirmed_action(
                AppView { doc: DocView { modified: false, ..old(self)@.doc }, ..old(self)@ },
            ) && ({
                let e = spec_confirmed_action_effect(old(self)@);
                match e {
                    Some(ef) => (r matches Some(x) && spec_effect_matches(x, ef)),
                    None => r is None,
                }
            }),
    {
        if ok {
            self.document.mark_saved();
            let r = self.execute_confirmed_action();
            r
        } else {
            self.status = Some(StatusMsg::SaveFailed);
            self.confirm_mode = ConfirmMode::Off;
            proof {
                assert(final(self)@ =~= (AppView {
                    status: Some(StatusMsg::SaveFailed),
                    confirm_mode: ConfirmMode::Off,
                    ..old(self)@
                }));
            }
            None
        }
    }
}

/// What one confirmation key press does, over the states before and after
/// and the effect handed back.
pub open spec fn spec_confirm_key_post(
    v: AppView,
    r: AppView,
    ef: Option<Effect>,
    k: ModeKey,
) -> bool {
    let norm = match k {
        ModeKey::Chr(c) => ModeKey::Chr(crate::text::spec_normalize_fullwidth(c)),
        other => other,
    };
    match norm {
        ModeKey::Chr(c) => {
            if c == 'y' || c == 'Y' {
                if v.doc.path is Some {
                    r == v && ef == Some(Effect::SaveThenProceed)
                } else {
                    r == (AppView {
                        status: Some(StatusMsg::SaveFailed),
                        confirm_mode: ConfirmMode::Off,
                        ..v
                    }) && ef is None
                }
            } else if c == 'n' || c == 'N' {
                r == spec_confirmed_action(v) && (match spec_confirmed_action_effect(v) {
                    Some(e) => (ef matches Some(x) && spec_effect_matches(x, e)),
                    None => ef is None,
                })
            } else if c == 'c' || c == 'C' {
                r == (AppView {
                    confirm_mode: ConfirmMode::Off,
                    status: Some(StatusMsg::Cancelled),
                    ..v
                }) && ef is None
            } else {
                r == v && ef is None
            }
        },
        ModeKey::Esc => r == (AppView {
            confirm_mode: ConfirmMode::Off,
            status: Some(StatusMsg::Cancelled),
            ..v
        }) && ef is None,
        ModeKey::CtrlChr(c) => if c == 'g' {
            r == (AppView {
                confirm_mode: ConfirmMode::Off,
                status: Some(StatusMsg::Cancelled),
                ..v
            }) && ef is None
        } else {
            r == v && ef is None
        },
        _ => r == v && ef is None,
    }
}

/// Whether an executable effect carries the payload the model calls for
/// (payload vectors are compared by their character content).
pub open spec fn spec_effect_matches(x: Effect, e: EffectView) -> bool {
    match e {
        EffectView::OpenPath(p) => (x matches Effect::OpenPath(q) && q@ == p),
        EffectView::SaveFileAs(p) => (x matches Effect::SaveFileAs(q) && q@ == p),
        EffectView::CopyText(p) => (x matches Effect::CopyText(q) && q@ == p),
        EffectView::SaveFile => x == Effect::SaveFile,
        EffectView::SaveThenProceed => x == Effect::SaveThenProceed,
        EffectView::FetchClipboard => x == Effect::FetchClipboard,
    }
}

/// The index of the first non-blank character of `v` at or after `i`.
fn skip_blanks(v: &Vec<char>, i: usize) -> (r: usize)
    requires
        i <= v@.len(),
    ensures
        r == spec_skip_blanks(v@, i as int),
        i <= r <= v@.len(),
    decreases v@.len() - i,
{
    if i >= v.len() {
        i
    } else {
        let c = v[i];
        let blank = c == ' ' || c == '\t' || c == '\n' || c == '\r' || c as u32 == 0x3000;
        proof {
            assert(blank == spec_is_blank(v@[i as int]));
        }
        if !blank {
            i
        } else {
            skip_blanks(v, i + 1)
        }
    }
}

/// The index just past the token of `v` starting at `i`.
fn take_token(v: &Vec<char>, i: usize) -> (r: usize)
    requires
        i <= v@.len(),
    ensures
        r == spec_take_token(v@, i as int),
        i <= r <= v@.len(),
    decreases v@.len() - i,
{
    if i >= v.len() {
        i
    } else {
        let c = v[i];
        let blank = c == ' ' || c == '\t' || c == '\n' || c == '\r' || c as u32 == 0x3000;
        proof {
            assert(blank == spec_is_blank(v@[i as int]));
        }
        if blank {
            i
        } else {
            take_token(v, i + 1)
        }
    }
}

/// The characters of `v[s .. e]`, as a vector.
fn copy_range(v: &Vec<char>, s: usize, e: usize) -> (r: Vec<char>)
    requires
        s <= e <= v@.len(),
    ensures
        r@ == v@.subrange(s as int, e as int),
{
    let mut r: Vec<char> = Vec::new();
    let mut i: usize = s;
    while i < e
        invariant
            s <= i <= e <= v@.len(),
            r@ == v@.subrange(s as int, i as int),
        decreases e - i,
    {
        r.push(v[i]);
        i = i + 1;
        proof {
            assert(r@ =~= v@.subrange(s as int, i as int));
        }
    }
    proof {
        assert(r@ =~= v@.subrange(s as int, e as int));
    }
    r
}

/// Extending a fill by one position writes one byte more.
proof fn lemma_fill_snoc(m: DocView, s: int, i: int, b: u8)
    requires
        s <= i,
    ensures
        spec_fill(m, s, i, b) == ({
            let d = spec_fill(m, s, i - 1, b);
            if 0 <= i < d.data.len() {
                spec_set(d, i as usize, b)
            } else {
                d
            }
        }),
    decreases i - s,
{
    if s == i {
        assert(spec_fill(m, s, s - 1, b) == m);
        let m1 = if 0 <= s < m.data.len() {
            spec_set(m, s as usize, b)
        } else {
            m
        };
        assert(spec_fill(m, s, s, b) == spec_fill(m1, s + 1, s, b));
        assert(spec_fill(m1, s + 1, s, b) == m1);
    } else {
        let m1 = if 0 <= s < m.data.len() {
            spec_set(m, s as usize, b)
        } else {
            m
        };
        lemma_fill_snoc(m1, s + 1, i, b);
        assert(spec_fill(m, s, i, b) == spec_fill(m1, s + 1, i, b));
        assert(spec_fill(m, s, i - 1, b) == spec_fill(m1, s + 1, i - 1, b));
        assert(spec_fill(m1, s + 1, i - 1, b).data.len() == spec_fill(
            m,
            s,
            i - 1,
            b,
        ).data.len());
    }
}

} // verus!
