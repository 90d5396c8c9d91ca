//! End-to-end checks of the editor engine: the byte buffer with its undo
//! and redo logs, hex interpretation, search, and the modal controller.

use he::document::Document;
use he::editor::{Action, App, ModeKey, StatusMsg};
use he::hexparse::{looks_like_hex, normalize_hex_string, normalized_hex_to_bytes, parse_byte,
    parse_number};
use he::search::{find_all, find_pattern, find_pattern_reverse};
use he::encoding::{decode_utf8_char_at, encode_char, encode_char_utf8, CharEncoding};
use he::fmt::{hex_spaced_chars, push_dec_pad, push_hex_pad};

fn doc_of(bytes: &[u8]) -> Document {
    Document::from_bytes(bytes.to_vec())
}

#[test]
fn undo_reverts_a_mutation_sequence() {
    let mut d = doc_of(b"hello");
    let before: Vec<u8> = d.data().to_vec();
    let was_modified = d.is_modified();
    d.set(0, b'H').unwrap();
    d.insert(5, b'!').unwrap();
    d.delete(1).unwrap();
    assert_eq!(d.data(), b"Hllo!");
    d.undo().unwrap();
    d.undo().unwrap();
    d.undo().unwrap();
    assert_eq!(d.data(), &before[..]);
    assert_eq!(d.is_modified(), was_modified);
    assert_eq!(d.undo_depth(), 0);
}

#[test]
fn undo_restores_the_modified_flag() {
    let mut d = doc_of(b"\x01\x02");
    assert!(!d.is_modified());
    d.set(1, 0xFF).unwrap();
    assert!(d.is_modified());
    d.undo().unwrap();
    assert!(!d.is_modified());
}

#[test]
fn redo_reproduces_the_undone_state() {
    let mut d = doc_of(b"abc");
    d.set(2, b'z').unwrap();
    d.insert(3, b'!').unwrap();
    let after: Vec<u8> = d.data().to_vec();
    d.undo().unwrap();
    d.undo().unwrap();
    assert_eq!(d.data(), b"abc");
    d.redo().unwrap();
    d.redo().unwrap();
    assert_eq!(d.data(), &after[..]);
    assert!(d.is_modified());
}

#[test]
fn a_mutation_clears_the_redo_log() {
    let mut d = doc_of(b"abc");
    d.set(0, b'x').unwrap();
    d.undo().unwrap();
    assert_eq!(d.redo_depth(), 1);
    d.set(1, b'y').unwrap();
    assert_eq!(d.redo_depth(), 0);
    assert_eq!(d.redo(), None);
}

#[test]
fn set_of_the_same_value_records_nothing() {
    let mut d = doc_of(b"abc");
    d.set(1, b'Q').unwrap();
    let depth = d.undo_depth();
    d.set(1, b'Q').unwrap();
    assert_eq!(d.undo_depth(), depth);
    assert_eq!(d.data(), b"aQc");
}

#[test]
fn out_of_range_mutations_are_rejected() {
    let mut d = doc_of(b"ab");
    assert!(d.set(2, 0).is_err());
    assert!(d.insert(3, 0).is_err());
    assert!(d.delete(2).is_err());
    assert!(d.insert(2, b'c').is_ok());
    assert_eq!(d.data(), b"abc");
}

#[test]
fn get_and_get_range_respect_bounds() {
    let d = doc_of(b"abcd");
    assert_eq!(d.get(0), Some(b'a'));
    assert_eq!(d.get(4), None);
    assert_eq!(d.get_range(1, 3), Some(&b"bc"[..]));
    assert_eq!(d.get_range(3, 2), None);
    assert_eq!(d.get_range(0, 5), None);
}

#[test]
fn looks_like_hex_accepts_the_documented_forms() {
    assert!(looks_like_hex("DE AD BE EF"));
    assert!(looks_like_hex("deadbeef"));
    assert!(looks_like_hex("\u{FF26}\u{FF26}"));
    assert!(looks_like_hex("0xFF"));
    assert!(!looks_like_hex("abc"));
    assert!(!looks_like_hex(""));
    assert!(!looks_like_hex("zz"));
    // Non-hex characters are dropped, so stray hex letters still count.
    assert!(looks_like_hex("hello world"));
}

#[test]
fn hex_normalization_strips_and_uppercases() {
    assert_eq!(normalize_hex_string("0xde ad"), "DEAD");
    assert_eq!(normalize_hex_string("\u{FF26}f"), "FF");
    assert_eq!(normalized_hex_to_bytes("DE AD BE EF"), Some(vec![0xDE, 0xAD, 0xBE, 0xEF]));
    assert_eq!(normalized_hex_to_bytes("abc"), None);
}

#[test]
fn number_and_byte_parsing() {
    assert_eq!(parse_number("0x10"), Some(16));
    assert_eq!(parse_number("42"), Some(42));
    assert_eq!(parse_number(""), None);
    assert_eq!(parse_number("0x"), None);
    assert_eq!(parse_number("12a"), None);
    assert_eq!(parse_byte("0xFF"), Some(255));
    assert_eq!(parse_byte("ff"), Some(255));
    assert_eq!(parse_byte("9"), Some(9));
    assert_eq!(parse_byte("256"), None);
    assert_eq!(parse_byte("zz"), None);
}

#[test]
fn find_forward_documented_scenario() {
    let data = b"\x01\x02\x03\x02";
    assert_eq!(find_pattern(data, b"\x02", 0), Some(1));
    assert_eq!(find_pattern(data, b"\x02", 2), Some(3));
    assert_eq!(find_pattern(data, b"\x02", 4), None);
    assert_eq!(find_pattern(data, b"", 0), None);
}

#[test]
fn find_backward_and_all_occurrences() {
    let data = b"\x01\x02\x03\x02";
    assert_eq!(find_pattern_reverse(data, b"\x02", 4), Some(3));
    assert_eq!(find_pattern_reverse(data, b"\x02", 3), Some(1));
    assert_eq!(find_pattern_reverse(data, b"\x02", 0), None);
    assert_eq!(find_all(data, b"\x02"), vec![1, 3]);
    assert_eq!(find_all(b"aaaa", b"aa"), vec![0, 1, 2]);
}

#[test]
fn byte_entry_two_hex_digits() {
    let mut app = App::new();
    app.execute(Action::InputHex('4'));
    app.execute(Action::InputHex('1'));
    assert_eq!(app.document().data(), b"\x41");
    assert_eq!(app.cursor(), 1);
}

#[test]
fn byte_entry_merges_the_low_nibble_in_overwrite() {
    let mut app = App::new();
    app.load_bytes(vec![0x0F]);
    app.execute(Action::InputHex('a'));
    assert_eq!(app.document().data(), b"\xAF");
    app.execute(Action::InputHex('1'));
    assert_eq!(app.document().data(), b"\xA1");
    assert_eq!(app.cursor(), 1);
}

#[test]
fn ascii_input_encodes_through_the_active_encoding() {
    let mut app = App::new();
    app.execute(Action::InputAscii('A'));
    assert_eq!(app.document().data(), b"A");
    assert_eq!(app.cursor(), 1);
    app.execute(Action::InputAscii('\u{00E9}'));
    assert_eq!(app.document().data(), b"A\xC3\xA9");
    assert_eq!(app.cursor(), 3);
}

#[test]
fn query_replace_all_documented_scenario() {
    let mut app = App::new();
    app.load_bytes(b"aaa".to_vec());
    app.execute(Action::StartReplace);
    app.handle_replace_key(ModeKey::Chr('a'));
    app.handle_replace_key(ModeKey::Enter);
    app.handle_replace_key(ModeKey::Chr('b'));
    app.handle_replace_key(ModeKey::Chr('b'));
    app.handle_replace_key(ModeKey::Enter);
    app.handle_replace_key(ModeKey::Chr('!'));
    // "bb" reads as the hex byte BB under the uniform hex-or-literal rule,
    // so each of the three matches becomes one 0xBB byte.
    assert_eq!(app.document().data(), b"\xBB\xBB\xBB");
    assert_eq!(app.status(), Some(StatusMsg::ReplacedCount(3)));
}

#[test]
fn query_replace_all_with_literal_replacement_grows_the_buffer() {
    let mut app = App::new();
    app.load_bytes(b"aaa".to_vec());
    app.execute(Action::StartReplace);
    app.handle_replace_key(ModeKey::Chr('a'));
    app.handle_replace_key(ModeKey::Enter);
    app.handle_replace_key(ModeKey::Chr('z'));
    app.handle_replace_key(ModeKey::Chr('z'));
    app.handle_replace_key(ModeKey::Enter);
    app.handle_replace_key(ModeKey::Chr('!'));
    assert_eq!(app.document().data(), b"zzzzzz");
    assert_eq!(app.status(), Some(StatusMsg::ReplacedCount(3)));
}

#[test]
fn query_replace_single_confirmation() {
    let mut app = App::new();
    app.load_bytes(b"xyxy".to_vec());
    app.execute(Action::StartReplace);
    app.handle_replace_key(ModeKey::Chr('x'));
    app.handle_replace_key(ModeKey::Enter);
    app.handle_replace_key(ModeKey::Chr('q'));
    app.handle_replace_key(ModeKey::Enter);
    app.handle_replace_key(ModeKey::Chr('y'));
    app.handle_replace_key(ModeKey::Chr('q'));
    assert_eq!(app.document().data(), b"qyxy");
    assert_eq!(app.status(), Some(StatusMsg::ReplaceFinished));
}

#[test]
fn goto_address_documented_scenario() {
    let mut app = App::new();
    app.load_bytes(vec![0u8; 16]);
    app.goto_address("0x10");
    assert_eq!(app.cursor(), 16);
    assert_eq!(app.status(), Some(StatusMsg::JumpedTo(16)));
    app.goto_address("0x11");
    assert_eq!(app.cursor(), 16);
    assert_eq!(app.status(), Some(StatusMsg::AddressTooLarge(17, 16)));
}

#[test]
fn goto_address_accepts_every_documented_radix_form() {
    let mut app = App::new();
    app.load_bytes(vec![0u8; 300]);
    app.goto_address("255");
    assert_eq!(app.cursor(), 255);
    app.goto_address("10h");
    assert_eq!(app.cursor(), 16);
    app.goto_address("ff");
    assert_eq!(app.cursor(), 255);
    app.goto_address("  12  ");
    assert_eq!(app.cursor(), 12);
    app.goto_address("bogus");
    assert_eq!(app.status(), Some(StatusMsg::InvalidAddress));
    app.goto_address("");
    assert_eq!(app.status(), Some(StatusMsg::NoAddress));
}

#[test]
fn incremental_search_and_wraparound() {
    let mut app = App::new();
    app.load_bytes(b"one two one".to_vec());
    app.execute(Action::StartSearch);
    app.handle_search_key(ModeKey::Chr('t'));
    app.handle_search_key(ModeKey::Chr('w'));
    assert_eq!(app.cursor(), 4);
    app.handle_search_key(ModeKey::Enter);
    app.execute(Action::StartSearch);
    app.handle_search_key(ModeKey::Chr('o'));
    app.handle_search_key(ModeKey::Chr('n'));
    app.handle_search_key(ModeKey::Chr('e'));
    app.handle_search_key(ModeKey::Enter);
    assert_eq!(app.cursor(), 8);
    app.execute(Action::SearchNext);
    assert_eq!(app.cursor(), 0);
    assert_eq!(app.status(), Some(StatusMsg::WrappedFoundAt(0)));
    app.execute(Action::SearchNext);
    assert_eq!(app.cursor(), 8);
    assert_eq!(app.status(), Some(StatusMsg::FoundAt(8)));
}

#[test]
fn hex_queries_search_for_bytes() {
    let mut app = App::new();
    app.load_bytes(vec![0x00, 0xDE, 0xAD, 0x00]);
    app.execute(Action::StartSearch);
    app.handle_search_key(ModeKey::Chr('d'));
    app.handle_search_key(ModeKey::Chr('e'));
    app.handle_search_key(ModeKey::Chr('a'));
    app.handle_search_key(ModeKey::Chr('d'));
    assert_eq!(app.cursor(), 1);
}

#[test]
fn selection_copy_cut_and_fill() {
    let mut app = App::new();
    app.load_bytes(b"abcdef".to_vec());
    app.execute(Action::StartSelection);
    app.execute(Action::SelectRight);
    app.execute(Action::SelectRight);
    let effect = app.execute(Action::Cut);
    assert!(effect.is_some());
    assert_eq!(app.document().data(), b"def");
    assert_eq!(app.cursor(), 0);
    assert_eq!(app.status(), Some(StatusMsg::CutBytes(3)));
}

#[test]
fn fill_command_writes_the_selection() {
    let mut app = App::new();
    app.load_bytes(b"abcdef".to_vec());
    app.execute(Action::StartSelection);
    app.execute(Action::SelectRight);
    app.execute(Action::SelectRight);
    app.cmd_fill("0x2a");
    assert_eq!(app.document().data(), b"***def");
    assert_eq!(app.status(), Some(StatusMsg::Filled(3, 0x2A)));
    app.cmd_fill("zz");
    assert_eq!(app.status(), Some(StatusMsg::InvalidByteValue));
}

#[test]
fn insert_command_inserts_repeated_bytes() {
    let mut app = App::new();
    app.load_bytes(b"xy".to_vec());
    app.cmd_insert("3 0xEE");
    assert_eq!(app.document().data(), b"\xEE\xEE\xEExy");
    app.cmd_insert("2");
    assert_eq!(app.document().data(), b"\x00\x00\xEE\xEE\xEExy");
    app.cmd_insert("0");
    assert_eq!(app.status(), Some(StatusMsg::CountMustBePositive));
    app.cmd_insert("1 2 3");
    assert_eq!(app.status(), Some(StatusMsg::InsertUsage));
}

#[test]
fn paste_interprets_hex_or_literal_text() {
    let mut app = App::new();
    app.paste_from_terminal("DE AD");
    assert_eq!(app.document().data(), b"\xDE\xAD");
    let mut app2 = App::new();
    app2.paste_from_terminal("abc");
    assert_eq!(app2.document().data(), b"abc");
    assert_eq!(app2.status(), Some(StatusMsg::Pasted(3)));
}

#[test]
fn undo_and_redo_through_the_controller() {
    let mut app = App::new();
    app.execute(Action::InputHex('4'));
    app.execute(Action::InputHex('1'));
    app.execute(Action::Undo);
    app.execute(Action::Undo);
    assert_eq!(app.document().data(), b"");
    assert_eq!(app.status(), Some(StatusMsg::Undone));
    app.execute(Action::Redo);
    assert_eq!(app.document().data(), b"\x40");
    app.execute(Action::Redo);
    assert_eq!(app.document().data(), b"\x41");
    app.execute(Action::Undo);
    app.execute(Action::Undo);
    app.execute(Action::Undo);
    assert_eq!(app.status(), Some(StatusMsg::NothingToUndo));
}

#[test]
fn quit_asks_for_confirmation_when_modified() {
    let mut app = App::new();
    app.execute(Action::Quit);
    assert!(app.should_quit());
    let mut app2 = App::new();
    app2.execute(Action::InputAscii('x'));
    app2.execute(Action::Quit);
    assert!(!app2.should_quit());
    app2.handle_confirm_key(ModeKey::Chr('n'));
    assert!(app2.should_quit());
}

#[test]
fn fullwidth_confirmation_keys_are_normalized() {
    let mut app = App::new();
    app.load_bytes(b"zz".to_vec());
    app.execute(Action::InputAscii('x'));
    app.execute(Action::KillBuffer);
    // A full-width `n` answers "do not save" like its half-width form.
    app.handle_confirm_key(ModeKey::Chr('\u{FF4E}'));
    assert_eq!(app.document().data(), b"");
    assert_eq!(app.status(), Some(StatusMsg::BufferKilled));
}

#[test]
fn command_dispatch_and_unknown_commands() {
    let mut app = App::new();
    app.execute(Action::ExecuteCommand);
    app.handle_prompt_key(ModeKey::Chr('h'));
    app.handle_prompt_key(ModeKey::Enter);
    assert_eq!(app.status(), Some(StatusMsg::HelpText));
    app.execute(Action::ExecuteCommand);
    app.handle_prompt_key(ModeKey::Chr('w'));
    app.handle_prompt_key(ModeKey::Chr('a'));
    app.handle_prompt_key(ModeKey::Enter);
    assert_eq!(app.status(), Some(StatusMsg::UnknownCommand));
}

#[test]
fn goto_prompt_runs_through_keys() {
    let mut app = App::new();
    app.load_bytes(vec![0u8; 16]);
    app.execute(Action::StartGoto);
    app.handle_prompt_key(ModeKey::Chr('0'));
    app.handle_prompt_key(ModeKey::Chr('x'));
    app.handle_prompt_key(ModeKey::Chr('1'));
    app.handle_prompt_key(ModeKey::Chr('0'));
    app.handle_prompt_key(ModeKey::Enter);
    assert_eq!(app.cursor(), 16);
}

#[test]
fn filename_is_the_path_basename() {
    let mut d = Document::new();
    assert_eq!(d.filename(), None);
    d.save_as(String::from("dir/sub/file.bin"));
    assert_eq!(d.filename(), Some("file.bin"));
    assert!(!d.is_modified());
}

#[test]
fn encoding_round_trip_of_encoder_and_decoder() {
    for c in ['A', '\u{00E9}', '\u{3042}', '\u{1F600}'] {
        let bytes = encode_char_utf8(c);
        let (d, l) = decode_utf8_char_at(&bytes, 0).unwrap();
        assert_eq!(d, c);
        assert_eq!(l, bytes.len());
    }
    assert_eq!(encode_char('\u{3042}', CharEncoding::Ascii), None);
    assert_eq!(encode_char('a', CharEncoding::Ascii), Some(vec![b'a']));
    assert_eq!(decode_utf8_char_at(&[0xC0, 0x80], 0), None);
    assert_eq!(decode_utf8_char_at(&[0xED, 0xA0, 0x80], 0), None);
}

#[test]
fn hex_text_formatting() {
    let t: String = hex_spaced_chars(&[0xDE, 0xAD, 0x01]).into_iter().collect();
    assert_eq!(t, "DE AD 01");
    let mut v = Vec::new();
    push_hex_pad(&mut v, 0x1A2B, 8);
    let s: String = v.into_iter().collect();
    assert_eq!(s, "00001A2B");
    let mut w = Vec::new();
    push_dec_pad(&mut w, 42, 4);
    let s2: String = w.into_iter().collect();
    assert_eq!(s2, "0042");
}
