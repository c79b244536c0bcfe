use zugluft::keys::{apply_key, key_command, key_text_typeable, single_line, KeyCommand, Modifiers};
use zugluft::text_edit::{is_allowed, InputFilter, TextEdit};

fn plain() -> Modifiers {
    Modifiers { secondary: false, shift: false, platform: false, function: false, alt: false }
}

fn ctrl() -> Modifiers {
    Modifiers { secondary: true, ..plain() }
}

fn shift() -> Modifiers {
    Modifiers { shift: true, ..plain() }
}

#[test]
fn new_editor_puts_cursor_at_end() {
    let e = TextEdit::new("fan 1".to_string());
    assert_eq!(e.text(), "fan 1");
    assert_eq!(e.cursor(), 5);
    assert!(!e.has_selection());
    assert_eq!(e.selected_range(), (5, 5));
    assert_eq!(e.selected_text(), None);
}

#[test]
fn cursor_counts_characters_not_bytes() {
    let e = TextEdit::new("°C".to_string());
    assert_eq!(e.cursor(), 2);
    assert_eq!(e.chars().len(), 2);
}

#[test]
fn select_all_and_clear() {
    let mut e = TextEdit::new("abc".to_string());
    assert!(e.select_all());
    assert_eq!(e.selected_range(), (0, 3));
    assert_eq!(e.selected_text(), Some("abc".to_string()));
    assert!(e.clear());
    assert!(e.is_empty());
    assert_eq!(e.cursor(), 0);
    assert!(!e.clear());
    assert!(!e.select_all());
}

#[test]
fn typing_replaces_the_selection() {
    let mut e = TextEdit::new("hello".to_string());
    e.select_all();
    assert!(e.insert_filtered("yo", 32, InputFilter::Text));
    assert_eq!(e.text(), "yo");
    assert_eq!(e.cursor(), 2);
    assert!(!e.has_selection());
}

#[test]
fn insert_respects_the_character_limit() {
    let mut e = TextEdit::new("abcd".to_string());
    assert!(e.insert_filtered("efgh", 6, InputFilter::Text));
    assert_eq!(e.text(), "abcdef");
    assert!(!e.insert_filtered("x", 6, InputFilter::Text));
    assert_eq!(e.text(), "abcdef");
}

#[test]
fn number_filter_drops_letters() {
    let mut e = TextEdit::new(String::new());
    assert!(e.insert_filtered("-1a2.5b", 16, InputFilter::Number));
    assert_eq!(e.text(), "-12.5");
    assert!(!e.insert_filtered("abc", 16, InputFilter::Number));
    assert!(is_allowed(InputFilter::Number, '7'));
    assert!(!is_allowed(InputFilter::Number, 'x'));
    assert!(is_allowed(InputFilter::Text, 'x'));
    assert!(!is_allowed(InputFilter::Text, '\n'));
}

#[test]
fn backspace_undoes_typing_a_character() {
    let mut e = TextEdit::new("ab".to_string());
    e.move_left(false, false);
    let before = e.text();
    let cursor = e.cursor();
    assert!(e.insert_filtered("x", 32, InputFilter::Text));
    assert_eq!(e.text(), "axb");
    assert!(e.delete_backward(false));
    assert_eq!(e.text(), before);
    assert_eq!(e.cursor(), cursor);
}

#[test]
fn left_and_right_move_by_character() {
    let mut e = TextEdit::new("abc".to_string());
    assert!(e.move_left(false, false));
    assert_eq!(e.cursor(), 2);
    assert!(e.move_right(false, false));
    assert_eq!(e.cursor(), 3);
    assert!(!e.move_right(false, false));
    e.move_home(false);
    assert!(!e.move_left(false, false));
    assert_eq!(e.cursor(), 0);
}

#[test]
fn shift_arrows_select_and_plain_arrows_collapse() {
    let mut e = TextEdit::new("abcd".to_string());
    e.move_left(true, false);
    e.move_left(true, false);
    assert_eq!(e.selected_range(), (2, 4));
    assert_eq!(e.selected_text(), Some("cd".to_string()));
    assert!(e.move_left(false, false));
    assert_eq!(e.cursor(), 2);
    assert!(!e.has_selection());
}

#[test]
fn home_then_shift_end_selects_everything() {
    let mut e = TextEdit::new("cpu temp".to_string());
    e.move_home(false);
    assert!(e.move_end(true));
    assert_eq!(e.selected_range(), (0, 8));
    assert_eq!(e.selected_text(), Some("cpu temp".to_string()));
}

#[test]
fn word_motion_skips_whitespace_then_the_word() {
    let mut e = TextEdit::new("one two  three".to_string());
    assert!(e.move_left(false, true));
    assert_eq!(e.cursor(), 9);
    assert!(e.move_left(false, true));
    assert_eq!(e.cursor(), 4);
    assert!(e.move_right(false, true));
    assert_eq!(e.cursor(), 7);
    e.move_home(false);
    assert!(e.move_right(false, true));
    assert_eq!(e.cursor(), 3);
}

#[test]
fn ctrl_backspace_deletes_a_word() {
    let mut e = TextEdit::new("gpu hot spot".to_string());
    assert!(e.delete_backward(true));
    assert_eq!(e.text(), "gpu hot ");
    assert!(e.delete_backward(true));
    assert_eq!(e.text(), "gpu ");
}

#[test]
fn delete_forward_at_end_does_nothing() {
    let mut e = TextEdit::new("ab".to_string());
    assert!(!e.delete_forward(false));
    e.move_home(false);
    assert!(e.delete_forward(false));
    assert_eq!(e.text(), "b");
    assert!(e.delete_forward(true));
    assert_eq!(e.text(), "");
    assert!(!e.delete_backward(false));
}

#[test]
fn delete_removes_the_selection_first() {
    let mut e = TextEdit::new("abcdef".to_string());
    e.move_left(true, false);
    e.move_left(true, false);
    assert!(e.delete_forward(false));
    assert_eq!(e.text(), "abcd");
    assert_eq!(e.cursor(), 4);
}

#[test]
fn slice_reads_a_character_range() {
    let e = TextEdit::new("a°bc".to_string());
    assert_eq!(e.slice(1, 3), "°b");
    assert_eq!(e.slice(2, 2), "");
}

#[test]
fn keys_map_to_field_commands() {
    assert_eq!(key_command("a", ctrl(), true), KeyCommand::SelectAll);
    assert_eq!(key_command("c", ctrl(), true), KeyCommand::Copy);
    assert_eq!(key_command("x", ctrl(), true), KeyCommand::Cut);
    assert_eq!(key_command("v", ctrl(), true), KeyCommand::Paste);
    assert_eq!(key_command("backspace", ctrl(), false), KeyCommand::DeleteBackward { by_word: true });
    assert_eq!(key_command("delete", plain(), false), KeyCommand::DeleteForward { by_word: false });
    assert_eq!(
        key_command("left", shift(), false),
        KeyCommand::MoveLeft { selecting: true, by_word: false }
    );
    assert_eq!(
        key_command("right", ctrl(), false),
        KeyCommand::MoveRight { selecting: false, by_word: true }
    );
    assert_eq!(key_command("home", shift(), false), KeyCommand::Home { selecting: true });
    assert_eq!(key_command("end", plain(), false), KeyCommand::End { selecting: false });
    assert_eq!(key_command("space", plain(), true), KeyCommand::InsertSpace);
    assert_eq!(key_command("q", plain(), true), KeyCommand::InsertKeyText);
    assert_eq!(key_command("q", ctrl(), true), KeyCommand::Ignore);
    let alt = Modifiers { alt: true, ..plain() };
    assert_eq!(key_command("q", alt, false), KeyCommand::Ignore);
    assert_eq!(key_command("q", alt, true), KeyCommand::InsertKeyText);
}

#[test]
fn pasted_text_stays_on_one_line() {
    assert_eq!(single_line("a\r\nb\nc"), "a  b c");
    assert_eq!(single_line("plain"), "plain");
    assert!(key_text_typeable("ä"));
    assert!(!key_text_typeable("\u{7f}"));
    assert!(!key_text_typeable("a\tb"));
}

#[test]
fn copy_cut_and_paste_through_the_clipboard() {
    let mut e = TextEdit::new("fan one".to_string());
    assert_eq!(apply_key(&mut e, KeyCommand::Copy, None, None, 40, InputFilter::Text), (true, None));
    e.move_left(true, true);
    assert_eq!(
        apply_key(&mut e, KeyCommand::Copy, None, None, 40, InputFilter::Text),
        (true, Some("one".to_string()))
    );
    assert_eq!(e.text(), "fan one");
    assert_eq!(
        apply_key(&mut e, KeyCommand::Cut, None, None, 40, InputFilter::Text),
        (true, Some("one".to_string()))
    );
    assert_eq!(e.text(), "fan ");
    let pasted = apply_key(&mut e, KeyCommand::Paste, Some("two\r\nthree"), None, 40, InputFilter::Text);
    assert_eq!(pasted, (true, None));
    assert_eq!(e.text(), "fan two  three");
    assert_eq!(apply_key(&mut e, KeyCommand::Paste, None, None, 40, InputFilter::Text), (false, None));
}

#[test]
fn typed_keys_insert_their_text() {
    let mut e = TextEdit::new(String::new());
    let typed = |e: &mut TextEdit, command, text| apply_key(e, command, None, text, 4, InputFilter::Number).0;
    assert!(typed(&mut e, KeyCommand::InsertKeyText, Some("4")));
    assert!(!typed(&mut e, KeyCommand::InsertKeyText, Some("x")));
    assert!(!typed(&mut e, KeyCommand::InsertKeyText, Some("\u{8}")));
    assert!(!typed(&mut e, KeyCommand::InsertKeyText, None));
    assert!(!typed(&mut e, KeyCommand::InsertSpace, None));
    assert!(typed(&mut e, KeyCommand::InsertKeyText, Some("2.5")));
    assert_eq!(e.text(), "42.5");
    assert!(!typed(&mut e, KeyCommand::InsertKeyText, Some("1")));
    assert!(typed(&mut e, KeyCommand::DeleteBackward { by_word: false }, None));
    assert!(typed(&mut e, KeyCommand::Home { selecting: false }, None));
    assert!(typed(&mut e, KeyCommand::End { selecting: true }, None));
    assert!(typed(&mut e, KeyCommand::SelectAll, None));
    assert!(!typed(&mut e, KeyCommand::Ignore, None));
    assert_eq!(e.text(), "42.");
}

#[test]
fn select_all_then_delete_empties_the_field() {
    for by_word in [false, true] {
        let mut e = TextEdit::new("two words".to_string());
        e.select_all();
        assert!(e.delete_backward(by_word));
        assert!(e.is_empty());
        let mut e = TextEdit::new("two words".to_string());
        e.select_all();
        assert!(e.delete_forward(by_word));
        assert!(e.is_empty());
    }
}

#[test]
fn left_then_right_comes_back() {
    let mut e = TextEdit::new("abc".to_string());
    e.move_left(false, false);
    let cursor = e.cursor();
    e.move_left(false, false);
    e.move_right(false, false);
    assert_eq!(e.cursor(), cursor);
    assert_eq!(e.text(), "abc");
}
