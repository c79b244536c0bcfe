//! Keyboard handling for text fields: which editing command a key press
//! means, and how typed or pasted text is cleaned before insertion.

use vstd::prelude::*;

use crate::chars;
use crate::text_edit::{self, EditState, InputFilter, TextEdit};

verus! {

/// Modifier keys held during a key press.
#[derive(Clone, Copy, Debug, PartialEq, Eq, Structural)]
pub struct Modifiers {
    /// The platform's command modifier (Ctrl on Windows).
    pub secondary: bool,
    pub shift: bool,
    pub platform: bool,
    pub function: bool,
    pub alt: bool,
}

/// The editing command a key press asks for.
#[derive(Clone, Copy, Debug, PartialEq, Eq, Structural)]
pub enum KeyCommand {
    SelectAll,
    /// Copy the selection to the clipboard.
    Copy,
    /// Copy the selection, then delete it.
    Cut,
    /// Insert the clipboard text.
    Paste,
    DeleteBackward { by_word: bool },
    DeleteForward { by_word: bool },
    MoveLeft { selecting: bool, by_word: bool },
    MoveRight { selecting: bool, by_word: bool },
    Home { selecting: bool },
    End { selecting: bool },
    /// Insert a single space.
    InsertSpace,
    /// Insert the key's text, if it has one without control characters.
    InsertKeyText,
    /// The key is not for the field.
    Ignore,
}

pub open spec fn key_command_spec(key: Seq<char>, m: Modifiers, has_key_char: bool) -> KeyCommand {
    if key == "a"@ && m.secondary {
        KeyCommand::SelectAll
    } else if key == "c"@ && m.secondary {
        KeyCommand::Copy
    } else if key == "x"@ && m.secondary {
        KeyCommand::Cut
    } else if key == "v"@ && m.secondary {
        KeyCommand::Paste
    } else if key == "backspace"@ {
        KeyCommand::DeleteBackward { by_word: m.secondary }
    } else if key == "delete"@ {
        KeyCommand::DeleteForward { by_word: m.secondary }
    } else if key == "left"@ {
        KeyCommand::MoveLeft { selecting: m.shift, by_word: m.secondary }
    } else if key == "right"@ {
        KeyCommand::MoveRight { selecting: m.shift, by_word: m.secondary }
    } else if key == "home"@ {
        KeyCommand::Home { selecting: m.shift }
    } else if key == "end"@ {
        KeyCommand::End { selecting: m.shift }
    } else if m.secondary || m.platform || m.function {
        KeyCommand::Ignore
    } else if m.alt && !has_key_char {
        KeyCommand::Ignore
    } else if key == "space"@ {
        KeyCommand::InsertSpace
    } else {
        KeyCommand::InsertKeyText
    }
}

fn is_key(key: &Vec<char>, name: &str) -> (b: bool)
    ensures
        b == (key@ == name@),
{
    let n = chars::chars_of(name);
    chars::same_chars(key, &n)
}

/// Maps a key name and its modifiers to a field command; `has_key_char`
/// tells whether the press produced text.
pub fn key_command(key: &str, m: Modifiers, has_key_char: bool) -> (r: KeyCommand)
    ensures
        r == key_command_spec(key@, m, has_key_char),
{
    let k = chars::chars_of(key);
    if is_key(&k, "a") && m.secondary {
        KeyCommand::SelectAll
    } else if is_key(&k, "c") && m.secondary {
        KeyCommand::Copy
    } else if is_key(&k, "x") && m.secondary {
        KeyCommand::Cut
    } else if is_key(&k, "v") && m.secondary {
        KeyCommand::Paste
    } else if is_key(&k, "backspace") {
        KeyCommand::DeleteBackward { by_word: m.secondary }
    } else if is_key(&k, "delete") {
        KeyCommand::DeleteForward { by_word: m.secondary }
    } else if is_key(&k, "left") {
        KeyCommand::MoveLeft { selecting: m.shift, by_word: m.secondary }
    } else if is_key(&k, "right") {
        KeyCommand::MoveRight { selecting: m.shift, by_word: m.secondary }
    } else if is_key(&k, "home") {
        KeyCommand::Home { selecting: m.shift }
    } else if is_key(&k, "end") {
        KeyCommand::End { selecting: m.shift }
    } else if m.secondary || m.platform || m.function {
        KeyCommand::Ignore
    } else if m.alt && !has_key_char {
        KeyCommand::Ignore
    } else if is_key(&k, "space") {
        KeyCommand::InsertSpace
    } else {
        KeyCommand::InsertKeyText
    }
}

pub open spec fn has_control(s: Seq<char>) -> bool {
    exists|i: int| 0 <= i < s.len() && chars::is_control(#[trigger] s[i])
}

/// Whether a key's text may be typed: it holds no control character.
pub fn key_text_typeable(text: &str) -> (b: bool)
    ensures
        b == !has_control(text@),
{
    let v = chars::chars_of(text);
    let mut i: usize = 0;
    while i < v.len()
        invariant
            i <= v@.len(),
            v@ == text@,
            forall|k: int| 0 <= k < i ==> !chars::is_control(#[trigger] v@[k]),
        decreases v@.len() - i,
    {
        if chars::is_control_char(v[i]) {
            return false;
        }
        i += 1;
    }
    true
}

/// Pasted text with every carriage return and line feed turned into a
/// space, so it stays on one line.
pub open spec fn single_line_spec(s: Seq<char>) -> Seq<char> {
    Seq::new(s.len(), |i: int| if s[i] == '\r' || s[i] == '\n' { ' ' } else { s[i] })
}

pub fn single_line(text: &str) -> (r: String)
    ensures
        r@ == single_line_spec(text@),
{
    let v = chars::chars_of(text);
    let mut out: Vec<char> = Vec::new();
    let mut i: usize = 0;
    while i < v.len()
        invariant
            i <= v@.len(),
            v@ == text@,
            out@ =~= single_line_spec(v@.take(i as int)),
        decreases v@.len() - i,
    {
        let c = v[i];
        out.push(if c == '\r' || c == '\n' { ' ' } else { c });
        i += 1;
    }
    assert(v@.take(i as int) =~= v@);
    chars::string_from_chars(out.as_slice())
}


pub open spec fn str_view(o: Option<&str>) -> Option<Seq<char>> {
    match o {
        Some(t) => Some(t@),
        None => None,
    }
}

pub open spec fn string_view(o: Option<String>) -> Option<Seq<char>> {
    match o {
        Some(t) => Some(t@),
        None => None,
    }
}

/// Typing or pasting `input`: the state, whether anything got in, and no
/// clipboard text.
pub open spec fn insert_effect(s: EditState, input: Seq<char>, max_chars: nat, filter: InputFilter) -> (
    EditState,
    bool,
    Option<Seq<char>>,
) {
    if text_edit::inserted(s, input, max_chars, filter).len() > 0 {
        (text_edit::after_insert(s, input, max_chars, filter), true, None)
    } else {
        (s, false, None)
    }
}

pub open spec fn selection_of(s: EditState) -> Option<Seq<char>> {
    if text_edit::has_selection_spec(s) {
        Some(s.text.subrange(text_edit::range_of(s).0 as int, text_edit::range_of(s).1 as int))
    } else {
        None
    }
}

/// What a field command does: the new state, whether the key was handled
/// as a change, and the text to put on the clipboard. `clipboard` is the
/// clipboard's text for a paste, `key_text` the text the key produced.
pub open spec fn key_effect(
    s: EditState,
    command: KeyCommand,
    clipboard: Option<Seq<char>>,
    key_text: Option<Seq<char>>,
    max_chars: nat,
    filter: InputFilter,
) -> (EditState, bool, Option<Seq<char>>) {
    match command {
        KeyCommand::SelectAll => if s.text.len() > 0 {
            (EditState { text: s.text, cursor: s.text.len(), anchor: Some(0) }, true, None)
        } else {
            (s, false, None)
        },
        KeyCommand::Copy => (s, true, selection_of(s)),
        KeyCommand::Cut => if text_edit::has_selection_spec(s) {
            (text_edit::after_delete_forward(s, false).0, true, selection_of(s))
        } else {
            (s, true, None)
        },
        KeyCommand::Paste => match clipboard {
            Some(c) => insert_effect(s, single_line_spec(c), max_chars, filter),
            None => (s, false, None),
        },
        KeyCommand::DeleteBackward { by_word } => {
            let (t, changed) = text_edit::after_delete_backward(s, by_word);
            (t, changed, None)
        },
        KeyCommand::DeleteForward { by_word } => {
            let (t, changed) = text_edit::after_delete_forward(s, by_word);
            (t, changed, None)
        },
        KeyCommand::MoveLeft { selecting, by_word } => {
            let (target, sel) = text_edit::move_left_target(s, selecting, by_word);
            (text_edit::moved(s, target, sel), text_edit::move_changes(s, target, sel), None)
        },
        KeyCommand::MoveRight { selecting, by_word } => {
            let (target, sel) = text_edit::move_right_target(s, selecting, by_word);
            (text_edit::moved(s, target, sel), text_edit::move_changes(s, target, sel), None)
        },
        KeyCommand::Home { selecting } => (
            text_edit::moved(s, 0, selecting),
            text_edit::move_changes(s, 0, selecting),
            None,
        ),
        KeyCommand::End { selecting } => (
            text_edit::moved(s, s.text.len(), selecting),
            text_edit::move_changes(s, s.text.len(), selecting),
            None,
        ),
        KeyCommand::InsertSpace => insert_effect(s, " "@, max_chars, filter),
        KeyCommand::InsertKeyText => match key_text {
            Some(t) => if !has_control(t) {
                insert_effect(s, t, max_chars, filter)
            } else {
                (s, false, None)
            },
            None => (s, false, None),
        },
        KeyCommand::Ignore => (s, false, None),
    }
}

fn insert_key(edit: &mut TextEdit, input: &str, max_chars: usize, filter: InputFilter) -> (r: (
    bool,
    Option<String>,
))
    requires
        old(edit).wf(),
    ensures
        final(edit).wf(),
        final(edit)@ == insert_effect(old(edit)@, input@, max_chars as nat, filter).0,
        r.0 == insert_effect(old(edit)@, input@, max_chars as nat, filter).1,
        r.1 is None,
{
    (edit.insert_filtered(input, max_chars, filter), None)
}

fn clipboard_key(edit: &mut TextEdit, cut: bool) -> (r: (bool, Option<String>))
    requires
        old(edit).wf(),
    ensures
        final(edit).wf(),
        r.0,
        string_view(r.1) == selection_of(old(edit)@),
        final(edit)@ == if cut && text_edit::has_selection_spec(old(edit)@) {
            text_edit::after_delete_forward(old(edit)@, false).0
        } else {
            old(edit)@
        },
{
    let text = edit.selected_text();
    if cut && text.is_some() {
        edit.delete_forward(false);
    }
    (true, text)
}

fn selection_key(
    edit: &mut TextEdit,
    command: KeyCommand,
    clipboard: Option<&str>,
    key_text: Option<&str>,
    max_chars: usize,
    filter: InputFilter,
) -> (r: (bool, Option<String>))
    requires
        old(edit).wf(),
        command is SelectAll || command is Copy || command is Cut,
    ensures
        final(edit).wf(),
        ({
            let (t, changed, copy) = key_effect(
                old(edit)@,
                command,
                str_view(clipboard),
                str_view(key_text),
                max_chars as nat,
                filter,
            );
            &&& final(edit)@ == t
            &&& r.0 == changed
            &&& string_view(r.1) == copy
        }),
{
    match command {
        KeyCommand::SelectAll => (edit.select_all(), None),
        KeyCommand::Copy => clipboard_key(edit, false),
        _ => clipboard_key(edit, true),
    }
}

fn typing_key(
    edit: &mut TextEdit,
    command: KeyCommand,
    clipboard: Option<&str>,
    key_text: Option<&str>,
    max_chars: usize,
    filter: InputFilter,
) -> (r: (bool, Option<String>))
    requires
        old(edit).wf(),
        command is Paste || command is InsertSpace || command is InsertKeyText || command is Ignore,
    ensures
        final(edit).wf(),
        ({
            let (t, changed, copy) = key_effect(
                old(edit)@,
                command,
                str_view(clipboard),
                str_view(key_text),
                max_chars as nat,
                filter,
            );
            &&& final(edit)@ == t
            &&& r.0 == changed
            &&& string_view(r.1) == copy
        }),
{
    match command {
        KeyCommand::Paste => match clipboard {
            Some(c) => {
                let line = single_line(c);
                insert_key(edit, line.as_str(), max_chars, filter)
            },
            None => (false, None),
        },
        KeyCommand::InsertSpace => insert_key(edit, " ", max_chars, filter),
        KeyCommand::InsertKeyText => match key_text {
            Some(t) => {
                if key_text_typeable(t) {
                    insert_key(edit, t, max_chars, filter)
                } else {
                    (false, None)
                }
            },
            None => (false, None),
        },
        _ => (false, None),
    }
}

fn motion_key(
    edit: &mut TextEdit,
    command: KeyCommand,
    clipboard: Option<&str>,
    key_text: Option<&str>,
    max_chars: usize,
    filter: InputFilter,
) -> (r: (bool, Option<String>))
    requires
        old(edit).wf(),
        command is MoveLeft || command is MoveRight || command is Home || command is End,
    ensures
        final(edit).wf(),
        ({
            let (t, changed, copy) = key_effect(
                old(edit)@,
                command,
                str_view(clipboard),
                str_view(key_text),
                max_chars as nat,
                filter,
            );
            &&& final(edit)@ == t
            &&& r.0 == changed
            &&& string_view(r.1) == copy
        }),
{
    match command {
        KeyCommand::MoveLeft { selecting, by_word } => (edit.move_left(selecting, by_word), None),
        KeyCommand::MoveRight { selecting, by_word } => (edit.move_right(selecting, by_word), None),
        KeyCommand::Home { selecting } => (edit.move_home(selecting), None),
        _ => {
            let selecting = match command {
                KeyCommand::End { selecting } => selecting,
                _ => false,
            };
            (edit.move_end(selecting), None)
        },
    }
}

fn delete_key(
    edit: &mut TextEdit,
    command: KeyCommand,
    clipboard: Option<&str>,
    key_text: Option<&str>,
    max_chars: usize,
    filter: InputFilter,
) -> (r: (bool, Option<String>))
    requires
        old(edit).wf(),
        command is DeleteBackward || command is DeleteForward,
    ensures
        final(edit).wf(),
        ({
            let (t, changed, copy) = key_effect(
                old(edit)@,
                command,
                str_view(clipboard),
                str_view(key_text),
                max_chars as nat,
                filter,
            );
            &&& final(edit)@ == t
            &&& r.0 == changed
            &&& string_view(r.1) == copy
        }),
{
    match command {
        KeyCommand::DeleteBackward { by_word } => (edit.delete_backward(by_word), None),
        _ => {
            let by_word = match command {
                KeyCommand::DeleteForward { by_word } => by_word,
                _ => false,
            };
            (edit.delete_forward(by_word), None)
        },
    }
}

/// Carries out a field command on an editor. Returns whether the key was
/// handled as a change, and the text to put on the clipboard (for copy
/// and cut), which the caller writes.
pub fn apply_key(
    edit: &mut TextEdit,
    command: KeyCommand,
    clipboard: Option<&str>,
    key_text: Option<&str>,
    max_chars: usize,
    filter: InputFilter,
) -> (r: (bool, Option<String>))
    requires
        old(edit).wf(),
    ensures
        final(edit).wf(),
        ({
            let (t, changed, copy) = key_effect(
                old(edit)@,
                command,
                str_view(clipboard),
                str_view(key_text),
                max_chars as nat,
                filter,
            );
            &&& final(edit)@ == t
            &&& r.0 == changed
            &&& string_view(r.1) == copy
        }),
{
    match command {
        KeyCommand::SelectAll | KeyCommand::Copy | KeyCommand::Cut => selection_key(
            edit,
            command,
            clipboard,
            key_text,
            max_chars,
            filter,
        ),
        KeyCommand::DeleteBackward { .. } | KeyCommand::DeleteForward { .. } => delete_key(
            edit,
            command,
            clipboard,
            key_text,
            max_chars,
            filter,
        ),
        KeyCommand::MoveLeft { .. } | KeyCommand::MoveRight { .. } | KeyCommand::Home { .. }
        | KeyCommand::End { .. } => motion_key(edit, command, clipboard, key_text, max_chars, filter),
        _ => typing_key(edit, command, clipboard, key_text, max_chars, filter),
    }
}


/// The arrow, Backspace and Delete keys act by word exactly when the
/// platform's command modifier (Ctrl) is held, and the arrows, Home and
/// End select exactly when Shift is held; nothing else about the press matters.
pub proof fn law_word_motion_follows_ctrl(m: Modifiers, has_key_char: bool)
    ensures
        key_command_spec("left"@, m, has_key_char) == (KeyCommand::MoveLeft { selecting: m.shift, by_word: m.secondary }),
        key_command_spec("right"@, m, has_key_char) == (KeyCommand::MoveRight { selecting: m.shift, by_word: m.secondary }),
        key_command_spec("backspace"@, m, has_key_char) == (KeyCommand::DeleteBackward { by_word: m.secondary }),
        key_command_spec("delete"@, m, has_key_char) == (KeyCommand::DeleteForward { by_word: m.secondary }),
        key_command_spec("home"@, m, has_key_char) == (KeyCommand::Home { selecting: m.shift }),
        key_command_spec("end"@, m, has_key_char) == (KeyCommand::End { selecting: m.shift }),
{
    reveal_strlit("a");
    reveal_strlit("c");
    reveal_strlit("x");
    reveal_strlit("v");
    reveal_strlit("backspace");
    reveal_strlit("delete");
    reveal_strlit("left");
    reveal_strlit("right");
    assert("left"@.len() != "a"@.len());
    assert("right"@.len() != "a"@.len());
    assert("delete"@.len() != "a"@.len());
    assert("backspace"@.len() != "a"@.len());
    assert("left"@ != "backspace"@ && "left"@ != "delete"@);
    assert("right"@ != "backspace"@ && "right"@ != "delete"@ && "right"@ != "left"@);
    assert("delete"@ != "backspace"@);
    reveal_strlit("home");
    reveal_strlit("end");
    assert("home"@.len() != "a"@.len() && "end"@.len() != "a"@.len());
    assert("home"@[0] != "left"@[0]);
    assert("home"@ != "left"@ && "home"@ != "right"@ && "home"@ != "delete"@ && "home"@ != "backspace"@);
    assert("end"@ != "left"@ && "end"@ != "right"@ && "end"@ != "delete"@ && "end"@ != "backspace"@);
    assert("end"@ != "home"@);
}

} // verus!
