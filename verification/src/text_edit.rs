//! A small single-line text editor state: the text, a cursor, and an
//! optional selection anchor. Positions count characters, not UTF-8 bytes
//! (`TextEdit::cursor_byte` and `TextEdit::selected_byte_range` give byte
//! offsets). Every editing
//! command reports whether it changed anything.

use vstd::prelude::*;

use crate::chars;

verus! {

/// Which characters a field accepts when text is typed or pasted.
#[derive(Clone, Copy, PartialEq, Eq, Debug)]
pub enum InputFilter {
    /// Digits, `.` and `-`: numeric tuning fields.
    Number,
    /// Anything but control characters: names and search.
    Text,
}

pub open spec fn allowed(filter: InputFilter, c: char) -> bool {
    match filter {
        InputFilter::Number => chars::is_ascii_digit(c) || c == '.' || c == '-',
        InputFilter::Text => !chars::is_control(c),
    }
}

pub fn is_allowed(filter: InputFilter, c: char) -> (b: bool)
    ensures
        b == allowed(filter, c),
{
    match filter {
        InputFilter::Number => chars::is_ascii_digit_char(c) || c == '.' || c == '-',
        InputFilter::Text => !chars::is_control_char(c),
    }
}

/// The characters of `s` that `filter` accepts, in order.
pub open spec fn keep(s: Seq<char>, filter: InputFilter) -> Seq<char>
    decreases s.len(),
{
    if s.len() == 0 {
        Seq::empty()
    } else if allowed(filter, s.last()) {
        keep(s.drop_last(), filter).push(s.last())
    } else {
        keep(s.drop_last(), filter)
    }
}

/// The abstract state of a [`TextEdit`].
pub struct EditState {
    pub text: Seq<char>,
    pub cursor: nat,
    pub anchor: Option<nat>,
}

pub open spec fn state_wf(s: EditState) -> bool {
    &&& s.cursor <= s.text.len()
    &&& s.anchor matches Some(a) ==> a <= s.text.len()
}

/// The selected span `(start, end)`; empty (`start == end`) when nothing
/// is selected.
pub open spec fn range_of(s: EditState) -> (nat, nat) {
    match s.anchor {
        Some(a) => if a < s.cursor {
            (a, s.cursor)
        } else if a > s.cursor {
            (s.cursor, a)
        } else {
            (s.cursor, s.cursor)
        },
        None => (s.cursor, s.cursor),
    }
}

pub open spec fn has_selection_spec(s: EditState) -> bool {
    range_of(s).0 < range_of(s).1
}

pub open spec fn min_nat(a: nat, b: nat) -> nat {
    if a <= b {
        a
    } else {
        b
    }
}

/// Start of the whitespace run that ends at `i`.
pub open spec fn skip_ws_back(t: Seq<char>, i: int) -> int
    decreases i,
{
    if i > 0 && i <= t.len() && chars::is_whitespace(t[i - 1]) {
        skip_ws_back(t, i - 1)
    } else {
        i
    }
}

/// Start of the non-whitespace run that ends at `i`.
pub open spec fn skip_word_back(t: Seq<char>, i: int) -> int
    decreases i,
{
    if i > 0 && i <= t.len() && !chars::is_whitespace(t[i - 1]) {
        skip_word_back(t, i - 1)
    } else {
        i
    }
}

/// End of the whitespace run that starts at `i`.
pub open spec fn skip_ws_fwd(t: Seq<char>, i: int) -> int
    decreases t.len() - i,
{
    if 0 <= i < t.len() && chars::is_whitespace(t[i]) {
        skip_ws_fwd(t, i + 1)
    } else {
        i
    }
}

/// End of the non-whitespace run that starts at `i`.
pub open spec fn skip_word_fwd(t: Seq<char>, i: int) -> int
    decreases t.len() - i,
{
    if 0 <= i < t.len() && !chars::is_whitespace(t[i]) {
        skip_word_fwd(t, i + 1)
    } else {
        i
    }
}

/// Word-wise left target: back over whitespace, then over the word.
pub open spec fn prev_word(t: Seq<char>, cursor: nat) -> nat {
    skip_word_back(t, skip_ws_back(t, cursor as int)) as nat
}

/// Word-wise right target: over whitespace, then to the word's end.
pub open spec fn next_word(t: Seq<char>, cursor: nat) -> nat {
    skip_word_fwd(t, skip_ws_fwd(t, cursor as int)) as nat
}

pub open spec fn prev_char(cursor: nat) -> nat {
    if cursor == 0 {
        0
    } else {
        (cursor - 1) as nat
    }
}

pub open spec fn next_char(t: Seq<char>, cursor: nat) -> nat {
    if cursor >= t.len() {
        t.len()
    } else {
        cursor + 1
    }
}

/// Moving the cursor to `target` (clamped to the text), extending the
/// selection when `selecting`, dropping it otherwise.
pub open spec fn moved(s: EditState, target: nat, selecting: bool) -> EditState {
    EditState {
        text: s.text,
        cursor: min_nat(target, s.text.len()),
        anchor: if selecting {
            if s.anchor is None {
                Some(s.cursor)
            } else {
                s.anchor
            }
        } else {
            None
        },
    }
}

pub open spec fn move_changes(s: EditState, target: nat, selecting: bool) -> bool {
    s.cursor != min_nat(target, s.text.len()) || (s.anchor is Some) != selecting
}

pub open spec fn move_left_target(s: EditState, selecting: bool, by_word: bool) -> (nat, bool) {
    if has_selection_spec(s) && !selecting {
        (range_of(s).0, false)
    } else if by_word {
        (prev_word(s.text, s.cursor), selecting)
    } else {
        (prev_char(s.cursor), selecting)
    }
}

pub open spec fn move_right_target(s: EditState, selecting: bool, by_word: bool) -> (nat, bool) {
    if has_selection_spec(s) && !selecting {
        (range_of(s).1, false)
    } else if by_word {
        (next_word(s.text, s.cursor), selecting)
    } else {
        (next_char(s.text, s.cursor), selecting)
    }
}

/// Removing `[start, end)` and placing the cursor at `start`.
pub open spec fn deleted(s: EditState, start: nat, end: nat) -> EditState {
    EditState {
        text: s.text.subrange(0, start as int) + s.text.subrange(end as int, s.text.len() as int),
        cursor: start,
        anchor: None,
    }
}

/// How many characters may still be inserted in place of the selection.
pub open spec fn available(s: EditState, max_chars: nat) -> nat {
    let kept = s.text.len() - (range_of(s).1 - range_of(s).0);
    if max_chars >= kept {
        (max_chars - kept) as nat
    } else {
        0
    }
}

/// What an insertion puts in: the accepted characters, cut to what fits.
pub open spec fn inserted(s: EditState, input: Seq<char>, max_chars: nat, filter: InputFilter) -> Seq<
    char,
> {
    let k = keep(input, filter);
    if k.len() <= available(s, max_chars) {
        k
    } else {
        k.take(available(s, max_chars) as int)
    }
}

/// The state after an insertion that put something in.
pub open spec fn after_insert(s: EditState, input: Seq<char>, max_chars: nat, filter: InputFilter) -> EditState {
    let (start, end) = range_of(s);
    let ins = inserted(s, input, max_chars, filter);
    EditState {
        text: s.text.subrange(0, start as int) + ins + s.text.subrange(end as int, s.text.len() as int),
        cursor: start + ins.len(),
        anchor: None,
    }
}

/// Where a backward delete starts when nothing is selected.
pub open spec fn backward_start(s: EditState, by_word: bool) -> nat {
    if by_word {
        prev_word(s.text, s.cursor)
    } else {
        prev_char(s.cursor)
    }
}

/// Where a forward delete ends when nothing is selected.
pub open spec fn forward_end(s: EditState, by_word: bool) -> nat {
    if by_word {
        next_word(s.text, s.cursor)
    } else {
        next_char(s.text, s.cursor)
    }
}

/// The state and the "changed" flag after a backward delete.
pub open spec fn after_delete_backward(s: EditState, by_word: bool) -> (EditState, bool) {
    if has_selection_spec(s) {
        (deleted(s, range_of(s).0, range_of(s).1), true)
    } else if s.cursor == 0 {
        (s, false)
    } else {
        (deleted(s, backward_start(s, by_word), s.cursor), true)
    }
}

/// The state and the "changed" flag after a forward delete.
pub open spec fn after_delete_forward(s: EditState, by_word: bool) -> (EditState, bool) {
    if has_selection_spec(s) {
        (deleted(s, range_of(s).0, range_of(s).1), true)
    } else if s.cursor == s.text.len() {
        (s, false)
    } else {
        (deleted(s, s.cursor, forward_end(s, by_word)), true)
    }
}

pub proof fn lemma_skip_ws_back(t: Seq<char>, i: int)
    requires
        0 <= i <= t.len(),
    ensures
        0 <= skip_ws_back(t, i) <= i,
        forall|k: int| skip_ws_back(t, i) <= k < i ==> chars::is_whitespace(#[trigger] t[k]),
    decreases i,
{
    if i > 0 && chars::is_whitespace(t[i - 1]) {
        lemma_skip_ws_back(t, i - 1);
    }
}

pub proof fn lemma_skip_word_back(t: Seq<char>, i: int)
    requires
        0 <= i <= t.len(),
    ensures
        0 <= skip_word_back(t, i) <= i,
        forall|k: int| skip_word_back(t, i) <= k < i ==> !chars::is_whitespace(#[trigger] t[k]),
    decreases i,
{
    if i > 0 && !chars::is_whitespace(t[i - 1]) {
        lemma_skip_word_back(t, i - 1);
    }
}

pub proof fn lemma_skip_ws_fwd(t: Seq<char>, i: int)
    requires
        0 <= i <= t.len(),
    ensures
        i <= skip_ws_fwd(t, i) <= t.len(),
        forall|k: int| i <= k < skip_ws_fwd(t, i) ==> chars::is_whitespace(#[trigger] t[k]),
        skip_ws_fwd(t, i) < t.len() ==> !chars::is_whitespace(t[skip_ws_fwd(t, i)]),
    decreases t.len() - i,
{
    if i < t.len() && chars::is_whitespace(t[i]) {
        lemma_skip_ws_fwd(t, i + 1);
    }
}

pub proof fn lemma_skip_word_fwd(t: Seq<char>, i: int)
    requires
        0 <= i <= t.len(),
    ensures
        i <= skip_word_fwd(t, i) <= t.len(),
        forall|k: int| i <= k < skip_word_fwd(t, i) ==> !chars::is_whitespace(#[trigger] t[k]),
        i < t.len() && !chars::is_whitespace(t[i]) ==> i < skip_word_fwd(t, i),
    decreases t.len() - i,
{
    if i < t.len() && !chars::is_whitespace(t[i]) {
        lemma_skip_word_fwd(t, i + 1);
    }
}

/// Word-wise left motion never passes the start and, away from the start,
/// always moves.
pub proof fn lemma_prev_word_bounds(t: Seq<char>, cursor: nat)
    requires
        cursor <= t.len(),
    ensures
        prev_word(t, cursor) <= cursor,
        cursor > 0 ==> prev_word(t, cursor) < cursor,
{
    lemma_skip_ws_back(t, cursor as int);
    let w = skip_ws_back(t, cursor as int);
    lemma_skip_word_back(t, w);
    if cursor > 0 {
        if chars::is_whitespace(t[cursor - 1]) {
            lemma_skip_ws_back(t, cursor - 1);
        } else {
            lemma_skip_word_back(t, cursor - 1);
        }
    }
}

/// Word-wise right motion never passes the end and, away from the end,
/// always moves.
pub proof fn lemma_next_word_bounds(t: Seq<char>, cursor: nat)
    requires
        cursor <= t.len(),
    ensures
        cursor <= next_word(t, cursor) <= t.len(),
        cursor < t.len() ==> cursor < next_word(t, cursor),
{
    lemma_skip_ws_fwd(t, cursor as int);
    let w = skip_ws_fwd(t, cursor as int);
    lemma_skip_word_fwd(t, w);
    if cursor < t.len() {
        if chars::is_whitespace(t[cursor as int]) {
            lemma_skip_ws_fwd(t, cursor as int + 1);
        } else {
            lemma_skip_word_fwd(t, cursor as int + 1);
        }
    }
}

pub proof fn lemma_keep_len(s: Seq<char>, filter: InputFilter)
    ensures
        keep(s, filter).len() <= s.len(),
    decreases s.len(),
{
    if s.len() > 0 {
        lemma_keep_len(s.drop_last(), filter);
    }
}

/// Typing one accepted character into a field with room for it, then
/// pressing backspace, gives back the text and cursor from before.
pub proof fn law_backspace_undoes_typing(s: EditState, c: char, max_chars: nat, filter: InputFilter)
    requires
        state_wf(s),
        !has_selection_spec(s),
        allowed(filter, c),
        s.text.len() < max_chars,
    ensures
        inserted(s, seq![c], max_chars, filter) == seq![c],
        after_delete_backward(after_insert(s, seq![c], max_chars, filter), false) == (
        EditState { text: s.text, cursor: s.cursor, anchor: None },
        true,
    ),
{
    assert(seq![c].drop_last() =~= Seq::<char>::empty());
    assert(keep(Seq::<char>::empty(), filter) == Seq::<char>::empty());
    assert(seq![c].last() == c);
    assert(keep(seq![c], filter) =~= seq![c]);
    let t = after_insert(s, seq![c], max_chars, filter);
    let (start, end) = range_of(s);
    assert(start == s.cursor && end == s.cursor);
    assert(t.text.subrange(0, s.cursor as int) + t.text.subrange(s.cursor as int + 1, t.text.len() as int)
        =~= s.text);
}

/// An insertion never leaves more than `max_chars` characters.
pub proof fn law_insert_respects_limit(s: EditState, input: Seq<char>, max_chars: nat, filter: InputFilter)
    requires
        state_wf(s),
        inserted(s, input, max_chars, filter).len() > 0,
    ensures
        after_insert(s, input, max_chars, filter).text.len() <= max_chars,
{
    lemma_keep_len(input, filter);
}

/// Home, then End with Shift held, selects the whole text.
pub proof fn law_home_shift_end_selects_all(s: EditState)
    requires
        state_wf(s),
        s.text.len() > 0,
    ensures
        range_of(moved(moved(s, 0, false), s.text.len(), true)) == (0nat, s.text.len()),
{
}

/// Deleting a select-all selection empties the field, in either direction.
pub proof fn law_delete_all(text: Seq<char>, by_word: bool)
    requires
        text.len() > 0,
    ensures
        after_delete_backward(EditState { text, cursor: text.len(), anchor: Some(0) }, by_word).0.text
            == Seq::<char>::empty(),
        after_delete_forward(EditState { text, cursor: text.len(), anchor: Some(0) }, by_word).0.text
            == Seq::<char>::empty(),
{
    let s = EditState { text, cursor: text.len(), anchor: Some(0) };
    assert(deleted(s, 0, text.len()).text =~= Seq::<char>::empty());
}

/// Away from the start and with nothing selected, a character step left
/// and a character step right come back to the same place.
pub proof fn law_left_right_roundtrip(s: EditState)
    requires
        state_wf(s),
        !has_selection_spec(s),
        s.cursor > 0,
    ensures
        ({
            let l = moved(s, move_left_target(s, false, false).0, false);
            moved(l, move_right_target(l, false, false).0, false)
        }) == (EditState { text: s.text, cursor: s.cursor, anchor: None }),
{
}

/// Word motion stays inside the text and moves whenever it can.
pub proof fn law_word_motion_bounds(t: Seq<char>, cursor: nat)
    requires
        cursor <= t.len(),
    ensures
        prev_word(t, cursor) <= cursor,
        cursor > 0 ==> prev_word(t, cursor) < cursor,
        cursor <= next_word(t, cursor) <= t.len(),
        cursor < t.len() ==> cursor < next_word(t, cursor),
{
    lemma_prev_word_bounds(t, cursor);
    lemma_next_word_bounds(t, cursor);
}

/// A single-line editor over a character buffer.
pub struct TextEdit {
    text: Vec<char>,
    cursor: usize,
    selection_anchor: Option<usize>,
}

impl View for TextEdit {
    type V = EditState;

    closed spec fn view(&self) -> EditState {
        EditState {
            text: self.text@,
            cursor: self.cursor as nat,
            anchor: match self.selection_anchor {
                Some(a) => Some(a as nat),
                None => None,
            },
        }
    }
}

impl TextEdit {
    pub open spec fn wf(&self) -> bool {
        state_wf(self@)
    }

    /// An editor holding `text`, with the cursor at its end and nothing
    /// selected.
    pub fn new(text: String) -> (r: TextEdit)
        ensures
            r.wf(),
            r@.text == text@,
            r@.cursor == text@.len(),
            r@.anchor is None,
    {
        let v = chars::chars_of(text.as_str());
        let cursor = v.len();
        TextEdit { text: v, cursor, selection_anchor: None }
    }

    /// The current text.
    pub fn text(&self) -> (r: String)
        ensures
            r@ == self@.text,
    {
        chars::string_from_chars(self.text.as_slice())
    }

    /// The text's characters.
    pub fn chars(&self) -> (r: &Vec<char>)
        ensures
            r@ == self@.text,
    {
        &self.text
    }

    /// The cursor position, counted in characters (not bytes).
    pub fn cursor(&self) -> (r: usize)
        ensures
            r == self@.cursor,
    {
        self.cursor
    }

    /// The cursor position as a byte offset into the UTF-8 text.
    pub fn cursor_byte(&self) -> (r: usize)
        requires
            self.wf(),
        ensures
            r == vstd::utf8::encode_utf8(self@.text.take(self@.cursor as int)).len(),
    {
        let before = self.slice(0, self.cursor);
        proof {
            assert(self@.text.subrange(0, self@.cursor as int) =~= self@.text.take(self@.cursor as int));
        }
        before.as_str().as_bytes().len()
    }

    /// Whether the text is empty.
    pub fn is_empty(&self) -> (r: bool)
        ensures
            r == (self@.text.len() == 0),
    {
        self.text.len() == 0
    }

    /// The characters in `[start, end)`.
    pub fn slice(&self, start: usize, end: usize) -> (r: String)
        requires
            start <= end <= self@.text.len(),
        ensures
            r@ == self@.text.subrange(start as int, end as int),
    {
        let mut v: Vec<char> = Vec::new();
        let mut i = start;
        while i < end
            invariant
                start <= i <= end <= self.text@.len(),
                v@ =~= self.text@.subrange(start as int, i as int),
            decreases end - i,
        {
            v.push(self.text[i]);
            i += 1;
        }
        chars::string_from_chars(v.as_slice())
    }

    /// The selected span as `(start, end)`; `start == end` when nothing is
    /// selected.
    pub fn selected_range(&self) -> (r: (usize, usize))
        requires
            self.wf(),
        ensures
            r.0 == range_of(self@).0,
            r.1 == range_of(self@).1,
            r.0 <= r.1 <= self@.text.len(),
    {
        match self.selection_anchor {
            Some(anchor) => {
                if anchor < self.cursor {
                    (anchor, self.cursor)
                } else if anchor > self.cursor {
                    (self.cursor, anchor)
                } else {
                    (self.cursor, self.cursor)
                }
            },
            None => (self.cursor, self.cursor),
        }
    }

    /// The selected span as UTF-8 byte offsets into the text.
    pub fn selected_byte_range(&self) -> (r: (usize, usize))
        requires
            self.wf(),
        ensures
            r.0 == vstd::utf8::encode_utf8(self@.text.take(range_of(self@).0 as int)).len(),
            r.1 == vstd::utf8::encode_utf8(self@.text.take(range_of(self@).1 as int)).len(),
    {
        let (start, end) = self.selected_range();
        let before = self.slice(0, start);
        let through = self.slice(0, end);
        proof {
            assert(self@.text.subrange(0, start as int) =~= self@.text.take(start as int));
            assert(self@.text.subrange(0, end as int) =~= self@.text.take(end as int));
        }
        (before.as_str().as_bytes().len(), through.as_str().as_bytes().len())
    }

    pub fn has_selection(&self) -> (r: bool)
        requires
            self.wf(),
        ensures
            r == has_selection_spec(self@),
    {
        let (start, end) = self.selected_range();
        start < end
    }

    /// The selected text, `None` when nothing is selected.
    pub fn selected_text(&self) -> (r: Option<String>)
        requires
            self.wf(),
        ensures
            has_selection_spec(self@) <==> r is Some,
            r matches Some(t) ==> t@ == self@.text.subrange(
                range_of(self@).0 as int,
                range_of(self@).1 as int,
            ),
    {
        let (start, end) = self.selected_range();
        if start < end {
            Some(self.slice(start, end))
        } else {
            None
        }
    }

    /// Selects the whole text; nothing happens on an empty text.
    pub fn select_all(&mut self) -> (changed: bool)
        requires
            old(self).wf(),
        ensures
            final(self).wf(),
            changed == (old(self)@.text.len() > 0),
            changed ==> final(self)@ == (EditState {
                text: old(self)@.text,
                cursor: old(self)@.text.len(),
                anchor: Some(0),
            }),
            !changed ==> final(self)@ == old(self)@,
    {
        if self.text.len() == 0 {
            return false;
        }
        self.cursor = self.text.len();
        self.selection_anchor = Some(0);
        true
    }

    /// Empties the text; reports whether there was any.
    pub fn clear(&mut self) -> (changed: bool)
        requires
            old(self).wf(),
        ensures
            final(self).wf(),
            changed == (old(self)@.text.len() > 0),
            final(self)@ == (EditState { text: Seq::empty(), cursor: 0, anchor: None }),
    {
        if self.text.len() == 0 {
            self.cursor = 0;
            self.selection_anchor = None;
            proof {
                assert(self.text@ =~= Seq::<char>::empty());
            }
            return false;
        }
        self.text.clear();
        self.cursor = 0;
        self.selection_anchor = None;
        true
    }

    fn prev_word_boundary(&self) -> (r: usize)
        requires
            self.wf(),
        ensures
            r == prev_word(self@.text, self@.cursor),
    {
        let ghost t = self.text@;
        let mut i = self.cursor;
        while i > 0 && chars::is_whitespace_char(self.text[i - 1])
            invariant
                i <= self.cursor <= self.text@.len(),
                t == self.text@,
                skip_ws_back(t, self.cursor as int) == skip_ws_back(t, i as int),
            decreases i,
        {
            i -= 1;
        }
        let ghost w = i;
        while i > 0 && !chars::is_whitespace_char(self.text[i - 1])
            invariant
                i <= w <= self.text@.len(),
                t == self.text@,
                skip_word_back(t, w as int) == skip_word_back(t, i as int),
            decreases i,
        {
            i -= 1;
        }
        i
    }

    fn next_word_boundary(&self) -> (r: usize)
        requires
            self.wf(),
        ensures
            r == next_word(self@.text, self@.cursor),
    {
        let ghost t = self.text@;
        let mut i = self.cursor;
        while i < self.text.len() && chars::is_whitespace_char(self.text[i])
            invariant
                self.cursor <= i <= self.text@.len(),
                t == self.text@,
                skip_ws_fwd(t, self.cursor as int) == skip_ws_fwd(t, i as int),
            decreases self.text@.len() - i,
        {
            i += 1;
        }
        let ghost w = i;
        while i < self.text.len() && !chars::is_whitespace_char(self.text[i])
            invariant
                w <= i <= self.text@.len(),
                t == self.text@,
                skip_word_fwd(t, w as int) == skip_word_fwd(t, i as int),
            decreases self.text@.len() - i,
        {
            i += 1;
        }
        i
    }

    fn move_to(&mut self, target: usize, selecting: bool) -> (changed: bool)
        requires
            old(self).wf(),
        ensures
            final(self).wf(),
            final(self)@ == moved(old(self)@, target as nat, selecting),
            changed == move_changes(old(self)@, target as nat, selecting),
    {
        let target = if target <= self.text.len() {
            target
        } else {
            self.text.len()
        };
        let changed = self.cursor != target || self.selection_anchor.is_some() != selecting;
        if selecting {
            if self.selection_anchor.is_none() {
                self.selection_anchor = Some(self.cursor);
            }
        } else {
            self.selection_anchor = None;
        }
        self.cursor = target;
        changed
    }

    /// Moves left by a character or a word; without `selecting`, an
    /// existing selection collapses to its start instead.
    pub fn move_left(&mut self, selecting: bool, by_word: bool) -> (changed: bool)
        requires
            old(self).wf(),
        ensures
            final(self).wf(),
            final(self)@ == moved(
                old(self)@,
                move_left_target(old(self)@, selecting, by_word).0,
                move_left_target(old(self)@, selecting, by_word).1,
            ),
            changed == move_changes(
                old(self)@,
                move_left_target(old(self)@, selecting, by_word).0,
                move_left_target(old(self)@, selecting, by_word).1,
            ),
    {
        if self.has_selection() && !selecting {
            let (start, _) = self.selected_range();
            return self.move_to(start, false);
        }
        let target = if by_word {
            self.prev_word_boundary()
        } else if self.cursor == 0 {
            0
        } else {
            self.cursor - 1
        };
        self.move_to(target, selecting)
    }

    /// Moves right by a character or a word; without `selecting`, an
    /// existing selection collapses to its end instead.
    pub fn move_right(&mut self, selecting: bool, by_word: bool) -> (changed: bool)
        requires
            old(self).wf(),
        ensures
            final(self).wf(),
            final(self)@ == moved(
                old(self)@,
                move_right_target(old(self)@, selecting, by_word).0,
                move_right_target(old(self)@, selecting, by_word).1,
            ),
            changed == move_changes(
                old(self)@,
                move_right_target(old(self)@, selecting, by_word).0,
                move_right_target(old(self)@, selecting, by_word).1,
            ),
    {
        if self.has_selection() && !selecting {
            let (_, end) = self.selected_range();
            return self.move_to(end, false);
        }
        let target = if by_word {
            self.next_word_boundary()
        } else if self.cursor >= self.text.len() {
            self.text.len()
        } else {
            self.cursor + 1
        };
        self.move_to(target, selecting)
    }

    pub fn move_home(&mut self, selecting: bool) -> (changed: bool)
        requires
            old(self).wf(),
        ensures
            final(self).wf(),
            final(self)@ == moved(old(self)@, 0, selecting),
            changed == move_changes(old(self)@, 0, selecting),
    {
        self.move_to(0, selecting)
    }

    pub fn move_end(&mut self, selecting: bool) -> (changed: bool)
        requires
            old(self).wf(),
        ensures
            final(self).wf(),
            final(self)@ == moved(old(self)@, old(self)@.text.len(), selecting),
            changed == move_changes(old(self)@, old(self)@.text.len(), selecting),
    {
        let end = self.text.len();
        self.move_to(end, selecting)
    }

    /// Replaces the selection (or inserts at the cursor) with the
    /// characters of `input` that `filter` accepts, keeping the text at no
    /// more than `max_chars` characters. Reports `false`, changing nothing,
    /// when no character gets in.
    pub fn insert_filtered(&mut self, input: &str, max_chars: usize, filter: InputFilter) -> (changed: bool)
        requires
            old(self).wf(),
        ensures
            final(self).wf(),
            changed == (inserted(old(self)@, input@, max_chars as nat, filter).len() > 0),
            changed ==> final(self)@ == after_insert(old(self)@, input@, max_chars as nat, filter),
            !changed ==> final(self)@ == old(self)@,
    {
        let (start, end) = self.selected_range();
        let selected = end - start;
        let current = self.text.len();
        let kept = current - selected;
        let avail = if max_chars >= kept {
            max_chars - kept
        } else {
            0
        };
        let src = chars::chars_of(input);
        let mut k: Vec<char> = Vec::new();
        let mut i: usize = 0;
        while i < src.len()
            invariant
                i <= src@.len(),
                k@ =~= keep(src@.take(i as int), filter),
            decreases src@.len() - i,
        {
            assert(src@.take(i + 1).drop_last() =~= src@.take(i as int));
            if is_allowed(filter, src[i]) {
                k.push(src[i]);
            }
            i += 1;
        }
        assert(src@.take(i as int) =~= src@);
        proof {
            lemma_keep_len(src@, filter);
        }
        let ghost ins = inserted(self@, input@, max_chars as nat, filter);
        if k.len() > avail {
            k.truncate(avail);
        }
        assert(k@ =~= ins);
        if k.len() == 0 {
            return false;
        }
        let mut out: Vec<char> = Vec::new();
        let mut j: usize = 0;
        while j < start
            invariant
                j <= start <= end <= self.text@.len(),
                out@ =~= self.text@.subrange(0, j as int),
            decreases start - j,
        {
            out.push(self.text[j]);
            j += 1;
        }
        let mut m: usize = 0;
        while m < k.len()
            invariant
                m <= k@.len(),
                out@ =~= self.text@.subrange(0, start as int) + k@.take(m as int),
            decreases k@.len() - m,
        {
            out.push(k[m]);
            m += 1;
        }
        assert(k@.take(m as int) =~= k@);
        let mut r: usize = end;
        while r < self.text.len()
            invariant
                end <= r <= self.text@.len(),
                out@ =~= self.text@.subrange(0, start as int) + k@ + self.text@.subrange(
                    end as int,
                    r as int,
                ),
            decreases self.text@.len() - r,
        {
            out.push(self.text[r]);
            r += 1;
        }
        let ghost before = self@;
        let cursor = start + k.len();
        self.text = out;
        self.cursor = cursor;
        self.selection_anchor = None;
        assert(self@ == after_insert(before, input@, max_chars as nat, filter));
        true
    }

    fn delete_range(&mut self, start: usize, end: usize) -> (changed: bool)
        requires
            old(self).wf(),
            start <= end <= old(self)@.text.len(),
        ensures
            final(self).wf(),
            changed == (start < end),
            changed ==> final(self)@ == deleted(old(self)@, start as nat, end as nat),
            !changed ==> final(self)@ == old(self)@,
    {
        if start >= end {
            return false;
        }
        let mut out: Vec<char> = Vec::new();
        let mut j: usize = 0;
        while j < start
            invariant
                j <= start <= end <= self.text@.len(),
                out@ =~= self.text@.subrange(0, j as int),
            decreases start - j,
        {
            out.push(self.text[j]);
            j += 1;
        }
        let mut r: usize = end;
        while r < self.text.len()
            invariant
                start <= end <= r <= self.text@.len(),
                out@ =~= self.text@.subrange(0, start as int) + self.text@.subrange(
                    end as int,
                    r as int,
                ),
            decreases self.text@.len() - r,
        {
            out.push(self.text[r]);
            r += 1;
        }
        self.cursor = start;
        self.text = out;
        self.selection_anchor = None;
        true
    }

    fn delete_selection(&mut self) -> (changed: bool)
        requires
            old(self).wf(),
        ensures
            final(self).wf(),
            changed == has_selection_spec(old(self)@),
            changed ==> final(self)@ == deleted(
                old(self)@,
                range_of(old(self)@).0,
                range_of(old(self)@).1,
            ),
            !changed ==> final(self)@ == old(self)@,
    {
        let (start, end) = self.selected_range();
        if start >= end {
            return false;
        }
        self.delete_range(start, end)
    }

    /// Deletes the selection, or else the character or word before the
    /// cursor.
    pub fn delete_backward(&mut self, by_word: bool) -> (changed: bool)
        requires
            old(self).wf(),
        ensures
            final(self).wf(),
            (final(self)@, changed) == after_delete_backward(old(self)@, by_word),
    {
        if self.delete_selection() {
            return true;
        }
        if self.cursor == 0 {
            return false;
        }
        let start = if by_word {
            self.prev_word_boundary()
        } else {
            self.cursor - 1
        };
        proof {
            lemma_prev_word_bounds(self@.text, self@.cursor);
        }
        let cursor = self.cursor;
        self.delete_range(start, cursor)
    }

    /// Deletes the selection, or else the character or word after the
    /// cursor.
    pub fn delete_forward(&mut self, by_word: bool) -> (changed: bool)
        requires
            old(self).wf(),
        ensures
            final(self).wf(),
            (final(self)@, changed) == after_delete_forward(old(self)@, by_word),
    {
        if self.delete_selection() {
            return true;
        }
        if self.cursor == self.text.len() {
            return false;
        }
        let end = if by_word {
            self.next_word_boundary()
        } else {
            self.cursor + 1
        };
        proof {
            lemma_next_word_bounds(self@.text, self@.cursor);
        }
        let cursor = self.cursor;
        self.delete_range(cursor, end)
    }
}


/// Without Shift, an arrow key collapses a selection instead of moving:
/// right leaves the cursor on the selection's end (the later of anchor
/// and cursor), left on its start, and nothing stays selected, whether
/// or not the move is by word.
pub proof fn law_arrows_collapse_selection(s: EditState, by_word: bool)
    requires
        state_wf(s),
        s.anchor is Some,
        s.anchor->0 != s.cursor,
    ensures
        ({
            let r = move_right_target(s, false, by_word);
            moved(s, r.0, r.1) == EditState {
                text: s.text,
                cursor: if s.anchor->0 > s.cursor {
                    s.anchor->0
                } else {
                    s.cursor
                },
                anchor: None,
            }
        }),
        ({
            let l = move_left_target(s, false, by_word);
            moved(s, l.0, l.1) == EditState {
                text: s.text,
                cursor: if s.anchor->0 < s.cursor {
                    s.anchor->0
                } else {
                    s.cursor
                },
                anchor: None,
            }
        }),
{
}


/// With nothing selected, a plain arrow moves one character (stopping at
/// the ends), and Shift+arrow starts a selection anchored where the
/// cursor was.
pub proof fn law_arrow_steps_one_char(s: EditState)
    requires
        state_wf(s),
        !has_selection_spec(s),
    ensures
        ({
            let r = move_right_target(s, false, false);
            moved(s, r.0, r.1).cursor == if s.cursor < s.text.len() {
                s.cursor + 1
            } else {
                s.cursor
            } && moved(s, r.0, r.1).anchor is None
        }),
        ({
            let l = move_left_target(s, false, false);
            moved(s, l.0, l.1).cursor == if s.cursor > 0 {
                (s.cursor - 1) as nat
            } else {
                0
            } && moved(s, l.0, l.1).anchor is None
        }),
        s.anchor is None ==> ({
            let r = move_right_target(s, true, false);
            moved(s, r.0, r.1).anchor == Some(s.cursor)
        }),
{
}

} // verus!
