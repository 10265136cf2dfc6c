//! The text that is being typed, and where the cursor stands in it.
use vstd::prelude::*;

use crate::outside::{char_width, width_of_char};
use crate::text::{
    chars_of, is_blank_text, is_white_space, is_whitespace, text_of,
};

verus! {

/// An editor for the text of an input field. The cursor counts characters, so no
/// character is ever cut.
#[derive(Debug)]
pub struct InputEditor {
    buffer: Vec<char>,
    cursor: usize,
}

/// The mathematical value of an [`InputEditor`].
pub struct EditorView {
    pub buffer: Seq<char>,
    pub cursor: int,
}

impl View for InputEditor {
    type V = EditorView;

    closed spec fn view(&self) -> EditorView {
        EditorView { buffer: self.buffer@, cursor: self.cursor as int }
    }
}

/// The start of the line that a position is on.
pub open spec fn line_start(buffer: Seq<char>, at: int) -> int
    decreases at,
{
    if at > 0 && buffer[at - 1] != '\n' {
        line_start(buffer, at - 1)
    } else {
        at
    }
}

/// The end of the line that a position is on.
pub open spec fn line_end(buffer: Seq<char>, at: int) -> int
    decreases buffer.len() - at,
{
    if at < buffer.len() && buffer[at] != '\n' {
        line_end(buffer, at + 1)
    } else {
        at
    }
}

/// A position without the characters before it that are white space, or are not.
pub open spec fn back_over(buffer: Seq<char>, at: int, white: bool) -> int
    decreases at,
{
    if at > 0 && is_white_space(buffer[at - 1]) == white {
        back_over(buffer, at - 1, white)
    } else {
        at
    }
}

/// A position behind the characters after it that are white space, or are not.
pub open spec fn forth_over(buffer: Seq<char>, at: int, white: bool) -> int
    decreases buffer.len() - at,
{
    if at < buffer.len() && is_white_space(buffer[at]) == white {
        forth_over(buffer, at + 1, white)
    } else {
        at
    }
}

/// The start of the word before a position.
pub open spec fn word_left(buffer: Seq<char>, at: int) -> int {
    back_over(buffer, back_over(buffer, at, true), false)
}

/// The end of the word after a position.
pub open spec fn word_right(buffer: Seq<char>, at: int) -> int {
    forth_over(buffer, forth_over(buffer, at, true), false)
}

/// A text without carriage returns.
pub open spec fn without_returns(s: Seq<char>) -> Seq<char>
    decreases s.len(),
{
    if s.len() == 0 {
        Seq::empty()
    } else if s.last() == '\r' {
        without_returns(s.drop_last())
    } else {
        without_returns(s.drop_last()).push(s.last())
    }
}

/// How many columns a character takes on the screen.
pub open spec fn cells(c: char) -> nat {
    match char_width(c) {
        Some(n) => n as nat,
        None => 0,
    }
}

/// How many columns a character takes on the screen.
pub fn cells_of(c: char) -> (n: usize)
    ensures
        n == cells(c),
        n <= 3,
{
    match width_of_char(c) {
        Some(n) => n,
        None => 0,
    }
}

/// Where the cursor gets from a row and a column by one more character. A character
/// that does not fit goes to the next row; a full row is followed by the next.
pub open spec fn after_char(at: (int, int), c: char, width: int) -> (int, int) {
    if c == '\n' {
        (at.0 + 1, 0)
    } else {
        let w = cells(c) as int;
        let start = if w > 0 && at.1 + w > width {
            (at.0 + 1, 0)
        } else {
            at
        };
        if start.1 + w >= width {
            (start.0 + 1, 0)
        } else {
            (start.0, start.1 + w)
        }
    }
}

/// The row and the column behind some text.
pub open spec fn visual_end(text: Seq<char>, width: int) -> (int, int)
    decreases text.len(),
{
    if text.len() == 0 {
        (0, 0)
    } else {
        after_char(visual_end(text.drop_last(), width), text.last(), width)
    }
}

/// The width of a field, which is at least one.
pub open spec fn field_width(width: u16) -> int {
    if width == 0 {
        1
    } else {
        width as int
    }
}

/// The row and the column in which the cursor is shown in a field of a width.
pub open spec fn visual_position(editor: EditorView, width: u16) -> (int, int) {
    visual_end(editor.buffer.take(editor.cursor), field_width(width))
}

impl Default for InputEditor {
    /// An editor without any text.
    fn default() -> (editor: InputEditor)
        ensures
            editor.wf(),
            editor@.buffer == Seq::<char>::empty(),
            editor@.cursor == 0,
    {
        let editor = InputEditor { buffer: Vec::new(), cursor: 0 };
        assert(editor@.buffer =~= Seq::empty());
        editor
    }
}

impl InputEditor {
    /// The cursor stands within the text or behind it.
    pub open spec fn wf(&self) -> bool {
        0 <= self@.cursor <= self@.buffer.len()
    }

    /// Where the cursor stands.
    pub fn cursor(&self) -> (at: usize)
        ensures
            at == self@.cursor,
    {
        self.cursor
    }

    /// Whether there is no text.
    pub fn is_empty(&self) -> (empty: bool)
        ensures
            empty == (self@.buffer.len() == 0),
    {
        self.buffer.len() == 0
    }

    /// Whether there is nothing but white space.
    pub fn is_blank(&self) -> (blank: bool)
        ensures
            blank == is_blank_text(self@.buffer),
    {
        let mut at: usize = 0;
        while at < self.buffer.len()
            invariant
                at <= self.buffer@.len(),
                self@.buffer == self.buffer@,
                forall|i: int| 0 <= i < at ==> is_white_space(#[trigger] self.buffer@[i]),
            decreases self.buffer@.len() - at,
        {
            if !is_whitespace(self.buffer[at]) {
                assert(!is_white_space(self@.buffer[at as int]));
                return false;
            }
            at += 1;
        }
        true
    }

    /// Whether the text is on one line.
    pub fn is_single_line(&self) -> (single: bool)
        ensures
            single == !self@.buffer.contains('\n'),
    {
        let mut at: usize = 0;
        while at < self.buffer.len()
            invariant
                at <= self.buffer@.len(),
                self@.buffer == self.buffer@,
                forall|i: int| 0 <= i < at ==> #[trigger] self.buffer@[i] != '\n',
            decreases self.buffer@.len() - at,
        {
            if self.buffer[at] == '\n' {
                assert(self@.buffer[at as int] == '\n');
                return false;
            }
            at += 1;
        }
        true
    }

    /// The text.
    pub fn text(&self) -> (text: String)
        ensures
            text@ == self@.buffer,
    {
        text_of(&self.buffer)
    }

    /// Removes the text.
    pub fn clear(&mut self)
        ensures
            final(self).wf(),
            final(self)@.buffer == Seq::<char>::empty(),
            final(self)@.cursor == 0,
    {
        self.buffer = Vec::new();
        self.cursor = 0;
        assert(self@.buffer =~= Seq::empty());
    }

    /// Puts another text in place of the text, with the cursor behind it.
    pub fn replace(&mut self, text: &str)
        ensures
            final(self).wf(),
            final(self)@.buffer == text@,
            final(self)@.cursor == text@.len(),
    {
        self.buffer = chars_of(text);
        self.cursor = self.buffer.len();
    }

    /// Removes the text and hands it out.
    pub fn take(&mut self) -> (text: String)
        ensures
            final(self).wf(),
            text@ == old(self)@.buffer,
            final(self)@.buffer == Seq::<char>::empty(),
            final(self)@.cursor == 0,
    {
        let text = self.text();
        self.clear();
        text
    }

    /// Puts a character where the cursor stands, and the cursor behind it.
    pub fn insert(&mut self, character: char)
        requires
            old(self).wf(),
        ensures
            final(self).wf(),
            final(self)@.buffer == old(self)@.buffer.insert(old(self)@.cursor, character),
            final(self)@.cursor == old(self)@.cursor + 1,
    {
        self.buffer.insert(self.cursor, character);
        let length = self.buffer.len();
        self.cursor = self.cursor + 1;
    }

    /// Puts a text where the cursor stands, without its carriage returns, and the
    /// cursor behind it.
    pub fn insert_text(&mut self, text: &str)
        requires
            old(self).wf(),
        ensures
            final(self).wf(),
            ({
                let added = without_returns(text@);
                let before = old(self)@;
                &&& final(self)@.buffer == before.buffer.take(before.cursor) + added
                    + before.buffer.skip(before.cursor)
                &&& final(self)@.cursor == before.cursor + added.len()
            }),
    {
        let ghost before = self@;
        assert(without_returns(text@.take(0)) =~= Seq::empty());
        assert(before.buffer =~= before.buffer.take(before.cursor) + without_returns(text@.take(0))
            + before.buffer.skip(before.cursor));
        for ch in iter: text.chars()
            invariant
                iter.seq() == text@,
                self.wf(),
                0 <= before.cursor <= before.buffer.len(),
                self@.buffer == before.buffer.take(before.cursor) + without_returns(
                    text@.take(iter.index() as int),
                ) + before.buffer.skip(before.cursor),
                self@.cursor == before.cursor + without_returns(
                    text@.take(iter.index() as int),
                ).len(),
        {
            let ghost here = without_returns(text@.take(iter.index() as int));
            let ghost now = self@.buffer;
            assert(text@.take(iter.index() + 1).drop_last() =~= text@.take(iter.index() as int));
            assert(text@.take(iter.index() + 1).last() == ch);
            if ch != '\r' {
                self.insert(ch);
                assert(self@.buffer =~= before.buffer.take(before.cursor) + here.push(ch)
                    + before.buffer.skip(before.cursor));
            }
        }
        assert(text@.take(text@.len() as int) =~= text@);
    }

    /// Removes the character before the cursor.
    pub fn backspace(&mut self)
        requires
            old(self).wf(),
        ensures
            final(self).wf(),
            if old(self)@.cursor > 0 {
                final(self)@.buffer == old(self)@.buffer.remove(old(self)@.cursor - 1)
                    && final(self)@.cursor == old(self)@.cursor - 1
            } else {
                final(self)@ == old(self)@
            },
    {
        if self.cursor > 0 {
            self.cursor = self.cursor - 1;
            let removed = self.buffer.remove(self.cursor);
        }
    }

    /// Removes the character after the cursor.
    pub fn delete(&mut self)
        requires
            old(self).wf(),
        ensures
            final(self).wf(),
            final(self)@.cursor == old(self)@.cursor,
            final(self)@.buffer == (if old(self)@.cursor < old(self)@.buffer.len() {
                old(self)@.buffer.remove(old(self)@.cursor)
            } else {
                old(self)@.buffer
            }),
    {
        if self.cursor < self.buffer.len() {
            let removed = self.buffer.remove(self.cursor);
        }
    }

    /// Moves the cursor by one character to the left.
    pub fn move_left(&mut self)
        requires
            old(self).wf(),
        ensures
            final(self).wf(),
            final(self)@.buffer == old(self)@.buffer,
            final(self)@.cursor == (if old(self)@.cursor > 0 {
                old(self)@.cursor - 1
            } else {
                0
            }),
    {
        if self.cursor > 0 {
            self.cursor = self.cursor - 1;
        }
    }

    /// Moves the cursor by one character to the right.
    pub fn move_right(&mut self)
        requires
            old(self).wf(),
        ensures
            final(self).wf(),
            final(self)@.buffer == old(self)@.buffer,
            final(self)@.cursor == (if old(self)@.cursor < old(self)@.buffer.len() {
                old(self)@.cursor + 1
            } else {
                old(self)@.cursor
            }),
    {
        if self.cursor < self.buffer.len() {
            self.cursor = self.cursor + 1;
        }
    }

    /// Moves the cursor to the start of its line.
    pub fn move_line_start(&mut self)
        requires
            old(self).wf(),
        ensures
            final(self).wf(),
            final(self)@.buffer == old(self)@.buffer,
            final(self)@.cursor == line_start(old(self)@.buffer, old(self)@.cursor),
    {
        while self.cursor > 0 && self.buffer[self.cursor - 1] != '\n'
            invariant
                self.wf(),
                self@.buffer == old(self)@.buffer,
                line_start(self@.buffer, self@.cursor) == line_start(
                    old(self)@.buffer,
                    old(self)@.cursor,
                ),
            decreases self.cursor,
        {
            self.cursor = self.cursor - 1;
        }
    }

    /// Moves the cursor to the end of its line.
    pub fn move_line_end(&mut self)
        requires
            old(self).wf(),
        ensures
            final(self).wf(),
            final(self)@.buffer == old(self)@.buffer,
            final(self)@.cursor == line_end(old(self)@.buffer, old(self)@.cursor),
    {
        while self.cursor < self.buffer.len() && self.buffer[self.cursor] != '\n'
            invariant
                self.wf(),
                self@.buffer == old(self)@.buffer,
                line_end(self@.buffer, self@.cursor) == line_end(
                    old(self)@.buffer,
                    old(self)@.cursor,
                ),
            decreases self.buffer@.len() - self.cursor,
        {
            self.cursor = self.cursor + 1;
        }
    }

    /// Moves the cursor to the start of the word before it.
    pub fn move_word_left(&mut self)
        requires
            old(self).wf(),
        ensures
            final(self).wf(),
            final(self)@.buffer == old(self)@.buffer,
            final(self)@.cursor == word_left(old(self)@.buffer, old(self)@.cursor),
            final(self)@.cursor <= old(self)@.cursor,
    {
        while self.cursor > 0 && is_whitespace(self.buffer[self.cursor - 1])
            invariant
                self.wf(),
                self@.buffer == old(self)@.buffer,
                self@.cursor <= old(self)@.cursor,
                back_over(self@.buffer, self@.cursor, true) == back_over(
                    old(self)@.buffer,
                    old(self)@.cursor,
                    true,
                ),
            decreases self.cursor,
        {
            self.cursor = self.cursor - 1;
        }
        while self.cursor > 0 && !is_whitespace(self.buffer[self.cursor - 1])
            invariant
                self.wf(),
                self@.buffer == old(self)@.buffer,
                self@.cursor <= old(self)@.cursor,
                back_over(self@.buffer, self@.cursor, false) == word_left(
                    old(self)@.buffer,
                    old(self)@.cursor,
                ),
            decreases self.cursor,
        {
            self.cursor = self.cursor - 1;
        }
    }

    /// Moves the cursor to the end of the word after it.
    pub fn move_word_right(&mut self)
        requires
            old(self).wf(),
        ensures
            final(self).wf(),
            final(self)@.buffer == old(self)@.buffer,
            final(self)@.cursor == word_right(old(self)@.buffer, old(self)@.cursor),
    {
        while self.cursor < self.buffer.len() && is_whitespace(self.buffer[self.cursor])
            invariant
                self.wf(),
                self@.buffer == old(self)@.buffer,
                forth_over(self@.buffer, self@.cursor, true) == forth_over(
                    old(self)@.buffer,
                    old(self)@.cursor,
                    true,
                ),
            decreases self.buffer@.len() - self.cursor,
        {
            self.cursor = self.cursor + 1;
        }
        while self.cursor < self.buffer.len() && !is_whitespace(self.buffer[self.cursor])
            invariant
                self.wf(),
                self@.buffer == old(self)@.buffer,
                forth_over(self@.buffer, self@.cursor, false) == word_right(
                    old(self)@.buffer,
                    old(self)@.cursor,
                ),
            decreases self.buffer@.len() - self.cursor,
        {
            self.cursor = self.cursor + 1;
        }
    }

    /// Removes the word before the cursor.
    pub fn delete_word_left(&mut self)
        requires
            old(self).wf(),
        ensures
            final(self).wf(),
            final(self)@.cursor == word_left(old(self)@.buffer, old(self)@.cursor),
            final(self)@.buffer == old(self)@.buffer.take(final(self)@.cursor)
                + old(self)@.buffer.skip(old(self)@.cursor),
    {
        let end = self.cursor;
        let ghost before = self@.buffer;
        self.move_word_left();
        let start = self.cursor;
        let mut left = end;
        assert(self@.buffer =~= before.take(left as int) + before.skip(end as int));
        while left > start
            invariant
                start <= left <= end <= before.len(),
                self.cursor == start,
                self@.buffer == self.buffer@,
                self@.cursor == start,
                self@.buffer == before.take(left as int) + before.skip(end as int),
            decreases left - start,
        {
            let removed = self.buffer.remove(left - 1);
            left -= 1;
            assert(self@.buffer =~= before.take(left as int) + before.skip(end as int));
        }
    }

    /// The row and the column in which the cursor is shown in a field of a width.
    pub fn visual_cursor(&self, width: u16) -> (at: (usize, usize))
        requires
            self.wf(),
            2 * self@.buffer.len() <= usize::MAX,
        ensures
            (at.0 as int, at.1 as int) == visual_position(self@, width),
    {
        let width = if width == 0 {
            1usize
        } else {
            width as usize
        };
        let ghost all = self@.buffer;
        let mut row: usize = 0;
        let mut column: usize = 0;
        let mut at: usize = 0;
        while at < self.cursor
            invariant
                at <= self.cursor <= self.buffer@.len(),
                all == self.buffer@,
                2 * all.len() <= usize::MAX,
                1 <= width <= 65535,
                column < width,
                row <= 2 * at,
                (row as int, column as int) == visual_end(all.take(at as int), width as int),
            decreases self.cursor - at,
        {
            let ch = self.buffer[at];
            assert(all.take(at + 1).drop_last() =~= all.take(at as int));
            assert(all.take(at + 1).last() == ch);
            at += 1;
            if ch == '\n' {
                row += 1;
                column = 0;
                continue ;
            }
            let w = cells_of(ch);
            if w > 0 && column + w > width {
                row += 1;
                column = 0;
            }
            column += w;
            if column >= width {
                row += 1;
                column = 0;
            }
        }
        (row, column)
    }
}

/// The cursor is always shown within the width of the field.
pub proof fn law_cursor_stays_within_the_width(text: Seq<char>, width: u16)
    ensures
        0 <= visual_end(text, field_width(width)).1 < field_width(width),
        0 <= visual_end(text, field_width(width)).0,
    decreases text.len(),
{
    if text.len() > 0 {
        law_cursor_stays_within_the_width(text.drop_last(), width);
    }
}

/// How many line feeds a text holds.
pub open spec fn line_feeds(text: Seq<char>) -> nat
    decreases text.len(),
{
    if text.len() == 0 {
        0
    } else {
        line_feeds(text.drop_last()) + (if text.last() == '\n' {
            1nat
        } else {
            0nat
        })
    }
}

proof fn lemma_rows_count_line_feeds(text: Seq<char>, width: u16)
    ensures
        visual_end(text, field_width(width)).0 >= line_feeds(text),
    decreases text.len(),
{
    if text.len() > 0 {
        lemma_rows_count_line_feeds(text.drop_last(), width);
    }
}

/// The cursor is shown in a column within the field and at least as many rows down as
/// there are line feeds before it; at the start of the text it is shown at the start of
/// the field. Nothing behind it matters, and a field without any width counts as one of
/// a single column.
pub proof fn law_cursor_is_shown_behind_the_text_before_it(
    editor: EditorView,
    other: EditorView,
    width: u16,
)
    requires
        0 <= editor.cursor <= editor.buffer.len(),
        0 <= other.cursor <= other.buffer.len(),
        editor.buffer.take(editor.cursor) == other.buffer.take(other.cursor),
    ensures
        0 <= visual_position(editor, width).1 < field_width(width),
        visual_position(editor, width).0 >= line_feeds(editor.buffer.take(editor.cursor)),
        editor.cursor == 0 ==> visual_position(editor, width) == (0int, 0int),
        visual_position(editor, width) == visual_position(other, width),
        visual_position(editor, 0) == visual_position(editor, 1),
{
    let text = editor.buffer.take(editor.cursor);
    law_cursor_stays_within_the_width(text, width);
    lemma_rows_count_line_feeds(text, width);
}

/// Removing the character before the cursor takes back the one that was put there.
pub proof fn law_backspace_undoes_insert(buffer: Seq<char>, cursor: int, character: char)
    requires
        0 <= cursor <= buffer.len(),
    ensures
        buffer.insert(cursor, character).remove(cursor) == buffer,
{
    assert(buffer.insert(cursor, character).remove(cursor) =~= buffer);
}

/// Removing a word leaves a part of the text before the cursor, and all that follows it.
pub proof fn law_word_lies_before_the_cursor(buffer: Seq<char>, cursor: int)
    requires
        0 <= cursor <= buffer.len(),
    ensures
        0 <= word_left(buffer, cursor) <= cursor,
        cursor <= word_right(buffer, cursor) <= buffer.len(),
        forall|i: int|
            word_left(buffer, cursor) <= i < back_over(buffer, cursor, true)
                ==> !is_white_space(#[trigger] buffer[i]),
{
    lemma_back_over(buffer, cursor, true);
    lemma_back_over(buffer, back_over(buffer, cursor, true), false);
    lemma_forth_over(buffer, cursor, true);
    lemma_forth_over(buffer, forth_over(buffer, cursor, true), false);
}

proof fn lemma_back_over(buffer: Seq<char>, at: int, white: bool)
    requires
        0 <= at <= buffer.len(),
    ensures
        0 <= back_over(buffer, at, white) <= at,
        forall|i: int|
            back_over(buffer, at, white) <= i < at ==> is_white_space(#[trigger] buffer[i]) == white,
    decreases at,
{
    if at > 0 && is_white_space(buffer[at - 1]) == white {
        lemma_back_over(buffer, at - 1, white);
    }
}

proof fn lemma_forth_over(buffer: Seq<char>, at: int, white: bool)
    requires
        0 <= at <= buffer.len(),
    ensures
        at <= forth_over(buffer, at, white) <= buffer.len(),
    decreases buffer.len() - at,
{
    if at < buffer.len() && is_white_space(buffer[at]) == white {
        lemma_forth_over(buffer, at + 1, white);
    }
}

/// The start of a line stands behind the line feed before the cursor, its end before the
/// next one.
pub proof fn law_line_runs_from_line_feed_to_line_feed(buffer: Seq<char>, at: int)
    requires
        0 <= at <= buffer.len(),
    ensures
        ({
            let start = line_start(buffer, at);
            let end = line_end(buffer, at);
            &&& 0 <= start <= at <= end <= buffer.len()
            &&& start == 0 || buffer[start - 1] == '\n'
            &&& end == buffer.len() || buffer[end] == '\n'
            &&& forall|i: int| start <= i < end ==> #[trigger] buffer[i] != '\n'
        }),
{
    lemma_line_start(buffer, at);
    lemma_line_end(buffer, at);
}

proof fn lemma_line_start(buffer: Seq<char>, at: int)
    requires
        0 <= at <= buffer.len(),
    ensures
        0 <= line_start(buffer, at) <= at,
        line_start(buffer, at) == 0 || buffer[line_start(buffer, at) - 1] == '\n',
        forall|i: int| line_start(buffer, at) <= i < at ==> #[trigger] buffer[i] != '\n',
    decreases at,
{
    if at > 0 && buffer[at - 1] != '\n' {
        lemma_line_start(buffer, at - 1);
    }
}

proof fn lemma_line_end(buffer: Seq<char>, at: int)
    requires
        0 <= at <= buffer.len(),
    ensures
        at <= line_end(buffer, at) <= buffer.len(),
        line_end(buffer, at) == buffer.len() || buffer[line_end(buffer, at)] == '\n',
        forall|i: int| at <= i < line_end(buffer, at) ==> #[trigger] buffer[i] != '\n',
    decreases buffer.len() - at,
{
    if at < buffer.len() && buffer[at] != '\n' {
        lemma_line_end(buffer, at + 1);
    }
}

/// To the left a word ends before the white space before the cursor, and starts behind the
/// white space before that; to the right it is the other way round.
pub proof fn law_words_lie_between_white_space(buffer: Seq<char>, at: int)
    requires
        0 <= at <= buffer.len(),
    ensures
        exists|end: int|
            {
                let start = word_left(buffer, at);
                &&& 0 <= start <= end <= at
                &&& forall|i: int| end <= i < at ==> is_white_space(#[trigger] buffer[i])
                &&& forall|i: int| start <= i < end ==> !is_white_space(#[trigger] buffer[i])
                &&& start == 0 || is_white_space(buffer[start - 1])
                &&& end == 0 || !is_white_space(#[trigger] buffer[end - 1])
            },
        exists|start: int|
            {
                let end = word_right(buffer, at);
                &&& at <= start <= end <= buffer.len()
                &&& forall|i: int| at <= i < start ==> is_white_space(#[trigger] buffer[i])
                &&& forall|i: int| start <= i < end ==> !is_white_space(#[trigger] buffer[i])
                &&& end == buffer.len() || is_white_space(buffer[end])
                &&& start == buffer.len() || !is_white_space(#[trigger] buffer[start])
            },
{
    let end = back_over(buffer, at, true);
    lemma_run_back(buffer, at, true);
    lemma_run_back(buffer, end, false);
    let start = forth_over(buffer, at, true);
    lemma_run_forth(buffer, at, true);
    lemma_run_forth(buffer, start, false);
    assert(end == 0 || !is_white_space(buffer[end - 1]));
    assert(start == buffer.len() || !is_white_space(buffer[start]));
    let left = word_left(buffer, at);
    let right = word_right(buffer, at);
    assert(0 <= left <= end <= at && (left == 0 || is_white_space(buffer[left - 1])));
    assert(at <= start <= right && (right == buffer.len() || is_white_space(buffer[right])));
}

proof fn lemma_run_back(buffer: Seq<char>, at: int, white: bool)
    requires
        0 <= at <= buffer.len(),
    ensures
        0 <= back_over(buffer, at, white) <= at,
        forall|i: int|
            back_over(buffer, at, white) <= i < at ==> is_white_space(#[trigger] buffer[i])
                == white,
        back_over(buffer, at, white) == 0 || is_white_space(
            buffer[back_over(buffer, at, white) - 1],
        ) != white,
    decreases at,
{
    if at > 0 && is_white_space(buffer[at - 1]) == white {
        lemma_run_back(buffer, at - 1, white);
    }
}

proof fn lemma_run_forth(buffer: Seq<char>, at: int, white: bool)
    requires
        0 <= at <= buffer.len(),
    ensures
        at <= forth_over(buffer, at, white) <= buffer.len(),
        forall|i: int|
            at <= i < forth_over(buffer, at, white) ==> is_white_space(#[trigger] buffer[i])
                == white,
        forth_over(buffer, at, white) == buffer.len() || is_white_space(
            buffer[forth_over(buffer, at, white)],
        ) != white,
    decreases buffer.len() - at,
{
    if at < buffer.len() && is_white_space(buffer[at]) == white {
        lemma_run_forth(buffer, at + 1, white);
    }
}

/// Of a text that is put in, every character stays but carriage returns.
pub proof fn law_only_carriage_returns_are_left_out(s: Seq<char>)
    ensures
        without_returns(s) == s.filter(|c: char| c != '\r'),
    decreases s.len(),
{
    reveal(Seq::filter);
    if s.len() > 0 {
        law_only_carriage_returns_are_left_out(s.drop_last());
    }
    assert(without_returns(s) =~= s.filter(|c: char| c != '\r'));
}

/// A line feed starts the next row. Any other character moves the cursor on by its width; it
/// starts the next row where it does not fit, and so does what comes behind it where it
/// fills the row.
pub proof fn law_cursor_moves_on_by_the_width_of_a_character(
    text: Seq<char>,
    c: char,
    width: int,
)
    requires
        width > 0,
    ensures
        ({
            let at = visual_end(text, width);
            let next = visual_end(text.push(c), width);
            let w = cells(c) as int;
            &&& visual_end(Seq::empty(), width) == (0int, 0int)
            &&& c == '\n' ==> next == (at.0 + 1, 0int)
            &&& c != '\n' && at.1 + w < width ==> next == (at.0, at.1 + w)
            &&& c != '\n' && w > 0 && at.1 + w == width ==> next == (at.0 + 1, 0int)
            &&& c != '\n' && at.1 + w > width && w > 0 && w < width ==> next == (at.0 + 1, w)
        }),
{
    assert(text.push(c).drop_last() =~= text);
}

/// What is typed and then taken back leaves the line as it was, cursor and all; so does what
/// is typed and then deleted from before it.
pub proof fn law_typing_is_undone(
    typing: &mut InputEditor,
    taking: &mut InputEditor,
    moving: &mut InputEditor,
    deleting: &mut InputEditor,
    character: char,
)
    requires
        old(typing).wf(),
        call_ensures(InputEditor::insert, (typing, character), ()),
        call_ensures(InputEditor::backspace, (taking,), ()),
        call_ensures(InputEditor::move_left, (moving,), ()),
        call_ensures(InputEditor::delete, (deleting,), ()),
    ensures
        old(taking)@ == final(typing)@ ==> final(taking)@ == old(typing)@,
        old(moving)@ == final(typing)@ && old(deleting)@ == final(moving)@ ==> final(deleting)@
            == old(typing)@,
{
    let before = old(typing)@;
    law_backspace_undoes_insert(before.buffer, before.cursor, character);
}

/// A character is typed where the cursor stands: what was before it stays before it, what
/// was behind it stays behind it, and so it is with a text that is put in.
pub proof fn law_text_is_put_in_at_the_cursor(
    typing: &mut InputEditor,
    pasting: &mut InputEditor,
    character: char,
    text: &str,
)
    requires
        old(typing).wf(),
        old(pasting).wf(),
        call_ensures(InputEditor::insert, (typing, character), ()),
        call_ensures(InputEditor::insert_text, (pasting, text), ()),
    ensures
        final(typing)@.buffer == old(typing)@.buffer.take(old(typing)@.cursor) + seq![character]
            + old(typing)@.buffer.skip(old(typing)@.cursor),
        final(typing)@.cursor == old(typing)@.cursor + 1,
        final(pasting)@.buffer == old(pasting)@.buffer.take(old(pasting)@.cursor) + text@.filter(
            |c: char| c != '\r',
        ) + old(pasting)@.buffer.skip(old(pasting)@.cursor),
        final(pasting)@.cursor == old(pasting)@.cursor + text@.filter(|c: char| c != '\r').len(),
{
    let before = old(typing)@;
    assert(before.buffer.insert(before.cursor, character) =~= before.buffer.take(before.cursor)
        + seq![character] + before.buffer.skip(before.cursor));
    law_only_carriage_returns_are_left_out(text@);
}

/// A step to the left and a step to the right undo each other within the line, and neither
/// changes the text.
pub proof fn law_steps_undo_each_other(left: &mut InputEditor, right: &mut InputEditor)
    requires
        old(left).wf(),
        old(right).wf(),
        call_ensures(InputEditor::move_left, (left,), ()),
        call_ensures(InputEditor::move_right, (right,), ()),
    ensures
        final(left)@.buffer == old(left)@.buffer,
        final(right)@.buffer == old(right)@.buffer,
        old(left)@.cursor > 0 && old(right)@ == final(left)@ ==> final(right)@ == old(left)@,
        old(right)@.cursor < old(right)@.buffer.len() && old(left)@ == final(right)@
            ==> final(left)@ == old(right)@,
        old(left)@.cursor == 0 ==> final(left)@ == old(left)@,
        old(right)@.cursor == old(right)@.buffer.len() ==> final(right)@ == old(right)@,
{
}

} // verus!
