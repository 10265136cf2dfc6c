use my_agent::entry::tui::input_editor::{InputEditor, cells_of};
use unicode_width::UnicodeWidthChar;

#[test]
fn edits_cjk_without_using_byte_offsets() {
    let mut editor = InputEditor::default();
    editor.insert_text("你好 world");
    editor.delete_word_left();
    assert_eq!(editor.text(), "你好 ");
    editor.backspace();
    assert_eq!(editor.text(), "你好");
    editor.move_left();
    editor.backspace();
    assert_eq!(editor.text(), "好");
}

#[test]
fn computes_wrapped_visual_cursor_for_wide_characters() {
    let mut editor = InputEditor::default();
    editor.insert_text("ab中文");
    assert_eq!(editor.visual_cursor(4), (1, 2));
    editor.insert('\n');
    editor.insert_text("x");
    assert_eq!(editor.visual_cursor(4), (2, 1));
}

#[test]
fn every_character_is_as_wide_as_the_width_table_says() {
    for code in 0..=0x10ffffu32 {
        if let Some(c) = char::from_u32(code) {
            assert_eq!(cells_of(c), c.width().unwrap_or(0), "{code:x}");
        }
    }
    assert_eq!(cells_of('a'), 1);
    assert_eq!(cells_of('中'), 2);
    assert_eq!(cells_of('\u{7}'), 0);
}

#[test]
fn cursor_moves_by_lines_and_words() {
    let mut editor = InputEditor::default();
    editor.insert_text("one two\nthree four");
    assert_eq!(editor.cursor(), 18);
    editor.move_line_start();
    assert_eq!(editor.cursor(), 8);
    editor.move_word_right();
    assert_eq!(editor.cursor(), 13);
    editor.move_line_end();
    assert_eq!(editor.cursor(), 18);
    editor.move_word_left();
    assert_eq!(editor.cursor(), 14);
    editor.move_word_left();
    editor.move_word_left();
    assert_eq!(editor.cursor(), 4);
    editor.delete();
    assert_eq!(editor.text(), "one wo\nthree four");
    editor.move_right();
    assert_eq!(editor.cursor(), 5);
    assert!(!editor.is_single_line());
}

#[test]
fn ends_of_the_text_stop_the_cursor() {
    let mut editor = InputEditor::default();
    editor.backspace();
    editor.delete();
    editor.move_left();
    editor.move_right();
    assert!(editor.is_empty());
    assert_eq!(editor.cursor(), 0);
    assert_eq!(editor.visual_cursor(0), (0, 0));
}

#[test]
fn pasted_text_loses_its_carriage_returns() {
    let mut editor = InputEditor::default();
    editor.insert_text("a\r\nb\rc");
    assert_eq!(editor.text(), "a\nbc");
    editor.replace("x\ry");
    assert_eq!(editor.take(), "x\ry");
    assert!(editor.is_blank());
}

#[test]
fn backspace_takes_back_an_inserted_character() {
    let mut editor = InputEditor::default();
    editor.replace("ab");
    editor.move_left();
    editor.insert('中');
    assert_eq!(editor.text(), "a中b");
    editor.backspace();
    assert_eq!(editor.text(), "ab");
    assert_eq!(editor.cursor(), 1);
    editor.clear();
    assert_eq!(editor.text(), "");
}

#[test]
fn cursor_is_shown_behind_the_text_before_it() {
    let mut editor = InputEditor::default();
    assert_eq!(editor.visual_cursor(7), (0, 0));
    editor.insert_text("a\nb\ncd");
    let before = editor.visual_cursor(7);
    assert_eq!(before, (2, 2));
    assert_eq!(editor.visual_cursor(0), editor.visual_cursor(1));
    editor.insert_text(" behind it");
    for _ in 0..10 {
        editor.move_left();
    }
    assert_eq!(editor.visual_cursor(7), before);
}
