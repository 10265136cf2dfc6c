//! What is shown is shown in the colors of the theme, and in no others.
use vstd::prelude::*;

use super::input_editor::field_width;
use super::view::{
    body_line, body_of, broken, content_width, detail_lines, down, first_mark, glyphs_of, header,
    history_lines, history_rows, inline_spans, input_ops, input_rows, lemma_first_mark, mark,
    on_panel, one_span, prompt_rows, prose_line, question_rows, row_on_panel, screen, scroll_room,
    settled, shown_lines, small_screen, styled, talk_lines, theme_of, welcome, window, wrap_glyph,
    wrap_glyphs, wrapped, Color, Glyph, OpView, Rect, SpanView, Style, Theme,
};
use super::{message_views, MessageView, TuiState, TuiThemeMode};
use crate::provider::Role;
use crate::text::{first_at, lines, trim_start};

verus! {

/// Whether a line is in the colors of a theme.
pub open spec fn line_offered(line: Seq<SpanView>, theme: Theme) -> bool {
    forall|i: int| 0 <= i < line.len() ==> theme.offers((#[trigger] line[i]).style)
}

/// Whether lines are in the colors of a theme.
pub open spec fn lines_offered(list: Seq<Seq<SpanView>>, theme: Theme) -> bool {
    forall|i: int| 0 <= i < list.len() ==> line_offered(#[trigger] list[i], theme)
}

/// Whether a row is in the colors of a theme.
pub open spec fn row_offered(row: Seq<Glyph>, theme: Theme) -> bool {
    forall|i: int| 0 <= i < row.len() ==> theme.offers((#[trigger] row[i]).1)
}

/// Whether rows are in the colors of a theme.
pub open spec fn rows_offered(rows: Seq<Seq<Glyph>>, theme: Theme) -> bool {
    forall|i: int| 0 <= i < rows.len() ==> row_offered(#[trigger] rows[i], theme)
}

/// Whether something to draw is in the colors of a theme.
pub open spec fn op_offered(op: OpView, theme: Theme) -> bool {
    match op {
        OpView::Fill { style, .. } => theme.offers(style),
        OpView::Lines { lines, .. } => lines_offered(lines, theme),
        OpView::Rows { rows, style, frame, .. } => {
            &&& rows_offered(rows, theme)
            &&& theme.offers(style)
            &&& frame matches Some((title, border)) ==> theme.offers(border)
        },
        OpView::Frame { border, style, .. } => theme.offers(border) && theme.offers(style),
        OpView::Note { style, .. } => theme.offers(style),
        OpView::Cursor { .. } => true,
    }
}

/// Whether all things to draw are in the colors of a theme.
pub open spec fn ops_offered(ops: Seq<OpView>, theme: Theme) -> bool {
    forall|i: int| 0 <= i < ops.len() ==> op_offered(#[trigger] ops[i], theme)
}

proof fn lemma_inline(s: Seq<char>, from: int, base: Style, theme: Theme)
    requires
        theme.offers(base),
    ensures
        line_offered(inline_spans(s, from, base, theme), theme),
    decreases s.len() - from,
{
    if 0 <= from < s.len() {
        lemma_first_mark(s, from);
        if let Some((at, bold)) = first_mark(s, from) {
            let n = mark(bold).len() as int;
            if let Some(end) = first_at(s, mark(bold), at + n) {
                lemma_inline(s, end + n, base, theme);
                let tail = inline_spans(s, end + n, base, theme);
                let all = inline_spans(s, from, base, theme);
                assert forall|i: int| 0 <= i < all.len() implies theme.offers(
                    (#[trigger] all[i]).style,
                ) by {
                    if i >= 2 {
                        assert(all[i] == tail[i - 2]);
                    }
                }
            }
        }
    }
}

proof fn lemma_prose(source: Seq<char>, theme: Theme)
    ensures
        line_offered(prose_line(source, theme), theme),
{
    let line = prose_line(source, theme);
    let trimmed = trim_start(source);
    let heading = super::view::is_heading(trimmed);
    let body = if heading {
        trim_start(crate::text::without_leading(trimmed, '#'))
    } else {
        source
    };
    let base = if heading {
        theme.bold(theme.foreground)
    } else {
        theme.on_background(theme.foreground)
    };
    let tail = inline_spans(super::view::bulleted(body), 0, base, theme);
    lemma_inline(super::view::bulleted(body), 0, base, theme);
    assert forall|i: int| 0 <= i < line.len() implies theme.offers((#[trigger] line[i]).style) by {
        if i >= 1 {
            assert(line[i] == tail[i - 1]);
        }
    }
}

proof fn lemma_body(list: Seq<Seq<char>>, role: Role, theme: Theme)
    ensures
        lines_offered(body_of(list, role, theme).shown, theme),
    decreases list.len(),
{
    if list.len() > 0 {
        let front = list.drop_last();
        lemma_body(front, role, theme);
        lemma_prose(list.last(), theme);
        let before = body_of(front, role, theme);
        let after = body_of(list, role, theme);
        assert(after == body_line(before, list.last(), role, theme));
        assert forall|i: int| 0 <= i < after.shown.len() implies line_offered(
            #[trigger] after.shown[i],
            theme,
        ) by {
            if i < before.shown.len() {
                assert(after.shown[i] == before.shown[i]);
            }
        }
    }
}

proof fn lemma_details(all: Seq<Seq<char>>, theme: Theme)
    ensures
        lines_offered(detail_lines(all, theme), theme),
    decreases all.len(),
{
    if all.len() > 1 {
        lemma_details(all.drop_last(), theme);
        let before = detail_lines(all.drop_last(), theme);
        let after = detail_lines(all, theme);
        assert forall|i: int| 0 <= i < after.len() implies line_offered(
            #[trigger] after[i],
            theme,
        ) by {
            if i < before.len() {
                assert(after[i] == before[i]);
            }
        }
    }
}

proof fn lemma_message(message: MessageView, show_tools: bool, theme: Theme)
    ensures
        lines_offered(shown_lines(message, show_tools, theme), theme),
{
    let all = shown_lines(message, show_tools, theme);
    if message.role == Role::Tool {
        let details = detail_lines(lines(message.content), theme);
        lemma_details(lines(message.content), theme);
        assert forall|i: int| 0 <= i < all.len() implies line_offered(#[trigger] all[i], theme) by {
            if i >= 1 {
                assert(all[i] == details[i - 1]);
            }
        }
    } else {
        let body = body_of(lines(message.content), message.role, theme).shown;
        lemma_body(lines(message.content), message.role, theme);
        assert forall|i: int| 0 <= i < all.len() implies line_offered(#[trigger] all[i], theme) by {
            if 3 <= i < 3 + body.len() {
                assert(all[i] == body[i - 3]);
            }
        }
    }
}

proof fn lemma_talk(messages: Seq<MessageView>, show_tools: bool, theme: Theme)
    ensures
        lines_offered(talk_lines(messages, show_tools, theme), theme),
    decreases messages.len(),
{
    if messages.len() > 0 {
        lemma_talk(messages.drop_last(), show_tools, theme);
        lemma_message(messages.last(), show_tools, theme);
        let before = talk_lines(messages.drop_last(), show_tools, theme);
        let last = shown_lines(messages.last(), show_tools, theme);
        let all = talk_lines(messages, show_tools, theme);
        assert forall|i: int| 0 <= i < all.len() implies line_offered(#[trigger] all[i], theme) by {
            if i < before.len() {
                assert(all[i] == before[i]);
            } else {
                assert(all[i] == last[i - before.len()]);
            }
        }
    }
}

proof fn lemma_styled_offered(content: Seq<char>, style: Style, theme: Theme)
    requires
        theme.offers(style),
    ensures
        row_offered(styled(content, style), theme),
    decreases content.len(),
{
    if content.len() > 0 {
        lemma_styled_offered(content.drop_last(), style, theme);
        let before = styled(content.drop_last(), style);
        let all = styled(content, style);
        assert forall|i: int| 0 <= i < all.len() implies theme.offers((#[trigger] all[i]).1) by {
            if i < before.len() {
                assert(all[i] == before[i]);
            }
        }
    }
}

proof fn lemma_joined_rows(a: Seq<Glyph>, b: Seq<Glyph>, theme: Theme)
    requires
        row_offered(a, theme),
        row_offered(b, theme),
    ensures
        row_offered(a + b, theme),
{
    let all = a + b;
    assert forall|i: int| 0 <= i < all.len() implies theme.offers((#[trigger] all[i]).1) by {
        if i < a.len() {
            assert(all[i] == a[i]);
        } else {
            assert(all[i] == b[i - a.len()]);
        }
    }
}

proof fn lemma_glyphs(line: Seq<SpanView>, theme: Theme)
    requires
        line_offered(line, theme),
    ensures
        row_offered(glyphs_of(line), theme),
    decreases line.len(),
{
    if line.len() > 0 {
        let front = line.drop_last();
        assert forall|i: int| 0 <= i < front.len() implies theme.offers(
            (#[trigger] front[i]).style,
        ) by {
            assert(theme.offers(line[i].style));
        }
        lemma_glyphs(front, theme);
        assert(theme.offers(line[line.len() - 1].style));
        lemma_styled_offered(line.last().content, line.last().style, theme);
        lemma_joined_rows(
            glyphs_of(front),
            styled(line.last().content, line.last().style),
            theme,
        );
    }
}

proof fn lemma_wrapping(glyphs: Seq<Glyph>, width: int, theme: Theme)
    requires
        row_offered(glyphs, theme),
    ensures
        rows_offered(wrap_glyphs(glyphs, width).done, theme),
        row_offered(wrap_glyphs(glyphs, width).row, theme),
    decreases glyphs.len(),
{
    if glyphs.len() > 0 {
        let front = glyphs.drop_last();
        assert forall|i: int| 0 <= i < front.len() implies theme.offers((#[trigger] front[i]).1) by {
            assert(theme.offers(glyphs[i].1));
        }
        lemma_wrapping(front, width, theme);
        let before = wrap_glyphs(front, width);
        let broke = broken(before);
        let glyph = glyphs.last();
        assert(theme.offers(glyphs[glyphs.len() - 1].1));
        assert forall|i: int| 0 <= i < broke.done.len() implies row_offered(
            #[trigger] broke.done[i],
            theme,
        ) by {
            if i < before.done.len() {
                assert(broke.done[i] == before.done[i]);
            }
        }
        assert(row_offered(broke.row, theme));
        let longer = before.row.push(glyph);
        assert forall|i: int| 0 <= i < longer.len() implies theme.offers((#[trigger] longer[i]).1) by {
            if i < before.row.len() {
                assert(longer[i] == before.row[i]);
            }
        }
        let fresh = broke.row.push(glyph);
        assert(row_offered(fresh, theme));
        assert(wrap_glyphs(glyphs, width) == wrap_glyph(before, glyph, width));
    }
}

proof fn lemma_wrapped(list: Seq<Seq<SpanView>>, width: int, theme: Theme)
    requires
        lines_offered(list, theme),
    ensures
        rows_offered(wrapped(list, width), theme),
    decreases list.len(),
{
    if list.len() > 0 {
        let front = list.drop_last();
        assert forall|i: int| 0 <= i < front.len() implies line_offered(
            #[trigger] front[i],
            theme,
        ) by {
            assert(line_offered(list[i], theme));
        }
        lemma_wrapped(front, width, theme);
        assert(line_offered(list[list.len() - 1], theme));
        lemma_glyphs(list.last(), theme);
        lemma_wrapping(glyphs_of(list.last()), width, theme);
        let before = wrapped(front, width);
        let end = wrap_glyphs(glyphs_of(list.last()), width);
        let all = wrapped(list, width);
        assert forall|i: int| 0 <= i < all.len() implies row_offered(#[trigger] all[i], theme) by {
            if i < before.len() {
                assert(all[i] == before[i]);
            } else if i < before.len() + end.done.len() {
                assert(all[i] == end.done[i - before.len()]);
            } else {
                assert(all[i] == end.row);
            }
        }
    }
}

proof fn lemma_window(rows: Seq<Seq<Glyph>>, start: int, height: int, theme: Theme)
    requires
        rows_offered(rows, theme),
        0 <= start <= rows.len(),
        0 <= height,
    ensures
        rows_offered(window(rows, start, height), theme),
{
    let shown = window(rows, start, height);
    assert forall|i: int| 0 <= i < shown.len() implies row_offered(#[trigger] shown[i], theme) by {
        assert(shown[i] == rows[start + i]);
    }
}

proof fn lemma_panel_row(row: Seq<Glyph>, theme: Theme)
    requires
        row_offered(row, theme),
    ensures
        row_offered(row_on_panel(row, theme), theme),
    decreases row.len(),
{
    if row.len() > 0 {
        let front = row.drop_last();
        assert forall|i: int| 0 <= i < front.len() implies theme.offers((#[trigger] front[i]).1) by {
            assert(theme.offers(row[i].1));
        }
        lemma_panel_row(front, theme);
        assert(theme.offers(row[row.len() - 1].1));
        let before = row_on_panel(front, theme);
        let all = row_on_panel(row, theme);
        assert forall|i: int| 0 <= i < all.len() implies theme.offers((#[trigger] all[i]).1) by {
            if i < before.len() {
                assert(all[i] == before[i]);
            }
        }
    }
}

proof fn lemma_panel(rows: Seq<Seq<Glyph>>, theme: Theme)
    requires
        rows_offered(rows, theme),
    ensures
        rows_offered(on_panel(rows, theme), theme),
    decreases rows.len(),
{
    if rows.len() > 0 {
        let front = rows.drop_last();
        assert forall|i: int| 0 <= i < front.len() implies row_offered(
            #[trigger] front[i],
            theme,
        ) by {
            assert(row_offered(rows[i], theme));
        }
        lemma_panel(front, theme);
        assert(row_offered(rows[rows.len() - 1], theme));
        lemma_panel_row(rows.last(), theme);
        let before = on_panel(front, theme);
        let all = on_panel(rows, theme);
        assert forall|i: int| 0 <= i < all.len() implies row_offered(#[trigger] all[i], theme) by {
            if i < before.len() {
                assert(all[i] == before[i]);
            }
        }
    }
}

proof fn lemma_input(state: TuiState, theme: Theme, width: u16, area: Rect)
    ensures
        ops_offered(input_ops(state, theme, width, area), theme),
{
    let line = one_span(state.input@ + " "@, theme.on_background(theme.foreground));
    let list = Seq::<Seq<SpanView>>::empty().push(line);
    assert(line_offered(line, theme));
    assert(lines_offered(list, theme));
    lemma_wrapped(list, field_width(down(width, 4)), theme);
    let rows = input_rows(state, theme, width);
    let skip = scroll_room(rows.len(), super::view::inner_area(area).height as nat) as int;
    let rest = rows.skip(skip);
    assert forall|i: int| 0 <= i < rest.len() implies row_offered(#[trigger] rest[i], theme) by {
        assert(rest[i] == rows[skip + i]);
    }
    lemma_panel(rest, theme);
}

/// Everything on the screen is in the colors of the theme.
pub proof fn law_only_colors_of_the_theme(state: TuiState, area: Rect, regions: Seq<Rect>)
    ensures
        ops_offered(screen(state, area, regions), theme_of(state.theme_mode)),
        ops_offered(small_screen(state, area), theme_of(state.theme_mode)),
{
    let theme = theme_of(state.theme_mode);
    let width = content_width(area);
    // The head.
    let head = header(state, theme);
    assert(line_offered(head[0], theme));
    assert(line_offered(head[1], theme));
    assert(lines_offered(head, theme));
    // The conversation.
    let list = history_lines(state, theme);
    if state.messages@.len() == 0 {
        assert(lines_offered(welcome(theme), theme));
    } else {
        lemma_talk(message_views(state.messages@), state.show_tools, theme);
    }
    lemma_wrapped(list, field_width(down(width, 2)), theme);
    let rows = history_rows(state, theme, width);
    let room = scroll_room(rows.len(), regions[1].height as nat);
    lemma_window(rows, room - settled(state.scroll, room), regions[1].height as int, theme);
    // The question that waits for an answer.
    let prompt = prompt_rows(state, theme, width);
    if let Some(approval) = state.pending_approval {
        let line = one_span(approval.prompt@, theme.on_background(theme.warm));
        let asked = Seq::<Seq<SpanView>>::empty().push(line);
        assert(line_offered(line, theme));
        assert(lines_offered(asked, theme));
        lemma_wrapped(asked, field_width(down(width, 4)), theme);
    }
    let visible = down(regions[2].height, 4) as nat;
    let start = settled(state.approval_scroll, scroll_room(prompt.len(), visible)) as int;
    lemma_window(prompt, start, visible as int, theme);
    lemma_styled_offered("Y 允许一次"@, theme.on_background(theme.warm), theme);
    lemma_styled_offered("    N / Enter 拒绝"@, theme.quiet(), theme);
    lemma_joined_rows(
        styled("Y 允许一次"@, theme.on_background(theme.warm)),
        styled("    N / Enter 拒绝"@, theme.quiet()),
        theme,
    );
    let shown = window(prompt, start, visible as int);
    let question = question_rows(prompt, state.approval_scroll, visible, theme);
    assert forall|i: int| 0 <= i < question.len() implies row_offered(
        #[trigger] question[i],
        theme,
    ) by {
        if i < shown.len() {
            assert(question[i] == shown[i]);
        }
    }
    // The field for typing, and all together.
    lemma_input(state, theme, width, regions[3]);
    let field = input_ops(state, theme, width, regions[3]);
    let all = screen(state, area, regions);
    let front: int = if prompt.len() == 0 {
        3
    } else {
        4
    };
    assert(all.len() == front + field.len() + 1);
    assert forall|i: int| 0 <= i < all.len() implies op_offered(#[trigger] all[i], theme) by {
        if front <= i < front + field.len() {
            assert(all[i] == field[i - front]);
        }
    }
}

/// Whether a style leaves its colors to the terminal.
pub open spec fn leaves_colors(style: Style) -> bool {
    style.fg == Color::Reset && style.bg == Color::Reset
}

/// In the colors of the terminal nothing is painted in a fixed color.
pub proof fn law_terminal_theme_fixes_no_color(style: Style)
    requires
        theme_of(TuiThemeMode::Terminal).offers(style),
    ensures
        leaves_colors(style),
{
}

/// In the dark theme everything is painted in fixed colors.
pub proof fn law_dark_theme_fixes_all_colors(style: Style)
    requires
        theme_of(TuiThemeMode::Dark).offers(style),
    ensures
        style.fg != Color::Reset,
        style.bg != Color::Reset,
{
}

} // verus!
