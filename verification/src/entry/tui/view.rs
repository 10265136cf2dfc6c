//! What the terminal interface shows: a list of things to draw, made of its state.
use vstd::prelude::*;

use super::input_editor::{cells, cells_of, field_width};
use super::{message_views, MessageView, TuiState, TuiThemeMode, UiMessage};
use crate::number::{decimal, decimal_text};
use crate::outside::{
    asked_height, asked_heights, growing_rows, row_height, row_top, rows_fit, split_vertically,
    RowHeight,
};
use crate::path::{lemma_split_on_some, split_char, split_on};
use crate::provider::Role;
use crate::text::{
    after_prefix, begins_with, chars_of, find_from, first_at, is_control, is_control_char,
    lemma_first_at, lines, slice_text, split_lines, starts_with, strip_prefix, texts, trim_start,
    trim_start_matches, trimmed_start, without_leading,
};

verus! {

/// A color.
#[derive(Clone, Copy, Debug, PartialEq, Eq, Structural)]
pub enum Color {
    /// That of the terminal.
    Reset,
    Rgb(u8, u8, u8),
}

/// How a character is shown.
#[derive(Clone, Copy, Debug, PartialEq, Eq, Structural)]
pub struct Style {
    pub fg: Color,
    pub bg: Color,
    pub bold: bool,
    pub dim: bool,
}

/// The colors of a theme.
#[derive(Clone, Copy, Debug, PartialEq, Eq, Structural)]
pub struct Theme {
    pub background: Color,
    pub panel: Color,
    pub foreground: Color,
    pub muted: Color,
    pub border: Color,
    pub accent: Color,
    pub warm: Color,
    pub code: Color,
    /// Whether what is less important is dimmed.
    pub dim_muted: bool,
}

/// A theme that leaves all colors to the terminal.
pub open spec fn terminal_theme() -> Theme {
    Theme {
        background: Color::Reset,
        panel: Color::Reset,
        foreground: Color::Reset,
        muted: Color::Reset,
        border: Color::Reset,
        accent: Color::Reset,
        warm: Color::Reset,
        code: Color::Reset,
        dim_muted: true,
    }
}

/// A dark theme.
pub open spec fn dark_theme() -> Theme {
    Theme {
        background: Color::Rgb(19, 22, 29),
        panel: Color::Rgb(27, 32, 42),
        foreground: Color::Rgb(220, 225, 234),
        muted: Color::Rgb(143, 155, 174),
        border: Color::Rgb(62, 73, 91),
        accent: Color::Rgb(148, 181, 255),
        warm: Color::Rgb(230, 185, 119),
        code: Color::Rgb(166, 206, 189),
        dim_muted: false,
    }
}

/// The theme of a mode.
pub open spec fn theme_of(mode: TuiThemeMode) -> Theme {
    match mode {
        TuiThemeMode::Terminal => terminal_theme(),
        TuiThemeMode::Dark => dark_theme(),
    }
}

impl Theme {
    /// The theme of a mode.
    pub fn new(mode: TuiThemeMode) -> (theme: Theme)
        ensures
            theme == theme_of(mode),
    {
        match mode {
            TuiThemeMode::Terminal => Theme {
                background: Color::Reset,
                panel: Color::Reset,
                foreground: Color::Reset,
                muted: Color::Reset,
                border: Color::Reset,
                accent: Color::Reset,
                warm: Color::Reset,
                code: Color::Reset,
                dim_muted: true,
            },
            TuiThemeMode::Dark => Theme {
                background: Color::Rgb(19, 22, 29),
                panel: Color::Rgb(27, 32, 42),
                foreground: Color::Rgb(220, 225, 234),
                muted: Color::Rgb(143, 155, 174),
                border: Color::Rgb(62, 73, 91),
                accent: Color::Rgb(148, 181, 255),
                warm: Color::Rgb(230, 185, 119),
                code: Color::Rgb(166, 206, 189),
                dim_muted: false,
            },
        }
    }

    /// A color on the background.
    pub open spec fn on_background(self, color: Color) -> Style {
        Style { fg: color, bg: self.background, bold: false, dim: false }
    }

    /// A color on the background.
    pub fn style(self, color: Color) -> (style: Style)
        ensures
            style == self.on_background(color),
    {
        Style { fg: color, bg: self.background, bold: false, dim: false }
    }

    /// A color on the background, bold.
    pub open spec fn bold(self, color: Color) -> Style {
        Style { fg: color, bg: self.background, bold: true, dim: false }
    }

    /// What is less important.
    pub open spec fn quiet(self) -> Style {
        Style { fg: self.muted, bg: self.background, bold: false, dim: self.dim_muted }
    }

    /// What is less important.
    pub fn muted_style(self) -> (style: Style)
        ensures
            style == self.quiet(),
    {
        Style { fg: self.muted, bg: self.background, bold: false, dim: self.dim_muted }
    }

    /// A style on a panel.
    pub open spec fn on_panel(self, style: Style) -> Style {
        Style { bg: self.panel, ..style }
    }

    /// Whether a style is made of the theme's colors.
    pub open spec fn offers(self, style: Style) -> bool {
        &&& style.bg == self.background || style.bg == self.panel
        &&& {
            ||| style.fg == self.foreground
            ||| style.fg == self.muted
            ||| style.fg == self.border
            ||| style.fg == self.accent
            ||| style.fg == self.warm
            ||| style.fg == self.code
        }
    }
}

/// A piece of text in one style.
#[derive(Clone, Debug, PartialEq, Eq)]
pub struct Span {
    pub content: String,
    pub style: Style,
}

/// The mathematical value of a [`Span`].
pub struct SpanView {
    pub content: Seq<char>,
    pub style: Style,
}

impl View for Span {
    type V = SpanView;

    open spec fn view(&self) -> SpanView {
        SpanView { content: self.content@, style: self.style }
    }
}

/// A line of text.
#[derive(Clone, Debug, PartialEq, Eq)]
pub struct Line {
    pub spans: Vec<Span>,
}

impl View for Line {
    type V = Seq<SpanView>;

    open spec fn view(&self) -> Seq<SpanView> {
        Seq::new(self.spans@.len(), |i: int| self.spans@[i]@)
    }
}

/// The views of some lines.
pub open spec fn line_views(list: Seq<Line>) -> Seq<Seq<SpanView>> {
    Seq::new(list.len(), |i: int| list[i]@)
}

/// A character in a style.
pub type Glyph = (char, Style);

/// A line that fits the screen.
#[derive(Clone, Debug, PartialEq, Eq)]
pub struct Row {
    pub glyphs: Vec<Glyph>,
}

impl View for Row {
    type V = Seq<Glyph>;

    open spec fn view(&self) -> Seq<Glyph> {
        self.glyphs@
    }
}

/// The views of some rows.
pub open spec fn row_views(rows: Seq<Row>) -> Seq<Seq<Glyph>> {
    Seq::new(rows.len(), |i: int| rows[i]@)
}

/// How many columns some characters take.
pub open spec fn row_width(row: Seq<Glyph>) -> nat
    decreases row.len(),
{
    if row.len() == 0 {
        0
    } else {
        row_width(row.drop_last()) + cells(row.last().0)
    }
}

impl Row {
    /// How many columns the row takes.
    pub fn width(&self) -> (width: usize)
        ensures
            width == (if row_width(self@) <= usize::MAX {
                row_width(self@)
            } else {
                usize::MAX as nat
            }),
    {
        let mut width: usize = 0;
        let mut at: usize = 0;
        assert(self@.take(0) =~= Seq::empty());
        while at < self.glyphs.len()
            invariant
                at <= self.glyphs@.len(),
                self@ == self.glyphs@,
                width == (if row_width(self@.take(at as int)) <= usize::MAX {
                    row_width(self@.take(at as int))
                } else {
                    usize::MAX as nat
                }),
            decreases self.glyphs@.len() - at,
        {
            assert(self@.take(at + 1).drop_last() =~= self@.take(at as int));
            let n = cells_of(self.glyphs[at].0);
            if width > usize::MAX - n {
                width = usize::MAX;
            } else {
                width += n;
            }
            at += 1;
        }
        assert(self@.take(at as int) =~= self@);
        width
    }
}

/// A text in one style, character by character.
pub open spec fn styled(content: Seq<char>, style: Style) -> Seq<Glyph>
    decreases content.len(),
{
    if content.len() == 0 {
        Seq::empty()
    } else {
        styled(content.drop_last(), style).push((content.last(), style))
    }
}

/// The characters of a line.
pub open spec fn glyphs_of(line: Seq<SpanView>) -> Seq<Glyph>
    decreases line.len(),
{
    if line.len() == 0 {
        Seq::empty()
    } else {
        glyphs_of(line.drop_last()) + styled(line.last().content, line.last().style)
    }
}

/// A line that is being brought to a width: the rows that are full, and the one that is
/// not, with the columns it takes.
pub struct Wrapping {
    pub done: Seq<Seq<Glyph>>,
    pub row: Seq<Glyph>,
    pub used: nat,
}

/// The row that is not full is.
pub open spec fn broken(at: Wrapping) -> Wrapping {
    Wrapping { done: at.done.push(at.row), row: Seq::empty(), used: 0 }
}

/// One more character: a line feed ends the row, other control characters are left out,
/// and what does not fit goes to the next row.
pub open spec fn wrap_glyph(at: Wrapping, glyph: Glyph, width: int) -> Wrapping {
    if glyph.0 == '\n' {
        broken(at)
    } else if is_control_char(glyph.0) {
        at
    } else {
        let n = cells(glyph.0);
        let start = if at.used + n > width && at.used > 0 {
            broken(at)
        } else {
            at
        };
        Wrapping { done: start.done, row: start.row.push(glyph), used: start.used + n }
    }
}

/// Some characters brought to a width.
pub open spec fn wrap_glyphs(glyphs: Seq<Glyph>, width: int) -> Wrapping
    decreases glyphs.len(),
{
    if glyphs.len() == 0 {
        Wrapping { done: Seq::empty(), row: Seq::empty(), used: 0 }
    } else {
        wrap_glyph(wrap_glyphs(glyphs.drop_last(), width), glyphs.last(), width)
    }
}

/// The rows of a line.
pub open spec fn wrapped_line(line: Seq<SpanView>, width: int) -> Seq<Seq<Glyph>> {
    let end = wrap_glyphs(glyphs_of(line), width);
    end.done.push(end.row)
}

/// The rows of some lines.
pub open spec fn wrapped(list: Seq<Seq<SpanView>>, width: int) -> Seq<Seq<Glyph>>
    decreases list.len(),
{
    if list.len() == 0 {
        Seq::empty()
    } else {
        wrapped(list.drop_last(), width) + wrapped_line(list.last(), width)
    }
}

/// Whether each of some characters fits a width.
pub open spec fn narrow(glyphs: Seq<Glyph>, width: int) -> bool {
    forall|i: int| 0 <= i < glyphs.len() ==> cells((#[trigger] glyphs[i]).0) <= width
}

/// Whether each of some rows fits a width.
pub open spec fn all_fit(rows: Seq<Seq<Glyph>>, width: int) -> bool {
    forall|i: int| 0 <= i < rows.len() ==> row_width(#[trigger] rows[i]) <= width
}

proof fn lemma_wrapping_fits(glyphs: Seq<Glyph>, width: int)
    requires
        width >= 1,
        narrow(glyphs, width),
    ensures
        ({
            let end = wrap_glyphs(glyphs, width);
            end.used == row_width(end.row) && end.used <= width && all_fit(end.done, width)
        }),
    decreases glyphs.len(),
{
    if glyphs.len() > 0 {
        let front = glyphs.drop_last();
        assert forall|i: int| 0 <= i < front.len() implies cells((#[trigger] front[i]).0)
            <= width by {
            assert(cells(glyphs[i].0) <= width);
        }
        lemma_wrapping_fits(front, width);
        let before = wrap_glyphs(front, width);
        let glyph = glyphs.last();
        assert(cells(glyphs[glyphs.len() - 1].0) <= width);
        let broke = broken(before);
        assert forall|i: int| 0 <= i < broke.done.len() implies row_width(#[trigger] broke.done[i])
            <= width by {
            if i < before.done.len() {
                assert(broke.done[i] == before.done[i]);
            }
        }
        assert(before.row.push(glyph).drop_last() =~= before.row);
        assert(broke.row.push(glyph).drop_last() =~= broke.row);
        assert(row_width(broke.row) == 0);
    }
}

/// No row is wider than the screen, unless a single character is.
pub proof fn law_rows_fit_the_width(list: Seq<Seq<SpanView>>, width: int)
    requires
        width >= 1,
    ensures
        (forall|i: int| 0 <= i < list.len() ==> narrow(glyphs_of(#[trigger] list[i]), width))
            ==> all_fit(wrapped(list, width), width),
    decreases list.len(),
{
    if list.len() > 0 && (forall|i: int|
        0 <= i < list.len() ==> narrow(glyphs_of(#[trigger] list[i]), width)) {
        let front = list.drop_last();
        assert forall|i: int| 0 <= i < front.len() implies narrow(
            glyphs_of(#[trigger] front[i]),
            width,
        ) by {
            assert(narrow(glyphs_of(list[i]), width));
        }
        law_rows_fit_the_width(front, width);
        assert(narrow(glyphs_of(list[list.len() - 1]), width));
        lemma_wrapping_fits(glyphs_of(list.last()), width);
        let end = wrap_glyphs(glyphs_of(list.last()), width);
        let rows = wrapped(list, width);
        let before = wrapped(front, width);
        assert forall|i: int| 0 <= i < rows.len() implies row_width(#[trigger] rows[i]) <= width by {
            if i < before.len() {
                assert(rows[i] == before[i]);
            } else if i < before.len() + end.done.len() {
                assert(rows[i] == end.done[i - before.len()]);
            } else {
                assert(rows[i] == end.row);
            }
        }
    }
}

/// Some rows one after another.
pub open spec fn run_together(rows: Seq<Seq<Glyph>>) -> Seq<Glyph>
    decreases rows.len(),
{
    if rows.len() == 0 {
        Seq::empty()
    } else {
        run_together(rows.drop_last()) + rows.last()
    }
}

/// The characters that can be shown.
pub open spec fn printable(glyphs: Seq<Glyph>) -> Seq<Glyph>
    decreases glyphs.len(),
{
    if glyphs.len() == 0 {
        Seq::empty()
    } else if is_control_char(glyphs.last().0) {
        printable(glyphs.drop_last())
    } else {
        printable(glyphs.drop_last()).push(glyphs.last())
    }
}

proof fn lemma_nothing_lost(glyphs: Seq<Glyph>, width: int)
    ensures
        ({
            let end = wrap_glyphs(glyphs, width);
            run_together(end.done) + end.row == printable(glyphs)
        }),
    decreases glyphs.len(),
{
    if glyphs.len() > 0 {
        let front = glyphs.drop_last();
        lemma_nothing_lost(front, width);
        let before = wrap_glyphs(front, width);
        let broke = broken(before);
        let glyph = glyphs.last();
        assert(broke.done.drop_last() =~= before.done);
        assert(run_together(broke.done) + broke.row =~= run_together(before.done) + before.row);
        let end = wrap_glyphs(glyphs, width);
        if !is_control_char(glyph.0) {
            assert(run_together(end.done) + end.row =~= printable(front).push(glyph));
        }
    } else {
        assert(run_together(Seq::<Seq<Glyph>>::empty()) + Seq::<Glyph>::empty() =~= Seq::empty());
    }
}

/// All that can be shown of a line is shown, in its order.
pub proof fn law_wrapping_loses_nothing(line: Seq<SpanView>, width: int)
    ensures
        run_together(wrapped_line(line, width)) == printable(glyphs_of(line)),
{
    lemma_nothing_lost(glyphs_of(line), width);
    let end = wrap_glyphs(glyphs_of(line), width);
    assert(end.done.push(end.row).drop_last() =~= end.done);
}

proof fn lemma_styled(content: Seq<char>, style: Style, n: int)
    requires
        0 <= n <= content.len(),
    ensures
        styled(content.take(0), style) == Seq::<Glyph>::empty(),
        styled(content.take(content.len() as int), style) == styled(content, style),
        n < content.len() ==> styled(content.take(n + 1), style) == styled(
            content.take(n),
            style,
        ).push((content[n], style)),
{
    assert(content.take(content.len() as int) =~= content);
    if n < content.len() {
        assert(content.take(n + 1).drop_last() =~= content.take(n));
    }
}

fn wrap_into(line: &Line, width: usize, out: &mut Vec<Row>)
    requires
        1 <= width <= 65535,
    ensures
        row_views(final(out)@) == row_views(old(out)@) + wrapped_line(line@, width as int),
{
    let ghost before = row_views(out@);
    let mut row: Vec<Glyph> = Vec::new();
    let mut used: usize = 0;
    let mut at: usize = 0;
    assert(glyphs_of(line@.take(0)) =~= Seq::empty());
    assert(row_views(out@) =~= before + wrap_glyphs(glyphs_of(line@.take(0)), width as int).done);
    while at < line.spans.len()
        invariant
            at <= line.spans@.len(),
            1 <= width <= 65535,
            used <= 65535,
            ({
                let here = wrap_glyphs(glyphs_of(line@.take(at as int)), width as int);
                row_views(out@) == before + here.done && row@ == here.row && used == here.used
            }),
        decreases line.spans@.len() - at,
    {
        let ghost head = glyphs_of(line@.take(at as int));
        let style = line.spans[at].style;
        let ghost content = line.spans@[at as int].content@;
        assert(line@.take(at + 1).drop_last() =~= line@.take(at as int));
        assert(line@.take(at + 1).last() == line.spans@[at as int]@);
        proof {
            lemma_styled(content, style, 0);
        }
        assert(head + styled(content.take(0), style) =~= head);
        let text = line.spans[at].content.as_str();
        for ch in iter: text.chars()
            invariant
                iter.seq() == content,
                1 <= width <= 65535,
                used <= 65535,
                ({
                    let here = wrap_glyphs(
                        head + styled(content.take(iter.index() as int), style),
                        width as int,
                    );
                    row_views(out@) == before + here.done && row@ == here.row && used == here.used
                }),
        {
            let ghost now = head + styled(content.take(iter.index() as int), style);
            let ghost next = head + styled(content.take(iter.index() + 1), style);
            let glyph = (ch, style);
            proof {
                lemma_styled(content, style, iter.index() as int);
            }
            assert(next =~= now.push(glyph));
            assert(next.drop_last() =~= now);
            let ghost here = wrap_glyphs(now, width as int);
            let ghost rows = out@;
            if ch == '\n' {
                let mut full: Vec<Glyph> = Vec::new();
                std::mem::swap(&mut row, &mut full);
                let complete = Row { glyphs: full };
                out.push(complete);
                used = 0;
                assert(row_views(out@) =~= row_views(rows).push(complete@));
                assert(row_views(out@) =~= before + here.done.push(here.row));
                assert(row@ =~= Seq::empty());
            } else if !is_control(ch) {
                let n = cells_of(ch);
                if used + n > width && used > 0 {
                    let mut full: Vec<Glyph> = Vec::new();
                    std::mem::swap(&mut row, &mut full);
                    let complete = Row { glyphs: full };
                    out.push(complete);
                    used = 0;
                    assert(row_views(out@) =~= row_views(rows).push(complete@));
                    assert(row_views(out@) =~= before + here.done.push(here.row));
                    assert(row@ =~= Seq::empty());
                }
                row.push(glyph);
                used += n;
            }
        }
        proof {
            lemma_styled(content, style, 0);
        }
        at += 1;
    }
    assert(line@.take(at as int) =~= line@);
    let ghost end = wrap_glyphs(glyphs_of(line@), width as int);
    let ghost rows = out@;
    let last = Row { glyphs: row };
    out.push(last);
    assert(row_views(out@) =~= row_views(rows).push(last@));
    assert(row_views(out@) =~= before + end.done.push(end.row));
}

/// The rows of some lines on a screen of a width.
pub fn wrap_lines(list: &Vec<Line>, width: u16) -> (rows: Vec<Row>)
    ensures
        row_views(rows@) == wrapped(line_views(list@), field_width(width)),
{
    let width = if width == 0 {
        1usize
    } else {
        width as usize
    };
    let mut rows: Vec<Row> = Vec::new();
    let mut at: usize = 0;
    assert(row_views(rows@) =~= wrapped(line_views(list@).take(0), width as int));
    while at < list.len()
        invariant
            at <= list.len(),
            1 <= width <= 65535,
            row_views(rows@) == wrapped(line_views(list@).take(at as int), width as int),
        decreases list.len() - at,
    {
        assert(line_views(list@).take(at + 1).drop_last() =~= line_views(list@).take(at as int));
        assert(line_views(list@).take(at + 1).last() == list@[at as int]@);
        wrap_into(&list[at], width, &mut rows);
        at += 1;
    }
    assert(line_views(list@).take(at as int) =~= line_views(list@));
    rows
}

/// A piece of text.
pub open spec fn span_view(content: Seq<char>, style: Style) -> SpanView {
    SpanView { content, style }
}

/// A line without text.
pub open spec fn no_spans() -> Seq<SpanView> {
    Seq::empty()
}

/// A line of one piece.
pub open spec fn one_span(content: Seq<char>, style: Style) -> Seq<SpanView> {
    no_spans().push(span_view(content, style))
}

fn span(content: &str, style: Style) -> (out: Span)
    ensures
        out@ == span_view(content@, style),
{
    Span { content: content.to_owned(), style }
}

fn blank_line() -> (line: Line)
    ensures
        line@ == no_spans(),
{
    let line = Line { spans: Vec::new() };
    assert(line@ =~= no_spans());
    line
}

impl Line {
    /// The line with one piece more.
    fn with(self, content: &str, style: Style) -> (line: Line)
        ensures
            line@ == self@.push(span_view(content@, style)),
    {
        let ghost before = self@;
        let mut spans = self.spans;
        spans.push(span(content, style));
        let line = Line { spans };
        assert(line@ =~= before.push(span_view(content@, style)));
        line
    }
}

fn line_of(content: &str, style: Style) -> (line: Line)
    ensures
        line@ == one_span(content@, style),
{
    blank_line().with(content, style)
}

fn push_line(list: &mut Vec<Line>, line: Line)
    ensures
        line_views(final(list)@) == line_views(old(list)@).push(line@),
{
    let ghost before = list@;
    list.push(line);
    assert(line_views(list@) =~= line_views(before).push(line@));
}

/// The mark around what is bold, and that around code.
pub open spec fn mark(bold: bool) -> Seq<char> {
    if bold {
        seq!['*', '*']
    } else {
        seq!['`']
    }
}

/// The first mark in a text, and whether it is the one for bold text.
pub open spec fn first_mark(s: Seq<char>, from: int) -> Option<(int, bool)> {
    match (first_at(s, mark(true), from), first_at(s, mark(false), from)) {
        (Some(a), Some(b)) => if a <= b {
            Some((a, true))
        } else {
            Some((b, false))
        },
        (Some(a), None) => Some((a, true)),
        (None, Some(b)) => Some((b, false)),
        (None, None) => None,
    }
}

/// How what stands between two marks is shown.
pub open spec fn emphasis(bold: bool, base: Style, theme: Theme) -> Style {
    if bold {
        Style { bold: true, ..base }
    } else {
        Style { fg: theme.accent, bg: theme.panel, bold: true, dim: base.dim }
    }
}

/// A mark stands within the text, and takes some room.
pub proof fn lemma_first_mark(s: Seq<char>, from: int)
    requires
        0 <= from,
    ensures
        first_mark(s, from) matches Some((at, bold)) ==> from <= at && at + mark(bold).len()
            <= s.len() && mark(bold).len() >= 1 && (first_at(
            s,
            mark(bold),
            at + mark(bold).len(),
        ) matches Some(end) ==> at + mark(bold).len() <= end && end + mark(bold).len() <= s.len()),
{
    lemma_first_at(s, mark(true), from);
    lemma_first_at(s, mark(false), from);
    if let Some((at, bold)) = first_mark(s, from) {
        lemma_first_at(s, mark(bold), at + mark(bold).len());
    }
}

/// The pieces of a text from a position on: what stands between two marks is set off,
/// and a mark without its counterpart is shown as it is.
pub open spec fn inline_spans(s: Seq<char>, from: int, base: Style, theme: Theme) -> Seq<SpanView>
    decreases s.len() - from,
{
    if from < 0 || from >= s.len() {
        no_spans()
    } else {
        proof {
            lemma_first_mark(s, from);
        }
        let rest = one_span(s.skip(from), base);
        match first_mark(s, from) {
            None => rest,
            Some((at, bold)) => {
                let n = mark(bold).len() as int;
                match first_at(s, mark(bold), at + n) {
                    None => rest,
                    Some(end) => no_spans().push(span_view(s.subrange(from, at), base)).push(
                        span_view(s.subrange(at + n, end), emphasis(bold, base, theme)),
                    ) + inline_spans(s, end + n, base, theme),
                }
            },
        }
    }
}

fn mark_chars(bold: bool) -> (out: Vec<char>)
    ensures
        out@ == mark(bold),
{
    let mut out: Vec<char> = Vec::new();
    if bold {
        out.push('*');
        out.push('*');
        assert(out@ =~= mark(true));
    } else {
        out.push('`');
        assert(out@ =~= mark(false));
    }
    out
}

fn find_mark(chars: &Vec<char>, from: usize) -> (found: Option<(usize, bool)>)
    ensures
        match found {
            Some((at, bold)) => first_mark(chars@, from as int) == Some((at as int, bold)),
            None => first_mark(chars@, from as int) is None,
        },
{
    match (find_from(chars, &mark_chars(true), from), find_from(chars, &mark_chars(false), from)) {
        (Some(a), Some(b)) => if a <= b {
            Some((a, true))
        } else {
            Some((b, false))
        },
        (Some(a), None) => Some((a, true)),
        (None, Some(b)) => Some((b, false)),
        (None, None) => None,
    }
}

/// The pieces of a text in which marks set off what is bold and what is code, behind
/// those that a line has already.
pub fn inline(line: Line, value: &str, base: Style, theme: Theme) -> (out: Line)
    ensures
        out@ == line@ + inline_spans(value@, 0, base, theme),
{
    let chars = chars_of(value);
    let total = chars.len();
    let ghost before = line@;
    let ghost all = inline_spans(value@, 0, base, theme);
    let mut out = line;
    let mut from: usize = 0;
    assert(out@ + all =~= before + all);
    while from < total
        invariant
            from <= total,
            total == chars@.len(),
            chars@ == value@,
            before == line@,
            all == inline_spans(value@, 0, base, theme),
            out@ + inline_spans(value@, from as int, base, theme) == before + all,
        decreases total - from,
    {
        let ghost now = out@;
        proof {
            lemma_first_mark(value@, from as int);
        }
        let rest = slice_text(&chars, from, total);
        assert(rest@ =~= value@.skip(from as int));
        let (at, bold) = match find_mark(&chars, from) {
            Some(found) => found,
            None => {
                let done = out.with(rest.as_str(), base);
                assert(done@ =~= now + one_span(rest@, base));
                return done;
            },
        };
        let marker = mark_chars(bold);
        let n = marker.len();
        let end = match find_from(&chars, &marker, at + n) {
            Some(end) => end,
            None => {
                let done = out.with(rest.as_str(), base);
                assert(done@ =~= now + one_span(rest@, base));
                return done;
            },
        };
        let set_off = if bold {
            Style { fg: base.fg, bg: base.bg, bold: true, dim: base.dim }
        } else {
            Style { fg: theme.accent, bg: theme.panel, bold: true, dim: base.dim }
        };
        let plain = slice_text(&chars, from, at);
        let marked = slice_text(&chars, at + n, end);
        out = out.with(plain.as_str(), base).with(marked.as_str(), set_off);
        from = end + n;
        proof {
            let tail = inline_spans(value@, from as int, base, theme);
            let pair = no_spans().push(span_view(plain@, base)).push(span_view(marked@, set_off));
            assert(out@ =~= now + pair);
            assert(out@ + tail =~= now + (pair + tail));
        }
    }
    assert(inline_spans(value@, from as int, base, theme) =~= no_spans());
    assert(out@ + no_spans() =~= out@);
    out
}

/// At most so many characters of a heading are shown.
pub const HEADING_CHARS: usize = 70;

/// The front of a text.
pub open spec fn front_of(s: Seq<char>, n: int) -> Seq<char> {
    if s.len() <= n {
        s
    } else {
        s.take(n)
    }
}

/// A line of what is less important.
pub open spec fn quiet_line(theme: Theme, text: Seq<char>) -> Seq<SpanView> {
    one_span(text, theme.quiet())
}

/// The lines of a tool's output behind the first.
pub open spec fn detail_lines(all: Seq<Seq<char>>, theme: Theme) -> Seq<Seq<SpanView>>
    decreases all.len(),
{
    if all.len() <= 1 {
        Seq::empty()
    } else {
        detail_lines(all.drop_last(), theme).push(quiet_line(theme, "    "@ + all.last()))
    }
}

/// The lines of a tool's message: its first line, and the others where they are asked
/// for.
pub open spec fn tool_lines(content: Seq<char>, show_tools: bool, theme: Theme) -> Seq<
    Seq<SpanView>,
> {
    let all = lines(content);
    let heading = if all.len() > 0 {
        all[0]
    } else {
        "执行结果"@
    };
    let head = Seq::<Seq<SpanView>>::empty().push(
        quiet_line(theme, "  ✓ 工具  "@ + front_of(heading, HEADING_CHARS as int)),
    );
    if show_tools {
        head + detail_lines(all, theme)
    } else {
        head
    }
}

/// Who speaks, in words and in a color.
pub open spec fn speaker(role: Role, theme: Theme) -> (Seq<char>, Color) {
    match role {
        Role::User => ("›  你"@, theme.warm),
        Role::Assistant => ("✦  Agent"@, theme.accent),
        _ => ("·  提示"@, theme.muted),
    }
}

/// Whether a line is a heading, without the white space at its start.
pub open spec fn is_heading(trimmed: Seq<char>) -> bool {
    begins_with(trimmed, "#"@) && begins_with(without_leading(trimmed, '#'), " "@)
}

/// A line with a dot for the mark of a list.
pub open spec fn bulleted(body: Seq<char>) -> Seq<char> {
    match after_prefix(body, "- "@) {
        Some(rest) => "• "@ + rest,
        None => body,
    }
}

/// A line of the agent outside of code.
pub open spec fn prose_line(source: Seq<char>, theme: Theme) -> Seq<SpanView> {
    let trimmed = trim_start(source);
    let heading = is_heading(trimmed);
    let body = if heading {
        trim_start(without_leading(trimmed, '#'))
    } else {
        source
    };
    let base = if heading {
        theme.bold(theme.foreground)
    } else {
        theme.on_background(theme.foreground)
    };
    one_span("  "@, theme.on_background(theme.foreground)) + inline_spans(
        bulleted(body),
        0,
        base,
        theme,
    )
}

/// The lines of a message so far, and whether code is open.
pub struct Body {
    pub shown: Seq<Seq<SpanView>>,
    pub code: bool,
}

/// One more line of a message.
pub open spec fn body_line(at: Body, source: Seq<char>, role: Role, theme: Theme) -> Body {
    let trimmed = trim_start(source);
    if begins_with(trimmed, "```"@) {
        Body {
            shown: at.shown.push(
                if at.code {
                    quiet_line(theme, "  └"@)
                } else {
                    quiet_line(theme, "  ┌ "@ + without_leading(trimmed, '`'))
                },
            ),
            code: !at.code,
        }
    } else if at.code {
        Body {
            shown: at.shown.push(
                quiet_line(theme, "  │ "@).push(
                    span_view(source, theme.on_background(theme.code)),
                ),
            ),
            code: true,
        }
    } else if role == Role::User {
        Body {
            shown: at.shown.push(
                one_span("  "@ + source, theme.on_background(theme.foreground)),
            ),
            code: false,
        }
    } else {
        Body { shown: at.shown.push(prose_line(source, theme)), code: false }
    }
}

/// The lines of a message.
pub open spec fn body_of(list: Seq<Seq<char>>, role: Role, theme: Theme) -> Body
    decreases list.len(),
{
    if list.len() == 0 {
        Body { shown: Seq::empty(), code: false }
    } else {
        body_line(body_of(list.drop_last(), role, theme), list.last(), role, theme)
    }
}

/// The lines of a message as it is shown.
pub open spec fn shown_lines(message: MessageView, show_tools: bool, theme: Theme) -> Seq<
    Seq<SpanView>,
> {
    if message.role == Role::Tool {
        tool_lines(message.content, show_tools, theme)
    } else {
        let (words, color) = speaker(message.role, theme);
        (Seq::<Seq<SpanView>>::empty().push(no_spans()).push(
            one_span(words, theme.bold(color)),
        ).push(no_spans()) + body_of(lines(message.content), message.role, theme).shown).push(
            no_spans(),
        )
    }
}

fn tool_message_lines(content: &str, show_tools: bool, theme: Theme) -> (out: Vec<Line>)
    ensures
        line_views(out@) == tool_lines(content@, show_tools, theme),
{
    let all = split_lines(content);
    let mut out: Vec<Line> = Vec::new();
    assert(line_views(out@) =~= Seq::empty());
    assert(texts(all@).len() == all@.len());
    assert(all@.len() > 0 ==> texts(all@)[0] == all@[0]@);
    let heading = if all.len() > 0 {
        all[0].as_str()
    } else {
        "执行结果"
    };
    let chars = chars_of(heading);
    let shown = if chars.len() <= HEADING_CHARS {
        heading.to_owned()
    } else {
        let part = slice_text(&chars, 0, HEADING_CHARS);
        assert(part@ =~= heading@.take(HEADING_CHARS as int));
        part
    };
    let mut head = "  ✓ 工具  ".to_owned();
    head.append(shown.as_str());
    push_line(&mut out, line_of(head.as_str(), theme.muted_style()));
    let ghost first = line_views(out@);
    if show_tools && all.len() > 0 {
        let mut at: usize = 1;
        assert(detail_lines(texts(all@).take(1), theme) =~= Seq::empty());
        assert(line_views(out@) =~= first + detail_lines(texts(all@).take(1), theme));
        while at < all.len()
            invariant
                1 <= at <= all.len(),
                line_views(out@) == first + detail_lines(texts(all@).take(at as int), theme),
            decreases all.len() - at,
        {
            let ghost now = line_views(out@);
            let ghost before = detail_lines(texts(all@).take(at as int), theme);
            assert(texts(all@).take(at + 1).drop_last() =~= texts(all@).take(at as int));
            assert(texts(all@).take(at + 1).last() == all@[at as int]@);
            let mut text = "    ".to_owned();
            text.append(all[at].as_str());
            push_line(&mut out, line_of(text.as_str(), theme.muted_style()));
            assert(line_views(out@) =~= first + before.push(quiet_line(theme, text@)));
            at += 1;
        }
        assert(texts(all@).take(at as int) =~= texts(all@));
    }
    assert(line_views(out@) =~= tool_lines(content@, show_tools, theme));
    out
}

fn prose(source: &str, trimmed: &str, theme: Theme) -> (line: Line)
    requires
        trimmed@ == trim_start(source@),
    ensures
        line@ == prose_line(source@, theme),
{
    let bare = trim_start_matches(trimmed, '#');
    let heading = starts_with(trimmed, "#") && starts_with(bare.as_str(), " ");
    let body = if heading {
        trimmed_start(bare.as_str())
    } else {
        source.to_owned()
    };
    let text = match strip_prefix(body.as_str(), "- ") {
        Some(rest) => {
            let mut text = "• ".to_owned();
            text.append(rest.as_str());
            text
        },
        None => body,
    };
    let plain = theme.style(theme.foreground);
    let base = if heading {
        Style { fg: theme.foreground, bg: theme.background, bold: true, dim: false }
    } else {
        plain
    };
    inline(line_of("  ", plain), text.as_str(), base, theme)
}

/// The lines of a message as it is shown.
pub fn message_lines(message: &UiMessage, show_tools: bool, theme: Theme) -> (out: Vec<Line>)
    ensures
        line_views(out@) == shown_lines(message@, show_tools, theme),
{
    if message.role == Role::Tool {
        return tool_message_lines(message.content.as_str(), show_tools, theme);
    }
    let (words, color) = match message.role {
        Role::User => ("›  你", theme.warm),
        Role::Assistant => ("✦  Agent", theme.accent),
        _ => ("·  提示", theme.muted),
    };
    let mut out: Vec<Line> = Vec::new();
    assert(line_views(out@) =~= Seq::empty());
    push_line(&mut out, blank_line());
    push_line(
        &mut out,
        line_of(words, Style { fg: color, bg: theme.background, bold: true, dim: false }),
    );
    push_line(&mut out, blank_line());
    let ghost first = line_views(out@);
    let list = split_lines(message.content.as_str());
    let ghost all = lines(message.content@);
    let mut code = false;
    let mut at: usize = 0;
    assert(line_views(out@) =~= first + body_of(all.take(0), message.role, theme).shown);
    while at < list.len()
        invariant
            at <= list.len(),
            texts(list@) == all,
            ({
                let here = body_of(all.take(at as int), message.role, theme);
                line_views(out@) == first + here.shown && code == here.code
            }),
        decreases list.len() - at,
    {
        let source = list[at].as_str();
        let ghost here = body_of(all.take(at as int), message.role, theme);
        assert(all[at as int] == source@);
        assert(all.take(at + 1).drop_last() =~= all.take(at as int));
        assert(all.take(at + 1).last() == source@);
        let trimmed = trimmed_start(source);
        let line = if starts_with(trimmed.as_str(), "```") {
            code = !code;
            if code {
                let mut text = "  ┌ ".to_owned();
                text.append(trim_start_matches(trimmed.as_str(), '`').as_str());
                line_of(text.as_str(), theme.muted_style())
            } else {
                line_of("  └", theme.muted_style())
            }
        } else if code {
            line_of("  │ ", theme.muted_style()).with(source, theme.style(theme.code))
        } else if message.role == Role::User {
            let mut text = "  ".to_owned();
            text.append(source);
            line_of(text.as_str(), theme.style(theme.foreground))
        } else {
            prose(source, trimmed.as_str(), theme)
        };
        push_line(&mut out, line);
        assert(line_views(out@) =~= first + here.shown.push(line@));
        at += 1;
    }
    assert(all.take(at as int) =~= all);
    push_line(&mut out, blank_line());
    assert(line_views(out@) =~= shown_lines(message@, show_tools, theme));
    out
}

/// A part of the screen.
#[derive(Clone, Copy, Debug, PartialEq, Eq, Structural)]
pub struct Rect {
    pub x: u16,
    pub y: u16,
    pub width: u16,
    pub height: u16,
}

/// A number with more added, up to the largest there is.
pub open spec fn up(n: u16, by: u16) -> u16 {
    if n + by > u16::MAX {
        u16::MAX
    } else {
        (n + by) as u16
    }
}

/// A number with some taken away, down to zero.
pub open spec fn down(n: u16, by: u16) -> u16 {
    if n < by {
        0
    } else {
        (n - by) as u16
    }
}

/// The smaller of two numbers.
pub open spec fn least(a: u16, b: u16) -> u16 {
    if a <= b {
        a
    } else {
        b
    }
}

fn add_up(n: u16, by: u16) -> (out: u16)
    ensures
        out == up(n, by),
{
    if n > u16::MAX - by {
        u16::MAX
    } else {
        n + by
    }
}

fn take_down(n: u16, by: u16) -> (out: u16)
    ensures
        out == down(n, by),
{
    if n < by {
        0
    } else {
        n - by
    }
}

fn smaller(a: u16, b: u16) -> (out: u16)
    ensures
        out == least(a, b),
{
    if a <= b {
        a
    } else {
        b
    }
}

impl Rect {
    /// A part of the screen, cut off where the numbers of a terminal end.
    pub open spec fn cut(x: u16, y: u16, width: u16, height: u16) -> Rect {
        Rect {
            x,
            y,
            width: least(width, (u16::MAX - x) as u16),
            height: least(height, (u16::MAX - y) as u16),
        }
    }

    /// A part of the screen, cut off where the numbers of a terminal end.
    pub fn new(x: u16, y: u16, width: u16, height: u16) -> (rect: Rect)
        ensures
            rect == Rect::cut(x, y, width, height),
    {
        Rect { x, y, width: smaller(width, u16::MAX - x), height: smaller(height, u16::MAX - y) }
    }
}

/// Something to draw.
#[derive(Clone, Debug, PartialEq, Eq)]
pub enum DrawOp {
    /// To give a part of the screen a style.
    Fill { area: Rect, style: Style },
    /// Lines of text.
    Lines { area: Rect, lines: Vec<Line> },
    /// Rows of text in a style, in a frame with a title where there is one.
    Rows { area: Rect, rows: Vec<Row>, style: Style, frame: Option<(&'static str, Style)> },
    /// An empty frame with a title.
    Frame { area: Rect, title: &'static str, border: Style, style: Style },
    /// A text in one style.
    Note { area: Rect, text: String, style: Style },
    /// The cursor.
    Cursor { x: u16, y: u16 },
}

/// The mathematical value of a [`DrawOp`].
pub enum OpView {
    Fill { area: Rect, style: Style },
    Lines { area: Rect, lines: Seq<Seq<SpanView>> },
    Rows { area: Rect, rows: Seq<Seq<Glyph>>, style: Style, frame: Option<(Seq<char>, Style)> },
    Frame { area: Rect, title: Seq<char>, border: Style, style: Style },
    Note { area: Rect, text: Seq<char>, style: Style },
    Cursor { x: u16, y: u16 },
}

impl View for DrawOp {
    type V = OpView;

    open spec fn view(&self) -> OpView {
        match *self {
            DrawOp::Fill { area, style } => OpView::Fill { area, style },
            DrawOp::Lines { area, lines } => OpView::Lines { area, lines: line_views(lines@) },
            DrawOp::Rows { area, rows, style, frame } => OpView::Rows {
                area,
                rows: row_views(rows@),
                style,
                frame: match frame {
                    Some((title, border)) => Some((title@, border)),
                    None => None,
                },
            },
            DrawOp::Frame { area, title, border, style } => OpView::Frame {
                area,
                title: title@,
                border,
                style,
            },
            DrawOp::Note { area, text, style } => OpView::Note { area, text: text@, style },
            DrawOp::Cursor { x, y } => OpView::Cursor { x, y },
        }
    }
}

/// The views of some things to draw.
pub open spec fn op_views(ops: Seq<DrawOp>) -> Seq<OpView> {
    Seq::new(ops.len(), |i: int| ops[i]@)
}

fn push_op(ops: &mut Vec<DrawOp>, op: DrawOp)
    ensures
        op_views(final(ops)@) == op_views(old(ops)@).push(op@),
{
    let ghost before = ops@;
    ops.push(op);
    assert(op_views(ops@) =~= op_views(before).push(op@));
}

/// The width below which nothing but a request for a larger screen is shown.
pub const LEAST_WIDTH: u16 = 24;

/// The height below which nothing but a request for a larger screen is shown.
pub const LEAST_HEIGHT: u16 = 12;

/// The width beyond which the interface does not grow.
pub const WIDEST: u16 = 108;

/// Whether a screen is too small.
pub open spec fn too_small(area: Rect) -> bool {
    area.width < LEAST_WIDTH || area.height < LEAST_HEIGHT
}

/// The width of the interface on a screen.
pub open spec fn content_width(area: Rect) -> u16 {
    least(down(area.width, 4), WIDEST)
}

/// The part of the screen that the interface takes: in the middle, with some room.
pub open spec fn content_area(area: Rect) -> Rect {
    let width = content_width(area);
    Rect::cut(
        up(area.x, (down(area.width, width) / 2) as u16),
        up(area.y, 1),
        width,
        down(area.height, 2),
    )
}

fn content_width_of(area: Rect) -> (width: u16)
    ensures
        width == content_width(area),
{
    smaller(take_down(area.width, 4), WIDEST)
}

fn content_area_of(area: Rect) -> (content: Rect)
    ensures
        content == content_area(area),
{
    let width = content_width_of(area);
    Rect::new(
        add_up(area.x, take_down(area.width, width) / 2),
        add_up(area.y, 1),
        width,
        take_down(area.height, 2),
    )
}

/// The rows of what is being typed, with room for the cursor behind it.
pub open spec fn input_rows(state: TuiState, theme: Theme, width: u16) -> Seq<Seq<Glyph>> {
    wrapped(
        Seq::<Seq<SpanView>>::empty().push(
            one_span(state.input@ + " "@, theme.on_background(theme.foreground)),
        ),
        field_width(down(width, 4)),
    )
}

/// The rows of the question that waits for an answer.
pub open spec fn prompt_rows(state: TuiState, theme: Theme, width: u16) -> Seq<Seq<Glyph>> {
    match state.pending_approval {
        Some(approval) => wrapped(
            Seq::<Seq<SpanView>>::empty().push(
                one_span(approval.prompt@, theme.on_background(theme.warm)),
            ),
            field_width(down(width, 4)),
        ),
        None => Seq::empty(),
    }
}

fn wrap_text(text: &str, style: Style, width: u16) -> (rows: Vec<Row>)
    ensures
        row_views(rows@) == wrapped(
            Seq::<Seq<SpanView>>::empty().push(one_span(text@, style)),
            field_width(width),
        ),
{
    let mut list: Vec<Line> = Vec::new();
    assert(line_views(list@) =~= Seq::empty());
    push_line(&mut list, line_of(text, style));
    wrap_lines(&list, width)
}

fn input_rows_of(state: &TuiState, theme: Theme, width: u16) -> (rows: Vec<Row>)
    ensures
        row_views(rows@) == input_rows(*state, theme, width),
{
    let mut text = state.input.clone();
    text.append(" ");
    wrap_text(text.as_str(), theme.style(theme.foreground), take_down(width, 4))
}

fn prompt_rows_of(state: &TuiState, theme: Theme, width: u16) -> (rows: Vec<Row>)
    ensures
        row_views(rows@) == prompt_rows(*state, theme, width),
{
    match &state.pending_approval {
        Some(approval) => wrap_text(
            approval.prompt.as_str(),
            theme.style(theme.warm),
            take_down(width, 4),
        ),
        None => {
            let rows: Vec<Row> = Vec::new();
            assert(row_views(rows@) =~= Seq::empty());
            rows
        },
    }
}

/// A count in sixteen bits.
pub open spec fn short(n: nat) -> u16 {
    (n % 65536) as u16
}

/// How high the field for typing is, with its frame: up to four rows.
pub open spec fn input_height(rows: nat) -> u16 {
    let n = short(rows);
    if n < 1 {
        3
    } else if n > 4 {
        6
    } else {
        (n + 2) as u16
    }
}

/// How high the question that waits for an answer is, with its frame: what is left of
/// the screen, but four lines at least.
pub open spec fn prompt_height(rows: nat, content: Rect) -> u16 {
    if rows == 0 {
        0
    } else {
        let n = least(up(short(rows), 4), down(content.height, 8));
        if n < 4 {
            4
        } else {
            n
        }
    }
}

fn shorten(n: usize) -> (out: u16)
    ensures
        out == short(n as nat),
{
    (n % 65536) as u16
}

fn input_height_of(rows: usize) -> (height: u16)
    ensures
        height == input_height(rows as nat),
{
    let n = shorten(rows);
    if n < 1 {
        3
    } else if n > 4 {
        6
    } else {
        n + 2
    }
}

fn prompt_height_of(rows: usize, content: Rect) -> (height: u16)
    ensures
        height == prompt_height(rows as nat, content),
{
    if rows == 0 {
        return 0;
    }
    let n = smaller(add_up(shorten(rows), 4), take_down(content.height, 8));
    if n < 4 {
        4
    } else {
        n
    }
}

/// How high the parts of the interface are: the head, the conversation, the question that
/// waits for an answer, the field for typing, and the foot.
pub open spec fn part_heights(state: TuiState, area: Rect) -> Seq<RowHeight> {
    let theme = theme_of(state.theme_mode);
    let width = content_width(area);
    Seq::<RowHeight>::empty().push(RowHeight::Length(3)).push(RowHeight::AtLeast(1)).push(
        RowHeight::Length(
            prompt_height(prompt_rows(state, theme, width).len(), content_area(area)),
        ),
    ).push(RowHeight::Length(input_height(input_rows(state, theme, width).len()))).push(
        RowHeight::Length(1),
    )
}

/// How high the parts of the interface are.
pub fn part_heights_of(state: &TuiState, area: Rect) -> (heights: Vec<RowHeight>)
    ensures
        heights@ == part_heights(*state, area),
{
    let theme = Theme::new(state.theme_mode);
    let width = content_width_of(area);
    let prompt = prompt_rows_of(state, theme, width);
    let input = input_rows_of(state, theme, width);
    assert(row_views(prompt@).len() == prompt@.len());
    assert(row_views(input@).len() == input@.len());
    let mut heights: Vec<RowHeight> = Vec::new();
    heights.push(RowHeight::Length(3));
    heights.push(RowHeight::AtLeast(1));
    heights.push(RowHeight::Length(prompt_height_of(prompt.len(), content_area_of(area))));
    heights.push(RowHeight::Length(input_height_of(input.len())));
    heights.push(RowHeight::Length(1));
    assert(heights@ =~= part_heights(*state, area));
    heights
}

/// The name of a workspace: the last in its path.
pub open spec fn workspace_name(path: Seq<char>) -> Seq<char> {
    let name = split_on(path, '/').last();
    if name.len() == 0 {
        "workspace"@
    } else {
        name
    }
}

/// The head of the interface.
pub open spec fn header(state: TuiState, theme: Theme) -> Seq<Seq<SpanView>> {
    Seq::<Seq<SpanView>>::empty().push(
        one_span("✦ my-agent"@, theme.bold(theme.accent)).push(
            span_view("   /   "@, theme.on_background(theme.border)),
        ).push(
            span_view(
                workspace_name(state.workspace@),
                theme.on_background(theme.foreground),
            ),
        ),
    ).push(quiet_line(theme, "你的终端编码助手 · 对话、规划、执行"@))
}

fn header_lines(state: &TuiState, theme: Theme) -> (out: Vec<Line>)
    ensures
        line_views(out@) == header(*state, theme),
{
    proof {
        lemma_split_on_some(state.workspace@, '/');
        reveal_strlit("");
    }
    let parts = split_char(state.workspace.as_str(), '/');
    let last = parts[parts.len() - 1].as_str();
    assert(texts(parts@).last() == last@);
    let name = if chars_of(last).len() == 0 {
        "workspace"
    } else {
        last
    };
    let mut out: Vec<Line> = Vec::new();
    assert(line_views(out@) =~= Seq::empty());
    let bold = Style { fg: theme.accent, bg: theme.background, bold: true, dim: false };
    push_line(
        &mut out,
        line_of("✦ my-agent", bold).with("   /   ", theme.style(theme.border)).with(
            name,
            theme.style(theme.foreground),
        ),
    );
    push_line(
        &mut out,
        line_of("你的终端编码助手 · 对话、规划、执行", theme.muted_style()),
    );
    out
}

/// What is shown where nothing has been said yet.
pub open spec fn welcome(theme: Theme) -> Seq<Seq<SpanView>> {
    Seq::<Seq<SpanView>>::empty().push(no_spans()).push(
        one_span("从一个想法开始。"@, theme.on_background(theme.foreground)),
    ).push(no_spans()).push(quiet_line(theme, "  读取 README，帮我了解这个项目"@)).push(
        quiet_line(theme, "  先制定计划，再为项目补充测试"@),
    ).push(quiet_line(theme, "  调研配置读取位置，只返回结论"@)).push(no_spans()).push(
        quiet_line(theme, "  /resume  恢复历史会话"@),
    )
}

fn welcome_lines(theme: Theme) -> (out: Vec<Line>)
    ensures
        line_views(out@) == welcome(theme),
{
    let mut out: Vec<Line> = Vec::new();
    assert(line_views(out@) =~= Seq::empty());
    let quiet = theme.muted_style();
    push_line(&mut out, blank_line());
    push_line(&mut out, line_of("从一个想法开始。", theme.style(theme.foreground)));
    push_line(&mut out, blank_line());
    push_line(&mut out, line_of("  读取 README，帮我了解这个项目", quiet));
    push_line(&mut out, line_of("  先制定计划，再为项目补充测试", quiet));
    push_line(&mut out, line_of("  调研配置读取位置，只返回结论", quiet));
    push_line(&mut out, blank_line());
    push_line(&mut out, line_of("  /resume  恢复历史会话", quiet));
    out
}

/// The lines of some messages.
pub open spec fn talk_lines(messages: Seq<MessageView>, show_tools: bool, theme: Theme) -> Seq<
    Seq<SpanView>,
>
    decreases messages.len(),
{
    if messages.len() == 0 {
        Seq::empty()
    } else {
        talk_lines(messages.drop_last(), show_tools, theme) + shown_lines(
            messages.last(),
            show_tools,
            theme,
        )
    }
}

/// The lines of the conversation.
pub open spec fn history_lines(state: TuiState, theme: Theme) -> Seq<Seq<SpanView>> {
    if state.messages@.len() == 0 {
        welcome(theme)
    } else {
        talk_lines(message_views(state.messages@), state.show_tools, theme)
    }
}

/// The rows of the conversation.
pub open spec fn history_rows(state: TuiState, theme: Theme, width: u16) -> Seq<Seq<Glyph>> {
    wrapped(history_lines(state, theme), field_width(down(width, 2)))
}

fn append_lines(list: &mut Vec<Line>, more: Vec<Line>)
    ensures
        line_views(final(list)@) == line_views(old(list)@) + line_views(more@),
{
    let ghost before = line_views(list@);
    let ghost all = more@;
    assert(line_views(list@) =~= before + line_views(all).take(0));
    for line in iter: more
        invariant
            iter.seq() == all,
            line_views(list@) == before + line_views(all).take(iter.index() as int),
    {
        assert(all[iter.index() as int] == line);
        push_line(list, line);
        assert(line_views(list@) =~= before + line_views(all).take(iter.index() + 1));
    }
    assert(line_views(all).take(all.len() as int) =~= line_views(all));
}

fn history_rows_of(state: &TuiState, theme: Theme, width: u16) -> (rows: Vec<Row>)
    ensures
        row_views(rows@) == history_rows(*state, theme, width),
{
    if state.messages.len() == 0 {
        return wrap_lines(&welcome_lines(theme), take_down(width, 2));
    }
    let ghost all = message_views(state.messages@);
    let mut list: Vec<Line> = Vec::new();
    let mut at: usize = 0;
    assert(line_views(list@) =~= talk_lines(all.take(0), state.show_tools, theme));
    while at < state.messages.len()
        invariant
            at <= state.messages@.len(),
            all == message_views(state.messages@),
            line_views(list@) == talk_lines(all.take(at as int), state.show_tools, theme),
        decreases state.messages@.len() - at,
    {
        assert(all.take(at + 1).drop_last() =~= all.take(at as int));
        assert(all.take(at + 1).last() == state.messages@[at as int]@);
        let more = message_lines(&state.messages[at], state.show_tools, theme);
        append_lines(&mut list, more);
        at += 1;
    }
    assert(all.take(at as int) =~= all);
    wrap_lines(&list, take_down(width, 2))
}

/// How far some rows can be scrolled up from their end.
pub open spec fn scroll_room(rows: nat, height: nat) -> nat {
    if rows > height {
        (rows - height) as nat
    } else {
        0
    }
}

/// A scroll position within its room.
pub open spec fn settled(scroll: usize, room: nat) -> usize {
    if scroll <= room {
        scroll
    } else {
        room as usize
    }
}

/// The rows from one on, at most so many.
pub open spec fn window(rows: Seq<Seq<Glyph>>, start: int, height: int) -> Seq<Seq<Glyph>> {
    if start + height <= rows.len() {
        rows.subrange(start, start + height)
    } else {
        rows.skip(start)
    }
}

/// The rows that are shown: the last ones, or those above by the scroll position.
pub open spec fn shown_rows(rows: Seq<Seq<Glyph>>, scroll: usize, height: nat) -> Seq<Seq<Glyph>> {
    let room = scroll_room(rows.len(), height);
    window(rows, room - settled(scroll, room), height as int)
}

/// Without scrolling the end of the conversation is in sight.
pub proof fn law_end_is_shown_without_scrolling(rows: Seq<Seq<Glyph>>, height: nat)
    requires
        rows.len() > 0,
        height > 0,
    ensures
        shown_rows(rows, 0, height).len() > 0,
        shown_rows(rows, 0, height).last() == rows.last(),
{
}

/// By scrolling far enough the start of the conversation comes in sight.
pub proof fn law_scrolling_reaches_the_start(rows: Seq<Seq<Glyph>>, scroll: usize, height: nat)
    requires
        rows.len() > 0,
        height > 0,
        scroll_room(rows.len(), height) <= usize::MAX,
        scroll >= scroll_room(rows.len(), height),
    ensures
        shown_rows(rows, scroll, height).len() > 0,
        shown_rows(rows, scroll, height)[0] == rows[0],
{
}

fn window_of(rows: Vec<Row>, start: usize, height: usize) -> (out: Vec<Row>)
    requires
        start <= rows@.len(),
    ensures
        row_views(out@) == window(row_views(rows@), start as int, height as int),
{
    let ghost all = rows@;
    let total = rows.len();
    let end = if height <= total - start {
        start + height
    } else {
        total
    };
    let mut out: Vec<Row> = Vec::new();
    let mut at: usize = 0;
    for row in iter: rows
        invariant
            iter.seq() == all,
            total == all.len(),
            start <= end <= total,
            at == iter.index(),
            out@ == all.subrange(
                start as int,
                if at <= start {
                    start as int
                } else if at <= end {
                    at as int
                } else {
                    end as int
                },
            ),
    {
        let ghost before = out@;
        assert(all[iter.index() as int] == row);
        if at >= start && at < end {
            out.push(row);
            assert(out@ =~= all.subrange(start as int, at + 1));
        }
        at += 1;
    }
    assert(row_views(out@) =~= window(row_views(all), start as int, height as int));
    out
}

fn extend_row(row: &mut Vec<Glyph>, text: &str, style: Style)
    ensures
        final(row)@ == old(row)@ + styled(text@, style),
{
    let ghost before = row@;
    proof {
        lemma_styled(text@, style, 0);
    }
    assert(row@ =~= before + styled(text@.take(0), style));
    for ch in iter: text.chars()
        invariant
            iter.seq() == text@,
            row@ == before + styled(text@.take(iter.index() as int), style),
    {
        proof {
            lemma_styled(text@, style, iter.index() as int);
        }
        row.push((ch, style));
        assert(row@ =~= before + styled(text@.take(iter.index() + 1), style));
    }
    proof {
        lemma_styled(text@, style, 0);
    }
}

/// The rows of the question that waits for an answer, and below them the keys for it.
pub open spec fn question_rows(
    rows: Seq<Seq<Glyph>>,
    scroll: usize,
    visible: nat,
    theme: Theme,
) -> Seq<Seq<Glyph>> {
    window(rows, settled(scroll, scroll_room(rows.len(), visible)) as int, visible as int).push(
        Seq::empty(),
    ).push(
        styled("Y 允许一次"@, theme.on_background(theme.warm)) + styled(
            "    N / Enter 拒绝"@,
            theme.quiet(),
        ),
    )
}

/// The part of the screen within the frame of the field for typing.
pub open spec fn inner_area(area: Rect) -> Rect {
    Rect::cut(up(area.x, 2), up(area.y, 1), down(area.width, 4), down(area.height, 2))
}

/// Rows on a panel.
pub open spec fn on_panel(rows: Seq<Seq<Glyph>>, theme: Theme) -> Seq<Seq<Glyph>>
    decreases rows.len(),
{
    if rows.len() == 0 {
        Seq::empty()
    } else {
        on_panel(rows.drop_last(), theme).push(row_on_panel(rows.last(), theme))
    }
}

/// A row on a panel.
pub open spec fn row_on_panel(row: Seq<Glyph>, theme: Theme) -> Seq<Glyph>
    decreases row.len(),
{
    if row.len() == 0 {
        Seq::empty()
    } else {
        row_on_panel(row.drop_last(), theme).push((row.last().0, theme.on_panel(row.last().1)))
    }
}

fn panel_row(row: &Row, theme: Theme) -> (out: Row)
    ensures
        out@ == row_on_panel(row@, theme),
{
    let mut glyphs: Vec<Glyph> = Vec::new();
    let mut at: usize = 0;
    assert(glyphs@ =~= row_on_panel(row@.take(0), theme));
    while at < row.glyphs.len()
        invariant
            at <= row.glyphs@.len(),
            glyphs@ == row_on_panel(row@.take(at as int), theme),
        decreases row.glyphs@.len() - at,
    {
        assert(row@.take(at + 1).drop_last() =~= row@.take(at as int));
        let (ch, style) = row.glyphs[at];
        glyphs.push(
            (ch, Style { fg: style.fg, bg: theme.panel, bold: style.bold, dim: style.dim }),
        );
        at += 1;
    }
    assert(row@.take(at as int) =~= row@);
    Row { glyphs }
}

fn panel_rows(rows: &Vec<Row>, skip: usize, theme: Theme) -> (out: Vec<Row>)
    requires
        skip <= rows@.len(),
    ensures
        row_views(out@) == on_panel(row_views(rows@).skip(skip as int), theme),
{
    let ghost all = row_views(rows@).skip(skip as int);
    let mut out: Vec<Row> = Vec::new();
    let mut at = skip;
    assert(row_views(out@) =~= on_panel(all.take(0), theme));
    while at < rows.len()
        invariant
            skip <= at <= rows@.len(),
            all == row_views(rows@).skip(skip as int),
            row_views(out@) == on_panel(all.take(at - skip), theme),
        decreases rows@.len() - at,
    {
        let ghost before = out@;
        let ghost n = at - skip;
        assert(all.take(n + 1).drop_last() =~= all.take(n));
        assert(all.take(n + 1).last() == rows@[at as int]@);
        let row = panel_row(&rows[at], theme);
        out.push(row);
        assert(row_views(out@) =~= row_views(before).push(row@));
        at += 1;
    }
    assert(all.take(at - skip) =~= all);
    out
}

/// Where the cursor is shown: behind what has been typed.
pub open spec fn cursor_at(rows: Seq<Seq<Glyph>>, skip: nat, inner: Rect) -> OpView {
    let last = row_width(rows.last());
    let column = if last > 0 {
        last - 1
    } else {
        0
    };
    let row = rows.len() - skip - 1;
    OpView::Cursor {
        x: up(
            inner.x,
            if column < down(inner.width, 1) {
                column as u16
            } else {
                down(inner.width, 1)
            },
        ),
        y: up(
            inner.y,
            if row < down(inner.height, 1) {
                row as u16
            } else {
                down(inner.height, 1)
            },
        ),
    }
}

/// The foot of the interface: how far the conversation is scrolled, or the status, and
/// the keys as far as there is room for them.
pub open spec fn footer(status: Seq<char>, scroll: usize, width: u16) -> Seq<char> {
    let shown = if scroll > 0 {
        "↑ 历史 · 距底部 "@ + decimal(scroll as nat) + " 行"@
    } else {
        "● "@ + status
    };
    if width >= 90 {
        shown + "    Enter 发送 · Alt↵ 换行 · PgUp/Dn 滚动 · Ctrl+T 工具 · Esc 退出"@
    } else if width >= 55 {
        shown + "   Enter 发送 · Ctrl+C 取消 · Esc 退出"@
    } else {
        "Enter 发送 · Esc 退出"@
    }
}

fn footer_text(status: &str, scroll: usize, width: u16) -> (text: String)
    ensures
        text@ == footer(status@, scroll, width),
{
    if width < 55 {
        return "Enter 发送 · Esc 退出".to_owned();
    }
    let mut text = String::new();
    if scroll > 0 {
        text.append("↑ 历史 · 距底部 ");
        text.append(decimal_text(scroll as u128).as_str());
        text.append(" 行");
        assert(text@ =~= "↑ 历史 · 距底部 "@ + decimal(scroll as nat) + " 行"@);
    } else {
        text.append("● ");
        text.append(status);
        assert(text@ =~= "● "@ + status@);
    }
    if width >= 90 {
        text.append("    Enter 发送 · Alt↵ 换行 · PgUp/Dn 滚动 · Ctrl+T 工具 · Esc 退出");
    } else {
        text.append("   Enter 发送 · Ctrl+C 取消 · Esc 退出");
    }
    text
}

/// The scroll position of the conversation once it has been drawn.
pub open spec fn drawn_scroll(state: TuiState, area: Rect, regions: Seq<Rect>) -> usize {
    let rows = history_rows(state, theme_of(state.theme_mode), content_width(area));
    settled(state.scroll, scroll_room(rows.len(), regions[1].height as nat))
}

/// The scroll position of the question that waits for an answer once it has been drawn.
pub open spec fn drawn_approval_scroll(state: TuiState, area: Rect, regions: Seq<Rect>) -> usize {
    let rows = prompt_rows(state, theme_of(state.theme_mode), content_width(area));
    if rows.len() == 0 {
        state.approval_scroll
    } else {
        settled(state.approval_scroll, scroll_room(rows.len(), down(regions[2].height, 4) as nat))
    }
}

/// The field for typing.
pub open spec fn input_ops(state: TuiState, theme: Theme, width: u16, area: Rect) -> Seq<OpView> {
    let inner = inner_area(area);
    let rows = input_rows(state, theme, width);
    let skip = scroll_room(rows.len(), inner.height as nat);
    let panel = Style { fg: theme.foreground, bg: theme.panel, bold: false, dim: false };
    let framed = Seq::<OpView>::empty().push(
        OpView::Frame {
            area,
            title: if state.active {
                " 正在工作 · 可以先起草下一条 "@
            } else {
                " 发送消息 "@
            },
            border: Style {
                fg: if state.pending_approval is Some {
                    theme.border
                } else {
                    theme.accent
                },
                bg: theme.panel,
                bold: false,
                dim: false,
            },
            style: panel,
        },
    );
    let filled = framed.push(
        if state.input@.len() == 0 {
            OpView::Note {
                area: inner,
                text: "描述你想做什么…"@,
                style: theme.on_panel(theme.quiet()),
            }
        } else {
            OpView::Rows {
                area: inner,
                rows: on_panel(rows.skip(skip as int), theme),
                style: panel,
                frame: None,
            }
        },
    );
    if state.pending_approval is None && inner.height > 0 {
        filled.push(cursor_at(rows, skip, inner))
    } else {
        filled
    }
}

/// The interface on a screen whose parts are given.
pub open spec fn screen(state: TuiState, area: Rect, regions: Seq<Rect>) -> Seq<OpView> {
    let theme = theme_of(state.theme_mode);
    let width = content_width(area);
    let plain = theme.on_background(theme.foreground);
    let prompt = prompt_rows(state, theme, width);
    let head = Seq::<OpView>::empty().push(OpView::Fill { area, style: plain }).push(
        OpView::Lines { area: regions[0], lines: header(state, theme) },
    ).push(
        OpView::Rows {
            area: regions[1],
            rows: shown_rows(
                history_rows(state, theme, width),
                state.scroll,
                regions[1].height as nat,
            ),
            style: plain,
            frame: None,
        },
    );
    let asked = if prompt.len() == 0 {
        head
    } else {
        head.push(
            OpView::Rows {
                area: regions[2],
                rows: question_rows(
                    prompt,
                    state.approval_scroll,
                    down(regions[2].height, 4) as nat,
                    theme,
                ),
                style: plain,
                frame: Some((" 确认 · PgUp/Dn 翻页 "@, theme.on_background(theme.warm))),
            },
        )
    };
    (asked + input_ops(state, theme, width, regions[3])).push(
        OpView::Note {
            area: regions[4],
            text: footer(state.status@, drawn_scroll(state, area, regions), width),
            style: theme.quiet(),
        },
    )
}

/// A screen that is too small.
pub open spec fn small_screen(state: TuiState, area: Rect) -> Seq<OpView> {
    let theme = theme_of(state.theme_mode);
    Seq::<OpView>::empty().push(
        OpView::Fill { area, style: theme.on_background(theme.foreground) },
    ).push(
        OpView::Note {
            area,
            text: "请放大终端\n至少 24 列 × 12 行\nEsc 退出"@,
            style: theme.quiet(),
        },
    )
}

/// Whether nothing of the interface has changed but the scroll positions.
pub open spec fn same_but_scroll(before: TuiState, after: TuiState) -> bool {
    &&& after.messages == before.messages
    &&& after.input == before.input
    &&& after.active == before.active
    &&& after.active_request_id == before.active_request_id
    &&& after.pending_approval == before.pending_approval
    &&& after.status == before.status
    &&& after.show_tools == before.show_tools
    &&& after.workspace == before.workspace
    &&& after.theme_mode == before.theme_mode
    &&& after.resume_choices == before.resume_choices
}

fn settle(scroll: usize, rows: usize, height: usize) -> (out: usize)
    ensures
        out == settled(scroll, scroll_room(rows as nat, height as nat)),
{
    let room = if rows > height {
        rows - height
    } else {
        0
    };
    if scroll <= room {
        scroll
    } else {
        room
    }
}

fn question_rows_of(rows: Vec<Row>, scroll: usize, visible: usize, theme: Theme) -> (out: Vec<Row>)
    ensures
        row_views(out@) == question_rows(row_views(rows@), scroll, visible as nat, theme),
{
    let total = rows.len();
    assert(row_views(rows@).len() == total);
    let start = settle(scroll, total, visible);
    let ghost shown = window(row_views(rows@), start as int, visible as int);
    let mut out = window_of(rows, start, visible);
    let ghost before = out@;
    let empty = Row { glyphs: Vec::new() };
    assert(empty@ =~= Seq::empty());
    out.push(empty);
    assert(row_views(out@) =~= shown.push(empty@));
    let ghost middle = out@;
    let mut glyphs: Vec<Glyph> = Vec::new();
    extend_row(&mut glyphs, "Y 允许一次", theme.style(theme.warm));
    extend_row(&mut glyphs, "    N / Enter 拒绝", theme.muted_style());
    let keys = Row { glyphs };
    assert(keys@ =~= styled("Y 允许一次"@, theme.on_background(theme.warm)) + styled(
        "    N / Enter 拒绝"@,
        theme.quiet(),
    ));
    out.push(keys);
    assert(row_views(out@) =~= row_views(middle).push(keys@));
    out
}

proof fn lemma_wrapped_some(line: Seq<SpanView>, width: int)
    ensures
        wrapped(Seq::<Seq<SpanView>>::empty().push(line), width).len() > 0,
{
    let list = Seq::<Seq<SpanView>>::empty().push(line);
    assert(list.last() == line);
    assert(wrapped_line(line, width).len() > 0);
}

fn cursor_op(rows: &Vec<Row>, skip: usize, inner: Rect) -> (op: DrawOp)
    requires
        rows@.len() > 0,
        skip < rows@.len(),
    ensures
        op@ == cursor_at(row_views(rows@), skip as nat, inner),
{
    let total = rows.len();
    let last = rows[total - 1].width();
    assert(row_views(rows@).last() == rows@[total - 1]@);
    let column = if last > 0 {
        last - 1
    } else {
        0
    };
    let right = take_down(inner.width, 1);
    let bottom = take_down(inner.height, 1);
    let row = total - skip - 1;
    let dx = if column < right as usize {
        column as u16
    } else {
        right
    };
    let dy = if row < bottom as usize {
        row as u16
    } else {
        bottom
    };
    DrawOp::Cursor { x: add_up(inner.x, dx), y: add_up(inner.y, dy) }
}

fn push_input_ops(
    ops: &mut Vec<DrawOp>,
    state: &TuiState,
    theme: Theme,
    width: u16,
    area: Rect,
)
    ensures
        op_views(final(ops)@) == op_views(old(ops)@) + input_ops(*state, theme, width, area),
{
    let ghost before = op_views(ops@);
    let inner = Rect::new(
        add_up(area.x, 2),
        add_up(area.y, 1),
        take_down(area.width, 4),
        take_down(area.height, 2),
    );
    let rows = input_rows_of(state, theme, width);
    let total = rows.len();
    proof {
        lemma_wrapped_some(
            one_span(state.input@ + " "@, theme.on_background(theme.foreground)),
            field_width(down(width, 4)),
        );
        assert(row_views(rows@).len() == rows@.len());
    }
    let height = inner.height as usize;
    let skip = if total > height {
        total - height
    } else {
        0
    };
    let panel = Style { fg: theme.foreground, bg: theme.panel, bold: false, dim: false };
    let edge = if state.pending_approval.is_some() {
        theme.border
    } else {
        theme.accent
    };
    let title = if state.active {
        " 正在工作 · 可以先起草下一条 "
    } else {
        " 发送消息 "
    };
    push_op(
        ops,
        DrawOp::Frame {
            area,
            title,
            border: Style { fg: edge, bg: theme.panel, bold: false, dim: false },
            style: panel,
        },
    );
    if chars_of(state.input.as_str()).len() == 0 {
        let quiet = theme.muted_style();
        push_op(
            ops,
            DrawOp::Note {
                area: inner,
                text: "描述你想做什么…".to_owned(),
                style: Style { fg: quiet.fg, bg: theme.panel, bold: quiet.bold, dim: quiet.dim },
            },
        );
    } else {
        push_op(
            ops,
            DrawOp::Rows {
                area: inner,
                rows: panel_rows(&rows, skip, theme),
                style: panel,
                frame: None,
            },
        );
    }
    if state.pending_approval.is_none() && inner.height > 0 {
        push_op(ops, cursor_op(&rows, skip, inner));
    }
    assert(op_views(ops@) =~= before + input_ops(*state, theme, width, area));
}

/// The interface on a screen whose parts are given: the head, the conversation, the
/// question that waits for an answer, the field for typing, and the foot. The scroll
/// positions are brought within what there is.
pub fn compose(state: &mut TuiState, area: Rect, regions: &Vec<Rect>) -> (ops: Vec<DrawOp>)
    requires
        regions@.len() == 5,
    ensures
        op_views(ops@) == screen(*old(state), area, regions@),
        same_but_scroll(*old(state), *final(state)),
        final(state).scroll == drawn_scroll(*old(state), area, regions@),
        final(state).approval_scroll == drawn_approval_scroll(*old(state), area, regions@),
{
    let theme = Theme::new(state.theme_mode);
    let width = content_width_of(area);
    let plain = theme.style(theme.foreground);
    let mut ops: Vec<DrawOp> = Vec::new();
    assert(op_views(ops@) =~= Seq::empty());
    push_op(&mut ops, DrawOp::Fill { area, style: plain });
    push_op(&mut ops, DrawOp::Lines { area: regions[0], lines: header_lines(state, theme) });
    let rows = history_rows_of(state, theme, width);
    let total = rows.len();
    assert(row_views(rows@).len() == total);
    let height = regions[1].height as usize;
    let room = if total > height {
        total - height
    } else {
        0
    };
    let scroll = settle(state.scroll, total, height);
    push_op(
        &mut ops,
        DrawOp::Rows {
            area: regions[1],
            rows: window_of(rows, room - scroll, height),
            style: plain,
            frame: None,
        },
    );
    let prompt = prompt_rows_of(state, theme, width);
    let asked = prompt.len();
    assert(row_views(prompt@).len() == asked);
    let mut approval_scroll = state.approval_scroll;
    if asked > 0 {
        let visible = take_down(regions[2].height, 4) as usize;
        approval_scroll = settle(state.approval_scroll, asked, visible);
        push_op(
            &mut ops,
            DrawOp::Rows {
                area: regions[2],
                rows: question_rows_of(prompt, state.approval_scroll, visible, theme),
                style: plain,
                frame: Some((" 确认 · PgUp/Dn 翻页 ", theme.style(theme.warm))),
            },
        );
    }
    push_input_ops(&mut ops, state, theme, width, regions[3]);
    push_op(
        &mut ops,
        DrawOp::Note {
            area: regions[4],
            text: footer_text(state.status.as_str(), scroll, width),
            style: theme.muted_style(),
        },
    );
    assert(op_views(ops@) =~= screen(*old(state), area, regions@));
    state.scroll = scroll;
    state.approval_scroll = approval_scroll;
    ops
}

/// Whether some parts of the screen are what an area is split into for parts of some
/// heights: as wide as it is, from its left edge on, and within it. Parts that fit stand
/// one below another, each as high as it is to be, and the one that may grow takes what
/// is left.
pub open spec fn are_regions(regions: Seq<Rect>, content: Rect, heights: Seq<RowHeight>) -> bool {
    &&& regions.len() == heights.len()
    &&& forall|i: int|
        0 <= i < regions.len() ==> {
            &&& (#[trigger] regions[i]).x == content.x
            &&& regions[i].width == content.width
            &&& content.y <= regions[i].y
            &&& regions[i].y + regions[i].height <= content.y + content.height
        }
    &&& rows_fit(heights, content.height as int) ==> forall|i: int|
        0 <= i < regions.len() ==> {
            &&& (#[trigger] regions[i]).y == row_top(
                heights,
                content.y as int,
                content.height as int,
                i,
            )
            &&& regions[i].height == row_height(heights, content.height as int, i)
        }
}

proof fn lemma_part_heights(state: TuiState, area: Rect)
    ensures
        ({
            let heights = part_heights(state, area);
            let theme = theme_of(state.theme_mode);
            let prompt = prompt_rows(state, theme, content_width(area)).len();
            let input = input_rows(state, theme, content_width(area)).len();
            &&& heights.len() == 5
            &&& heights[0] == RowHeight::Length(3)
            &&& heights[1] == RowHeight::AtLeast(1)
            &&& heights[2] == RowHeight::Length(prompt_height(prompt, content_area(area)))
            &&& heights[3] == RowHeight::Length(input_height(input))
            &&& heights[4] == RowHeight::Length(1)
            &&& growing_rows(heights) == 1
            &&& asked_heights(heights) == 5 + prompt_height(prompt, content_area(area))
                + input_height(input)
        }),
{
    let heights = part_heights(state, area);
    let four = heights.drop_last();
    let three = four.drop_last();
    let two = three.drop_last();
    let one = two.drop_last();
    assert(one.drop_last() =~= Seq::empty());
    assert(asked_heights(one.drop_last()) == 0);
    assert(growing_rows(one.drop_last()) == 0);
    assert(asked_heights(one) == 3 && growing_rows(one) == 0);
    assert(asked_heights(two) == 4 && growing_rows(two) == 1);
    assert(asked_heights(three) == 4 + asked_height(heights[2]) && growing_rows(three) == 1);
    assert(growing_rows(four) == 1);
    assert(asked_heights(four) == asked_heights(three) + asked_height(heights[3]));
}

/// All parts of the interface fit a screen where no question waits for an answer and
/// thirteen lines are there, or where one waits, fourteen lines are there and the draft
/// takes a single line. (Two of the lines are left free.)
pub proof fn law_parts_fit_the_screen(state: TuiState, area: Rect)
    requires
        ({
            let theme = theme_of(state.theme_mode);
            let width = content_width(area);
            let height = content_area(area).height;
            ||| prompt_rows(state, theme, width).len() == 0 && height >= 11
            ||| input_rows(state, theme, width).len() <= 1 && height >= 12
        }),
    ensures
        rows_fit(part_heights(state, area), content_area(area).height as int),
{
    lemma_part_heights(state, area);
}

/// Where the parts fit they fill the interface from top to bottom, each right below the
/// one before it: the head, at least one line of the conversation, the question that
/// waits for an answer as high as it asks to be, the field for typing with room for a
/// line between its edges, and the foot.
pub proof fn law_parts_fill_the_screen(state: TuiState, area: Rect, regions: Seq<Rect>)
    requires
        are_regions(regions, content_area(area), part_heights(state, area)),
        rows_fit(part_heights(state, area), content_area(area).height as int),
    ensures
        regions.len() == 5,
        regions[0].y == content_area(area).y,
        regions[0].height == 3,
        regions[1].y == regions[0].y + regions[0].height,
        regions[1].height >= 1,
        regions[2].y == regions[1].y + regions[1].height,
        regions[2].height == prompt_height(
            prompt_rows(state, theme_of(state.theme_mode), content_width(area)).len(),
            content_area(area),
        ),
        regions[3].y == regions[2].y + regions[2].height,
        regions[3].height == input_height(
            input_rows(state, theme_of(state.theme_mode), content_width(area)).len(),
        ),
        regions[3].height >= 3,
        regions[4].y == regions[3].y + regions[3].height,
        regions[4].height == 1,
        regions[4].y + 1 == content_area(area).y + content_area(area).height,
{
    lemma_part_heights(state, area);
    let heights = part_heights(state, area);
    let content = content_area(area);
    let y = content.y as int;
    let height = content.height as int;
    assert(row_top(heights, y, height, 0) == y);
    assert(row_top(heights, y, height, 1) == y + row_height(heights, height, 0));
    assert(row_top(heights, y, height, 2) == row_top(heights, y, height, 1) + row_height(
        heights,
        height,
        1,
    ));
    assert(row_top(heights, y, height, 3) == row_top(heights, y, height, 2) + row_height(
        heights,
        height,
        2,
    ));
    assert(row_top(heights, y, height, 4) == row_top(heights, y, height, 3) + row_height(
        heights,
        height,
        3,
    ));
    assert(regions[0].y == row_top(heights, y, height, 0));
    assert(regions[1].y == row_top(heights, y, height, 1));
    assert(regions[2].y == row_top(heights, y, height, 2));
    assert(regions[3].y == row_top(heights, y, height, 3));
    assert(regions[4].y == row_top(heights, y, height, 4));
}

/// The interface on a screen, in parts with the heights that are asked for where these
/// fit.
pub fn draw_ui(state: &mut TuiState, area: Rect) -> (ops: Vec<DrawOp>)
    ensures
        if too_small(area) {
            op_views(ops@) == small_screen(*old(state), area) && *final(state) == *old(state)
        } else {
            same_but_scroll(*old(state), *final(state)) && exists|regions: Seq<Rect>|
                {
                    &&& #[trigger] are_regions(
                        regions,
                        content_area(area),
                        part_heights(*old(state), area),
                    )
                    &&& op_views(ops@) == screen(*old(state), area, regions)
                    &&& final(state).scroll == drawn_scroll(*old(state), area, regions)
                    &&& final(state).approval_scroll == drawn_approval_scroll(
                        *old(state),
                        area,
                        regions,
                    )
                }
        },
{
    if area.width < LEAST_WIDTH || area.height < LEAST_HEIGHT {
        let theme = Theme::new(state.theme_mode);
        let mut ops: Vec<DrawOp> = Vec::new();
        assert(op_views(ops@) =~= Seq::empty());
        push_op(&mut ops, DrawOp::Fill { area, style: theme.style(theme.foreground) });
        push_op(
            &mut ops,
            DrawOp::Note {
                area,
                text: "请放大终端\n至少 24 列 × 12 行\nEsc 退出".to_owned(),
                style: theme.muted_style(),
            },
        );
        return ops;
    }
    let content = content_area_of(area);
    let heights = part_heights_of(state, area);
    let parts = split_vertically(content.x, content.y, content.width, content.height, &heights);
    let mut regions: Vec<Rect> = Vec::new();
    let mut at: usize = 0;
    while at < parts.len()
        invariant
            at <= parts.len(),
            at == regions.len(),
            forall|i: int|
                0 <= i < at ==> #[trigger] regions@[i] == (Rect {
                    x: parts@[i].0,
                    y: parts@[i].1,
                    width: parts@[i].2,
                    height: parts@[i].3,
                }),
        decreases parts.len() - at,
    {
        let (x, y, width, height) = parts[at];
        regions.push(Rect { x, y, width, height });
        at += 1;
    }
    assert(forall|i: int| 0 <= i < parts@.len() ==> (#[trigger] regions@[i]).x == parts@[i].0);
    assert(are_regions(regions@, content, heights@));
    compose(state, area, &regions)
}

/// A line shows the characters of its spans, each in the style of its span, and in their
/// order.
pub proof fn law_line_shows_its_characters(
    a: Seq<SpanView>,
    b: Seq<SpanView>,
    content: Seq<char>,
    style: Style,
    i: int,
)
    ensures
        glyphs_of(a + b) == glyphs_of(a) + glyphs_of(b),
        glyphs_of(seq![SpanView { content, style }]) == styled(content, style),
        styled(content, style).len() == content.len(),
        0 <= i < content.len() ==> styled(content, style)[i] == (content[i], style),
    decreases b.len(),
{
    lemma_styled_at(content, style, i);
    let one = seq![SpanView { content, style }];
    assert(one.drop_last() =~= Seq::empty());
    assert(glyphs_of(one.drop_last()) == Seq::<Glyph>::empty());
    assert(one.last() == SpanView { content, style });
    assert(glyphs_of(one) =~= styled(content, style));
    if b.len() == 0 {
        assert(a + b =~= a);
        assert(glyphs_of(a + b) =~= glyphs_of(a) + glyphs_of(b));
    } else {
        law_line_shows_its_characters(a, b.drop_last(), content, style, i);
        assert((a + b).drop_last() =~= a + b.drop_last());
        assert((a + b).last() == b.last());
        assert(glyphs_of(a + b) =~= glyphs_of(a) + glyphs_of(b));
    }
}

proof fn lemma_styled_at(content: Seq<char>, style: Style, i: int)
    ensures
        styled(content, style).len() == content.len(),
        0 <= i < content.len() ==> styled(content, style)[i] == (content[i], style),
    decreases content.len(),
{
    if content.len() > 0 {
        lemma_styled_at(content.drop_last(), style, i);
    }
}

/// What can be shown of some characters is all but the control characters.
pub proof fn law_only_control_characters_are_not_shown(glyphs: Seq<Glyph>)
    ensures
        printable(glyphs) == glyphs.filter(|glyph: Glyph| !is_control_char(glyph.0)),
    decreases glyphs.len(),
{
    reveal(Seq::filter);
    if glyphs.len() > 0 {
        law_only_control_characters_are_not_shown(glyphs.drop_last());
    }
    assert(printable(glyphs) =~= glyphs.filter(|glyph: Glyph| !is_control_char(glyph.0)));
}

/// Lines are wrapped one after the other, each into one row at least; a line that fits the
/// width stays on one row, and a line feed always starts another.
pub proof fn law_lines_are_broken_only_where_they_must_be(
    a: Seq<Seq<SpanView>>,
    b: Seq<Seq<SpanView>>,
    line: Seq<SpanView>,
    width: int,
)
    ensures
        wrapped(a + b, width) == wrapped(a, width) + wrapped(b, width),
        wrapped(seq![line], width) == wrapped_line(line, width),
        wrapped_line(line, width).len() >= 1,
        row_width(printable(glyphs_of(line))) <= width && (forall|i: int|
            0 <= i < glyphs_of(line).len() ==> (#[trigger] glyphs_of(line)[i]).0 != '\n')
            ==> wrapped_line(line, width) == seq![printable(glyphs_of(line))],
    decreases b.len(),
{
    if b.len() == 0 {
        assert(a + b =~= a);
        assert(wrapped(a + b, width) =~= wrapped(a, width) + wrapped(b, width));
    } else {
        law_lines_are_broken_only_where_they_must_be(a, b.drop_last(), line, width);
        assert((a + b).drop_last() =~= a + b.drop_last());
        assert((a + b).last() == b.last());
        assert(wrapped(a + b, width) =~= wrapped(a, width) + wrapped(b, width));
    }
    assert(seq![line].drop_last() =~= Seq::empty());
    assert(wrapped(seq![line].drop_last(), width) == Seq::<Seq<Glyph>>::empty());
    assert(seq![line].last() == line);
    assert(wrapped(seq![line], width) =~= wrapped_line(line, width));
    if row_width(printable(glyphs_of(line))) <= width && (forall|i: int|
        0 <= i < glyphs_of(line).len() ==> (#[trigger] glyphs_of(line)[i]).0 != '\n') {
        lemma_one_row(glyphs_of(line), width);
        let end = wrap_glyphs(glyphs_of(line), width);
        assert(end.done.push(end.row) =~= seq![printable(glyphs_of(line))]);
    }
}

proof fn lemma_one_row(glyphs: Seq<Glyph>, width: int)
    requires
        row_width(printable(glyphs)) <= width,
        forall|i: int| 0 <= i < glyphs.len() ==> (#[trigger] glyphs[i]).0 != '\n',
    ensures
        wrap_glyphs(glyphs, width) == (Wrapping {
            done: Seq::empty(),
            row: printable(glyphs),
            used: row_width(printable(glyphs)),
        }),
    decreases glyphs.len(),
{
    if glyphs.len() > 0 {
        let front = glyphs.drop_last();
        let last = glyphs.last();
        assert(glyphs[glyphs.len() - 1].0 != '\n');
        assert forall|i: int| 0 <= i < front.len() implies (#[trigger] front[i]).0 != '\n' by {
            assert(glyphs[i].0 != '\n');
        }
        if !is_control_char(last.0) {
            assert(printable(glyphs).drop_last() =~= printable(front));
            assert(printable(glyphs).last() == last);
        }
        lemma_one_row(front, width);
    }
}

proof fn lemma_first_at_shifted(s: Seq<char>, needle: Seq<char>, k: int, from: int)
    requires
        0 <= k <= from,
        k <= s.len(),
    ensures
        first_at(s, needle, from) == (match first_at(s.skip(k), needle, from - k) {
            Some(at) => Some(at + k),
            None => None,
        }),
    decreases s.len() + 1 - from,
{
    let rest = s.skip(k);
    if from <= s.len() {
        if from + needle.len() <= s.len() {
            assert(s.subrange(from, from + needle.len()) =~= rest.subrange(
                from - k,
                from - k + needle.len(),
            ));
        }
        lemma_first_at_shifted(s, needle, k, from + 1);
    }
}

proof fn lemma_spans_shifted(s: Seq<char>, from: int, base: Style, theme: Theme)
    requires
        0 <= from <= s.len(),
    ensures
        inline_spans(s, from, base, theme) == inline_spans(s.skip(from), 0, base, theme),
    decreases s.len() - from,
{
    let rest = s.skip(from);
    if from == 0 {
        assert(rest =~= s);
    } else if from < s.len() {
        lemma_first_mark(s, from);
        lemma_first_mark(rest, 0);
        lemma_first_at_shifted(s, mark(true), from, from);
        lemma_first_at_shifted(s, mark(false), from, from);
        assert(rest.skip(0) =~= rest);
        if let Some((at, bold)) = first_mark(s, from) {
            let n = mark(bold).len() as int;
            assert(first_mark(rest, 0) == Some((at - from, bold)));
            lemma_first_at_shifted(s, mark(bold), from, at + n);
            if let Some(end) = first_at(s, mark(bold), at + n) {
                assert(first_at(rest, mark(bold), at - from + n) == Some(end - from));
                assert(s.subrange(from, at) =~= rest.subrange(0, at - from));
                assert(s.subrange(at + n, end) =~= rest.subrange(at - from + n, end - from));
                lemma_spans_shifted(s, end + n, base, theme);
                lemma_spans_shifted(rest, end - from + n, base, theme);
                assert(rest.skip(end - from + n) =~= s.skip(end + n));
                assert(inline_spans(rest, end - from + n, base, theme) == inline_spans(
                    s,
                    end + n,
                    base,
                    theme,
                ));
            }
        }
    } else {
        assert(rest.len() == 0);
    }
}

proof fn lemma_first_at_found(s: Seq<char>, needle: Seq<char>, from: int, at: int)
    requires
        0 <= from <= at,
        crate::text::occurs_at(s, needle, at),
        forall|i: int| from <= i < at ==> !#[trigger] crate::text::occurs_at(s, needle, i),
    ensures
        first_at(s, needle, from) == Some(at),
    decreases at - from,
{
    if from < at {
        assert(!crate::text::occurs_at(s, needle, from));
        lemma_first_at_found(s, needle, from + 1, at);
    }
}

/// A text without marks is shown as it is.
pub proof fn law_plain_text_is_shown_as_it_is(s: Seq<char>, base: Style, theme: Theme)
    requires
        s.len() > 0,
        !crate::text::contains_text(s, seq!['*', '*']),
        !s.contains('`'),
    ensures
        inline_spans(s, 0, base, theme) == seq![SpanView { content: s, style: base }],
{
    lemma_first_at(s, mark(true), 0);
    lemma_first_at(s, mark(false), 0);
    if let Some(at) = first_at(s, mark(true), 0) {
        assert(crate::text::occurs_at(s, seq!['*', '*'], at));
    }
    if let Some(at) = first_at(s, mark(false), 0) {
        assert(s.subrange(at, at + 1)[0] == s[at]);
        assert(mark(false)[0] == '`');
        assert(s.contains(s[at]));
    }
    assert(s.skip(0) =~= s);
    assert(inline_spans(s, 0, base, theme) =~= seq![SpanView { content: s, style: base }]);
}

/// What stands between two backquotes is set off in its own colors, without them; the text
/// before it stays as it is, and what comes behind it is treated in the same way.
pub proof fn law_text_between_backquotes_is_set_off(
    before: Seq<char>,
    within: Seq<char>,
    behind: Seq<char>,
    base: Style,
    theme: Theme,
)
    requires
        !before.contains('`') && !before.contains('*'),
        !within.contains('`'),
    ensures
        inline_spans(before + seq!['`'] + within + seq!['`'] + behind, 0, base, theme) == seq![
            SpanView { content: before, style: base },
            SpanView {
                content: within,
                style: Style { fg: theme.accent, bg: theme.panel, bold: true, dim: base.dim },
            },
        ] + inline_spans(behind, 0, base, theme),
{
    let s = before + seq!['`'] + within + seq!['`'] + behind;
    let at = before.len() as int;
    let end = at + 1 + within.len();
    let quote = mark(false);
    assert(s.subrange(at, at + 1) =~= quote);
    assert(crate::text::occurs_at(s, quote, at));
    assert forall|i: int| 0 <= i < at implies !#[trigger] crate::text::occurs_at(s, quote, i) by {
        assert(s.subrange(i, i + 1)[0] == before[i]);
        assert(before.contains(before[i]));
        assert(quote[0] == '`');
    }
    lemma_first_at_found(s, quote, 0, at);
    assert(s.subrange(end, end + 1) =~= quote);
    assert(crate::text::occurs_at(s, quote, end));
    assert forall|i: int| at + 1 <= i < end implies !#[trigger] crate::text::occurs_at(
        s,
        quote,
        i,
    ) by {
        assert(s.subrange(i, i + 1)[0] == within[i - at - 1]);
        assert(within.contains(within[i - at - 1]));
        assert(quote[0] == '`');
    }
    lemma_first_at_found(s, quote, at + 1, end);
    lemma_first_at(s, mark(true), 0);
    if let Some(star) = first_at(s, mark(true), 0) {
        assert(s.subrange(star, star + 2)[0] == s[star]);
        assert(mark(true)[0] == '*');
        if star < at {
            assert(before.contains(before[star]));
        }
        assert(star > at);
    }
    assert(first_mark(s, 0) == Some((at, false)));
    assert(s.subrange(0, at) =~= before);
    assert(s.subrange(at + 1, end) =~= within);
    lemma_spans_shifted(s, end + 1, base, theme);
    assert(s.skip(end + 1) =~= behind);
    let first = seq![
        SpanView { content: before, style: base },
        SpanView {
            content: within,
            style: Style { fg: theme.accent, bg: theme.panel, bold: true, dim: base.dim },
        },
    ];
    assert(no_spans().push(span_view(before, base)).push(
        span_view(within, emphasis(false, base, theme)),
    ) =~= first);
}

/// What stands between two pairs of asterisks is shown bold, without them; the text before
/// it stays as it is, and what comes behind it is treated in the same way.
pub proof fn law_text_between_asterisks_is_bold(
    before: Seq<char>,
    within: Seq<char>,
    behind: Seq<char>,
    base: Style,
    theme: Theme,
)
    requires
        !before.contains('`') && !before.contains('*'),
        !within.contains('*'),
    ensures
        inline_spans(before + seq!['*', '*'] + within + seq!['*', '*'] + behind, 0, base, theme)
            == seq![
            SpanView { content: before, style: base },
            SpanView { content: within, style: Style { bold: true, ..base } },
        ] + inline_spans(behind, 0, base, theme),
{
    let stars = mark(true);
    let s = before + seq!['*', '*'] + within + seq!['*', '*'] + behind;
    let at = before.len() as int;
    let end = at + 2 + within.len();
    assert(stars[0] == '*' && stars[1] == '*');
    assert(s.subrange(at, at + 2) =~= stars);
    assert(crate::text::occurs_at(s, stars, at));
    assert forall|i: int| 0 <= i < at implies !#[trigger] crate::text::occurs_at(s, stars, i) by {
        assert(s.subrange(i, i + 2)[0] == before[i]);
        assert(before.contains(before[i]));
    }
    lemma_first_at_found(s, stars, 0, at);
    assert(s.subrange(end, end + 2) =~= stars);
    assert(crate::text::occurs_at(s, stars, end));
    assert forall|i: int| at + 2 <= i < end implies !#[trigger] crate::text::occurs_at(
        s,
        stars,
        i,
    ) by {
        assert(s.subrange(i, i + 2)[0] == within[i - at - 2]);
        assert(within.contains(within[i - at - 2]));
    }
    lemma_first_at_found(s, stars, at + 2, end);
    lemma_first_at(s, mark(false), 0);
    if let Some(quote) = first_at(s, mark(false), 0) {
        assert(s.subrange(quote, quote + 1)[0] == s[quote]);
        assert(mark(false)[0] == '`');
        if quote < at {
            assert(before.contains(before[quote]));
        }
        assert(s[at] == '*');
        assert(quote > at);
    }
    assert(first_mark(s, 0) == Some((at, true)));
    assert(s.subrange(0, at) =~= before);
    assert(s.subrange(at + 2, end) =~= within);
    lemma_spans_shifted(s, end + 2, base, theme);
    assert(s.skip(end + 2) =~= behind);
    let first = seq![
        SpanView { content: before, style: base },
        SpanView { content: within, style: Style { bold: true, ..base } },
    ];
    assert(no_spans().push(span_view(before, base)).push(
        span_view(within, emphasis(true, base, theme)),
    ) =~= first);
}

/// Of what a tool gave the first line is shown, up to seventy characters; the others only
/// where they are asked for, and then all of them.
pub proof fn law_tool_output_is_shown_where_asked_for(
    content: Seq<char>,
    theme: Theme,
    i: int,
)
    requires
        lines(content).len() > 0,
    ensures
        ({
            let all = lines(content);
            let brief = tool_lines(content, false, theme);
            let full = tool_lines(content, true, theme);
            &&& brief.len() == 1
            &&& full.len() == all.len()
            &&& full[0] == brief[0]
            &&& all[0].len() <= 70 ==> brief[0] == seq![
                SpanView { content: "  ✓ 工具  "@ + all[0], style: theme.quiet() },
            ]
            &&& all[0].len() > 70 ==> brief[0] == seq![
                SpanView { content: "  ✓ 工具  "@ + all[0].take(70), style: theme.quiet() },
            ]
            &&& 0 < i < all.len() ==> full[i] == seq![
                SpanView { content: "    "@ + all[i], style: theme.quiet() },
            ]
        }),
{
    let all = lines(content);
    lemma_details(all, theme, i);
    let brief = tool_lines(content, false, theme);
    assert(brief[0] =~= seq![
        SpanView { content: "  ✓ 工具  "@ + front_of(all[0], 70), style: theme.quiet() },
    ]);
}

proof fn lemma_details(all: Seq<Seq<char>>, theme: Theme, i: int)
    requires
        all.len() > 0,
    ensures
        detail_lines(all, theme).len() == all.len() - 1,
        0 < i < all.len() ==> detail_lines(all, theme)[i - 1] == seq![
            SpanView { content: "    "@ + all[i], style: theme.quiet() },
        ],
    decreases all.len(),
{
    if all.len() > 1 {
        lemma_details(all.drop_last(), theme, i);
        if i == all.len() - 1 {
            assert(detail_lines(all, theme)[i - 1] =~= seq![
                SpanView { content: "    "@ + all[i], style: theme.quiet() },
            ]);
        }
    }
}

/// Every line of a message is shown on a line of its own, in its order; a line that starts
/// with three backquotes starts or ends code.
pub proof fn law_every_line_of_a_message_is_shown(
    list: Seq<Seq<char>>,
    source: Seq<char>,
    role: Role,
    theme: Theme,
)
    ensures
        ({
            let before = body_of(list, role, theme);
            let after = body_of(list.push(source), role, theme);
            let fence = begins_with(trim_start(source), "```"@);
            &&& before.shown.len() == list.len()
            &&& after.shown.len() == list.len() + 1
            &&& after.shown.take(list.len() as int) == before.shown
            &&& after.code == (before.code != fence)
            &&& before.code && !fence ==> after.shown.last() == seq![
                SpanView { content: "  │ "@, style: theme.quiet() },
                SpanView { content: source, style: theme.on_background(theme.code) },
            ]
            &&& !before.code && !fence && role == Role::User ==> after.shown.last() == seq![
                SpanView {
                    content: "  "@ + source,
                    style: theme.on_background(theme.foreground),
                },
            ]
            &&& !before.code && !fence && role != Role::User ==> after.shown.last() == prose_line(
                source,
                theme,
            )
        }),
{
    lemma_one_shown_each(list, role, theme);
    assert(list.push(source).drop_last() =~= list);
    let before = body_of(list, role, theme);
    let after = body_of(list.push(source), role, theme);
    assert(after.shown.take(list.len() as int) =~= before.shown);
    assert(quiet_line(theme, "  │ "@).push(
        span_view(source, theme.on_background(theme.code)),
    ) =~= seq![
        SpanView { content: "  │ "@, style: theme.quiet() },
        SpanView { content: source, style: theme.on_background(theme.code) },
    ]);
    assert(one_span("  "@ + source, theme.on_background(theme.foreground)) =~= seq![
        SpanView { content: "  "@ + source, style: theme.on_background(theme.foreground) },
    ]);
}

proof fn lemma_one_shown_each(list: Seq<Seq<char>>, role: Role, theme: Theme)
    ensures
        body_of(list, role, theme).shown.len() == list.len(),
    decreases list.len(),
{
    if list.len() > 0 {
        lemma_one_shown_each(list.drop_last(), role, theme);
    }
}

/// A heading is a run of hash signs with a space behind it; it is shown bold and without
/// them. An item of a list gets a bullet for its hyphen.
pub proof fn law_headings_and_lists_are_set_off(
    run: Seq<char>,
    rest: Seq<char>,
    line: Seq<char>,
)
    requires
        forall|i: int| 0 <= i < run.len() ==> #[trigger] run[i] == '#',
    ensures
        run.len() > 0 && rest.len() > 0 && rest[0] == ' ' ==> is_heading(run + rest),
        run.len() > 0 && (rest.len() == 0 || (rest[0] != ' ' && rest[0] != '#')) ==> !is_heading(
            run + rest,
        ),
        line.len() == 0 || line[0] != '#' ==> !is_heading(line),
        bulleted("- "@ + rest) == "• "@ + rest,
        !begins_with(line, "- "@) ==> bulleted(line) == line,
{
    reveal_strlit("#");
    reveal_strlit(" ");
    let s = run + rest;
    if run.len() > 0 && (rest.len() == 0 || rest[0] != '#') {
        crate::text::law_leading_run_is_taken_away(run, rest, '#');
        assert(s.take(1)[0] == run[0]);
        assert(s.take(1) =~= "#"@);
        if rest.len() > 0 {
            assert(rest.take(1)[0] == rest[0]);
            assert(" "@[0] == ' ');
            assert(rest[0] == ' ' ==> rest.take(1) =~= " "@);
        }
    }
    if line.len() > 0 {
        assert(line.take(1)[0] == line[0]);
        assert("#"@[0] == '#');
    }
    crate::text::law_prefix_and_rest_make_the_text("- "@ + rest, "- "@, rest);
}

/// The conversation is shown message after message; the user and the agent are named, and
/// so is whoever else speaks.
pub proof fn law_every_message_is_shown_in_its_order(
    a: Seq<MessageView>,
    b: Seq<MessageView>,
    message: MessageView,
    show_tools: bool,
    theme: Theme,
)
    ensures
        talk_lines(a + b, show_tools, theme) == talk_lines(a, show_tools, theme) + talk_lines(
            b,
            show_tools,
            theme,
        ),
        talk_lines(seq![message], show_tools, theme) == shown_lines(message, show_tools, theme),
        message.role == Role::User ==> shown_lines(message, show_tools, theme)[1] == seq![
            SpanView { content: "›  你"@, style: theme.bold(theme.warm) },
        ],
        message.role == Role::Assistant ==> shown_lines(message, show_tools, theme)[1] == seq![
            SpanView { content: "✦  Agent"@, style: theme.bold(theme.accent) },
        ],
        message.role == Role::System ==> shown_lines(message, show_tools, theme)[1] == seq![
            SpanView { content: "·  提示"@, style: theme.bold(theme.muted) },
        ],
        message.role != Role::Tool ==> shown_lines(message, show_tools, theme).len() == 4 + lines(
            message.content,
        ).len() && shown_lines(message, show_tools, theme).subrange(
            3,
            3 + lines(message.content).len() as int,
        ) == body_of(lines(message.content), message.role, theme).shown,
    decreases b.len(),
{
    if b.len() == 0 {
        assert(a + b =~= a);
        assert(talk_lines(a + b, show_tools, theme) =~= talk_lines(a, show_tools, theme)
            + talk_lines(b, show_tools, theme));
    } else {
        law_every_message_is_shown_in_its_order(a, b.drop_last(), message, show_tools, theme);
        assert((a + b).drop_last() =~= a + b.drop_last());
        assert((a + b).last() == b.last());
        assert(talk_lines(a + b, show_tools, theme) =~= talk_lines(a, show_tools, theme)
            + talk_lines(b, show_tools, theme));
    }
    assert(seq![message].drop_last() =~= Seq::empty());
    assert(talk_lines(seq![message].drop_last(), show_tools, theme) == Seq::<
        Seq<SpanView>,
    >::empty());
    assert(seq![message].last() == message);
    assert(talk_lines(seq![message], show_tools, theme) =~= shown_lines(
        message,
        show_tools,
        theme,
    ));
    if message.role != Role::Tool {
        let shown = shown_lines(message, show_tools, theme);
        let body = body_of(lines(message.content), message.role, theme).shown;
        lemma_one_shown_each(lines(message.content), message.role, theme);
        let (words, color) = speaker(message.role, theme);
        assert(shown[1] =~= seq![SpanView { content: words, style: theme.bold(color) }]);
        assert(shown.subrange(3, 3 + body.len() as int) =~= body);
    }
}

/// Of more rows than there is room for as many are shown as there is room for, one below
/// the other, as far above the end as was scrolled.
pub proof fn law_shown_rows_are_those_scrolled_to(
    rows: Seq<Seq<Glyph>>,
    scroll: usize,
    height: nat,
    i: int,
)
    ensures
        rows.len() <= height ==> shown_rows(rows, scroll, height) == rows,
        rows.len() > height ==> shown_rows(rows, scroll, height).len() == height,
        rows.len() > height && scroll + height <= rows.len() && 0 <= i < height ==> shown_rows(
            rows,
            scroll,
            height,
        )[i] == rows[rows.len() - height - scroll + i],
        rows.len() > height && scroll + height > rows.len() && 0 <= i < height && rows.len()
            <= usize::MAX ==> shown_rows(rows, scroll, height)[i] == rows[i],
{
    if rows.len() <= height {
        assert(rows.skip(0) =~= rows);
        assert(rows.len() == height ==> rows.subrange(0, height as int) =~= rows);
    }
}

/// The content lies within the screen: a row is left free above and below it, two columns at
/// least on each side, and it is never wider than a hundred and eight columns.
pub proof fn law_content_lies_within_the_screen(area: Rect)
    requires
        area.x + area.width <= u16::MAX,
        area.y + area.height <= u16::MAX,
        area.width >= 4,
        area.height >= 2,
    ensures
        ({
            let content = content_area(area);
            &&& content.y == area.y + 1
            &&& content.height == area.height - 2
            &&& content.width == (if area.width - 4 < 108 {
                area.width - 4
            } else {
                108
            })
            &&& content.x == area.x + (area.width - content.width) / 2
            &&& content.x + content.width <= area.x + area.width - 2
        }),
{
}

/// A screen is too small below twenty-four columns or twelve rows.
pub proof fn law_small_screens(area: Rect)
    ensures
        too_small(area) <==> area.width < 24 || area.height < 12,
{
}

/// The field for input grows with what is typed from one row to four, and has a frame; a
/// question takes its rows and four more, as far as there is room.
pub proof fn law_fields_grow_with_their_rows(rows: nat, content: Rect)
    ensures
        1 <= rows <= 4 ==> input_height(rows) == rows + 2,
        4 < rows < 65536 ==> input_height(rows) == 6,
        input_height(0) == 3,
        prompt_height(0, content) == 0,
        0 < rows < 60000 && rows + 4 <= content.height - 8 ==> prompt_height(rows, content) == rows
            + 4,
        0 < rows < 60000 && rows + 4 > content.height - 8 && content.height >= 12 ==> prompt_height(
            rows,
            content,
        ) == content.height - 8,
        rows > 0 && content.height < 12 ==> prompt_height(rows, content) == 4,
{
}

/// A workspace is named by the last name of its path.
pub proof fn law_workspace_is_named_by_its_last_name(directory: Seq<char>, name: Seq<char>)
    requires
        name.len() > 0,
        !name.contains('/'),
    ensures
        workspace_name(directory + seq!['/'] + name) == name,
        workspace_name(name) == name,
{
    lemma_last_piece(directory + seq!['/'], name);
    lemma_last_piece(Seq::empty(), name);
    assert(Seq::empty() + name =~= name);
    let opened = directory + seq!['/'];
    assert(opened.last() == '/');
    assert(split_on(opened, '/').last() == Seq::<char>::empty());
    assert(Seq::<char>::empty() + name =~= name);
    assert(split_on(Seq::empty(), '/').last() == Seq::<char>::empty());
}

proof fn lemma_last_piece(front: Seq<char>, name: Seq<char>)
    requires
        !name.contains('/'),
    ensures
        split_on(front + name, '/').last() == split_on(front, '/').last() + name,
    decreases name.len(),
{
    let whole = front + name;
    if name.len() == 0 {
        assert(whole =~= front);
        assert(split_on(front, '/').last() + name =~= split_on(front, '/').last());
    } else {
        let less = name.drop_last();
        assert forall|k: int| 0 <= k < less.len() implies less[k] != '/' by {
            assert(name.contains(name[k]));
        }
        lemma_last_piece(front, less);
        assert(name.contains(name.last()));
        assert(whole.drop_last() =~= front + less);
        assert(whole.last() == name.last());
        assert((split_on(front, '/').last() + less).push(name.last()) =~= split_on(
            front,
            '/',
        ).last() + name);
    }
}

/// On the panel every character keeps its place, its color and its weight, and gets the
/// background of the panel.
pub proof fn law_panel_changes_the_background_alone(
    rows: Seq<Seq<Glyph>>,
    theme: Theme,
    i: int,
    k: int,
)
    requires
        0 <= i < rows.len(),
        0 <= k < rows[i].len(),
    ensures
        on_panel(rows, theme).len() == rows.len(),
        on_panel(rows, theme)[i].len() == rows[i].len(),
        on_panel(rows, theme)[i][k] == (
            rows[i][k].0,
            Style { bg: theme.panel, ..rows[i][k].1 },
        ),
    decreases rows.len(),
{
    lemma_panel_len(rows, theme);
    if i < rows.len() - 1 {
        law_panel_changes_the_background_alone(rows.drop_last(), theme, i, k);
        lemma_panel_len(rows.drop_last(), theme);
    } else {
        lemma_panel_len(rows.drop_last(), theme);
        lemma_row_on_panel(rows.last(), theme, k);
    }
}

proof fn lemma_panel_len(rows: Seq<Seq<Glyph>>, theme: Theme)
    ensures
        on_panel(rows, theme).len() == rows.len(),
    decreases rows.len(),
{
    if rows.len() > 0 {
        lemma_panel_len(rows.drop_last(), theme);
    }
}

proof fn lemma_row_on_panel(row: Seq<Glyph>, theme: Theme, k: int)
    ensures
        row_on_panel(row, theme).len() == row.len(),
        0 <= k < row.len() ==> row_on_panel(row, theme)[k] == (
            row[k].0,
            Style { bg: theme.panel, ..row[k].1 },
        ),
    decreases row.len(),
{
    if row.len() > 0 {
        lemma_row_on_panel(row.drop_last(), theme, k);
    }
}

/// The cursor stands behind what is typed: on the last row, at the column before the space
/// that ends it, where both lie within the field.
pub proof fn law_cursor_stands_behind_what_is_typed(
    rows: Seq<Seq<Glyph>>,
    skip: nat,
    inner: Rect,
)
    requires
        rows.len() > skip,
        row_width(rows.last()) >= 1,
        row_width(rows.last()) <= inner.width,
        rows.len() - skip <= inner.height,
        inner.x + inner.width <= u16::MAX,
        inner.y + inner.height <= u16::MAX,
    ensures
        cursor_at(rows, skip, inner) matches OpView::Cursor { x, y } && x == inner.x + row_width(
            rows.last(),
        ) - 1 && y == inner.y + rows.len() - skip - 1,
{
}

/// The last line tells the status, or how far the end is where one has scrolled, as long as
/// there is room for it.
pub proof fn law_footer_tells_status_or_distance(status: Seq<char>, scroll: usize, width: u16)
    ensures
        width >= 55 && scroll == 0 ==> begins_with(footer(status, scroll, width), "● "@ + status),
        width >= 55 && scroll > 0 ==> begins_with(
            footer(status, scroll, width),
            "↑ 历史 · 距底部 "@ + decimal(scroll as nat) + " 行"@,
        ),
        width < 55 ==> footer(status, scroll, width) == "Enter 发送 · Esc 退出"@,
        footer(status, scroll, 90) != footer(status, scroll, 89),
{
    let shown = if scroll > 0 {
        "↑ 历史 · 距底部 "@ + decimal(scroll as nat) + " 行"@
    } else {
        "● "@ + status
    };
    let long = "    Enter 发送 · Alt↵ 换行 · PgUp/Dn 滚动 · Ctrl+T 工具 · Esc 退出"@;
    let brief = "   Enter 发送 · Ctrl+C 取消 · Esc 退出"@;
    crate::text::law_prefix_and_rest_make_the_text(shown + long, shown, long);
    crate::text::law_prefix_and_rest_make_the_text(shown + brief, shown, brief);
    reveal_strlit("    Enter 发送 · Alt↵ 换行 · PgUp/Dn 滚动 · Ctrl+T 工具 · Esc 退出");
    reveal_strlit("   Enter 发送 · Ctrl+C 取消 · Esc 退出");
    assert((shown + long)[shown.len() as int + 3] == long[3]);
    assert((shown + brief)[shown.len() as int + 3] == brief[3]);
}

/// The screen shows the workspace, the part of the conversation that was scrolled to, the
/// question where there is one, the field for input and the status, each in its own part;
/// the cursor is shown only where no answer is waited for.
pub proof fn law_screen_shows_all_its_parts(state: TuiState, area: Rect, regions: Seq<Rect>)
    requires
        regions.len() == 5,
    ensures
        ({
            let theme = theme_of(state.theme_mode);
            let width = content_width(area);
            let ops = screen(state, area, regions);
            let asked = prompt_rows(state, theme, width).len() > 0;
            &&& ops[0] == (OpView::Fill {
                area,
                style: Style {
                    fg: theme.foreground,
                    bg: theme.background,
                    bold: false,
                    dim: false,
                },
            })
            &&& ops[1] matches OpView::Lines { area: part, lines: shown } && part == regions[0]
                && shown == header(state, theme)
            &&& ops[2] matches OpView::Rows { area: part, rows: shown, .. } && part == regions[1]
                && shown == shown_rows(
                history_rows(state, theme, width),
                state.scroll,
                regions[1].height as nat,
            )
            &&& asked ==> (ops[3] matches OpView::Rows { area: part, .. } && part == regions[2])
            &&& asked ==> (ops[4] matches OpView::Frame { area: part, .. } && part == regions[3])
            &&& !asked ==> (ops[3] matches OpView::Frame { area: part, .. } && part == regions[3])
            &&& ops.last() matches OpView::Note { area: part, text, .. } && part == regions[4]
                && text == footer(state.status@, drawn_scroll(state, area, regions), width)
            &&& (exists|k: int| 0 <= k < ops.len() && (#[trigger] ops[k]) is Cursor)
                <==> state.pending_approval is None && inner_area(regions[3]).height > 0
        }),
{
    let theme = theme_of(state.theme_mode);
    let width = content_width(area);
    let ops = screen(state, area, regions);
    let typed = input_ops(state, theme, width, regions[3]);
    let n = if prompt_rows(state, theme, width).len() > 0 {
        4int
    } else {
        3int
    };
    assert(ops.len() == n + typed.len() + 1);
    assert(ops[n] == typed[0]);
    assert(ops[n + 1] == typed[1]);
    assert(typed[0] is Frame);
    assert(!(typed[1] is Cursor));
    if state.pending_approval is None && inner_area(regions[3]).height > 0 {
        assert(typed.len() == 3);
        assert(ops[n + 2] == typed[2]);
        assert(ops[n + 2] is Cursor);
    } else {
        assert(typed.len() == 2);
        assert forall|k: int| 0 <= k < ops.len() implies !((#[trigger] ops[k]) is Cursor) by {
            if k >= n && k < n + 2 {
                assert(ops[k] == typed[k - n]);
            }
        }
    }
}

/// The field for input shows what is typed, or a hint where nothing is.
pub proof fn law_field_shows_what_is_typed(state: TuiState, theme: Theme, width: u16, area: Rect)
    ensures
        ({
            let ops = input_ops(state, theme, width, area);
            &&& state.input@.len() == 0 ==> ops[1] is Note
            &&& state.input@.len() > 0 ==> (ops[1] matches OpView::Rows { rows: shown, .. }
                && shown == on_panel(
                input_rows(state, theme, width).skip(
                    if input_rows(state, theme, width).len() > inner_area(area).height {
                        input_rows(state, theme, width).len() - inner_area(area).height
                    } else {
                        0
                    },
                ),
                theme,
            ))
            &&& ops[0] matches OpView::Frame { title, .. } && title == (if state.active {
                " 正在工作 · 可以先起草下一条 "@
            } else {
                " 发送消息 "@
            })
        }),
{
}

/// The header names the workspace; a question is shown from where it was scrolled to, and
/// ends with the keys that answer it.
pub proof fn law_header_and_question(
    state: TuiState,
    theme: Theme,
    rows: Seq<Seq<Glyph>>,
    scroll: usize,
    visible: nat,
    i: int,
)
    ensures
        header(state, theme).len() == 2,
        header(state, theme)[0].len() == 3,
        header(state, theme)[0][2].content == workspace_name(state.workspace@),
        ({
            let shown = question_rows(rows, scroll, visible, theme);
            &&& shown.last() == styled("Y 允许一次"@, theme.on_background(theme.warm)) + styled(
                "    N / Enter 拒绝"@,
                theme.quiet(),
            )
            &&& rows.len() <= visible ==> shown.take(shown.len() - 2) == rows
            &&& rows.len() > visible ==> shown.len() == visible + 2
            &&& rows.len() > visible && scroll + visible <= rows.len() && 0 <= i < visible
                ==> shown[i] == rows[scroll + i]
        }),
{
    let shown = question_rows(rows, scroll, visible, theme);
    if rows.len() <= visible {
        assert(shown.take(shown.len() - 2) =~= rows);
    }
}

/// Within a frame a row is left above and below, and two columns on each side.
pub proof fn law_frames_leave_room_at_their_sides(area: Rect)
    requires
        area.x + area.width <= u16::MAX,
        area.y + area.height <= u16::MAX,
        area.width >= 4,
        area.height >= 2,
    ensures
        inner_area(area).x == area.x + 2,
        inner_area(area).y == area.y + 1,
        inner_area(area).width == area.width - 4,
        inner_area(area).height == area.height - 2,
{
}

/// Drawing never scrolls further than it was asked to, and leaves a question of no rows
/// where it was; what is shown otherwise stays.
pub proof fn law_drawing_scrolls_no_further(
    state: &mut TuiState,
    area: Rect,
    regions: &Vec<Rect>,
    ops: Vec<DrawOp>,
)
    requires
        call_ensures(compose, (state, area, regions), ops),
        regions@.len() == 5,
    ensures
        final(state).scroll <= old(state).scroll,
        final(state).approval_scroll <= old(state).approval_scroll,
        old(state).pending_approval is None ==> final(state).approval_scroll == old(
            state,
        ).approval_scroll,
        final(state).messages == old(state).messages,
        final(state).input == old(state).input,
        final(state).pending_approval == old(state).pending_approval,
        final(state).status == old(state).status,
{
}

} // verus!
