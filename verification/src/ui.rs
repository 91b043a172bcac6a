//! What the screen shows: the status bar, the conversation lines with their
//! styles, the scroll position, the input bar and where its cursor goes. The
//! terminal frame itself is drawn from these by the caller.
use vstd::prelude::*;

use crate::app::{opt_view, App, Block, BlockView, DiffLine, DiffLineView, PendingPermission};
use crate::event::{option_kind_label, option_kind_text, PermissionOption};
use crate::text::{char_index, char_index_of, chars_of, decimal, lines, push_decimal, split_lines, views};

verus! {

/// Terminal colors used by the interface.
#[derive(Debug, Clone, Copy, PartialEq, Eq)]
pub enum Color {
    Cyan,
    Blue,
    Magenta,
    Green,
    Yellow,
    Red,
    DarkGray,
}

/// How a piece of text is drawn.
#[derive(Debug, Clone, Copy, PartialEq, Eq)]
pub struct SpanStyle {
    pub fg: Option<Color>,
    pub bg: Option<Color>,
    pub bold: bool,
    pub italic: bool,
}

/// A piece of text with one style.
pub struct StyledSpan {
    pub text: String,
    pub style: SpanStyle,
}

/// One screen line: its spans, and a style for the whole line.
pub struct StyledLine {
    pub spans: Vec<StyledSpan>,
    pub style: SpanStyle,
}

/// A span as characters.
pub struct SpanView {
    pub text: Seq<char>,
    pub style: SpanStyle,
}

/// A line as characters.
pub struct LineView {
    pub spans: Seq<SpanView>,
    pub style: SpanStyle,
}

impl View for StyledSpan {
    type V = SpanView;

    open spec fn view(&self) -> SpanView {
        SpanView { text: self.text@, style: self.style }
    }
}

impl View for StyledLine {
    type V = LineView;

    open spec fn view(&self) -> LineView {
        LineView { spans: self.spans@.map_values(|s: StyledSpan| s@), style: self.style }
    }
}

/// The views of a sequence of lines.
pub open spec fn line_views(v: Seq<StyledLine>) -> Seq<LineView> {
    v.map_values(|l: StyledLine| l@)
}

/// A rectangle of terminal cells.
#[derive(Debug, Clone, Copy, PartialEq, Eq)]
pub struct Rect {
    pub x: u16,
    pub y: u16,
    pub width: u16,
    pub height: u16,
}

// ---------------------------------------------------------------------------
// Styles
// ---------------------------------------------------------------------------

pub open spec fn plain() -> SpanStyle {
    SpanStyle { fg: None, bg: None, bold: false, italic: false }
}

pub open spec fn colored(c: Color) -> SpanStyle {
    SpanStyle { fg: Some(c), bg: None, bold: false, italic: false }
}

pub open spec fn colored_bold(c: Color) -> SpanStyle {
    SpanStyle { fg: Some(c), bg: None, bold: true, italic: false }
}

pub open spec fn colored_italic(c: Color) -> SpanStyle {
    SpanStyle { fg: Some(c), bg: None, bold: false, italic: true }
}

fn style(fg: Option<Color>, bold: bool, italic: bool) -> (s: SpanStyle)
    ensures
        s == (SpanStyle { fg, bg: None, bold, italic }),
{
    SpanStyle { fg, bg: None, bold, italic }
}

pub open spec fn sv(text: Seq<char>, style: SpanStyle) -> SpanView {
    SpanView { text, style }
}

/// A line of the given spans, with no style of its own.
pub open spec fn line_of(spans: Seq<SpanView>) -> LineView {
    LineView { spans, style: plain() }
}

fn span(text: String, style: SpanStyle) -> (s: StyledSpan)
    ensures
        s@ == sv(text@, style),
{
    StyledSpan { text, style }
}

fn line1(a: StyledSpan) -> (l: StyledLine)
    ensures
        l@ == line_of(seq![a@]),
{
    let l = StyledLine { spans: vec![a], style: style(None, false, false) };
    assert(l@.spans =~= seq![a@]);
    l
}

fn line2(a: StyledSpan, b: StyledSpan) -> (l: StyledLine)
    ensures
        l@ == line_of(seq![a@, b@]),
{
    let l = StyledLine { spans: vec![a, b], style: style(None, false, false) };
    assert(l@.spans =~= seq![a@, b@]);
    l
}

fn line3(a: StyledSpan, b: StyledSpan, c: StyledSpan) -> (l: StyledLine)
    ensures
        l@ == line_of(seq![a@, b@, c@]),
{
    let l = StyledLine { spans: vec![a, b, c], style: style(None, false, false) };
    assert(l@.spans =~= seq![a@, b@, c@]);
    l
}

// ---------------------------------------------------------------------------
// Status bar
// ---------------------------------------------------------------------------

/// The status bar: the model name (when known) and a separator, the working
/// directory, then a separator and the git branch when there is one, all on a
/// dark gray background.
pub open spec fn status_bar_view(model: Seq<char>, cwd: Seq<char>, branch: Option<Seq<char>>) -> LineView {
    let head = if model.len() > 0 {
        seq![sv(model, colored(Color::Cyan)), sv(" │ "@, plain())]
    } else {
        Seq::<SpanView>::empty()
    };
    let tail = match branch {
        Some(b) => seq![sv(" │ "@, plain()), sv(b, colored(Color::Magenta))],
        None => Seq::<SpanView>::empty(),
    };
    LineView {
        spans: head + seq![sv(cwd, colored(Color::Blue))] + tail,
        style: SpanStyle { fg: None, bg: Some(Color::DarkGray), bold: false, italic: false },
    }
}

/// The status bar line.
pub fn status_bar(app: &App) -> (l: StyledLine)
    ensures
        l@ == status_bar_view(app.status.model@, app.status.cwd@, opt_view(app.status.git_branch)),
{
    let ghost want = status_bar_view(
        app.status.model@,
        app.status.cwd@,
        opt_view(app.status.git_branch),
    ).spans;
    let mut spans: Vec<StyledSpan> = Vec::new();
    if !app.status.model.as_str().is_empty() {
        spans.push(span(app.status.model.clone(), style(Some(Color::Cyan), false, false)));
        spans.push(span(String::from_str(" │ "), style(None, false, false)));
    }
    spans.push(span(app.status.cwd.clone(), style(Some(Color::Blue), false, false)));
    match &app.status.git_branch {
        Some(b) => {
            spans.push(span(String::from_str(" │ "), style(None, false, false)));
            spans.push(span(b.clone(), style(Some(Color::Magenta), false, false)));
        },
        None => {},
    }
    let l = StyledLine {
        spans,
        style: SpanStyle { fg: None, bg: Some(Color::DarkGray), bold: false, italic: false },
    };
    assert(l@.spans.len() == want.len());
    assert forall|i: int| 0 <= i < want.len() implies l@.spans[i] == want[i] by {
        assert(l@.spans[i] == l.spans@[i]@);
    }
    assert(l@.spans =~= want);
    l
}


// ---------------------------------------------------------------------------
// Conversation lines
// ---------------------------------------------------------------------------

/// The options of the pending permission request, if any.
pub open spec fn pending_options(p: Option<PendingPermission>) -> Option<Seq<PermissionOption>> {
    match p {
        Some(pp) => Some(pp.options@),
        None => None,
    }
}

/// The last line of a text, or nothing when it has no lines.
pub open spec fn last_line(c: Seq<char>) -> Seq<char> {
    if lines(c).len() > 0 {
        lines(c).last()
    } else {
        Seq::<char>::empty()
    }
}

/// The text listing option `i`: its index, name and kind.
pub open spec fn option_label(i: int, o: PermissionOption) -> Seq<char> {
    "  ["@ + decimal(i as nat) + "] "@ + o.name@ + " ("@ + option_kind_label(o.kind) + ")"@
}

/// One line per option, in order.
pub open spec fn option_lines(options: Seq<PermissionOption>) -> Seq<LineView> {
    Seq::new(
        options.len(),
        |i: int| line_of(seq![sv(option_label(i, options[i]), colored(Color::Yellow))]),
    )
}

/// A diff line: added lines in green after `+`, removed lines in red after `-`,
/// context lines after a space.
pub open spec fn diff_line_line(l: DiffLineView) -> LineView {
    match l {
        DiffLineView::Add(t) => line_of(seq![sv("+"@ + t, colored(Color::Green))]),
        DiffLineView::Remove(t) => line_of(seq![sv("-"@ + t, colored(Color::Red))]),
        DiffLineView::Context(t) => line_of(seq![sv(" "@ + t, plain())]),
    }
}

/// The screen lines of one block; an unanswered permission request also lists
/// the options of the pending request.
pub open spec fn block_lines(b: BlockView, pending: Option<Seq<PermissionOption>>) -> Seq<LineView> {
    match b {
        BlockView::UserInput { text } => seq![
            line_of(seq![sv("> "@, colored_bold(Color::Green)), sv(text, plain())]),
        ],
        BlockView::AgentText { content, .. } => lines(content).map_values(
            |l: Seq<char>| line_of(seq![sv(l, plain())]),
        ),
        BlockView::Thinking { content, .. } => seq![
            line_of(seq![sv("[thinking] "@ + last_line(content), colored_italic(Color::DarkGray))]),
        ],
        BlockView::ToolCall { title, status, .. } => seq![
            line_of(
                seq![
                    sv("[tool] "@, colored(Color::Cyan)),
                    sv(title, plain()),
                    sv(" ("@ + status + ")"@, colored(Color::Yellow)),
                ],
            ),
        ],
        BlockView::Diff { path, lines } => seq![
            line_of(seq![sv("[diff] "@, colored(Color::Cyan)), sv(path, plain())]),
        ] + lines.map_values(|l: DiffLineView| diff_line_line(l)),
        BlockView::PermissionRequest { title, resolved } => match resolved {
            Some(o) => seq![
                line_of(
                    seq![
                        sv("[permission] "@, colored(Color::Yellow)),
                        sv(title, plain()),
                        sv(" -> "@ + o, colored(Color::Green)),
                    ],
                ),
            ],
            None => seq![
                line_of(seq![sv("[permission] "@, colored_bold(Color::Yellow)), sv(title, plain())]),
            ] + match pending {
                Some(opts) => option_lines(opts),
                None => Seq::<LineView>::empty(),
            },
        },
        BlockView::System { message } => seq![
            line_of(seq![sv(message, colored_italic(Color::DarkGray))]),
        ],
    }
}

/// All conversation lines: each block's lines followed by a blank line.
pub open spec fn conversation_lines(
    s: Seq<BlockView>,
    pending: Option<Seq<PermissionOption>>,
) -> Seq<LineView>
    decreases s.len(),
{
    if s.len() == 0 {
        Seq::<LineView>::empty()
    } else {
        conversation_lines(s.drop_last(), pending) + block_lines(s.last(), pending).push(
            line_of(Seq::<SpanView>::empty()),
        )
    }
}

fn text_line(t: String, st: SpanStyle) -> (l: StyledLine)
    ensures
        l@ == line_of(seq![sv(t@, st)]),
{
    line1(span(t, st))
}

fn push_text_lines(content: &String, out: &mut Vec<StyledLine>)
    ensures
        line_views(final(out)@) == line_views(old(out)@) + lines(content@).map_values(
            |l: Seq<char>| line_of(seq![sv(l, plain())]),
        ),
{
    let ls = split_lines(content.as_str());
    let mut i: usize = 0;
    while i < ls.len()
        invariant
            i <= ls@.len(),
            views(ls@) == lines(content@),
            line_views(out@) == line_views(old(out)@) + lines(content@).take(i as int).map_values(
                |l: Seq<char>| line_of(seq![sv(l, plain())]),
            ),
        decreases ls.len() - i,
    {
        let ghost before = out@;
        assert(views(ls@)[i as int] == ls@[i as int]@);
        out.push(text_line(ls[i].clone(), style(None, false, false)));
        assert(line_views(out@) =~= line_views(before).push(
            line_of(seq![sv(lines(content@)[i as int], plain())]),
        ));
        assert(lines(content@).take(i + 1) =~= lines(content@).take(i as int).push(
            lines(content@)[i as int],
        ));
        assert(line_views(out@) =~= line_views(old(out)@) + lines(content@).take(i + 1).map_values(
            |l: Seq<char>| line_of(seq![sv(l, plain())]),
        ));
        i = i + 1;
    }
    assert(lines(content@).take(ls@.len() as int) =~= lines(content@));
}

fn last_line_of(content: &String) -> (r: String)
    ensures
        r@ == last_line(content@),
{
    let mut ls = split_lines(content.as_str());
    let ghost all = ls@;
    let n = ls.len();
    match ls.pop() {
        Some(l) => {
            proof {
                assert(views(all)[n - 1] == all[n - 1]@);
            }
            l
        },
        None => String::new(),
    }
}

fn option_text(i: usize, o: &PermissionOption) -> (r: String)
    ensures
        r@ == option_label(i as int, *o),
{
    let mut r = String::from_str("  [");
    push_decimal(&mut r, i as u64);
    let r = r.concat("] ").concat(o.name.as_str()).concat(" (").concat(
        option_kind_text(o.kind).as_str(),
    ).concat(")");
    r
}

fn diff_line_text(l: &DiffLine) -> (r: StyledLine)
    ensures
        r@ == diff_line_line(l@),
{
    match l {
        DiffLine::Add(t) => text_line(String::from_str("+").concat(t.as_str()), style(Some(Color::Green), false, false)),
        DiffLine::Remove(t) => text_line(String::from_str("-").concat(t.as_str()), style(Some(Color::Red), false, false)),
        DiffLine::Context(t) => text_line(String::from_str(" ").concat(t.as_str()), style(None, false, false)),
    }
}

fn push_block_lines(b: &Block, pending: &Option<PendingPermission>, out: &mut Vec<StyledLine>)
    ensures
        line_views(final(out)@) == line_views(old(out)@) + block_lines(b@, pending_options(*pending)),
{
    let ghost before = out@;
    match b {
        Block::UserInput { text } => {
            out.push(line2(
                span(String::from_str("> "), style(Some(Color::Green), true, false)),
                span(text.clone(), style(None, false, false)),
            ));
            assert(line_views(out@) =~= line_views(before) + block_lines(b@, pending_options(*pending)));
        },
        Block::AgentText { content, .. } => {
            push_text_lines(content, out);
        },
        Block::Thinking { content, .. } => {
            let last = last_line_of(content);
            out.push(text_line(
                String::from_str("[thinking] ").concat(last.as_str()),
                style(Some(Color::DarkGray), false, true),
            ));
            assert(line_views(out@) =~= line_views(before) + block_lines(b@, pending_options(*pending)));
        },
        Block::ToolCall { title, status, .. } => {
            out.push(line3(
                span(String::from_str("[tool] "), style(Some(Color::Cyan), false, false)),
                span(title.clone(), style(None, false, false)),
                span(
                    String::from_str(" (").concat(status.as_str()).concat(")"),
                    style(Some(Color::Yellow), false, false),
                ),
            ));
            assert(line_views(out@) =~= line_views(before) + block_lines(b@, pending_options(*pending)));
        },
        Block::Diff { path, lines: dl } => {
            out.push(line2(
                span(String::from_str("[diff] "), style(Some(Color::Cyan), false, false)),
                span(path.clone(), style(None, false, false)),
            ));
            let ghost head = out@;
            let ghost dv = crate::app::diff_line_views(dl@);
            let mut i: usize = 0;
            while i < dl.len()
                invariant
                    i <= dl@.len(),
                    dv == crate::app::diff_line_views(dl@),
                    line_views(out@) == line_views(head) + dv.take(i as int).map_values(
                        |l: DiffLineView| diff_line_line(l),
                    ),
                decreases dl.len() - i,
            {
                let ghost pre = out@;
                out.push(diff_line_text(&dl[i]));
                assert(dv[i as int] == dl@[i as int]@);
                assert(dv.take(i + 1) =~= dv.take(i as int).push(dv[i as int]));
                assert(line_views(out@) =~= line_views(pre).push(diff_line_line(dv[i as int])));
                assert(line_views(out@) =~= line_views(head) + dv.take(i + 1).map_values(
                    |l: DiffLineView| diff_line_line(l),
                ));
                i = i + 1;
            }
            assert(dv.take(dl@.len() as int) =~= dv);
            assert(line_views(out@) =~= line_views(before) + block_lines(b@, pending_options(*pending)));
        },
        Block::PermissionRequest { title, resolved } => {
            match resolved {
                Some(outcome) => {
                    out.push(line3(
                        span(String::from_str("[permission] "), style(Some(Color::Yellow), false, false)),
                        span(title.clone(), style(None, false, false)),
                        span(
                            String::from_str(" -> ").concat(outcome.as_str()),
                            style(Some(Color::Green), false, false),
                        ),
                    ));
                    assert(line_views(out@) =~= line_views(before) + block_lines(b@, pending_options(*pending)));
                },
                None => {
                    out.push(line2(
                        span(String::from_str("[permission] "), style(Some(Color::Yellow), true, false)),
                        span(title.clone(), style(None, false, false)),
                    ));
                    let ghost head = out@;
                    match pending {
                        Some(perm) => {
                            let opts = &perm.options;
                            let mut i: usize = 0;
                            while i < opts.len()
                                invariant
                                    i <= opts@.len(),
                                    line_views(out@) == line_views(head) + option_lines(opts@).take(i as int),
                                decreases opts.len() - i,
                            {
                                let ghost pre = out@;
                                out.push(text_line(option_text(i, &opts[i]), style(Some(Color::Yellow), false, false)));
                                assert(option_lines(opts@).take(i + 1) =~= option_lines(opts@).take(i as int).push(
                                    option_lines(opts@)[i as int],
                                ));
                                assert(line_views(out@) =~= line_views(pre).push(option_lines(opts@)[i as int]));
                                i = i + 1;
                            }
                            assert(option_lines(opts@).take(opts@.len() as int) =~= option_lines(opts@));
                        },
                        None => {},
                    }
                    assert(line_views(out@) =~= line_views(before) + block_lines(b@, pending_options(*pending)));
                },
            }
        },
        Block::System { message } => {
            out.push(text_line(message.clone(), style(Some(Color::DarkGray), false, true)));
            assert(line_views(out@) =~= line_views(before) + block_lines(b@, pending_options(*pending)));
        },
    }
}

/// The lines of the scroll area: every block's lines, each block followed by a
/// blank line.
pub fn scroll_area_lines(app: &App) -> (r: Vec<StyledLine>)
    ensures
        line_views(r@) == conversation_lines(app.blocks_view(), pending_options(app.pending_permission)),
{
    let ghost pend = pending_options(app.pending_permission);
    let mut out: Vec<StyledLine> = Vec::new();
    let mut i: usize = 0;
    while i < app.blocks.len()
        invariant
            i <= app.blocks@.len(),
            pend == pending_options(app.pending_permission),
            line_views(out@) == conversation_lines(app.blocks_view().take(i as int), pend),
        decreases app.blocks.len() - i,
    {
        let ghost s = app.blocks_view();
        assert(s.take(i + 1).drop_last() =~= s.take(i as int));
        assert(s.take(i + 1).last() == app.blocks@[i as int]@);
        push_block_lines(&app.blocks[i], &app.pending_permission, &mut out);
        let ghost pre = out@;
        let blank = StyledLine { spans: Vec::new(), style: style(None, false, false) };
        assert(blank@.spans =~= Seq::<SpanView>::empty());
        assert(blank@ == line_of(Seq::<SpanView>::empty()));
        out.push(blank);
        assert(line_views(out@) =~= line_views(pre).push(line_of(Seq::<SpanView>::empty())));
        assert(line_views(out@) =~= conversation_lines(s.take(i + 1), pend));
        i = i + 1;
    }
    assert(app.blocks_view().take(app.blocks@.len() as int) =~= app.blocks_view());
    out
}


// ---------------------------------------------------------------------------
// Scrolling, the input bar and the screen layout
// ---------------------------------------------------------------------------

/// The first screen row of the conversation shown: with no offset, the last
/// `height` of its `rows` wrapped rows, and each unit of scroll offset moves
/// the view one row up, never above the first row. (The value is taken modulo
/// 2^16, as the paragraph's scroll position.)
pub open spec fn scroll_top(rows: int, height: int, offset: int) -> u16 {
    let bottom = if rows > height {
        rows - height
    } else {
        0
    };
    let top = if bottom > offset {
        bottom - offset
    } else {
        0
    };
    top as u16
}

/// The first row to show, for a conversation of `rows` screen rows in an area
/// `visible_height` rows high, scrolled `scroll_offset` rows up from the bottom.
/// With no offset the last row lies inside the area.
pub fn scroll_position(rows: usize, visible_height: u16, scroll_offset: u16) -> (r: u16)
    ensures
        r == scroll_top(rows as int, visible_height as int, scroll_offset as int),
        scroll_offset == 0 && rows <= visible_height + u16::MAX ==> rows <= r + visible_height,
        scroll_offset == 0 && rows <= visible_height ==> r == 0,
{
    let h = visible_height as usize;
    let bottom = if rows > h {
        rows - h
    } else {
        0
    };
    let off = scroll_offset as usize;
    let top = if bottom > off {
        bottom - off
    } else {
        0
    };
    top as u16
}

/// The number of screen rows that the lines take when drawn as a paragraph
/// that wraps at `width` cells without trimming.
pub uninterp spec fn wrapped_rows(lines: Seq<LineView>, width: u16) -> nat;

/// Counts the rows of the wrapped lines:
/// `ratatui::widgets::Paragraph::new(..).wrap(Wrap { trim: false }).line_count(width)`.
/// The count depends only on the lines' text and the width (styles do not
/// change where lines wrap); the contract names it, and states the source's
/// answer for a zero width: no rows.
#[verifier::external_body]
fn wrapped_row_count(lines: &Vec<StyledLine>, width: u16) -> (r: usize)
    ensures
        r == wrapped_rows(line_views(lines@), width),
        width == 0 ==> r == 0,
{
    let text: Vec<ratatui::text::Line> = lines.iter().map(|l| {
        ratatui::text::Line::from(
            l.spans.iter().map(|s| ratatui::text::Span::raw(s.text.as_str())).collect::<Vec<_>>(),
        )
    }).collect();
    let p = ratatui::widgets::Paragraph::new(text).wrap(ratatui::widgets::Wrap { trim: false });
    p.line_count(width)
}

/// The scroll position of the conversation `lines` drawn wrapped in `area`,
/// scrolled `scroll_offset` rows up from the bottom: counted in wrapped rows,
/// so that with no offset the latest row is inside the area.
pub fn scroll_area_top(lines: &Vec<StyledLine>, area: Rect, scroll_offset: u16) -> (r: u16)
    ensures
        r == scroll_top(
            wrapped_rows(line_views(lines@), area.width) as int,
            area.height as int,
            scroll_offset as int,
        ),
        scroll_offset == 0 && wrapped_rows(line_views(lines@), area.width) <= area.height
            + u16::MAX ==> wrapped_rows(line_views(lines@), area.width) <= r + area.height,
{
    let rows = wrapped_row_count(lines, area.width);
    scroll_position(rows, area.height, scroll_offset)
}

/// The input bar line: a bold green prompt, then the input text.
pub open spec fn input_line_view(input: Seq<char>) -> LineView {
    line_of(seq![sv("> "@, colored_bold(Color::Green)), sv(input, plain())])
}

/// The input bar line.
pub fn input_line(app: &App) -> (l: StyledLine)
    ensures
        l@ == input_line_view(app.input@),
{
    line2(
        span(String::from_str("> "), style(Some(Color::Green), true, false)),
        span(app.input.clone(), style(None, false, false)),
    )
}

/// The terminal cell of the input cursor in the input bar `area`: past the
/// two-cell prompt by the number of characters before the cursor (counted
/// modulo 2^16), on the line below the bar's top border.
pub open spec fn cursor_cell(input: Seq<char>, cursor: int, area: Rect) -> (int, int) {
    (area.x + 2 + (char_index(input, cursor) as u16), area.y + 1)
}

/// Where the terminal cursor goes.
pub fn input_cursor(app: &App, area: Rect) -> (r: (u16, u16))
    requires
        app.cursor_valid(),
        area.x + 2 + (char_index(app.input@, app.cursor as int) as u16) <= u16::MAX,
        area.y + 1 <= u16::MAX,
    ensures
        (r.0 as int, r.1 as int) == cursor_cell(app.input@, app.cursor as int, area),
{
    let v = chars_of(app.input.as_str());
    let k = char_index_of(&v, app.cursor);
    let n = k as u16;
    (area.x + 2 + n, area.y + 1)
}

/// A size constraint on one region of a layout.
#[derive(Debug, Clone, Copy, PartialEq, Eq)]
pub enum Constraint {
    /// Exactly this many cells.
    Length(u16),
    /// At least this many cells.
    Min(u16),
}

/// The regions into which a vertical layout with these constraints splits `area`.
pub uninterp spec fn vertical_layout(area: Rect, constraints: Seq<Constraint>) -> Seq<Rect>;

/// Splits `area` top to bottom: `ratatui::layout::Layout::vertical(..).split(..)`.
/// The contract claims that the regions are a function of the area and the
/// constraints, one region per constraint; how the solver sizes them is not stated.
#[verifier::external_body]
fn split_vertical(area: Rect, constraints: &Vec<Constraint>) -> (r: Vec<Rect>)
    ensures
        r@ == vertical_layout(area, constraints@),
        r@.len() == constraints@.len(),
{
    let cs: Vec<ratatui::layout::Constraint> = constraints.iter().map(|c| match *c {
        Constraint::Length(n) => ratatui::layout::Constraint::Length(n),
        Constraint::Min(n) => ratatui::layout::Constraint::Min(n),
    }).collect();
    let r = ratatui::layout::Rect { x: area.x, y: area.y, width: area.width, height: area.height };
    let parts = ratatui::layout::Layout::vertical(cs).split(r);
    parts.iter().map(|p| Rect { x: p.x, y: p.y, width: p.width, height: p.height }).collect()
}

/// The constraints of the screen: a one-line status bar, the scroll area taking
/// the rest (at least one line), and a three-line input bar.
pub open spec fn screen_constraints() -> Seq<Constraint> {
    seq![Constraint::Length(1), Constraint::Min(1), Constraint::Length(3)]
}

/// The status bar, scroll area and input bar regions of the screen `area`.
pub fn screen_areas(area: Rect) -> (r: (Rect, Rect, Rect))
    ensures
        seq![r.0, r.1, r.2] == vertical_layout(area, screen_constraints()),
{
    let cs = vec![Constraint::Length(1), Constraint::Min(1), Constraint::Length(3)];
    assert(cs@ =~= screen_constraints());
    let parts = split_vertical(area, &cs);
    let r = (parts[0], parts[1], parts[2]);
    assert(seq![r.0, r.1, r.2] =~= parts@);
    r
}

} // verus!
