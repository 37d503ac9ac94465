//! What the view shows of each node: its line cut to the visible columns,
//! with the cursor's cell, the marks of cut lines and the line number;
//! and how many screen rows each line takes once wrapped.

use vstd::prelude::*;

use super::sat_column;
use super::view::line_spec;
use super::view::prefix_spec;
use super::view::spaces;
use super::view::push_spaces;
use super::App;
use super::Mode;
use super::VisualKind;
use crate::node::nodes_view;
use crate::node::number_width;
use crate::text::decimal;
use crate::text::push_decimal;
use crate::text::string_from;

verus! {

/// The rows that `ratatui` wraps a one-line paragraph into, the line made
/// of the given spans, at the given width.
pub uninterp spec fn wrapped_rows_of(pieces: Seq<Seq<char>>, width: u16) -> usize;

/// The rows a paragraph of one line takes when wrapped to `width`
/// columns, as `ratatui`'s `Paragraph::line_count` counts them, each piece
/// being one span of the line. What the count is on given spans is left
/// to the name; the source shows that it is 0 for a width of 0.
#[verifier::external_body]
fn wrapped_rows(pieces: &Vec<String>, width: u16) -> (r: usize)
    ensures
        r == wrapped_rows_of(pieces@.map_values(|p: String| p@), width),
        width == 0 ==> r == 0,
{
    let spans: Vec<ratatui::text::Span> = pieces.iter().map(|p| ratatui::text::Span::raw(p.clone())).collect();
    let line = ratatui::text::Line::from(spans);
    ratatui::widgets::Paragraph::new(ratatui::text::Text::from(vec![line]))
        .wrap(ratatui::widgets::Wrap { trim: false })
        .line_count(width)
}

/// A line number right-aligned in `width - 1` columns, then a space.
pub open spec fn label_spec(line: nat, width: nat) -> Seq<char> {
    let d = decimal(line);
    let pad = if width >= 1 + d.len() { width - 1 - d.len() } else { 0 };
    spaces(pad) + d + seq![' ']
}

/// The gutter's label of line `line` (counted from 1) in a gutter of
/// `width` columns.
pub fn number_label(line: usize, width: usize) -> (r: Vec<char>)
    ensures
        r@ == label_spec(line as nat, width as nat),
{
    let mut digits: Vec<char> = Vec::new();
    push_decimal(&mut digits, line);
    let mut out: Vec<char> = Vec::new();
    let pad = if width >= 1 && width - 1 >= digits.len() { width - 1 - digits.len() } else { 0 };
    push_spaces(&mut out, pad);
    out.append(&mut digits);
    out.push(' ');
    out
}

/// One line of the view as it is drawn.
pub struct DisplayLine {
    /// The line number, when lines are numbered.
    pub number: Option<Vec<char>>,
    /// Whether the line is cut on the left, shown by `‹`.
    pub left_more: bool,
    /// The visible characters, a space standing for the place after the
    /// end where the cursor may be.
    pub cells: Vec<char>,
    /// For each cell, whether it is shown reversed: the cursor's cell and
    /// the cells of a character selection.
    pub marked: Vec<bool>,
    /// Whether the line is cut on the right, shown by `›`.
    pub right_more: bool,
    /// Whether the whole line is shown reversed: a line of a selection
    /// by lines.
    pub whole: bool,
}

/// A line of the view, as values.
pub struct LineView {
    pub number: Option<Seq<char>>,
    pub left_more: bool,
    pub cells: Seq<char>,
    pub marked: Seq<bool>,
    pub right_more: bool,
    pub whole: bool,
}

impl View for DisplayLine {
    type V = LineView;

    open spec fn view(&self) -> LineView {
        LineView {
            number: match self.number {
                Some(n) => Some(n@),
                None => None,
            },
            left_more: self.left_more,
            cells: self.cells@,
            marked: self.marked@,
            right_more: self.right_more,
            whole: self.whole,
        }
    }
}

/// The characters of `line` from `start` up to `end`, a space past its
/// end.
pub open spec fn shown_chars(line: Seq<char>, start: int, end: int) -> Seq<char> {
    Seq::new((end - start) as nat, |k: int| if start + k < line.len() { line[start + k] } else { ' ' })
}

/// The smaller of two integers.
pub open spec fn min_int(a: int, b: int) -> int {
    if a <= b {
        a
    } else {
        b
    }
}

/// Where a line of `len` characters is cut to show `width` columns from
/// `h_scroll` on: the first and last-but-one column shown, and whether
/// each side is cut. The cursor past the end takes a column of its own;
/// a cut side gives up a column to its mark.
pub open spec fn cut_spec(len: int, cursor_at: Option<int>, h_scroll: int, width: int) -> (int, int, bool, bool) {
    let total = match cursor_at {
        Some(at) => if at >= len {
            min_int(at + 1, usize::MAX as int)
        } else {
            len
        },
        None => len,
    };
    let left_more = h_scroll > 0 && total > 0;
    let budget = width - (if left_more { 1int } else { 0int });
    let start = min_int(h_scroll, total);
    let end0 = min_int(start + budget, total);
    let right_more = end0 < total;
    let end = if right_more && end0 > start { end0 - 1 } else { end0 };
    (start, end, left_more, right_more)
}

/// Line `index` of the view: the columns from `h_scroll` on that fit the
/// width (all of them in the source view, which wraps instead), one cell
/// past the end when the cursor is there, a column given up to each mark
/// of a cut side.
pub open spec fn line_view_spec(app: App, index: int) -> LineView {
    let v = nodes_view(app.nodes@);
    let chars = line_spec(v, index, app.source_mode);
    let len = chars.len() as int;
    let cursor_at: Option<int> = if index == app.cursor {
        Some(sat_column(prefix_spec(v, index).len() as int, if v[index].text.len() == 0 {
            0
        } else {
            app.cursor_col as int
        }))
    } else {
        None
    };
    let width: int = if app.width == 0 || app.source_mode { usize::MAX as int } else { app.width as int };
    let (start, end, left_more, right_more) = cut_spec(len, cursor_at, app.h_scroll as int, width);
    LineView {
        number: if app.number {
            Some(label_spec((index + 1) as nat, number_width_spec(app.nodes@.len() as nat)))
        } else {
            None
        },
        left_more,
        cells: shown_chars(chars, start, end),
        marked: Seq::new((end - start) as nat, |k: int| marked_at(app, index, cursor_at, start + k)),
        right_more,
        whole: whole_line(app, index),
    }
}

/// The columns of node `index`'s text that a character selection covers,
/// the end excluded.
pub open spec fn selected_span(app: App, index: int) -> Option<(int, int)> {
    if app.mode == Mode::Visual && app.visual_kind == VisualKind::Char {
        let (a, ac, b, be) = app.char_span_spec();
        let t = app.nodes@[index].text@.len() as int;
        if a <= index <= b && t > 0 {
            Some((if index == a { ac } else { 0 }, if index == b { be } else { t }))
        } else {
            None
        }
    } else {
        None
    }
}

/// Whether line `index` lies in a selection by lines.
pub open spec fn whole_line(app: App, index: int) -> bool {
    app.mode == Mode::Visual && app.visual_kind == VisualKind::Line && app.line_range_spec().0 <= index
        <= app.line_range_spec().1
}

/// Whether column `pos` of line `index` is shown reversed: the whole
/// line is, or it is the cursor's column, or a selected character.
pub open spec fn marked_at(app: App, index: int, cursor_at: Option<int>, pos: int) -> bool {
    let p = prefix_spec(nodes_view(app.nodes@), index).len() as int;
    ||| whole_line(app, index)
    ||| cursor_at == Some(pos)
    ||| (selected_span(app, index) matches Some((lo, hi)) && p + lo <= pos < p + hi)
}

/// The gutter's width for `count` lines, as `number_width` gives it.
pub open spec fn number_width_spec(count: nat) -> nat {
    (if crate::node::digits(count) > crate::node::NUMBER_WIDTH {
        crate::node::digits(count)
    } else {
        crate::node::NUMBER_WIDTH as nat
    }) + 1
}

/// The spans a line is drawn with: the number, the left mark, each cell
/// on its own, the right mark.
pub open spec fn pieces_spec(l: LineView) -> Seq<Seq<char>> {
    (match l.number {
        Some(n) => seq![n],
        None => Seq::empty(),
    }) + (if l.left_more { seq!["‹"@] } else { Seq::empty() }) + Seq::new(l.cells.len(), |k: int| seq![l.cells[k]])
        + (if l.right_more { seq!["›"@] } else { Seq::empty() })
}

/// The screen rows of node `index`'s line: as wrapped in the source view,
/// at least one; one in the tree view, which does not wrap.
pub open spec fn row_height(app: App, width: u16, index: int) -> int {
    if app.source_mode && width > 0 {
        let rows = wrapped_rows_of(pieces_spec(line_view_spec(app, index)), width) as int;
        if rows >= 1 {
            rows
        } else {
            1
        }
    } else {
        1
    }
}

/// The screen row that node `k` starts at: the rows of the nodes above,
/// kept within `usize`.
pub open spec fn rows_before(app: App, width: u16, k: int) -> int
    decreases k,
{
    if k <= 0 {
        0
    } else {
        min_int(rows_before(app, width, k - 1) + row_height(app, width, k - 1), usize::MAX as int)
    }
}

/// What the line at the bottom shows: the `:` line or the search being
/// typed, else the message.
pub open spec fn status_spec(app: App) -> Seq<char> {
    if app.mode == Mode::Command {
        seq![':'] + app.command@
    } else if app.mode == Mode::Search {
        seq![if app.search_forward { '/' } else { '?' }] + app.search@
    } else {
        app.message@
    }
}

/// The text of the line at the bottom.
pub fn status_text(app: &App) -> (r: String)
    ensures
        r@ == status_spec(*app),
{
    let mut out: Vec<char> = Vec::new();
    if app.mode == Mode::Command {
        out.push(':');
        let mut rest = app.command.clone();
        assert(rest@ =~= app.command@);
        out.append(&mut rest);
    } else if app.mode == Mode::Search {
        out.push(if app.search_forward { '/' } else { '?' });
        let mut rest = app.search.clone();
        assert(rest@ =~= app.search@);
        out.append(&mut rest);
    } else {
        let mut rest = app.message.clone();
        assert(rest@ =~= app.message@);
        out.append(&mut rest);
        assert(out@ =~= app.message@);
    }
    string_from(out.as_slice())
}

/// The spans of a line: the number, the left mark, each cell on its own,
/// the right mark.
pub fn pieces(line: &DisplayLine) -> (r: Vec<String>)
    ensures
        r@.map_values(|p: String| p@) == pieces_spec(line@),
{
    let mut out: Vec<String> = Vec::new();
    let ghost l = line@;
    match &line.number {
        Some(n) => out.push(string_from(n.as_slice())),
        None => {},
    }
    let ghost head = (match l.number {
        Some(n) => seq![n],
        None => Seq::<Seq<char>>::empty(),
    });
    assert(out@.map_values(|p: String| p@) =~= head);
    if line.left_more {
        out.push(string_from(crate::text::chars_of("‹").as_slice()));
    }
    let ghost head2 = head + (if l.left_more { seq!["‹"@] } else { Seq::<Seq<char>>::empty() });
    assert(out@.map_values(|p: String| p@) =~= head2);
    let mut k: usize = 0;
    while k < line.cells.len()
        invariant
            k <= line.cells@.len(),
            l == line@,
            out@.map_values(|p: String| p@) =~= head2 + Seq::new(k as nat, |j: int| seq![l.cells[j]]),
        decreases line.cells@.len() - k,
    {
        let mut one: Vec<char> = Vec::new();
        one.push(line.cells[k]);
        assert(one@ =~= seq![l.cells[k as int]]);
        let piece = string_from(one.as_slice());
        let ghost before = out@;
        out.push(piece);
        assert(out@.map_values(|p: String| p@) =~= before.map_values(|p: String| p@).push(seq![l.cells[k as int]]));
        k = k + 1;
        assert(out@.map_values(|p: String| p@) =~= head2 + Seq::new(k as nat, |j: int| seq![l.cells[j]]));
    }
    let ghost body = head2 + Seq::new(l.cells.len(), |j: int| seq![l.cells[j]]);
    if line.right_more {
        let mark = string_from(crate::text::chars_of("›").as_slice());
        let ghost before = out@;
        out.push(mark);
        assert(out@.map_values(|p: String| p@) =~= before.map_values(|p: String| p@).push("›"@));
        assert(out@.map_values(|p: String| p@) =~= body + seq!["›"@]);
    } else {
        assert(out@.map_values(|p: String| p@) =~= body + Seq::<Seq<char>>::empty());
    }
    assert(pieces_spec(l) =~= body + (if l.right_more { seq!["›"@] } else { Seq::<Seq<char>>::empty() }));
    out
}

/// Where a line of `len` characters is cut to show `width` columns from
/// `h_scroll` on.
fn cut(len: usize, cursor_at: Option<usize>, h_scroll: usize, width: usize) -> (r: (usize, usize, bool, bool))
    requires
        width >= 1,
    ensures
        (r.0 as int, r.1 as int, r.2, r.3) == cut_spec(len as int, match cursor_at {
            Some(at) => Some(at as int),
            None => None,
        }, h_scroll as int, width as int),
        r.0 <= r.1,
{
    let total = match cursor_at {
        Some(at) => if at >= len {
            if at < usize::MAX { at + 1 } else { usize::MAX }
        } else {
            len
        },
        None => len,
    };
    let left_more = h_scroll > 0 && total > 0;
    let budget = if left_more { width - 1 } else { width };
    let start = if h_scroll <= total { h_scroll } else { total };
    let end0 = if budget <= total - start { start + budget } else { total };
    let right_more = end0 < total;
    let end = if right_more && end0 > start { end0 - 1 } else { end0 };
    (start, end, left_more, right_more)
}

/// The characters of `chars` from `start` up to `end`, a space past its
/// end, and for each whether it is shown reversed: all of them when
/// `whole`, else the cursor's and those from `sel.0` up to `sel.1`.
fn cut_cells(chars: &Vec<char>, start: usize, end: usize, cursor_at: Option<usize>, sel: Option<(usize, usize)>, whole: bool)
    -> (r: (Vec<char>, Vec<bool>))
    requires
        start <= end,
    ensures
        r.0@ == shown_chars(chars@, start as int, end as int),
        r.1@ == Seq::new((end - start) as nat, |k: int| marked_cell(cursor_at, sel, whole, start + k)),
{
    let mut cells: Vec<char> = Vec::new();
    let mut marked: Vec<bool> = Vec::new();
    let mut i: usize = start;
    while i < end
        invariant
            start <= i <= end,
            cells@ =~= shown_chars(chars@, start as int, i as int),
            marked@ =~= Seq::new((i - start) as nat, |k: int| marked_cell(cursor_at, sel, whole, start + k)),
        decreases end - i,
    {
        cells.push(if i < chars.len() { chars[i] } else { ' ' });
        let at_cursor = match cursor_at {
            Some(at) => at == i,
            None => false,
        };
        let in_sel = match sel {
            Some((lo, hi)) => lo <= i && i < hi,
            None => false,
        };
        marked.push(whole || at_cursor || in_sel);
        i = i + 1;
    }
    (cells, marked)
}

/// Whether column `pos` is shown reversed, given the cursor's column, the
/// selected columns and whether the whole line is.
pub open spec fn marked_cell(cursor_at: Option<usize>, sel: Option<(usize, usize)>, whole: bool, pos: int) -> bool {
    ||| whole
    ||| (cursor_at matches Some(at) && at == pos)
    ||| (sel matches Some((lo, hi)) && lo <= pos < hi)
}

impl App {
    /// Line `index` of the view as it is drawn.
    pub fn display_line(&self, index: usize) -> (r: DisplayLine)
        requires
            self.wf(),
            index < self.nodes@.len(),
        ensures
            r@ == line_view_spec(*self, index as int),
    {
        let count = self.nodes.len();
        let number = if self.number {
            Some(number_label(index + 1, number_width(count)))
        } else {
            None
        };
        let chars = self.tree_line(index);
        let len = chars.len();
        let cursor_at = if index == self.cursor { Some(self.cursor_column(index)) } else { None };
        let width = if self.width == 0 || self.source_mode { usize::MAX } else { self.width };
        let (start, end, left_more, right_more) = cut(len, cursor_at, self.h_scroll, width);
        let whole = if self.mode == Mode::Visual && self.visual_kind == VisualKind::Line {
            let (lo, hi) = self.visual_line_range();
            lo <= index && index <= hi
        } else {
            false
        };
        let sel = if self.mode == Mode::Visual && self.visual_kind == VisualKind::Char {
            let (a, ac, b, be) = self.visual_char_span();
            let t = self.nodes[index].text.len();
            if a <= index && index <= b && t > 0 {
                let p = self.tree_prefix(index).len();
                let lo = if index == a { ac } else { 0 };
                let hi = if index == b { be } else { t };
                proof {
                    assert(p + t == chars@.len());
                }
                Some((p + lo, p + hi))
            } else {
                None
            }
        } else {
            None
        };
        let (cells, marked) = cut_cells(&chars, start, end, cursor_at, sel, whole);
        proof {
            let ca: Option<int> = match cursor_at {
                Some(at) => Some(at as int),
                None => None,
            };
            let pl = prefix_spec(nodes_view(self.nodes@), index as int).len() as int;
            assert(whole == whole_line(*self, index as int));
            assert(match sel {
                Some((lo, hi)) => selected_span(*self, index as int) matches Some((l, h)) && lo == pl + l && hi == pl + h,
                None => selected_span(*self, index as int) is None,
            });
            assert forall|k: int| 0 <= k < marked@.len() implies #[trigger] marked@[k] == marked_at(*self, index as int, ca, start + k) by {
                assert(marked@[k] == marked_cell(cursor_at, sel, whole, start + k));
            }
            assert(marked@ =~= Seq::new((end - start) as nat, |k: int| marked_at(*self, index as int, ca, start + k)));
        }
        DisplayLine { number, left_more, cells, marked, right_more, whole }
    }

    /// The lines of the view as they are drawn.
    pub fn tree_display(&self) -> (r: Vec<DisplayLine>)
        requires
            self.wf(),
        ensures
            r@.len() == self.nodes@.len(),
            forall|i: int| 0 <= i < r@.len() ==> #[trigger] r@[i]@ == line_view_spec(*self, i),
    {
        let mut lines: Vec<DisplayLine> = Vec::new();
        let mut index: usize = 0;
        while index < self.nodes.len()
            invariant
                self.wf(),
                index <= self.nodes@.len(),
                lines@.len() == index,
                forall|i: int| 0 <= i < index ==> #[trigger] lines@[i]@ == line_view_spec(*self, i),
            decreases self.nodes@.len() - index,
        {
            lines.push(self.display_line(index));
            index = index + 1;
        }
        lines
    }

    /// Brings the screen row of each node up to date for a view `width`
    /// columns wide: in the source view a line takes the rows it wraps
    /// into, in the tree view one.
    pub fn refresh_row_offsets(&mut self, width: u16)
        requires
            old(self).wf(),
        ensures
            final(self).row_offsets@.len() == old(self).nodes@.len(),
            forall|i: int| 0 <= i < old(self).nodes@.len() ==> #[trigger] final(self).row_offsets@[i] == rows_before(*old(self), width, i),
            final(self).total_rows == rows_before(*old(self), width, old(self).nodes@.len() as int),
            *final(self) == (App { row_offsets: final(self).row_offsets, total_rows: final(self).total_rows, ..*old(self) }),
    {
        let mut offsets: Vec<usize> = Vec::new();
        let mut total: usize = 0;
        let n = self.nodes.len();
        let mut index: usize = 0;
        while index < n
            invariant
                self.wf(),
                n == self.nodes@.len(),
                index <= n,
                offsets@.len() == index,
                total == rows_before(*self, width, index as int),
                forall|i: int| 0 <= i < index ==> #[trigger] offsets@[i] == rows_before(*self, width, i),
            decreases n - index,
        {
            offsets.push(total);
            let height = if self.source_mode && width > 0 {
                let line = self.display_line(index);
                let rows = wrapped_rows(&pieces(&line), width);
                if rows >= 1 { rows } else { 1 }
            } else {
                1
            };
            assert(height == row_height(*self, width, index as int));
            total = if total <= usize::MAX - height { total + height } else { usize::MAX };
            index = index + 1;
        }
        self.row_offsets = offsets;
        self.total_rows = total;
    }

    /// Sizes the view to a frame whose inside is `width` by `height` cells
    /// with its border, and scrolls to the cursor: the rows and columns
    /// inside the border, the gutter taken off the columns, the screen row
    /// of each node, then the scroll that shows the cursor (sideways too in
    /// the tree view).
    pub fn prepare_view(&mut self, width: u16, height: u16)
        requires
            old(self).wf(),
        ensures
            final(self).wf(),
            final(self).height == (if height >= 2 { height - 2 } else { 0 }),
            final(self).width == ({
                let inner: int = if width >= 2 { width - 2 } else { 0 };
                let gutter: int = if old(self).number { number_width_spec(old(self).nodes@.len() as nat) as int } else { 0 };
                if inner >= gutter { inner - gutter } else { 0 }
            }),
            ({
                let sized = App { height: final(self).height, width: final(self).width, ..*old(self) };
                let inner: u16 = if width >= 2 { (width - 2) as u16 } else { 0 };
                &&& final(self).row_offsets@.len() == old(self).nodes@.len()
                &&& forall|i: int| 0 <= i < old(self).nodes@.len() ==> #[trigger] final(self).row_offsets@[i] == rows_before(sized, inner, i)
                &&& final(self).total_rows == rows_before(sized, inner, old(self).nodes@.len() as int)
            }),
            final(self).height > 0 ==> final(self).scroll <= final(self).cursor_row_spec() < final(self).scroll + final(self).height,
            final(self).scroll == (App { scroll: old(self).scroll, h_scroll: old(self).h_scroll, ..*final(self) }).followed_scroll(),
            final(self).h_scroll == (if old(self).source_mode {
                old(self).h_scroll as int
            } else {
                (App { h_scroll: old(self).h_scroll, ..*final(self) }).followed_h_scroll()
            }),
            *final(self) == (App {
                height: final(self).height,
                width: final(self).width,
                row_offsets: final(self).row_offsets,
                total_rows: final(self).total_rows,
                scroll: final(self).scroll,
                h_scroll: final(self).h_scroll,
                ..*old(self)
            }),
    {
        self.height = if height >= 2 { (height - 2) as usize } else { 0 };
        let gutter = if self.number { number_width(self.nodes.len()) } else { 0 };
        let inner_usize: usize = if width >= 2 { (width - 2) as usize } else { 0 };
        self.width = if inner_usize >= gutter { inner_usize - gutter } else { 0 };
        let inner: u16 = if width >= 2 { width - 2 } else { 0 };
        self.refresh_row_offsets(inner);
        self.follow_cursor();
        if !self.source_mode {
            self.follow_cursor_horizontal();
        }
    }
}

} // verus!
