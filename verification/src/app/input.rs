//! Keys, and what each key does in each mode.

use vstd::prelude::*;

use super::editing::backspaced;
use super::editing::char_deleted;
use super::editing::char_inserted;
use super::editing::indented;
use super::editing::unindented;
use super::io::command_run;
use super::search::searched;
use super::substitute::confirm_done;
use super::view::toggled;
use super::editing::entered;
use super::editing::moved_down;
use super::editing::moved_left;
use super::editing::moved_up;
use super::editing::moved_right;
use super::editing::nodes_deleted;
use super::editing::opened_above;
use super::editing::pasted;
use super::editing::subtree_end_spec;
use super::editing::subtree_indented;
use super::editing::subtree_unindented;
use super::editing::text_typed;
use super::editing::yanked;
use super::edit_began;
use super::history_kept;
use super::others_kept;
use super::moved_to;
use super::paged;
use super::redone;
use super::scrolled_by;
use super::undone;
use super::search::search_repeated;
use super::search::word_searched;
use super::substitute::globally_repeated;
use super::visual::line_range_of;
use super::visual::visual_changed;
use super::visual::visual_deleted;
use super::visual::visual_indented;
use super::visual::visual_yanked;
use super::view::lines_spec;
use super::view::split_into_lines;
use super::App;
use super::Mode;
use super::VisualKind;
use crate::node::nodes_view;
use crate::text::chars_of;

verus! {

/// A key, as the editor tells keys apart.
#[derive(Debug, Clone, Copy, PartialEq, Eq, Structural)]
pub enum Key {
    Char(char),
    Enter,
    Esc,
    Backspace,
    Delete,
    Tab,
    BackTab,
    Up,
    Down,
    Left,
    Right,
    Home,
    End,
    PageUp,
    PageDown,
    /// A function key, by its number.
    F(u8),
    /// Any other key, which the editor ignores.
    Other,
}

/// A key with the modifiers the editor looks at.
#[derive(Debug, Clone, Copy, PartialEq, Eq, Structural)]
pub struct KeyPress {
    pub code: Key,
    pub ctrl: bool,
    pub alt: bool,
}


/// The number that `page` keys move by: the view less two rows of
/// overlap, one at least.
pub open spec fn page_of(height: int) -> int {
    let p = if height >= 3 { height - 2 } else { 1 };
    if p <= isize::MAX { p } else { isize::MAX as int }
}

/// The count once digit `d` is typed after it, kept within `usize`.
pub open spec fn count_with(count: Option<usize>, d: int) -> int {
    let c = match count {
        Some(n) => n as int,
        None => 0,
    };
    if c * 10 + d <= usize::MAX {
        c * 10 + d
    } else {
        usize::MAX as int
    }
}

/// Whether a key in Normal or Visual mode adds to the count: a digit with
/// no key pending, `0` only when a count has begun.
pub open spec fn counts(pending: Option<char>, count: Option<usize>, c: char) -> bool {
    pending is None && '0' <= c <= '9' && (c != '0' || count is Some)
}

/// The count a command takes: the one typed, else 1.
pub open spec fn count_or_one(given: Option<usize>) -> usize {
    match given {
        Some(n) => n,
        None => 1,
    }
}

/// A count as lines to move, kept within `isize`.
pub open spec fn lines_of(count: usize) -> isize {
    if count <= isize::MAX {
        count as isize
    } else {
        isize::MAX
    }
}

/// Half the view's rows, one at least, for `Ctrl-d` and `Ctrl-u`.
pub open spec fn half_of(height: usize) -> isize {
    if height / 2 >= 1 {
        if height / 2 <= isize::MAX {
            (height / 2) as isize
        } else {
            isize::MAX
        }
    } else {
        1
    }
}

/// The node that `M` goes to: the middle of the rows in view, or of all
/// nodes before the view has a height.
pub open spec fn middle_spec(s0: App) -> usize {
    let n = s0.nodes@.len() as int;
    let index: int = if s0.height == 0 {
        n / 2
    } else {
        let half = s0.height / 2;
        if s0.scroll + half <= usize::MAX { s0.scroll + half } else { usize::MAX as int }
    };
    (if index < n - 1 { index } else { n - 1 }) as usize
}

/// The number of nodes in the cursor's subtree.
pub open spec fn subtree_len_spec(s0: App) -> usize {
    (subtree_end_spec(nodes_view(s0.nodes@), s0.cursor as int) - s0.cursor) as usize
}

/// `s1` is `s0` with the cursor `n` columns to the left, the start of
/// the text at most.
pub open spec fn moved_left_by(s0: App, s1: App, n: int) -> bool {
    &&& s1.cursor_col == (if s0.cursor_col >= n { s0.cursor_col - n } else { 0 })
    &&& s1.cursor == s0.cursor
    &&& s1.nodes@ == s0.nodes@
    &&& others_kept(s0, s1)
    &&& history_kept(s0, s1)
}

/// `s1` is `s0` with the cursor `n` columns to the right, the end of the
/// text at most.
pub open spec fn moved_right_by(s0: App, s1: App, n: int) -> bool {
    &&& s1.cursor_col == (if s0.cursor_col + n <= s0.cur_text().len() { s0.cursor_col + n } else { s0.cur_text().len() as int })
    &&& s1.cursor == s0.cursor
    &&& s1.nodes@ == s0.nodes@
    &&& others_kept(s0, s1)
    &&& history_kept(s0, s1)
}

/// `s1` is `s0` after the cursor moved down a node `n` times.
pub open spec fn moved_down_times(s0: App, s1: App, n: nat) -> bool
    decreases n,
{
    if n == 0 {
        s1 == s0
    } else {
        exists|m: App| moved_down_times(s0, m, (n - 1) as nat) && #[trigger] moved_down(m, s1)
    }
}

/// `s1` is `s0` after the cursor moved up a node `n` times.
pub open spec fn moved_up_times(s0: App, s1: App, n: nat) -> bool
    decreases n,
{
    if n == 0 {
        s1 == s0
    } else {
        exists|m: App| moved_up_times(s0, m, (n - 1) as nat) && #[trigger] moved_up(m, s1)
    }
}

/// `s1` is `s0` after `n` characters were deleted one by one at the
/// cursor, as `x` (`yank`) or Delete does.
pub open spec fn chars_deleted_times(s0: App, s1: App, n: nat, yank: bool) -> bool
    decreases n,
{
    if n == 0 {
        s1 == s0
    } else {
        exists|m: App| chars_deleted_times(s0, m, (n - 1) as nat, yank) && #[trigger] char_deleted(m, s1, yank)
    }
}

/// The first line of a text, empty when it has none.
pub open spec fn first_line(text: Seq<char>) -> Seq<char> {
    if lines_spec(text).len() > 0 {
        lines_spec(text)[0]
    } else {
        Seq::empty()
    }
}

/// `s1` is `s0` after text was pasted from the terminal: on the `:` or
/// search line its first line is added; in Insert mode it is typed in; in
/// Normal mode it is typed in as one edit; in other modes it is ignored.
pub open spec fn paste_done(s0: App, s1: App, text: Seq<char>) -> bool {
    match s0.mode {
        Mode::Command => s1 == (App { command: s1.command, ..s0 }) && s1.command@ == s0.command@ + first_line(text),
        Mode::Search => s1 == (App { search: s1.search, ..s0 }) && s1.search@ == s0.search@ + first_line(text),
        Mode::Insert => text_typed(s0, s1, text),
        Mode::Normal => exists|m: App| #[trigger] edit_began(s0, m) && text_typed(m, s1, text),
        _ => s1 == s0,
    }
}

/// `s1` is `s0` after a key with Control in Normal mode: `Ctrl-r` redoes,
/// `Ctrl-f` and `Ctrl-b` move a page, `Ctrl-d` and `Ctrl-u` half a view.
pub open spec fn ctrl_done(s0: App, s1: App, code: Key) -> bool {
    if code == Key::Char('r') {
        redone(s0, s1)
    } else if code == Key::Char('f') {
        paged(s0, s1, page_of(s0.height as int) as isize)
    } else if code == Key::Char('b') {
        paged(s0, s1, -page_of(s0.height as int) as isize)
    } else if code == Key::Char('d') {
        paged(s0, s1, half_of(s0.height))
    } else if code == Key::Char('u') {
        paged(s0, s1, -half_of(s0.height) as isize)
    } else {
        s1 == s0
    }
}

/// `s1` is `s0` after an operator key `first` and then `c`: `dd` deletes
/// and `yy` yanks `count` nodes, `>>` and `<<` move the subtree, `gg`
/// goes to the first node, `g&` repeats the last substitution everywhere.
pub open spec fn operator_done(s0: App, s1: App, first: char, c: char, count: usize) -> bool {
    if first == 'd' && c == 'd' {
        exists|m: App| #[trigger] edit_began(s0, m) && nodes_deleted(m, s1, count, true)
    } else if first == 'y' && c == 'y' {
        yanked(s0, s1, count)
    } else if first == '>' && c == '>' {
        exists|m: App| #[trigger] edit_began(s0, m) && subtree_indented(m, s1)
    } else if first == '<' && c == '<' {
        exists|m: App| #[trigger] edit_began(s0, m) && subtree_unindented(m, s1)
    } else if first == 'g' && c == 'g' {
        moved_to(s0, s1, 0)
    } else if first == 'g' && c == '&' {
        globally_repeated(s0, s1)
    } else {
        s1 == s0
    }
}

/// `s1` is `s0` after the Normal-mode command key `c`, `given` being the
/// count typed before it.
pub open spec fn command_done(s0: App, s1: App, c: char, given: Option<usize>) -> bool {
    let count = count_or_one(given);
    let len = s0.cur_text().len() as usize;
    if c == 'i' {
        exists|m: App| #[trigger] edit_began(s0, m) && s1 == (App { mode: Mode::Insert, ..m })
    } else if c == 'a' {
        exists|m: App, m2: App| #[trigger] edit_began(s0, m) && #[trigger] moved_right(m, m2) && s1 == (App { mode: Mode::Insert, ..m2 })
    } else if c == 'I' {
        exists|m: App| #[trigger] edit_began(s0, m) && s1 == (App { cursor_col: 0, mode: Mode::Insert, ..m })
    } else if c == 'A' {
        exists|m: App| #[trigger] edit_began(s0, m) && s1 == (App { cursor_col: len, mode: Mode::Insert, ..m })
    } else if c == 'o' {
        exists|m: App, m2: App| #[trigger] edit_began(s0, m) && #[trigger] entered(App { cursor_col: len, ..m }, m2)
            && s1 == (App { mode: Mode::Insert, ..m2 })
    } else if c == 'O' {
        exists|m: App, m2: App| #[trigger] edit_began(s0, m) && #[trigger] opened_above(m, m2) && s1 == (App { mode: Mode::Insert, ..m2 })
    } else if c == 'x' {
        exists|m: App| #[trigger] edit_began(s0, m) && chars_deleted_times(m, s1, count as nat, true)
    } else if c == 'p' || c == 'P' {
        &&& count >= 1 ==> exists|m: App| #[trigger] edit_began(s0, m) && pasted(m, s1, c == 'P', count)
        &&& count == 0 ==> s1 == s0
    } else if c == 'Y' {
        yanked(s0, s1, subtree_len_spec(s0))
    } else if c == 'D' {
        exists|m: App| #[trigger] edit_began(s0, m) && nodes_deleted(m, s1, subtree_len_spec(s0), true)
    } else if c == 'u' {
        undone(s0, s1)
    } else if c == 'h' {
        moved_left_by(s0, s1, count as int)
    } else if c == 'j' {
        scrolled_by(s0, s1, lines_of(count))
    } else if c == 'k' {
        scrolled_by(s0, s1, -lines_of(count) as isize)
    } else if c == 'l' {
        moved_right_by(s0, s1, count as int)
    } else if c == '0' {
        s1 == (App { cursor_col: 0, ..s0 })
    } else if c == '$' {
        s1 == (App { cursor_col: len, ..s0 })
    } else if c == 'G' {
        moved_to(s0, s1, match given {
            Some(number) => if number > 0 { (number - 1) as usize } else { 0 },
            None => (s0.nodes@.len() - 1) as usize,
        })
    } else if c == 'M' {
        moved_to(s0, s1, middle_spec(s0))
    } else if c == ':' {
        &&& s1 == (App { command: s1.command, message: s1.message, mode: Mode::Command, ..s0 })
        &&& s1.command@.len() == 0
        &&& s1.message@.len() == 0
    } else if c == '/' || c == '?' {
        &&& s1 == (App { search: s1.search, message: s1.message, search_forward: c == '/', mode: Mode::Search, ..s0 })
        &&& s1.search@.len() == 0
        &&& s1.message@.len() == 0
    } else if c == 'n' || c == 'N' {
        search_repeated(s0, s1, c == 'n')
    } else if c == '*' || c == '#' {
        word_searched(s0, s1, c == '*')
    } else if c == 'v' {
        s1 == (App { mode: Mode::Visual, visual_kind: VisualKind::Char, visual_anchor: s0.cursor, visual_anchor_col: s0.cursor_col, ..s0 })
    } else if c == 'V' {
        s1 == (App { mode: Mode::Visual, visual_kind: VisualKind::Line, visual_anchor: s0.cursor, visual_anchor_col: s0.cursor_col, ..s0 })
    } else {
        s1 == s0
    }
}

/// `s1` is `s0` after the Visual-mode key `c`, `given` being the count
/// typed before it: movement extends the selection, `v` and `V` leave
/// or switch the kind, `y`, `d`, `c`, `>` and `<` act on the selection,
/// `:` starts a command on its lines.
pub open spec fn visual_done(s0: App, s1: App, c: char, given: Option<usize>) -> bool {
    let len = s0.cur_text().len() as usize;
    if c == 'h' {
        moved_left_by(s0, s1, count_or_one(given) as int)
    } else if c == 'l' {
        moved_right_by(s0, s1, count_or_one(given) as int)
    } else if c == 'j' {
        moved_down_times(s0, s1, count_or_one(given) as nat)
    } else if c == 'k' {
        moved_up_times(s0, s1, count_or_one(given) as nat)
    } else if c == '0' {
        s1 == (App { cursor_col: 0, ..s0 })
    } else if c == '$' {
        s1 == (App { cursor_col: len, ..s0 })
    } else if c == 'G' {
        moved_to(s0, s1, match given {
            Some(number) => if number > 0 { (number - 1) as usize } else { 0 },
            None => (s0.nodes@.len() - 1) as usize,
        })
    } else if c == 'v' {
        if s0.visual_kind == VisualKind::Char {
            s1 == (App { last_visual_range: Some(line_range_of(s0)), mode: Mode::Normal, ..s0 })
        } else {
            s1 == (App { visual_kind: VisualKind::Char, ..s0 })
        }
    } else if c == 'V' {
        if s0.visual_kind == VisualKind::Line {
            s1 == (App { last_visual_range: Some(line_range_of(s0)), mode: Mode::Normal, ..s0 })
        } else {
            s1 == (App { visual_kind: VisualKind::Line, ..s0 })
        }
    } else if c == 'y' {
        visual_yanked(s0, s1)
    } else if c == 'd' || c == 'x' {
        visual_deleted(s0, s1)
    } else if c == 'c' {
        visual_changed(s0, s1)
    } else if c == '>' || c == '<' {
        visual_indented(s0, s1, c == '>')
    } else if c == ':' {
        &&& s1 == (App {
            command: s1.command,
            message: s1.message,
            last_visual_range: Some(line_range_of(s0)),
            mode: Mode::Command,
            ..s0
        })
        &&& s1.command@ == "'<,'>"@
        &&& s1.message@.len() == 0
    } else {
        s1 == s0
    }
}

/// Whether a key works the same in Normal, Insert and Visual mode.
pub open spec fn is_common(code: Key) -> bool {
    code == Key::F(2) || code == Key::PageDown || code == Key::PageUp || code == Key::Up || code == Key::Down
        || code == Key::Left || code == Key::Right
}

/// `s1` is `s0` after a key that works the same in Normal, Insert and
/// Visual mode: F2 switches the view, the page keys move a page, the
/// arrows move the cursor.
pub open spec fn common_key(s0: App, s1: App, code: Key) -> bool {
    &&& s1.mode == s0.mode
    &&& code == Key::F(2) ==> toggled(s0, s1)
    &&& code == Key::PageDown ==> paged(s0, s1, page_of(s0.height as int) as isize)
    &&& code == Key::PageUp ==> paged(s0, s1, -page_of(s0.height as int) as isize)
    &&& code == Key::Up ==> moved_up(s0, s1)
    &&& code == Key::Down ==> moved_down(s0, s1)
    &&& code == Key::Left ==> moved_left(s0, s1)
    &&& code == Key::Right ==> moved_right(s0, s1)
}

/// Whether `c` starts an operator in Normal mode.
pub open spec fn is_operator(c: char) -> bool {
    c == 'd' || c == 'y' || c == '>' || c == '<' || c == 'g'
}

/// `s1` is `s0` after a key while a `:` line is typed: Esc drops the
/// line, Enter runs it, Backspace takes a character off (leaving the line
/// when there is none), a character adds to it.
pub open spec fn command_key(s0: App, s1: App, code: Key) -> bool {
    &&& (code == Key::Esc ==> s1 == (App { command: s1.command, mode: Mode::Normal, ..s0 }) && s1.command@.len() == 0)
    &&& (code == Key::Backspace ==> (if s0.command@.len() == 0 {
                s1 == (App { command: s1.command, mode: Mode::Normal, ..s0 }) && s1.command@ == s0.command@
            } else {
                s1 == (App { command: s1.command, ..s0 }) && s1.command@ == s0.command@.drop_last()
            }))
    &&& (code matches Key::Char(c) ==> s1 == (App { command: s1.command, ..s0 }) && s1.command@ == s0.command@.push(c))
    &&& (code == Key::Enter ==> exists|m: App| m == (App { command: m.command, mode: Mode::Normal, ..s0 })
                && m.command@.len() == 0 && #[trigger] command_run(m, s1, s0.command))
    &&& (!(code == Key::Esc || code == Key::Enter || code == Key::Backspace || code is Char) ==> s1 == s0)
}

/// `s1` is `s0` after a key while a search pattern is typed, as on the
/// `:` line, Enter searching.
pub open spec fn search_key(s0: App, s1: App, code: Key) -> bool {
    &&& (code == Key::Esc ==> s1 == (App { search: s1.search, mode: Mode::Normal, ..s0 }) && s1.search@.len() == 0)
    &&& (code == Key::Backspace ==> (if s0.search@.len() == 0 {
                s1 == (App { search: s1.search, mode: Mode::Normal, ..s0 }) && s1.search@ == s0.search@
            } else {
                s1 == (App { search: s1.search, ..s0 }) && s1.search@ == s0.search@.drop_last()
            }))
    &&& (code matches Key::Char(c) ==> s1 == (App { search: s1.search, ..s0 }) && s1.search@ == s0.search@.push(c))
    &&& (code == Key::Enter ==> exists|m: App| m == (App { search: m.search, mode: Mode::Normal, ..s0 })
                && m.search@.len() == 0 && #[trigger] searched(m, s1, s0.search, s0.search_forward))
    &&& (!(code == Key::Esc || code == Key::Enter || code == Key::Backspace || code is Char) ==> s1 == s0)
}

/// `s1` is `s0` after a key in Insert mode.
pub open spec fn insert_key(s0: App, s1: App, code: Key) -> bool {
    &&& (code == Key::Esc ==> s1 == (App { mode: Mode::Normal, ..s0 }))
    &&& (code == Key::Home ==> s1 == (App { cursor_col: 0, ..s0 }))
    &&& (code == Key::End ==> s1 == (App { cursor_col: s0.cur_text().len() as usize, ..s0 }))
    &&& (code != Key::Esc ==> s1.mode == s0.mode)
    &&& (code matches Key::Char(c) ==> char_inserted(s0, s1, c))
    &&& (code == Key::Enter ==> entered(s0, s1))
    &&& (code == Key::Backspace ==> backspaced(s0, s1))
    &&& (code == Key::Delete ==> char_deleted(s0, s1, false))
    &&& (code == Key::BackTab ==> unindented(s0, s1))
    &&& (code == Key::Tab ==> (if s0.source_mode {
                exists|m: App| #[trigger] char_inserted(s0, m, ' ') && char_inserted(m, s1, ' ')
            } else {
                indented(s0, s1)
            }))
    &&& (!(code == Key::Esc || code == Key::Tab || code == Key::BackTab || code == Key::Enter || code == Key::Backspace
                || code == Key::Delete || code == Key::Home || code == Key::End || code is Char) ==> s1 == s0)
}

/// `s1` is `s0` after a key in Normal mode: a count, an operator, or a
/// command.
pub open spec fn normal_key(s0: App, s1: App, key: KeyPress) -> bool {
    &&& (key.ctrl ==> ctrl_done(s0, s1, key.code))
    &&& (!key.ctrl && key.code == Key::Tab ==> exists|m: App| #[trigger] edit_began(s0, m) && subtree_indented(m, s1))
    &&& (!key.ctrl && key.code == Key::BackTab ==> exists|m: App| #[trigger] edit_began(s0, m) && subtree_unindented(m, s1))
    &&& (!key.ctrl && key.code == Key::Delete ==> exists|m: App| #[trigger] edit_began(
                App { count: None, ..s0 },
                m,
            ) && chars_deleted_times(m, s1, count_or_one(s0.count) as nat, false))
    &&& (!key.ctrl && key.code == Key::Home ==> s1 == (App { cursor_col: 0, ..s0 }))
    &&& (!key.ctrl && key.code == Key::End ==> s1 == (App { cursor_col: s0.cur_text().len() as usize, ..s0 }))
    &&& (!key.ctrl && key.code == Key::Esc ==> s1 == (App { pending: None, count: None, ..s0 }))
    &&& (!key.ctrl && !(key.code is Char) && !(key.code == Key::Tab || key.code == Key::BackTab || key.code == Key::Delete
                || key.code == Key::Home || key.code == Key::End || key.code == Key::Esc) ==> s1 == s0)
    &&& (!key.ctrl ==> (key.code matches Key::Char(c) ==> ({
                &&& counts(s0.pending, s0.count, c) ==> s1 == (App {
                    count: Some(count_with(s0.count, (c as u32) - 48) as usize),
                    ..s0
                })
                &&& !counts(s0.pending, s0.count, c) && s0.pending is None && is_operator(c) ==> s1 == (App {
                    pending: Some(c),
                    ..s0
                })
                &&& !counts(s0.pending, s0.count, c) && s0.pending is Some ==> operator_done(
                    App { pending: None, count: None, ..s0 },
                    s1,
                    s0.pending->0,
                    c,
                    count_or_one(s0.count),
                )
                &&& !counts(s0.pending, s0.count, c) && s0.pending is None && !is_operator(c) ==> command_done(
                    App { count: None, ..s0 },
                    s1,
                    c,
                    s0.count,
                )
            })))
}

/// `s1` is `s0` after a key in Visual mode.
pub open spec fn visual_key(s0: App, s1: App, key: KeyPress) -> bool {
    &&& (key.code == Key::Esc ==> s1 == (App {
                last_visual_range: Some(line_range_of(s0)),
                mode: Mode::Normal,
                ..s0
            }))
    &&& (!(key.code is Char) && key.code != Key::Esc ==> s1 == s0)
    &&& (key.code matches Key::Char(c) ==> ({
                &&& counts(s0.pending, s0.count, c) ==> s1 == (App {
                    count: Some(count_with(s0.count, (c as u32) - 48) as usize),
                    ..s0
                })
                &&& !counts(s0.pending, s0.count, c) && s0.pending is None && c == 'g' ==> s1 == (App {
                    pending: Some(c),
                    ..s0
                })
                &&& !counts(s0.pending, s0.count, c) && s0.pending is Some ==> (if s0.pending == Some('g') && c == 'g' {
                    moved_to(App { pending: None, count: None, ..s0 }, s1, 0)
                } else {
                    s1 == (App { pending: None, count: None, ..s0 })
                })
                &&& !counts(s0.pending, s0.count, c) && s0.pending is None && c != 'g' ==> visual_done(
                    App { count: None, ..s0 },
                    s1,
                    c,
                    s0.count,
                )
            }))
}

/// A key with neither Control nor Alt.
pub open spec fn plain_key(code: Key) -> KeyPress {
    KeyPress { code, ctrl: false, alt: false }
}

/// `s1` is `s0` after a key that reaches the mode's handler: the `:` line,
/// the search line and a substitution's question take every key; in the
/// other modes the keys common to them come first.
pub open spec fn key_done(s0: App, s1: App, key: KeyPress) -> bool {
    if s0.mode == Mode::Command {
        command_key(s0, s1, key.code)
    } else if s0.mode == Mode::Search {
        search_key(s0, s1, key.code)
    } else if s0.mode == Mode::Confirm {
        confirm_done(s0, s1, key.code)
    } else if is_common(key.code) {
        common_key(s0, s1, key.code)
    } else if s0.mode == Mode::Normal {
        normal_key(s0, s1, key)
    } else if s0.mode == Mode::Insert {
        insert_key(s0, s1, key.code)
    } else {
        visual_key(s0, s1, key)
    }
}

/// `s1` is `s0` after a key without Alt: `Ctrl-c` changes nothing,
/// `Ctrl-j` is Enter, any other goes to the mode's handler.
pub open spec fn unaltered_done(s0: App, s1: App, key: KeyPress) -> bool {
    if key.ctrl && key.code == Key::Char('c') {
        s1 == s0
    } else if key.ctrl && key.code == Key::Char('j') {
        key_done(s0, s1, plain_key(Key::Enter))
    } else {
        key_done(s0, s1, key)
    }
}

/// Adds a digit to the count, kept within `usize`.
fn add_digit(count: Option<usize>, c: char) -> (r: usize)
    requires
        '0' <= c <= '9',
    ensures
        r == count_with(count, (c as u32) - 48),
{
    let d = ((c as u32) - 48) as usize;
    let base = match count {
        Some(n) => n,
        None => 0,
    };
    if base <= (usize::MAX - d) / 10 {
        assert(base * 10 + d <= usize::MAX) by (nonlinear_arith)
            requires base <= (usize::MAX - d) / 10, d <= 9;
        base * 10 + d
    } else {
        assert(base * 10 + d > usize::MAX) by (nonlinear_arith)
            requires base > (usize::MAX - d) / 10, d <= 9;
        usize::MAX
    }
}

impl App {
    /// The number that page keys move by.
    fn page(&self) -> (r: isize)
        ensures
            r == page_of(self.height as int),
            r >= 1,
    {
        let p = if self.height >= 3 { self.height - 2 } else { 1 };
        if p <= isize::MAX as usize {
            p as isize
        } else {
            isize::MAX
        }
    }

    /// Keys that work the same in Normal, Insert and Visual mode: F2, the
    /// arrows and the page keys. The answer is whether the key was one.
    pub fn handle_common(&mut self, code: Key) -> (r: bool)
        requires
            old(self).wf(),
        ensures
            final(self).wf(),
            r == is_common(code),
            r ==> common_key(*old(self), *final(self), code),
            !r ==> *final(self) == *old(self),
    {
        let page = self.page();
        match code {
            Key::F(2) => self.toggle_source_view(),
            Key::PageDown => self.scroll_page(page),
            Key::PageUp => self.scroll_page(-page),
            Key::Up => self.move_up(),
            Key::Down => self.move_down(),
            Key::Left => self.move_left(),
            Key::Right => self.move_right(),
            _ => return false,
        }
        true
    }

    /// A key while a `:` line is typed: Esc drops it, Enter runs it,
    /// Backspace takes a character off (leaving the line when there is
    /// none), a character adds to it.
    pub fn handle_command(&mut self, code: Key)
        requires
            old(self).wf(),
        ensures
            final(self).wf(),
            command_key(*old(self), *final(self), code),
    {
        match code {
            Key::Esc => {
                self.command = Vec::new();
                self.mode = Mode::Normal;
            },
            Key::Enter => {
                let mut line: Vec<char> = Vec::new();
                std::mem::swap(&mut line, &mut self.command);
                self.mode = Mode::Normal;
                let ghost m = *self;
                self.run_command(&line);
                assert(m == (App { command: m.command, mode: Mode::Normal, ..*old(self) }) && m.command@.len() == 0
                    && command_run(m, *self, old(self).command));
            },
            Key::Backspace => {
                if self.command.pop().is_none() {
                    self.mode = Mode::Normal;
                }
            },
            Key::Char(c) => self.command.push(c),
            _ => {},
        }
    }

    /// A key while a `/` or `?` pattern is typed: as on the `:` line, with
    /// Enter searching.
    pub fn handle_search(&mut self, code: Key)
        requires
            old(self).wf(),
        ensures
            final(self).wf(),
            search_key(*old(self), *final(self), code),
    {
        match code {
            Key::Esc => {
                self.search = Vec::new();
                self.mode = Mode::Normal;
            },
            Key::Enter => {
                let mut pattern: Vec<char> = Vec::new();
                std::mem::swap(&mut pattern, &mut self.search);
                self.mode = Mode::Normal;
                let forward = self.search_forward;
                let ghost m = *self;
                self.search_and_move(&pattern, forward);
                assert(m == (App { search: m.search, mode: Mode::Normal, ..*old(self) }) && m.search@.len() == 0
                    && searched(m, *self, old(self).search, old(self).search_forward));
            },
            Key::Backspace => {
                if self.search.pop().is_none() {
                    self.mode = Mode::Normal;
                }
            },
            Key::Char(c) => self.search.push(c),
            _ => {},
        }
    }

    /// A key in Insert mode.
    pub fn handle_insert(&mut self, code: Key)
        requires
            old(self).wf(),
        ensures
            final(self).wf(),
            insert_key(*old(self), *final(self), code),
    {
        match code {
            Key::Esc => self.mode = Mode::Normal,
            Key::Tab => {
                if self.source_mode {
                    self.insert_char(' ');
                    let ghost m = *self;
                    self.insert_char(' ');
                    assert(char_inserted(*old(self), m, ' ') && char_inserted(m, *self, ' '));
                } else {
                    self.indent();
                }
            },
            Key::BackTab => self.unindent(),
            Key::Enter => self.enter(),
            Key::Backspace => self.backspace(),
            Key::Delete => self.delete_char(false),
            Key::Home => self.cursor_col = 0,
            Key::End => self.cursor_col = self.nodes[self.cursor].text.len(),
            Key::Char(c) => self.insert_char(c),
            _ => {},
        }
    }

    /// Text pasted from the terminal: its first line on the `:` or search
    /// line, typed in Insert mode, one edit in Normal mode.
    pub fn handle_paste(&mut self, text: &str)
        requires
            old(self).wf(),
        ensures
            final(self).wf(),
            paste_done(*old(self), *final(self), text@),
    {
        match self.mode {
            Mode::Command => {
                let chars = chars_of(text);
                let lines = split_into_lines(&chars);
                if lines.len() > 0 {
                    let mut first = lines[0].clone();
                    assert(first@ =~= lines@[0]@);
                    self.command.append(&mut first);
                } else {
                    assert(self.command@ =~= old(self).command@ + Seq::<char>::empty());
                }
            },
            Mode::Search => {
                let chars = chars_of(text);
                let lines = split_into_lines(&chars);
                if lines.len() > 0 {
                    let mut first = lines[0].clone();
                    assert(first@ =~= lines@[0]@);
                    self.search.append(&mut first);
                } else {
                    assert(self.search@ =~= old(self).search@ + Seq::<char>::empty());
                }
            },
            Mode::Insert => self.paste_text(text),
            Mode::Normal => {
                self.begin_edit();
                let ghost m = *self;
                self.paste_text(text);
                assert(edit_began(*old(self), m) && text_typed(m, *self, text@));
            },
            _ => {},
        }
    }

    /// A key in Normal mode.
    #[verifier::rlimit(80)]
    pub fn handle_normal(&mut self, key: KeyPress)
        requires
            old(self).wf(),
        ensures
            final(self).wf(),
            normal_key(*old(self), *final(self), key),
    {
        if key.ctrl {
            let page = self.page();
            let half: isize = if self.height / 2 >= 1 {
                if self.height / 2 <= isize::MAX as usize { (self.height / 2) as isize } else { isize::MAX }
            } else {
                1
            };
            match key.code {
                Key::Char('r') => self.redo(),
                Key::Char('f') => self.scroll_page(page),
                Key::Char('b') => self.scroll_page(-page),
                Key::Char('d') => self.scroll_page(half),
                Key::Char('u') => self.scroll_page(-half),
                _ => {},
            }
            return;
        }
        match key.code {
            Key::Tab => {
                self.begin_edit();
                self.indent_subtree();
                return;
            },
            Key::BackTab => {
                self.begin_edit();
                self.unindent_subtree();
                return;
            },
            Key::Delete => {
                let count = match self.count {
                    Some(n) => n,
                    None => 1,
                };
                self.count = None;
                let ghost s0 = *self;
                self.begin_edit();
                let ghost m = *self;
                self.delete_chars(count, false);
                assert(edit_began(s0, m) && chars_deleted_times(m, *self, count as nat, false));
                return;
            },
            Key::Home => {
                self.cursor_col = 0;
                return;
            },
            Key::End => {
                self.cursor_col = self.nodes[self.cursor].text.len();
                return;
            },
            _ => {},
        }
        let c = match key.code {
            Key::Char(c) => c,
            _ => {
                if key.code == Key::Esc {
                    self.pending = None;
                    self.count = None;
                }
                return;
            },
        };
        if self.pending.is_none() && '0' <= c && c <= '9' && (c != '0' || self.count.is_some()) {
            self.count = Some(add_digit(self.count, c));
            return;
        }
        if self.pending.is_none() && (c == 'd' || c == 'y' || c == '>' || c == '<' || c == 'g') {
            self.pending = Some(c);
            return;
        }
        let given = self.count;
        self.count = None;
        let count = match given {
            Some(n) => n,
            None => 1,
        };
        let pending = self.pending;
        self.pending = None;
        if let Some(first) = pending {
            self.normal_operator(first, c, count);
            return;
        }
        self.normal_command(c, given);
    }

    /// `count` characters deleted one after another at the cursor.
    fn delete_chars(&mut self, count: usize, yank: bool)
        requires
            old(self).wf(),
        ensures
            final(self).wf(),
            chars_deleted_times(*old(self), *final(self), count as nat, yank),
    {
        let mut k: usize = 0;
        while k < count
            invariant
                self.wf(),
                k <= count,
                chars_deleted_times(*old(self), *self, k as nat, yank),
            decreases count - k,
        {
            let ghost before = *self;
            self.delete_char(yank);
            assert(char_deleted(before, *self, yank));
            k = k + 1;
        }
    }

    /// An operator key pressed twice, or `g` then `&`: `dd`, `yy`, `>>`,
    /// `<<`, `gg` and `g&`.
    fn normal_operator(&mut self, first: char, c: char, count: usize)
        requires
            old(self).wf(),
        ensures
            final(self).wf(),
            operator_done(*old(self), *final(self), first, c, count),
    {
        if first == 'd' && c == 'd' {
            self.begin_edit();
            let ghost m = *self;
            self.delete_node(count, true);
            assert(edit_began(*old(self), m) && nodes_deleted(m, *self, count, true));
        } else if first == 'y' && c == 'y' {
            self.yank(count);
        } else if first == '>' && c == '>' {
            self.begin_edit();
            let ghost m = *self;
            self.indent_subtree();
            assert(edit_began(*old(self), m) && subtree_indented(m, *self));
        } else if first == '<' && c == '<' {
            self.begin_edit();
            let ghost m = *self;
            self.unindent_subtree();
            assert(edit_began(*old(self), m) && subtree_unindented(m, *self));
        } else if first == 'g' && c == 'g' {
            self.move_to(0);
        } else if first == 'g' && c == '&' {
            self.global_repeat_substitute();
        }
    }

    /// A Normal-mode key that enters Insert mode: `i`, `a`, `I`, `A`, `o`
    /// and `O`.
    fn normal_insert(&mut self, c: char)
        requires
            old(self).wf(),
            c == 'i' || c == 'a' || c == 'I' || c == 'A' || c == 'o' || c == 'O',
        ensures
            final(self).wf(),
            command_done(*old(self), *final(self), c, None),
    {
        self.begin_edit();
        let ghost m = *self;
        if c == 'i' {
            self.mode = Mode::Insert;
            assert(edit_began(*old(self), m) && *self == (App { mode: Mode::Insert, ..m }));
        } else if c == 'a' {
            self.move_right();
            let ghost m2 = *self;
            self.mode = Mode::Insert;
            assert(edit_began(*old(self), m) && moved_right(m, m2) && *self == (App { mode: Mode::Insert, ..m2 }));
        } else if c == 'I' {
            self.cursor_col = 0;
            self.mode = Mode::Insert;
            assert(edit_began(*old(self), m) && *self == (App { cursor_col: 0, mode: Mode::Insert, ..m }));
        } else if c == 'A' {
            self.cursor_col = self.nodes[self.cursor].text.len();
            self.mode = Mode::Insert;
            assert(edit_began(*old(self), m) && *self == (App {
                cursor_col: old(self).cur_text().len() as usize,
                mode: Mode::Insert,
                ..m
            }));
        } else if c == 'o' {
            self.cursor_col = self.nodes[self.cursor].text.len();
            let ghost m1 = *self;
            assert(m1 == (App { cursor_col: old(self).cur_text().len() as usize, ..m }));
            self.enter();
            let ghost m2 = *self;
            self.mode = Mode::Insert;
            assert(edit_began(*old(self), m) && entered(App { cursor_col: old(self).cur_text().len() as usize, ..m }, m2)
                && *self == (App { mode: Mode::Insert, ..m2 }));
        } else {
            self.open_above();
            let ghost m2 = *self;
            self.mode = Mode::Insert;
            assert(edit_began(*old(self), m) && opened_above(m, m2) && *self == (App { mode: Mode::Insert, ..m2 }));
        }
    }

    /// A Normal-mode key that is neither a count nor an operator.
    #[verifier::rlimit(60)]
    fn normal_command(&mut self, c: char, given: Option<usize>)
        requires
            old(self).wf(),
        ensures
            final(self).wf(),
            command_done(*old(self), *final(self), c, given),
    {
        let count = match given {
            Some(n) => n,
            None => 1,
        };
        if c == 'i' || c == 'a' || c == 'I' || c == 'A' || c == 'o' || c == 'O' {
            self.normal_insert(c);
            return;
        }
        match c {
            'x' => {
                self.begin_edit();
                let ghost m = *self;
                self.delete_chars(count, true);
                assert(edit_began(*old(self), m) && chars_deleted_times(m, *self, count as nat, true));
            },
            'p' => {
                if count >= 1 {
                    self.begin_edit();
                    let ghost m = *self;
                    self.paste(false, count);
                    assert(edit_began(*old(self), m) && pasted(m, *self, false, count));
                }
            },
            'P' => {
                if count >= 1 {
                    self.begin_edit();
                    let ghost m = *self;
                    self.paste(true, count);
                    assert(edit_began(*old(self), m) && pasted(m, *self, true, count));
                }
            },
            'Y' => {
                let length = self.subtree_len();
                self.yank(length);
            },
            'D' => {
                let length = self.subtree_len();
                self.begin_edit();
                let ghost m = *self;
                self.delete_node(length, true);
                assert(edit_began(*old(self), m) && nodes_deleted(m, *self, subtree_len_spec(*old(self)), true));
            },
            'u' => self.undo(),
            'h' => {
                let ghost start = *self;
                let mut k: usize = 0;
                while k < count
                    invariant
                        self.wf(),
                        k <= count,
                        moved_left_by(start, *self, k as int),
                    decreases count - k,
                {
                    self.move_left();
                    k = k + 1;
                }
            },
            'j' => {
                let lines = if count <= isize::MAX as usize { count as isize } else { isize::MAX };
                self.scroll_by(lines);
            },
            'k' => {
                let lines = if count <= isize::MAX as usize { count as isize } else { isize::MAX };
                self.scroll_by(-lines);
            },
            'l' => {
                let ghost start = *self;
                let mut k: usize = 0;
                while k < count
                    invariant
                        self.wf(),
                        k <= count,
                        moved_right_by(start, *self, k as int),
                    decreases count - k,
                {
                    self.move_right();
                    k = k + 1;
                }
            },
            '0' => self.cursor_col = 0,
            '$' => self.cursor_col = self.nodes[self.cursor].text.len(),
            'G' => {
                let index = match given {
                    Some(number) => if number > 0 { number - 1 } else { 0 },
                    None => self.nodes.len() - 1,
                };
                self.move_to(index);
            },
            'M' => {
                let n = self.nodes.len();
                let index = if self.height == 0 {
                    n / 2
                } else {
                    let half = self.height / 2;
                    if self.scroll <= usize::MAX - half { self.scroll + half } else { usize::MAX }
                };
                self.move_to(if index < n - 1 { index } else { n - 1 });
            },
            ':' => {
                self.command = Vec::new();
                self.message = Vec::new();
                self.mode = Mode::Command;
            },
            '/' => {
                self.search = Vec::new();
                self.message = Vec::new();
                self.search_forward = true;
                self.mode = Mode::Search;
            },
            '?' => {
                self.search = Vec::new();
                self.message = Vec::new();
                self.search_forward = false;
                self.mode = Mode::Search;
            },
            'n' => self.repeat_search(true),
            'N' => self.repeat_search(false),
            '*' => self.search_word(true),
            '#' => self.search_word(false),
            'v' => self.enter_visual(VisualKind::Char),
            'V' => self.enter_visual(VisualKind::Line),
            _ => {},
        }
    }

    /// A key in Visual mode.
    #[verifier::rlimit(40)]
    pub fn handle_visual(&mut self, key: KeyPress)
        requires
            old(self).wf(),
        ensures
            final(self).wf(),
            visual_key(*old(self), *final(self), key),
    {
        let c = match key.code {
            Key::Char(c) => c,
            _ => {
                if key.code == Key::Esc {
                    let range = self.visual_line_range();
                    self.leave_visual(range);
                    self.mode = Mode::Normal;
                }
                return;
            },
        };
        if self.pending.is_none() && '0' <= c && c <= '9' && (c != '0' || self.count.is_some()) {
            self.count = Some(add_digit(self.count, c));
            return;
        }
        if self.pending.is_none() && c == 'g' {
            self.pending = Some(c);
            return;
        }
        let given = self.count;
        self.count = None;
        let count = match given {
            Some(n) => n,
            None => 1,
        };
        let pending = self.pending;
        self.pending = None;
        if let Some(first) = pending {
            if first == 'g' && c == 'g' {
                self.move_to(0);
            }
            return;
        }
        match c {
            'h' => {
                let ghost start = *self;
                let mut k: usize = 0;
                while k < count
                    invariant
                        self.wf(),
                        k <= count,
                        moved_left_by(start, *self, k as int),
                    decreases count - k,
                {
                    self.move_left();
                    k = k + 1;
                }
            },
            'l' => {
                let ghost start = *self;
                let mut k: usize = 0;
                while k < count
                    invariant
                        self.wf(),
                        k <= count,
                        moved_right_by(start, *self, k as int),
                    decreases count - k,
                {
                    self.move_right();
                    k = k + 1;
                }
            },
            'j' => {
                let ghost start = *self;
                let mut k: usize = 0;
                while k < count
                    invariant
                        self.wf(),
                        k <= count,
                        moved_down_times(start, *self, k as nat),
                    decreases count - k,
                {
                    let ghost before = *self;
                    self.move_down();
                    assert(moved_down(before, *self));
                    k = k + 1;
                }
            },
            'k' => {
                let ghost start = *self;
                let mut k: usize = 0;
                while k < count
                    invariant
                        self.wf(),
                        k <= count,
                        moved_up_times(start, *self, k as nat),
                    decreases count - k,
                {
                    let ghost before = *self;
                    self.move_up();
                    assert(moved_up(before, *self));
                    k = k + 1;
                }
            },
            '0' => self.cursor_col = 0,
            '$' => self.cursor_col = self.nodes[self.cursor].text.len(),
            'G' => {
                let index = match given {
                    Some(number) => if number > 0 { number - 1 } else { 0 },
                    None => self.nodes.len() - 1,
                };
                self.move_to(index);
            },
            'v' => {
                if self.visual_kind == VisualKind::Char {
                    let range = self.visual_line_range();
                    self.leave_visual(range);
                    self.mode = Mode::Normal;
                } else {
                    self.visual_kind = VisualKind::Char;
                }
            },
            'V' => {
                if self.visual_kind == VisualKind::Line {
                    let range = self.visual_line_range();
                    self.leave_visual(range);
                    self.mode = Mode::Normal;
                } else {
                    self.visual_kind = VisualKind::Line;
                }
            },
            'y' => self.visual_yank(),
            'd' | 'x' => self.visual_delete(),
            'c' => self.visual_change(),
            '>' => self.visual_indent(true),
            '<' => self.visual_indent(false),
            ':' => {
                let range = self.visual_line_range();
                self.command = chars_of("'<,'>");
                self.message = Vec::new();
                self.leave_visual(range);
                self.mode = Mode::Command;
            },
            _ => {},
        }
    }

    /// A key: what it does depends on the mode. `Ctrl-c` quits; Alt with a
    /// key is Esc and then the key, as a terminal sends them when typed
    /// quickly; `Ctrl-j` is Enter. The answer is whether the editor goes on.
    pub fn handle_key(&mut self, key: KeyPress) -> (r: bool)
        requires
            old(self).wf(),
        ensures
            final(self).wf(),
            r == (!(key.ctrl && key.code == Key::Char('c')) && !final(self).quit),
            key.ctrl && key.code == Key::Char('c') ==> *final(self) == *old(self),
            !key.alt ==> unaltered_done(*old(self), *final(self), key),
            key.alt && !(key.ctrl && key.code == Key::Char('c')) ==> exists|m: App| #[trigger] key_done(*old(self), m, plain_key(Key::Esc)) && unaltered_done(
                m,
                *final(self),
                KeyPress { code: key.code, ctrl: key.ctrl, alt: false },
            ),
        decreases (if key.alt { 2int } else { 0int }) + (if key.ctrl { 1int } else { 0int }),
    {
        if key.ctrl && key.code == Key::Char('c') {
            return false;
        }
        if key.alt {
            self.handle_key(KeyPress { code: Key::Esc, ctrl: false, alt: false });
            let ghost m = *self;
            let r = self.handle_key(KeyPress { code: key.code, ctrl: key.ctrl, alt: false });
            assert(key_done(*old(self), m, plain_key(Key::Esc)));
            return r;
        }
        if key.ctrl && key.code == Key::Char('j') {
            return self.handle_key(KeyPress { code: Key::Enter, ctrl: false, alt: false });
        }
        if self.mode == Mode::Command {
            self.handle_command(key.code);
            return !self.quit;
        }
        if self.mode == Mode::Search {
            self.handle_search(key.code);
            return !self.quit;
        }
        if self.mode == Mode::Confirm {
            self.handle_confirm(key.code);
            return !self.quit;
        }
        if self.handle_common(key.code) {
            return !self.quit;
        }
        match self.mode {
            Mode::Normal => self.handle_normal(key),
            Mode::Insert => self.handle_insert(key.code),
            Mode::Visual => self.handle_visual(key),
            _ => {},
        }
        !self.quit
    }
}

} // verus!
