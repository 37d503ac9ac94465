//! The editor: the nodes being edited, the cursor, the modes, the
//! registers and the undo history, and what every key does to them.

use vstd::prelude::*;

use crate::node::nodes_view;
use crate::node::nv;
use crate::node::Node;
use view::prefix_spec;
use substitute::ConfirmState;
use substitute::LastSubstitute;

pub mod editing;
pub mod view;
pub mod search;
pub mod substitute;
pub mod input;
pub mod visual;
pub mod io;
pub mod display;

verus! {

/// The deepest a node can be: the largest depth a `usize` holds. A
/// subtree with a node there cannot move deeper, and a paste that would
/// put a node deeper is refused.
pub const DEPTH_CAP: usize = usize::MAX;

/// What the editor is doing with the keys it gets.
#[derive(Debug, Clone, Copy, PartialEq, Eq, Structural)]
pub enum Mode {
    Normal,
    Insert,
    Command,
    Search,
    Confirm,
    Visual,
}

/// The unit of a Visual selection.
#[derive(Debug, Clone, Copy, PartialEq, Eq, Structural)]
pub enum VisualKind {
    Char,
    Line,
}

/// The state that one step of undo brings back.
pub struct Snapshot {
    pub nodes: Vec<Node>,
    pub cursor: usize,
    pub cursor_col: usize,
    /// The view the nodes belong to. Toggling the view is not itself a
    /// step of undo, but undoing past a toggle brings the matching view
    /// back with the nodes.
    pub source_mode: bool,
}

/// A cursor that points into non-empty nodes: at a node, and at a
/// position within its text (the end included).
pub open spec fn cursor_ok(nodes: Seq<Node>, cursor: int, col: int) -> bool {
    &&& nodes.len() >= 1
    &&& 0 <= cursor < nodes.len()
    &&& 0 <= col <= nodes[cursor].text@.len()
}

impl Snapshot {
    pub open spec fn wf(&self) -> bool {
        &&& cursor_ok(self.nodes@, self.cursor as int, self.cursor_col as int)
    }
}

pub open spec fn snapshots_ok(s: Seq<Snapshot>) -> bool {
    forall|i: int| 0 <= i < s.len() ==> (#[trigger] s[i]).wf()
}

/// What the editor asks of the world outside: files to read or write.
#[derive(Debug, Clone, PartialEq, Eq)]
pub enum Request {
    /// Read this file and hand its text to `finish_read`.
    Read { path: String },
    /// Write this text to this file and hand the outcome to
    /// `finish_write`; quit afterwards when it worked and `quit` is set.
    Write { path: String, text: String, quit: bool, tree: bool },
}

pub struct App {
    pub nodes: Vec<Node>,
    pub cursor: usize,
    /// The cursor's position in its node's text, in characters.
    pub cursor_col: usize,
    pub source_mode: bool,
    pub mode: Mode,
    /// The first key of `dd`, `>>` and the like.
    pub pending: Option<char>,
    /// The `:` line being typed, without the `:`.
    pub command: Vec<char>,
    /// The `/` or `?` pattern being typed, without the `/` or `?`.
    pub search: Vec<char>,
    /// Whether the search being typed, or the last one, goes forward.
    pub search_forward: bool,
    /// The last search, for `n` and `N`: its pattern and whether it went
    /// forward.
    pub last_search: Option<(Vec<char>, bool)>,
    pub path: Option<String>,
    /// Where `:wt` last wrote the tree.
    pub tree_path: Option<String>,
    pub modified: bool,
    /// The line at the bottom of the screen.
    pub message: Vec<char>,
    pub quit: bool,
    pub undo: Vec<Snapshot>,
    pub redo: Vec<Snapshot>,
    /// What was yanked, with depths relative to its shallowest node.
    pub register: Vec<Node>,
    /// The register of the source view, kept apart so that the depths of
    /// a subtree do not leak into the flat source lines.
    pub source_register: Vec<Node>,
    pub visual_kind: VisualKind,
    /// The node the cursor was at when Visual mode began.
    pub visual_anchor: usize,
    pub visual_anchor_col: usize,
    /// The last Visual selection, both ends included, for `'<,'>`.
    pub last_visual_range: Option<(usize, usize)>,
    /// The count typed before a command.
    pub count: Option<usize>,
    /// Whether lines are numbered (`:set number`).
    pub number: bool,
    /// The screen row at the top of the view.
    pub scroll: usize,
    /// The column at the left of the tree view.
    pub h_scroll: usize,
    /// The rows inside the frame; set when drawing.
    pub height: usize,
    /// The columns of the tree view, gutter excluded; set when drawing.
    pub width: usize,
    /// The screen row each node starts at; set when drawing.
    pub row_offsets: Vec<usize>,
    /// The rows of all nodes once wrapped; set when drawing.
    pub total_rows: usize,
    /// The state taken at the start of an edit; it becomes a step of
    /// undo only once something changes.
    pub held: Option<Snapshot>,
    /// A file to read or write, waiting for the caller.
    pub request: Option<Request>,
    /// The last substitution, for `:&`, `:&&`, `g&` and `~`.
    pub last_substitute: Option<LastSubstitute>,
    /// A substitution asking about each match (the `c` flag), under way.
    pub confirm_state: Option<ConfirmState>,
}

/// `b` is `a` after `u`: with nothing to undo, the nodes and the history
/// stay and the message says so; else the last step of undo is brought
/// back and the present state goes on the redo stack.
pub open spec fn undone(a: App, b: App) -> bool {
    &&& a.undo@.len() == 0 ==> b == (App { message: b.message, ..a }) && b.message@ == "already at oldest change"@
    &&& a.undo@.len() > 0 ==> {
        &&& b.snap() == a.undo@.last()
        &&& b == (App {
            nodes: b.nodes,
            cursor: b.cursor,
            cursor_col: b.cursor_col,
            source_mode: b.source_mode,
            held: None,
            modified: true,
            undo: b.undo,
            redo: b.redo,
            ..a
        })
        &&& b.undo@ == a.undo@.drop_last()
        &&& b.redo@.len() == a.redo@.len() + 1
        &&& b.redo@.drop_last() == a.redo@
        &&& b.redo@.last().cursor == a.cursor
        &&& b.redo@.last().cursor_col == a.cursor_col
        &&& b.redo@.last().source_mode == a.source_mode
        &&& nodes_view(b.redo@.last().nodes@) == nodes_view(a.nodes@)
    }
    &&& b.mode == a.mode
}

/// `b` is `a` after `Ctrl-r`, the opposite of `undone`; the oldest step
/// of undo goes when the undo stack is full.
pub open spec fn redone(a: App, b: App) -> bool {
    &&& a.redo@.len() == 0 ==> b == (App { message: b.message, ..a }) && b.message@ == "already at newest change"@
    &&& a.redo@.len() > 0 ==> {
        &&& b.snap() == a.redo@.last()
        &&& b == (App {
            nodes: b.nodes,
            cursor: b.cursor,
            cursor_col: b.cursor_col,
            source_mode: b.source_mode,
            held: None,
            modified: true,
            undo: b.undo,
            redo: b.redo,
            ..a
        })
        &&& b.redo@ == a.redo@.drop_last()
        &&& b.undo@.len() == (if a.undo@.len() < UNDO_LIMIT { a.undo@.len() + 1 } else { a.undo@.len() + 0 })
        &&& b.undo@.drop_last() == (if a.undo@.len() < UNDO_LIMIT {
            a.undo@
        } else {
            a.undo@.subrange(1, a.undo@.len() as int)
        })
        &&& b.undo@.last().cursor == a.cursor
        &&& b.undo@.last().cursor_col == a.cursor_col
        &&& b.undo@.last().source_mode == a.source_mode
        &&& nodes_view(b.undo@.last().nodes@) == nodes_view(a.nodes@)
    }
    &&& b.mode == a.mode
}

/// Undo, then redo, brings back the nodes, the cursor and both stacks as
/// far as their states go.
pub proof fn lemma_undo_then_redo(a: App, b: App, c: App)
    requires
        a.wf(),
        a.undo@.len() > 0,
        undone(a, b),
        redone(b, c),
    ensures
        nodes_view(c.nodes@) == nodes_view(a.nodes@),
        c.cursor == a.cursor,
        c.cursor_col == a.cursor_col,
        c.source_mode == a.source_mode,
        c.redo@ == a.redo@,
        c.undo@.len() == a.undo@.len(),
        c.undo@.drop_last() == a.undo@.drop_last(),
{
    assert(b.undo@.len() < UNDO_LIMIT);
    assert(b.redo@.len() > 0);
}

/// Redo, then undo, brings back the nodes, the cursor and both stacks as
/// far as their states go, when the undo stack has room.
pub proof fn lemma_redo_then_undo(a: App, b: App, c: App)
    requires
        a.wf(),
        a.redo@.len() > 0,
        a.undo@.len() < UNDO_LIMIT,
        redone(a, b),
        undone(b, c),
    ensures
        nodes_view(c.nodes@) == nodes_view(a.nodes@),
        c.cursor == a.cursor,
        c.cursor_col == a.cursor_col,
        c.source_mode == a.source_mode,
        c.undo@ == a.undo@,
        c.redo@.len() == a.redo@.len(),
        c.redo@.drop_last() == a.redo@.drop_last(),
{
    assert(b.undo@.len() > 0);
}

/// How many steps of undo are kept.
pub const UNDO_LIMIT: usize = 100;

/// The undo stack once `h` is pushed on it: the oldest step goes when the
/// stack is full.
pub open spec fn undo_pushed(undo: Seq<Snapshot>, h: Snapshot) -> Seq<Snapshot> {
    if undo.len() < UNDO_LIMIT {
        undo.push(h)
    } else {
        undo.push(h).subrange(1, undo.len() as int + 1)
    }
}

/// `b`'s history is `a`'s once a change is recorded: the state held at
/// the start of the edit, if any, is pushed for undo and redo is emptied.
pub open spec fn recorded(a: App, b: App) -> bool {
    &&& b.modified
    &&& b.held is None
    &&& match a.held {
        None => b.undo@ == a.undo@ && b.redo@ == a.redo@,
        Some(h) => b.undo@ == undo_pushed(a.undo@, h) && b.redo@.len() == 0,
    }
}

/// `b`'s history is `a`'s.
pub open spec fn history_kept(a: App, b: App) -> bool {
    &&& b.undo@ == a.undo@
    &&& b.redo@ == a.redo@
    &&& b.held == a.held
    &&& b.modified == a.modified
}

/// Everything but the nodes, the cursor and the history is as in `a`.
pub open spec fn others_kept(a: App, b: App) -> bool {
    &&& b.mode == a.mode
    &&& b.source_mode == a.source_mode
    &&& b.pending == a.pending
    &&& b.command@ == a.command@
    &&& b.search@ == a.search@
    &&& b.search_forward == a.search_forward
    &&& b.last_search == a.last_search
    &&& b.path == a.path
    &&& b.tree_path == a.tree_path
    &&& b.quit == a.quit
    &&& b.register@ == a.register@
    &&& b.source_register@ == a.source_register@
    &&& b.visual_kind == a.visual_kind
    &&& b.visual_anchor == a.visual_anchor
    &&& b.visual_anchor_col == a.visual_anchor_col
    &&& b.last_visual_range == a.last_visual_range
    &&& b.count == a.count
    &&& b.number == a.number
    &&& b.scroll == a.scroll
    &&& b.h_scroll == a.h_scroll
    &&& b.height == a.height
    &&& b.width == a.width
    &&& b.row_offsets@ == a.row_offsets@
    &&& b.total_rows == a.total_rows
    &&& b.request == a.request
    &&& b.message@ == a.message@
    &&& b.last_substitute == a.last_substitute
    &&& b.confirm_state == a.confirm_state
}

/// `a + d`, kept within `usize`.
pub open spec fn add_signed(a: int, d: int) -> int {
    if a + d < 0 {
        0
    } else if a + d > usize::MAX {
        usize::MAX as int
    } else {
        a + d
    }
}

/// `a + d`, kept within `usize`.
pub fn saturating_add_signed(a: usize, d: isize) -> (r: usize)
    ensures
        r == add_signed(a as int, d as int),
{
    if d >= 0 {
        let u = d as usize;
        if a > usize::MAX - u {
            usize::MAX
        } else {
            a + u
        }
    } else {
        let back = ((-(d + 1)) as usize) + 1;
        if a < back {
            0
        } else {
            a - back
        }
    }
}

/// The sum of two columns, kept within `usize`.
pub open spec fn sat_column(a: int, b: int) -> int {
    if a + b <= usize::MAX {
        a + b
    } else {
        usize::MAX as int
    }
}

/// The node whose row is the last one at or above `target`, among the
/// first `k`: the pair of its index and its row, `(0, 0)` when none is.
pub open spec fn best_row(rows: Seq<usize>, target: int, k: int) -> (int, int)
    decreases k,
{
    if k <= 0 {
        (0, 0)
    } else {
        let p = best_row(rows, target, k - 1);
        if rows[k - 1] <= target && rows[k - 1] >= p.1 {
            (k - 1, rows[k - 1] as int)
        } else {
            p
        }
    }
}

/// `s1` is `s0` with the cursor moved to node `index`, or the last.
pub open spec fn moved_to(s0: App, s1: App, index: usize) -> bool {
    &&& s1.cursor == (if index < s0.nodes@.len() {
                index as int
            } else {
                s0.nodes@.len() - 1
            })
    &&& s1.cursor_col == (if s0.cursor_col <= s1.cur_text().len() {
                s0.cursor_col as int
            } else {
                s1.cur_text().len() as int
            })
    &&& s1.nodes@ == s0.nodes@
    &&& others_kept(s0, s1)
    &&& history_kept(s0, s1)
    &&& s1 == (App { cursor: s1.cursor, cursor_col: s1.cursor_col, ..s0 })
}

/// `s1` is `s0` after `j` or `k` moved by `lines` nodes.
pub open spec fn scrolled_by(s0: App, s1: App, lines: isize) -> bool {
    &&& s1.cursor == (if add_signed(s0.cursor as int, lines as int) < s0.nodes@.len() {
                add_signed(s0.cursor as int, lines as int)
            } else {
                s0.nodes@.len() - 1
            })
    &&& s1.cursor_col == (if s0.cursor_col <= s1.cur_text().len() {
                s0.cursor_col as int
            } else {
                s1.cur_text().len() as int
            })
    &&& s1.nodes@ == s0.nodes@
    &&& others_kept(s0, s1)
    &&& history_kept(s0, s1)
}

/// `s1` is `s0` after the view and the cursor moved by `lines` rows.
pub open spec fn paged(s0: App, s1: App, lines: isize) -> bool {
    let scroll = at_most(add_signed(s0.scroll as int, lines as int), s0.last_scroll());
    let last = s0.nodes@.len() - 1;
    let target = at_most(s0.node_at_row_spec(add_signed(s0.cursor_row_spec(), lines as int)), last);
    let first_in_view = s0.node_at_row_spec(scroll);
    let last_in_view = at_most(s0.node_at_row_spec(s0.bottom_row(scroll)), last);
    &&& s1.scroll == scroll
    &&& s1.cursor == at_most(within(target, first_in_view, last_in_view), last)
    &&& s1.cursor_col == at_most(s0.cursor_col as int, s1.cur_text().len() as int)
    &&& s1 == (App { scroll: s1.scroll, cursor: s1.cursor, cursor_col: s1.cursor_col, ..s0 })
}

/// `x`, or `hi` when it is more.
pub open spec fn at_most(x: int, hi: int) -> int {
    if x <= hi {
        x
    } else {
        hi
    }
}

/// `x` kept from `lo` to `hi`.
pub open spec fn within(x: int, lo: int, hi: int) -> int {
    if x < lo {
        lo
    } else if x > hi {
        hi
    } else {
        x
    }
}

impl App {
    /// The largest first row in view: the rows less the view's height.
    pub open spec fn last_scroll(&self) -> int {
        if self.total_rows_spec() >= self.height {
            self.total_rows_spec() - self.height
        } else {
            0
        }
    }

    /// The last row in view when the first is `scroll`, within `usize`.
    pub open spec fn bottom_row(&self, scroll: int) -> int {
        if scroll + self.height >= 1 {
            at_most(scroll + self.height - 1, usize::MAX as int)
        } else {
            0
        }
    }
}

/// `s1` is `s0` holding its state at the start of an edit.
pub open spec fn edit_began(s0: App, s1: App) -> bool {
    &&& s1.held matches Some(h) && h.cursor == s0.cursor && h.cursor_col == s0.cursor_col && h.source_mode == s0.source_mode && nodes_view(h.nodes@)
                == nodes_view(s0.nodes@)
    &&& s1 == (App { held: s1.held, ..s0 })
}

impl App {
    /// The invariant of the editor.
    pub open spec fn wf(&self) -> bool {
        &&& cursor_ok(self.nodes@, self.cursor as int, self.cursor_col as int)
        &&& snapshots_ok(self.undo@)
        &&& snapshots_ok(self.redo@)
        &&& self.undo@.len() <= UNDO_LIMIT
        &&& (self.held matches Some(h) ==> h.wf())
    }

    /// The text of the cursor's node.
    pub open spec fn cur_text(&self) -> Seq<char> {
        self.nodes@[self.cursor as int].text@
    }

    pub open spec fn snap(&self) -> Snapshot {
        Snapshot {
            nodes: self.nodes,
            cursor: self.cursor,
            cursor_col: self.cursor_col,
            source_mode: self.source_mode,
        }
    }

    /// A new editor with one empty node.
    pub fn new() -> (app: Self)
        ensures
            app.wf(),
            nodes_view(app.nodes@) == seq![nv(Seq::empty(), 0)],
            app == (App {
                nodes: app.nodes,
                cursor: 0,
                cursor_col: 0,
                source_mode: false,
                mode: Mode::Normal,
                pending: None,
                command: app.command,
                search: app.search,
                search_forward: true,
                last_search: None,
                path: None,
                tree_path: None,
                modified: false,
                message: app.message,
                quit: false,
                undo: app.undo,
                redo: app.redo,
                register: app.register,
                source_register: app.source_register,
                visual_kind: VisualKind::Char,
                visual_anchor: 0,
                visual_anchor_col: 0,
                last_visual_range: None,
                count: None,
                number: false,
                scroll: 0,
                h_scroll: 0,
                height: 0,
                width: 0,
                row_offsets: app.row_offsets,
                total_rows: 0,
                held: None,
                request: None,
                last_substitute: None,
                confirm_state: None,
            }),
            app.command@.len() == 0,
            app.search@.len() == 0,
            app.message@.len() == 0,
            app.undo@.len() == 0,
            app.redo@.len() == 0,
            app.register@.len() == 0,
            app.source_register@.len() == 0,
            app.row_offsets@.len() == 0,
    {
        let mut nodes = Vec::new();
        nodes.push(Node::empty(0));
        let app = App {
            nodes,
            cursor: 0,
            cursor_col: 0,
            source_mode: false,
            mode: Mode::Normal,
            pending: None,
            command: Vec::new(),
            search: Vec::new(),
            search_forward: true,
            last_search: None,
            path: None,
            tree_path: None,
            modified: false,
            message: Vec::new(),
            quit: false,
            undo: Vec::new(),
            redo: Vec::new(),
            register: Vec::new(),
            source_register: Vec::new(),
            visual_kind: VisualKind::Char,
            visual_anchor: 0,
            visual_anchor_col: 0,
            last_visual_range: None,
            count: None,
            number: false,
            scroll: 0,
            h_scroll: 0,
            height: 0,
            width: 0,
            row_offsets: Vec::new(),
            total_rows: 0,
            held: None,
            request: None,
            last_substitute: None,
            confirm_state: None,
        };
        assert(nodes_view(app.nodes@) =~= seq![nv(Seq::empty(), 0)]);
        app
    }

    /// A copy of the nodes.
    pub fn copy_nodes(nodes: &Vec<Node>) -> (r: Vec<Node>)
        ensures
            nodes_view(r@) == nodes_view(nodes@),
            r@.len() == nodes@.len(),
            forall|i: int| 0 <= i < nodes@.len() ==> #[trigger] r@[i]@ == nodes@[i]@,
            forall|i: int|
                0 <= i < nodes@.len() ==> (#[trigger] r@[i]).text@ == nodes@[i].text@ && r@[i].depth
                    == nodes@[i].depth,
    {
        let mut r: Vec<Node> = Vec::new();
        let mut i: usize = 0;
        while i < nodes.len()
            invariant
                i <= nodes@.len(),
                r@.len() == i,
                forall|j: int| 0 <= j < i ==> #[trigger] r@[j]@ == nodes@[j]@,
            decreases nodes@.len() - i,
        {
            r.push(nodes[i].duplicate());
            i = i + 1;
        }
        assert forall|i: int| 0 <= i < nodes@.len() implies (#[trigger] r@[i]).text@
            == nodes@[i].text@ && r@[i].depth == nodes@[i].depth by {
            assert(r@[i]@ == nodes@[i]@);
        }
        assert(nodes_view(r@) =~= nodes_view(nodes@));
        r
    }

    /// The state that undo would bring back to this one.
    pub fn snapshot(&self) -> (s: Snapshot)
        ensures
            s.cursor == self.cursor,
            s.cursor_col == self.cursor_col,
            s.source_mode == self.source_mode,
            nodes_view(s.nodes@) == nodes_view(self.nodes@),
            s.nodes@.len() == self.nodes@.len(),
            forall|i: int| 0 <= i < self.nodes@.len() ==> #[trigger] s.nodes@[i]@ == self.nodes@[i]@,
            cursor_ok(self.nodes@, self.cursor as int, self.cursor_col as int) ==> s.wf(),
    {
        Snapshot {
            nodes: Self::copy_nodes(&self.nodes),
            cursor: self.cursor,
            cursor_col: self.cursor_col,
            source_mode: self.source_mode,
        }
    }

    /// Marks the start of an edit.
    ///
    /// Called when Insert mode begins and before each Normal mode edit,
    /// and not while typing, so that everything from `i` to Esc is one
    /// step of undo.
    pub fn begin_edit(&mut self)
        requires
            old(self).wf(),
        ensures
            final(self).wf(),
            edit_began(*old(self), *final(self)),
    {
        let s = self.snapshot();
        self.held = Some(s);
    }

    /// Called when something changed: the state held at the start of the
    /// edit becomes a step of undo, once. Later changes in the same edit
    /// find nothing held.
    pub fn record(&mut self)
        requires
            old(self).wf(),
        ensures
            final(self).wf(),
            recorded(*old(self), *final(self)),
            others_kept(*old(self), *final(self)),
            final(self).nodes@ == old(self).nodes@,
            final(self).cursor == old(self).cursor,
            final(self).cursor_col == old(self).cursor_col,
            *final(self) == (App {
                modified: final(self).modified,
                held: final(self).held,
                undo: final(self).undo,
                redo: final(self).redo,
                ..*old(self)
            }),
    {
        self.modified = true;
        let held = self.held.take();
        match held {
            None => {},
            Some(h) => {
                self.undo.push(h);
                if self.undo.len() > UNDO_LIMIT {
                    self.undo.remove(0);
                }
                self.redo.clear();
                assert(snapshots_ok(self.undo@));
                assert(self.undo@ =~= undo_pushed(old(self).undo@, h));
            },
        }
    }

    /// Brings back a snapshot.
    pub fn restore(&mut self, snapshot: Snapshot)
        requires
            old(self).wf(),
            snapshot.wf(),
        ensures
            final(self).wf(),
            final(self).nodes == snapshot.nodes,
            final(self).cursor == snapshot.cursor,
            final(self).cursor_col == snapshot.cursor_col,
            final(self).source_mode == snapshot.source_mode,
            final(self).held is None,
            final(self).modified,
            *final(self) == (App {
                nodes: final(self).nodes,
                cursor: final(self).cursor,
                cursor_col: final(self).cursor_col,
                source_mode: final(self).source_mode,
                held: None,
                modified: true,
                ..*old(self)
            }),
    {
        self.nodes = snapshot.nodes;
        self.cursor = snapshot.cursor;
        self.cursor_col = snapshot.cursor_col;
        self.source_mode = snapshot.source_mode;
        self.held = None;
        self.modified = true;
    }

    /// `u`: steps back to the last snapshot, keeping the present one for
    /// redo.
    pub fn undo(&mut self)
        requires
            old(self).wf(),
        ensures
            final(self).wf(),
            undone(*old(self), *final(self)),
    {
        if self.undo.len() == 0 {
            self.message = crate::text::chars_of("already at oldest change");
            return;
        }
        match self.undo.pop() {
            None => {},
            Some(snapshot) => {
                let now = self.snapshot();
                self.redo.push(now);
                assert(snapshots_ok(self.redo@));
                assert(self.redo@.drop_last() =~= old(self).redo@);
                self.restore(snapshot);
                assert(self.snap() == old(self).undo@.last());
            },
        }
    }

    /// `Ctrl-r`: the opposite of `undo`.
    pub fn redo(&mut self)
        requires
            old(self).wf(),
        ensures
            final(self).wf(),
            redone(*old(self), *final(self)),
    {
        if self.redo.len() == 0 {
            self.message = crate::text::chars_of("already at newest change");
            return;
        }
        match self.redo.pop() {
            None => {},
            Some(snapshot) => {
                let now = self.snapshot();
                let ghost u0 = self.undo@;
                self.undo.push(now);
                if self.undo.len() > UNDO_LIMIT {
                    self.undo.remove(0);
                    assert(self.undo@.drop_last() =~= u0.subrange(1, u0.len() as int));
                } else {
                    assert(self.undo@.drop_last() =~= u0);
                }
                assert(snapshots_ok(self.undo@));
                self.restore(snapshot);
                assert(self.snap() == old(self).redo@.last());
            },
        }
    }

    /// `cursor_col` brought within the text of the cursor's node.
    pub fn clamp_cursor_col(&mut self)
        requires
            old(self).nodes@.len() >= 1,
            old(self).cursor < old(self).nodes@.len(),
        ensures
            final(self).cursor_col == (if old(self).cursor_col <= old(self).cur_text().len() {
                old(self).cursor_col as int
            } else {
                old(self).cur_text().len() as int
            }),
            final(self).nodes@ == old(self).nodes@,
            final(self).cursor == old(self).cursor,
            others_kept(*old(self), *final(self)),
            history_kept(*old(self), *final(self)),
            *final(self) == (App { cursor_col: final(self).cursor_col, ..*old(self) }),
    {
        let len = self.nodes[self.cursor].text.len();
        if self.cursor_col > len {
            self.cursor_col = len;
        }
    }

    /// Moves to a node, the last one when `index` is past the end.
    pub fn move_to(&mut self, index: usize)
        requires
            old(self).wf(),
        ensures
            final(self).wf(),
            moved_to(*old(self), *final(self), index),
    {
        let last = self.nodes.len() - 1;
        self.cursor = if index < last {
            index
        } else {
            last
        };
        self.clamp_cursor_col();
    }

    /// The first row in view once the view follows the cursor: unchanged
    /// while the cursor's row is in view, else just enough to show it.
    pub open spec fn followed_scroll(&self) -> int {
        if self.height == 0 {
            self.scroll as int
        } else if self.cursor_row_spec() < self.scroll {
            self.cursor_row_spec()
        } else if self.cursor_row_spec() >= self.scroll + self.height {
            self.cursor_row_spec() - self.height + 1
        } else {
            self.scroll as int
        }
    }

    /// The first column in view once the view follows the cursor
    /// sideways, in the same way.
    pub open spec fn followed_h_scroll(&self) -> int {
        let visible = if self.width >= 3 { self.width - 2 } else { 1 };
        let column = sat_column(
            prefix_spec(nodes_view(self.nodes@), self.cursor as int).len() as int,
            if self.cur_text().len() == 0 { 0 } else { self.cursor_col as int },
        );
        if self.width == 0 {
            self.h_scroll as int
        } else if column < self.h_scroll {
            column
        } else if column >= self.h_scroll + visible {
            column - visible + 1
        } else {
            self.h_scroll as int
        }
    }

    /// The screen row of the cursor: its node's row once the view has
    /// been drawn, its node's index before.
    pub open spec fn cursor_row_spec(&self) -> int {
        if self.cursor < self.row_offsets@.len() {
            self.row_offsets@[self.cursor as int] as int
        } else {
            self.cursor as int
        }
    }

    /// The rows of all nodes: as drawn when the offsets are current, one
    /// per node before.
    pub open spec fn total_rows_spec(&self) -> int {
        if self.row_offsets@.len() == self.nodes@.len() {
            self.total_rows as int
        } else {
            self.nodes@.len() as int
        }
    }

    /// The node at a screen row: the last node starting at or above it;
    /// the row itself before the view has been drawn.
    pub open spec fn node_at_row_spec(&self, target: int) -> int {
        if self.row_offsets@.len() != self.nodes@.len() {
            target
        } else {
            best_row(self.row_offsets@, target, self.row_offsets@.len() as int).0
        }
    }

    /// The scroll that puts the cursor's row in the middle of the view,
    /// or as near as the ends allow; the scroll as it is when the view has
    /// no height yet.
    pub open spec fn centered_scroll(&self) -> int {
        if self.height == 0 {
            self.scroll as int
        } else {
            let target = if self.cursor_row_spec() >= self.height / 2 {
                self.cursor_row_spec() - self.height / 2
            } else {
                0
            };
            let last = if self.total_rows_spec() >= self.height {
                self.total_rows_spec() - self.height
            } else {
                0
            };
            if target <= last {
                target
            } else {
                last
            }
        }
    }

    /// The screen row of the cursor.
    pub fn cursor_row(&self) -> (r: usize)
        ensures
            r == self.cursor_row_spec(),
    {
        if self.cursor < self.row_offsets.len() {
            self.row_offsets[self.cursor]
        } else {
            self.cursor
        }
    }

    /// The rows of all nodes.
    pub fn total_rows(&self) -> (r: usize)
        ensures
            r == self.total_rows_spec(),
    {
        if self.row_offsets.len() == self.nodes.len() {
            self.total_rows
        } else {
            self.nodes.len()
        }
    }

    /// The node at a screen row.
    pub fn node_at_row(&self, target: usize) -> (r: usize)
        ensures
            r == self.node_at_row_spec(target as int),
            self.row_offsets@.len() == self.nodes@.len() && self.nodes@.len() > 0 ==> r < self.nodes@.len(),
    {
        if self.row_offsets.len() != self.nodes.len() {
            return target;
        }
        let mut best: usize = 0;
        let mut best_row_at: usize = 0;
        let mut k: usize = 0;
        while k < self.row_offsets.len()
            invariant
                k <= self.row_offsets@.len(),
                self.row_offsets@.len() == self.nodes@.len(),
                (best as int, best_row_at as int) == best_row(self.row_offsets@, target as int, k as int),
                best == 0 || best < k,
            decreases self.row_offsets@.len() - k,
        {
            let row = self.row_offsets[k];
            if row <= target && row >= best_row_at {
                best_row_at = row;
                best = k;
            }
            k = k + 1;
        }
        best
    }

    /// Scrolls as little as it takes to bring the cursor's row into view.
    pub fn follow_cursor(&mut self)
        ensures
            final(self).scroll == old(self).followed_scroll(),
            *final(self) == (App { scroll: final(self).scroll, ..*old(self) }),
    {
        if self.height == 0 {
            return;
        }
        let row = self.cursor_row();
        if row < self.scroll {
            self.scroll = row;
        } else if row - self.scroll >= self.height {
            self.scroll = row - self.height + 1;
        }
    }

    /// `zz`: scrolls so that the cursor is in the middle of the view, or
    /// as near as the ends allow.
    pub fn center_on_cursor(&mut self)
        ensures
            final(self).scroll == old(self).centered_scroll(),
            *final(self) == (App { scroll: final(self).scroll, ..*old(self) }),
    {
        if self.height == 0 {
            return;
        }
        let half = self.height / 2;
        let row = self.cursor_row();
        let target = if row >= half { row - half } else { 0 };
        let total = self.total_rows();
        let last = if total >= self.height { total - self.height } else { 0 };
        self.scroll = if target <= last { target } else { last };
    }

    /// `Ctrl-e`, `Ctrl-y` and the like: the cursor moves `lines` nodes,
    /// within the list.
    pub fn scroll_by(&mut self, lines: isize)
        requires
            old(self).wf(),
        ensures
            final(self).wf(),
            scrolled_by(*old(self), *final(self), lines),
    {
        let target = saturating_add_signed(self.cursor, lines);
        self.move_to(target);
    }

    /// PageDown, PageUp, `Ctrl-f`, `Ctrl-b`, `Ctrl-d` and `Ctrl-u`: the
    /// view scrolls `lines` rows and the cursor moves as many, kept within
    /// the view where the scroll stopped at an end.
    pub fn scroll_page(&mut self, lines: isize)
        requires
            old(self).wf(),
        ensures
            final(self).wf(),
            paged(*old(self), *final(self), lines),
    {
        let total = self.total_rows();
        let last_scroll = if total >= self.height { total - self.height } else { 0 };
        let s = saturating_add_signed(self.scroll, lines);
        self.scroll = if s <= last_scroll { s } else { last_scroll };
        let last = self.nodes.len() - 1;
        let row = self.cursor_row();
        let target = self.node_at_row(saturating_add_signed(row, lines));
        let c1 = if target <= last { target } else { last };
        let sum = if self.scroll <= usize::MAX - self.height { self.scroll + self.height } else { usize::MAX };
        let bottom = if sum >= 1 { sum - 1 } else { 0 };
        proof {
            assert(self.scroll + self.height >= 1 ==> (bottom == (if self.scroll + self.height - 1 <= usize::MAX {
                self.scroll + self.height - 1
            } else {
                usize::MAX as int
            })));
        }
        let lo = self.node_at_row(self.scroll);
        let hi0 = self.node_at_row(bottom);
        let hi = if hi0 <= last { hi0 } else { last };
        let c2 = if c1 < lo { lo } else if c1 > hi { hi } else { c1 };
        self.cursor = if c2 <= last { c2 } else { last };
        self.clamp_cursor_col();
    }

    /// The screen column of the cursor in node `index`'s line: its prefix,
    /// then its place in the text (0 on an empty node, which shows `◦`).
    pub fn cursor_column(&self, index: usize) -> (r: usize)
        requires
            self.wf(),
            index < self.nodes@.len(),
        ensures
            r == sat_column(prefix_spec(nodes_view(self.nodes@), index as int).len() as int, if self.nodes@[index as int].text@.len() == 0 {
                0
            } else {
                self.cursor_col as int
            }),
    {
        let prefix = self.tree_prefix(index);
        let column = if self.nodes[index].text.len() == 0 { 0 } else { self.cursor_col };
        if prefix.len() <= usize::MAX - column {
            prefix.len() + column
        } else {
            usize::MAX
        }
    }

    /// Scrolls sideways as little as it takes to bring the cursor's column
    /// into view, leaving two columns for the marks of cut lines.
    pub fn follow_cursor_horizontal(&mut self)
        requires
            old(self).wf(),
        ensures
            final(self).wf(),
            final(self).h_scroll == old(self).followed_h_scroll(),
            *final(self) == (App { h_scroll: final(self).h_scroll, ..*old(self) }),
    {
        if self.width == 0 {
            return;
        }
        let visible = if self.width >= 3 { self.width - 2 } else { 1 };
        let column = self.cursor_column(self.cursor);
        if column < self.h_scroll {
            self.h_scroll = column;
        } else if column - self.h_scroll >= visible {
            self.h_scroll = column - visible + 1;
        }
    }
}

} // verus!
