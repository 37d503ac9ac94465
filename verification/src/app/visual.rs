//! Visual mode: selecting characters or whole nodes, and what `y`, `d`,
//! `c`, `>`, `<` and `:` do with the selection.

use vstd::prelude::*;

use super::editing::cut_out;
use super::editing::nodes_deleted;
use super::editing::opened_above;
use super::editing::subtree_indented;
use super::editing::subtree_unindented;
use super::editing::yanked;
use super::edit_began;
use super::recorded;
use super::editing::lemma_repaired;
use super::editing::repair_nodes;
use super::editing::repaired;
use super::editing::take_span;
use super::editing::shifted;
use super::editing::subtree_end_spec;
use super::App;
use super::Mode;
use super::VisualKind;
use super::DEPTH_CAP;
use crate::node::normalize;
use crate::node::normalized;
use crate::node::nodes_view;
use crate::node::nv;
use crate::node::Node;
use crate::node::NodeView;

verus! {

/// The start and end of a character selection: the earlier and the later
/// of two places, as (node, column) pairs compared in order.
pub open spec fn ordered(a: (int, int), b: (int, int)) -> (int, int, int, int) {
    if a.0 < b.0 || (a.0 == b.0 && a.1 <= b.1) {
        (a.0, a.1, b.0, b.1)
    } else {
        (b.0, b.1, a.0, a.1)
    }
}

/// The nodes a character selection covers, with the text outside it cut
/// from its first and last nodes.
pub open spec fn span_block(v: Seq<NodeView>, a: int, ac: int, b: int, be: int) -> Seq<NodeView> {
    let block = v.subrange(a, b + 1);
    if a == b {
        block.update(0, nv(v[a].text.subrange(ac, be), v[a].depth))
    } else {
        block.update(b - a, nv(v[b].text.take(be), v[b].depth)).update(0, nv(v[a].text.skip(ac), v[a].depth))
    }
}

/// The nodes once a character selection is taken out, and where the
/// cursor goes: a selection in one node cuts its text; across nodes, the
/// first and last nodes keep what lies outside it, the nodes wholly
/// inside go (their children moving up), and nothing is joined.
pub open spec fn span_removed(v: Seq<NodeView>, a: int, ac: int, b: int, be: int) -> (Seq<NodeView>, int, int) {
    if a == b {
        (v.update(a, nv(v[a].text.take(ac) + v[a].text.skip(be), v[a].depth)), a, ac)
    } else {
        let lo_full = ac == 0;
        let hi_full = be == v[b].text.len();
        let w1 = if hi_full { v } else { v.update(b, nv(v[b].text.skip(be), v[b].depth)) };
        let w2 = if lo_full { w1 } else { w1.update(a, nv(v[a].text.take(ac), v[a].depth)) };
        let ds = if lo_full { a } else { a + 1 };
        let de = if hi_full { b + 1 } else { b };
        let w3 = if ds < de { w2.subrange(0, ds) + w2.subrange(de, w2.len() as int) } else { w2 };
        let w4 = if w3.len() == 0 { seq![nv(Seq::empty(), 0)] } else { w3 };
        let w5 = repaired(w4);
        if lo_full {
            (w5, if ds < w5.len() { ds } else { w5.len() - 1 }, 0)
        } else {
            (w5, a, ac)
        }
    }
}

/// A character selection across nodes that starts at the start of its
/// first node and takes its last node whole takes those nodes out as
/// deleting them by lines does, children moving up, and puts the same
/// nodes in the register.
pub proof fn lemma_whole_nodes_span(v: Seq<NodeView>, a: int, b: int)
    requires
        0 <= a < b < v.len(),
    ensures
        span_removed(v, a, 0, b, v[b].text.len() as int).0 == repaired(cut_out(v, a, b + 1)),
        normalized(span_block(v, a, 0, b, v[b].text.len() as int)) == normalized(v.subrange(a, b + 1)),
{
    let len = v[b].text.len() as int;
    assert(v[b].text.take(len) =~= v[b].text);
    assert(v[a].text.skip(0) =~= v[a].text);
    let block = v.subrange(a, b + 1);
    assert(block.update(b - a, nv(v[b].text.take(len), v[b].depth)).update(0, nv(v[a].text.skip(0), v[a].depth)) =~= block);
}

/// `s1` is `s0` back in Normal mode, the selection remembered.
pub open spec fn visual_left(s0: App, s1: App, range: (usize, usize)) -> bool {
    &&& s1 == (App { last_visual_range: Some(range), ..s0 })
}

/// `s0` with the cursor on the first node of its selection by lines, the
/// column kept within that node's text.
pub open spec fn at_first_line(s0: App) -> App {
    let lo = s0.line_range_spec().0;
    let len = s0.nodes@[lo].text@.len();
    App { cursor: lo as usize, cursor_col: (if s0.cursor_col <= len { s0.cursor_col as int } else { len as int }) as usize, ..s0 }
}

/// `s1` is `s0` out of Visual mode into `mode`, the lines of the
/// selection `s` started from remembered.
pub open spec fn visual_ended(s: App, s0: App, s1: App, mode: Mode) -> bool {
    s1 == (App { last_visual_range: Some(line_range_of(s)), mode, ..s0 })
}

/// The selection by lines, as the pair that Visual mode remembers.
pub open spec fn line_range_of(s0: App) -> (usize, usize) {
    (s0.line_range_spec().0 as usize, s0.line_range_spec().1 as usize)
}

/// The number of nodes a selection by lines covers.
pub open spec fn line_count_of(s0: App) -> usize {
    (s0.line_range_spec().1 - s0.line_range_spec().0 + 1) as usize
}

/// What a character selection puts in the register.
pub open spec fn char_cut(s0: App) -> Seq<NodeView> {
    let (a, ac, b, be) = s0.char_span_spec();
    normalized(span_block(nodes_view(s0.nodes@), a, ac, b, be))
}

/// `s1` is `s0` with `cut` in the register of the view, the other one kept.
pub open spec fn register_set(s0: App, s1: App, cut: Seq<NodeView>) -> bool {
    &&& !s0.source_mode ==> nodes_view(s1.register@) == cut && s1.source_register == s0.source_register
    &&& s0.source_mode ==> nodes_view(s1.source_register@) == cut && s1.register == s0.register
}

/// `s1` is `s0` with its character selection taken out of the nodes into
/// the register of the view, as one step of undo.
pub open spec fn char_selection_taken(s0: App, s1: App) -> bool {
    let (a, ac, b, be) = s0.char_span_spec();
    let (w, node, col) = span_removed(nodes_view(s0.nodes@), a, ac, b, be);
    &&& nodes_view(s1.nodes@) == w
    &&& s1.cursor == node
    &&& s1.cursor_col == col
    &&& register_set(s0, s1, char_cut(s0))
    &&& exists|m: App| #[trigger] edit_began(s0, m) && recorded(m, s1)
    &&& s1 == (App {
        nodes: s1.nodes,
        cursor: s1.cursor,
        cursor_col: s1.cursor_col,
        register: s1.register,
        source_register: s1.source_register,
        modified: s1.modified,
        held: s1.held,
        undo: s1.undo,
        redo: s1.redo,
        ..s0
    })
}

/// `s1` is `s0` after `y` in Visual mode: by lines, the nodes are yanked
/// from the first one; by characters, the selection goes to the register
/// and the cursor to its start.
pub open spec fn visual_yanked(s0: App, s1: App) -> bool {
    if s0.visual_kind == VisualKind::Line {
        exists|m: App| #[trigger] yanked(at_first_line(s0), m, line_count_of(s0)) && visual_ended(s0, m, s1, Mode::Normal)
    } else {
        let (a, ac, b, be) = s0.char_span_spec();
        &&& register_set(s0, s1, char_cut(s0))
        &&& visual_ended(
            s0,
            App { cursor: a as usize, cursor_col: ac as usize, register: s1.register, source_register: s1.source_register, ..s0 },
            s1,
            Mode::Normal,
        )
    }
}

/// `s1` is `s0` after `d` in Visual mode: by lines, the nodes are deleted
/// (and yanked) from the first one; by characters, the selection is
/// taken out.
pub open spec fn visual_deleted(s0: App, s1: App) -> bool {
    if s0.visual_kind == VisualKind::Line {
        exists|m: App, m2: App|
            #[trigger] edit_began(at_first_line(s0), m) && #[trigger] nodes_deleted(m, m2, line_count_of(s0), true)
                && visual_ended(s0, m2, s1, Mode::Normal)
    } else {
        exists|m: App| #[trigger] char_selection_taken(s0, m) && visual_ended(s0, m, s1, Mode::Normal)
    }
}

/// `s1` is `s0` after `c` in Visual mode: as `d`, then by lines an empty
/// node opens where the nodes were, and Insert mode begins.
pub open spec fn visual_changed(s0: App, s1: App) -> bool {
    if s0.visual_kind == VisualKind::Line {
        exists|m: App, m2: App, m3: App|
            #[trigger] edit_began(at_first_line(s0), m) && #[trigger] nodes_deleted(m, m2, line_count_of(s0), true)
                && #[trigger] opened_above(m2, m3) && visual_ended(s0, m3, s1, Mode::Insert)
    } else {
        exists|m: App| #[trigger] char_selection_taken(s0, m) && visual_ended(s0, m, s1, Mode::Insert)
    }
}

/// The nodes once the subtree at `cur` moves one level deeper, when it
/// may: not in the source view, not the first node, not deeper than one
/// below the node before, and no node of it at the largest depth a
/// `usize` holds.
pub open spec fn indent_step(v: Seq<NodeView>, cur: int, source: bool) -> Seq<NodeView> {
    let end = subtree_end_spec(v, cur);
    if !source && cur > 0 && v[cur].depth < v[cur - 1].depth + 1 && (forall|k: int| cur <= k < end ==> #[trigger] v[k].depth < DEPTH_CAP) {
        shifted(v, cur, end, 1)
    } else {
        v
    }
}

/// The nodes once the subtree at `cur` moves one level up, when it may.
pub open spec fn unindent_step(v: Seq<NodeView>, cur: int, source: bool) -> Seq<NodeView> {
    if !source && v[cur].depth > 0 {
        shifted(v, cur, subtree_end_spec(v, cur), -1)
    } else {
        v
    }
}

/// The nodes once each subtree whose root lies from `i` to `hi` moves, in
/// turn, one level deeper (or up); a subtree inside one that moved is
/// not moved again.
pub open spec fn lines_shifted(v: Seq<NodeView>, i: int, hi: int, source: bool, increase: bool) -> Seq<NodeView>
    decreases (if i <= hi { hi + 1 - i } else { 0 }),
{
    if i > hi || i < 0 || i >= v.len() {
        v
    } else {
        let end = subtree_end_spec(v, i);
        let w = if increase { indent_step(v, i, source) } else { unindent_step(v, i, source) };
        lines_shifted(w, if end > i + 1 { end } else { i + 1 }, hi, source, increase)
    }
}

/// `s0` with the cursor on node `i`, its column kept within that node.
pub open spec fn at_node(s0: App, i: int) -> App {
    let len = s0.nodes@[i].text@.len();
    App { cursor: i as usize, cursor_col: (if s0.cursor_col <= len { s0.cursor_col as int } else { len as int }) as usize, ..s0 }
}

/// `s1` is `s0` after each subtree whose root lies from `i` to `hi` was,
/// in turn, moved one level deeper (or up) with the cursor on its root; a
/// subtree inside one that was moved is passed over.
pub open spec fn roots_shifted(s0: App, s1: App, i: int, hi: int, increase: bool) -> bool
    decreases (if i <= hi { hi + 1 - i } else { 0 }),
{
    if i > hi || i < 0 || i >= s0.nodes@.len() {
        s1 == s0
    } else {
        let end = subtree_end_spec(nodes_view(s0.nodes@), i);
        let next = if end > i + 1 { end } else { i + 1 };
        exists|m: App| #[trigger] root_shifted(s0, m, i, increase) && roots_shifted(m, s1, next, hi, increase)
    }
}

/// `s1` is `s0` after the subtree at `i` was moved one level deeper (or
/// up) with the cursor on its root.
pub open spec fn root_shifted(s0: App, s1: App, i: int, increase: bool) -> bool {
    if increase {
        subtree_indented(at_node(s0, i), s1)
    } else {
        subtree_unindented(at_node(s0, i), s1)
    }
}

/// `s1` is `s0` after `>` or `<` in Visual mode: a selection by lines has
/// the subtrees it starts moved, as one edit; either way Visual mode ends.
pub open spec fn visual_indented(s0: App, s1: App, increase: bool) -> bool {
    let (lo, hi) = s0.line_range_spec();
    if s0.visual_kind == VisualKind::Line {
        &&& exists|m: App, m2: App|
            #[trigger] edit_began(s0, m) && #[trigger] roots_shifted(m, m2, lo, hi, increase) && visual_ended(s0, m2, s1, Mode::Normal)
        &&& nodes_view(s1.nodes@) == lines_shifted(nodes_view(s0.nodes@), lo, hi, s0.source_mode, increase)
    } else {
        visual_ended(s0, s0, s1, Mode::Normal)
    }
}

impl App {
    /// Where the selection started: the anchor when it still lies in the
    /// nodes, else the cursor.
    pub open spec fn anchor_spec(&self) -> (int, int) {
        if self.visual_anchor < self.nodes@.len() && self.visual_anchor_col <= self.nodes@[self.visual_anchor as int].text@.len() {
            (self.visual_anchor as int, self.visual_anchor_col as int)
        } else {
            (self.cursor as int, self.cursor_col as int)
        }
    }

    /// The nodes a selection by lines covers, both ends included.
    pub open spec fn line_range_spec(&self) -> (int, int) {
        let a = self.anchor_spec().0;
        let c = self.cursor as int;
        if a <= c { (a, c) } else { (c, a) }
    }

    /// A character selection: its first node and column, and its last
    /// node and the column just after its last character.
    pub open spec fn char_span_spec(&self) -> (int, int, int, int) {
        let (a, ac, b, bc) = ordered(self.anchor_spec(), (self.cursor as int, self.cursor_col as int));
        let be = if bc < self.nodes@[b].text@.len() { bc + 1 } else { bc };
        (a, ac, b, be)
    }

    /// `v` and `V`: Visual mode begins at the cursor.
    pub fn enter_visual(&mut self, kind: VisualKind)
        ensures
            *final(self) == (App {
                mode: Mode::Visual,
                visual_kind: kind,
                visual_anchor: old(self).cursor,
                visual_anchor_col: old(self).cursor_col,
                ..*old(self)
            }),
    {
        self.mode = Mode::Visual;
        self.visual_kind = kind;
        self.visual_anchor = self.cursor;
        self.visual_anchor_col = self.cursor_col;
    }

    /// The selection by lines.
    pub fn visual_line_range(&self) -> (r: (usize, usize))
        requires
            self.wf(),
        ensures
            (r.0 as int, r.1 as int) == self.line_range_spec(),
            r.0 <= r.1 < self.nodes@.len(),
    {
        let n = self.nodes.len();
        let anchor = if self.visual_anchor < n && self.visual_anchor_col <= self.nodes[self.visual_anchor].text.len() {
            self.visual_anchor
        } else {
            self.cursor
        };
        if anchor <= self.cursor {
            (anchor, self.cursor)
        } else {
            (self.cursor, anchor)
        }
    }

    /// The character selection.
    pub fn visual_char_span(&self) -> (r: (usize, usize, usize, usize))
        requires
            self.wf(),
        ensures
            (r.0 as int, r.1 as int, r.2 as int, r.3 as int) == self.char_span_spec(),
            r.0 <= r.2 < self.nodes@.len(),
            r.1 <= self.nodes@[r.0 as int].text@.len(),
            r.3 <= self.nodes@[r.2 as int].text@.len(),
            r.0 == r.2 ==> r.1 <= r.3,
    {
        let n = self.nodes.len();
        let (an, ac) = if self.visual_anchor < n && self.visual_anchor_col <= self.nodes[self.visual_anchor].text.len() {
            (self.visual_anchor, self.visual_anchor_col)
        } else {
            (self.cursor, self.cursor_col)
        };
        let (a, acol, b, bcol) = if an < self.cursor || (an == self.cursor && ac <= self.cursor_col) {
            (an, ac, self.cursor, self.cursor_col)
        } else {
            (self.cursor, self.cursor_col, an, ac)
        };
        let len = self.nodes[b].text.len();
        let be = if bcol < len { bcol + 1 } else { bcol };
        (a, acol, b, be)
    }

    /// The character selection as nodes for the register: its nodes with
    /// the text outside it cut, normalized as `yy` gives them.
    pub fn visual_char_register(&self) -> (r: Vec<Node>)
        requires
            self.wf(),
        ensures
            ({
                let (a, ac, b, be) = self.char_span_spec();
                nodes_view(r@) == normalized(span_block(nodes_view(self.nodes@), a, ac, b, be))
            }),
    {
        let ghost v = nodes_view(self.nodes@);
        let (a, ac, b, be) = self.visual_char_span();
        let mut block: Vec<Node> = Vec::new();
        let n = self.nodes.len();
        let mut k = a;
        while k <= b
            invariant
                a <= k <= b + 1,
                b < self.nodes@.len(),
                n == self.nodes@.len(),
                v == nodes_view(self.nodes@),
                block@.len() == k - a,
                forall|j: int| 0 <= j < k - a ==> #[trigger] block@[j]@ == v[a + j],
            decreases b + 1 - k,
        {
            block.push(self.nodes[k].duplicate());
            k = k + 1;
        }
        let ghost whole = nodes_view(block@);
        assert(whole =~= v.subrange(a as int, b + 1));
        if a == b {
            let t = super::substitute::slice_of(&self.nodes[a].text, ac, be);
            let depth = self.nodes[a].depth;
            block.set(0, Node { text: t, depth });
        } else {
            let last = b - a;
            let t_last = super::substitute::slice_of(&self.nodes[b].text, 0, be);
            assert(t_last@ =~= v[b as int].text.take(be as int));
            block.set(last, Node { text: t_last, depth: self.nodes[b].depth });
            let t_first = super::substitute::slice_of(&self.nodes[a].text, ac, self.nodes[a].text.len());
            assert(t_first@ =~= v[a as int].text.skip(ac as int));
            block.set(0, Node { text: t_first, depth: self.nodes[a].depth });
        }
        assert(nodes_view(block@) =~= span_block(v, a as int, ac as int, b as int, be as int));
        let r = normalize(block.as_slice());
        r
    }

    /// Takes a character selection out of the nodes; gives where the
    /// cursor goes.
    #[verifier::rlimit(60)]
    pub fn remove_char_span(&mut self) -> (r: (usize, usize))
        requires
            old(self).wf(),
        ensures
            ({
                let (a, ac, b, be) = old(self).char_span_spec();
                let (w, node, col) = span_removed(nodes_view(old(self).nodes@), a, ac, b, be);
                &&& nodes_view(final(self).nodes@) == w
                &&& r.0 as int == node
                &&& r.1 as int == col
            }),
            r.0 < final(self).nodes@.len(),
            r.1 <= final(self).nodes@[r.0 as int].text@.len(),
            final(self).nodes@.len() >= 1,
            *final(self) == (App { nodes: final(self).nodes, ..*old(self) }),
    {
        let ghost v = nodes_view(self.nodes@);
        let (a, ac, b, be) = self.visual_char_span();
        let mut nodes = App::copy_nodes(&self.nodes);
        if a == b {
            let t = &nodes[a].text;
            let mut head = super::substitute::slice_of(t, 0, ac);
            let mut tail = super::substitute::slice_of(t, be, t.len());
            head.append(&mut tail);
            let depth = nodes[a].depth;
            nodes.set(a, Node { text: head, depth });
            assert(nodes_view(nodes@) =~= v.update(a as int, nv(v[a as int].text.take(ac as int) + v[a as int].text.skip(be as int), v[a as int].depth)));
            self.nodes = nodes;
            return (a, ac);
        }
        let lo_full = ac == 0;
        let hi_full = be == nodes[b].text.len();
        if !hi_full {
            let t = super::substitute::slice_of(&nodes[b].text, be, nodes[b].text.len());
            let depth = nodes[b].depth;
            nodes.set(b, Node { text: t, depth });
        }
        let ghost w1 = nodes_view(nodes@);
        assert(w1 =~= if hi_full { v } else { v.update(b as int, nv(v[b as int].text.skip(be as int), v[b as int].depth)) });
        if !lo_full {
            let t = super::substitute::slice_of(&nodes[a].text, 0, ac);
            let depth = nodes[a].depth;
            nodes.set(a, Node { text: t, depth });
        }
        let ghost w2 = nodes_view(nodes@);
        assert(w2 =~= if lo_full { w1 } else { w1.update(a as int, nv(v[a as int].text.take(ac as int), v[a as int].depth)) });
        let nlen = self.nodes.len();
        let nlen = nodes.len();
        let ds = if lo_full { a } else { a + 1 };
        let de = if hi_full { b + 1 } else { b };
        if ds < de {
            let _cut = take_span(&mut nodes, ds, de);
        }
        let ghost w3 = nodes_view(nodes@);
        assert(w3 =~= if ds < de { w2.subrange(0, ds as int) + w2.subrange(de as int, w2.len() as int) } else { w2 });
        if nodes.len() == 0 {
            nodes.push(Node::empty(0));
            assert(nodes_view(nodes@) =~= seq![nv(Seq::empty(), 0)]);
        }
        let ghost w4 = nodes_view(nodes@);
        proof {
            lemma_repaired(w4);
        }
        repair_nodes(&mut nodes);
        let len = nodes.len();
        self.nodes = nodes;
        if lo_full {
            let node = if ds < len { ds } else { len - 1 };
            (node, 0)
        } else {
            proof {
                assert(self.nodes@[a as int].text@ == nodes_view(self.nodes@)[a as int].text);
            }
            (a, ac)
        }
    }

    /// Records the selection by lines as the last selection, for `'<,'>`.
    pub fn leave_visual(&mut self, range: (usize, usize))
        ensures
            visual_left(*old(self), *final(self), range),
    {
        self.last_visual_range = Some(range);
    }

    /// `y` in Visual mode: the selection goes to the register of the view,
    /// and the cursor to its start.
    pub fn visual_yank(&mut self)
        requires
            old(self).wf(),
        ensures
            final(self).wf(),
            visual_yanked(*old(self), *final(self)),
    {
        let range = self.visual_line_range();
        match self.visual_kind {
            VisualKind::Line => {
                let (lo, hi) = range;
                self.to_first_line(lo);
                assert(hi < self.nodes.len());
                let ghost s = *self;
                self.yank(hi - lo + 1);
                let ghost m = *self;
                self.leave_visual(range);
                self.mode = Mode::Normal;
                assert(s == at_first_line(*old(self)));
                assert(yanked(at_first_line(*old(self)), m, line_count_of(*old(self))));
            },
            VisualKind::Char => {
                let cut = self.visual_char_register();
                let (a, ac, _, _) = self.visual_char_span();
                if self.source_mode {
                    self.source_register = cut;
                } else {
                    self.register = cut;
                }
                self.cursor = a;
                self.cursor_col = ac;
                self.leave_visual(range);
                self.mode = Mode::Normal;
            },
        }
    }

    /// The cursor to the first node of a selection by lines, its column
    /// kept within that node.
    fn to_first_line(&mut self, lo: usize)
        requires
            old(self).wf(),
            lo as int == old(self).line_range_spec().0,
        ensures
            final(self).wf(),
            *final(self) == at_first_line(*old(self)),
    {
        self.cursor = lo;
        if self.cursor_col > self.nodes[lo].text.len() {
            self.cursor_col = self.nodes[lo].text.len();
        }
    }

    /// `d` and `x` in Visual mode: the selection goes to the register of
    /// the view and out of the nodes.
    pub fn visual_delete(&mut self)
        requires
            old(self).wf(),
        ensures
            final(self).wf(),
            visual_deleted(*old(self), *final(self)),
    {
        let range = self.visual_line_range();
        match self.visual_kind {
            VisualKind::Line => {
                let (lo, hi) = range;
                self.to_first_line(lo);
                assert(hi < self.nodes.len());
                self.begin_edit();
                let ghost m = *self;
                self.delete_node(hi - lo + 1, true);
                let ghost m2 = *self;
                self.leave_visual(range);
                self.mode = Mode::Normal;
                assert(edit_began(at_first_line(*old(self)), m) && nodes_deleted(m, m2, line_count_of(*old(self)), true));
            },
            VisualKind::Char => {
                self.take_char_selection();
                let ghost m = *self;
                self.leave_visual(range);
                self.mode = Mode::Normal;
                assert(char_selection_taken(*old(self), m));
            },
        }
    }

    /// The character selection to the register of the view and out of
    /// the nodes, as one step of undo.
    fn take_char_selection(&mut self)
        requires
            old(self).wf(),
        ensures
            final(self).wf(),
            char_selection_taken(*old(self), *final(self)),
    {
        let cut = self.visual_char_register();
        self.begin_edit();
        let ghost m = *self;
        let (node, col) = self.remove_char_span();
        if self.source_mode {
            self.source_register = cut;
        } else {
            self.register = cut;
        }
        self.cursor = node;
        self.cursor_col = col;
        self.record();
        assert(edit_began(*old(self), m) && recorded(m, *self));
    }

    /// `c` in Visual mode: as `d`, then Insert mode; by lines, an empty
    /// node takes the place of the selection.
    pub fn visual_change(&mut self)
        requires
            old(self).wf(),
        ensures
            final(self).wf(),
            visual_changed(*old(self), *final(self)),
    {
        let range = self.visual_line_range();
        match self.visual_kind {
            VisualKind::Line => {
                let (lo, hi) = range;
                self.to_first_line(lo);
                assert(hi < self.nodes.len());
                self.begin_edit();
                let ghost m = *self;
                self.delete_node(hi - lo + 1, true);
                let ghost m2 = *self;
                self.open_above();
                let ghost m3 = *self;
                self.leave_visual(range);
                self.mode = Mode::Insert;
                assert(edit_began(at_first_line(*old(self)), m) && nodes_deleted(m, m2, line_count_of(*old(self)), true)
                    && opened_above(m2, m3));
            },
            VisualKind::Char => {
                self.take_char_selection();
                let ghost m = *self;
                self.leave_visual(range);
                self.mode = Mode::Insert;
                assert(char_selection_taken(*old(self), m));
            },
        }
    }

    /// `>` and `<` in Visual mode by lines: each subtree whose root is
    /// selected moves one level, once, its descendants with it.
    pub fn visual_indent(&mut self, increase: bool)
        requires
            old(self).wf(),
        ensures
            final(self).wf(),
            visual_indented(*old(self), *final(self), increase),
    {
        let range = self.visual_line_range();
        if self.visual_kind != VisualKind::Line {
            self.leave_visual(range);
            self.mode = Mode::Normal;
            return;
        }
        let (lo, hi) = range;
        let n = self.nodes.len();
        self.begin_edit();
        let ghost m = *self;
        let ghost src = self.source_mode;
        let ghost goal = lines_shifted(nodes_view(old(self).nodes@), lo as int, hi as int, src, increase);
        let mut i = lo;
        while i <= hi
            invariant
                self.wf(),
                lo <= i,
                hi < n == self.nodes@.len(),
                self.mode == old(self).mode,
                self.visual_kind == old(self).visual_kind,
                self.source_mode == src,
                lines_shifted(nodes_view(self.nodes@), i as int, hi as int, src, increase) == goal,
                forall|x: App| #[trigger]
                    roots_shifted(*self, x, i as int, hi as int, increase) ==> roots_shifted(m, x, lo as int, hi as int, increase),
            decreases n - i,
        {
            let ghost v = nodes_view(self.nodes@);
            let ghost before = *self;
            self.cursor = i;
            if self.cursor_col > self.nodes[i].text.len() {
                self.cursor_col = self.nodes[i].text.len();
            }
            assert(*self == at_node(before, i as int));
            let end = self.subtree_end(i);
            if increase {
                self.indent_subtree();
                assert(nodes_view(self.nodes@) == indent_step(v, i as int, src));
            } else {
                self.unindent_subtree();
                assert(nodes_view(self.nodes@) == unindent_step(v, i as int, src));
            }
            let ghost after = *self;
            let next = if end > i + 1 { end } else { i + 1 };
            assert(subtree_end_spec(nodes_view(before.nodes@), i as int) == end);
            assert forall|x: App| #[trigger] roots_shifted(after, x, next as int, hi as int, increase) implies roots_shifted(
                m,
                x,
                lo as int,
                hi as int,
                increase,
            ) by {
                assert(root_shifted(before, after, i as int, increase));
                assert(roots_shifted(before, x, i as int, hi as int, increase));
            }
            i = next;
        }
        assert(roots_shifted(*self, *self, i as int, hi as int, increase));
        let ghost m2 = *self;
        self.leave_visual(range);
        self.mode = Mode::Normal;
        assert(edit_began(*old(self), m) && roots_shifted(m, m2, lo as int, hi as int, increase));
    }
}

} // verus!
