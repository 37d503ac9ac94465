//! Edits of the node list: typing, joining and splitting nodes, depths,
//! deleting, yanking and pasting.

use vstd::prelude::*;

use super::history_kept;
use super::others_kept;
use super::recorded;
use super::App;
use super::DEPTH_CAP;
use super::view::children_spec;
use crate::node::normalize;
use crate::node::normalized;
use crate::node::nodes_view;
use crate::node::nv;
use crate::node::Node;
use crate::node::NodeView;
use crate::node::lemma_min_depth;
use crate::text::decimal;
use crate::text::push_decimal;
use crate::text::push_str;

verus! {

/// No node is more than one level deeper than the node before it, and
/// the first node is at depth 0. A node that breaks this is dropped by
/// the printer, which only follows direct children.
pub open spec fn depth_valid(s: Seq<NodeView>) -> bool {
    forall|i: int|
        0 <= i < s.len() ==> #[trigger] s[i].depth <= (if i == 0 {
            0
        } else {
            s[i - 1].depth + 1
        })
}

/// The nodes with every depth cut down to one more than the depth of the
/// node before it (0 for the first).
pub open spec fn repaired(s: Seq<NodeView>) -> Seq<NodeView>
    decreases s.len(),
{
    if s.len() == 0 {
        s
    } else {
        let p = repaired(s.drop_last());
        let limit: nat = if s.len() == 1 {
            0
        } else {
            p.last().depth + 1
        };
        p.push(nv(s.last().text, if s.last().depth <= limit { s.last().depth } else { limit }))
    }
}

/// The first position after the nodes deeper than `d`, scanning from `i`.
pub open spec fn end_scan(v: Seq<NodeView>, d: nat, i: int) -> int
    decreases v.len() - i,
{
    if i >= v.len() || v[i].depth <= d {
        i
    } else {
        end_scan(v, d, i + 1)
    }
}

/// The position just after the subtree of `index`: the first later node
/// that is not deeper than it, or the end.
pub open spec fn subtree_end_spec(v: Seq<NodeView>, index: int) -> int {
    end_scan(v, v[index].depth, index + 1)
}

/// Where a count of nodes starting at `at` ends, the end of the list at
/// most.
pub open spec fn span_end(len: int, at: int, count: int) -> int {
    if count <= len - at {
        at + count
    } else {
        len
    }
}

/// The nodes without those in `[at, end)`; one empty node when nothing is
/// left.
pub open spec fn cut_out(v: Seq<NodeView>, at: int, end: int) -> Seq<NodeView> {
    let r = v.subrange(0, at) + v.subrange(end, v.len() as int);
    if r.len() == 0 {
        seq![nv(Seq::empty(), 0)]
    } else {
        r
    }
}

/// `count` copies of the block, each node moved down by `depth`.
pub open spec fn pasted_block(block: Seq<NodeView>, depth: nat, count: nat) -> Seq<NodeView>
    decreases count,
{
    if count == 0 {
        Seq::empty()
    } else {
        pasted_block(block, depth, (count - 1) as nat) + Seq::new(
            block.len(),
            |i: int| nv(block[i].text, block[i].depth + depth),
        )
    }
}

/// Every node of the block, `depth` levels deeper, still has a depth a
/// `usize` holds, for the first `k` nodes.
pub open spec fn depths_fit(block: Seq<NodeView>, depth: nat, k: int) -> bool {
    forall|i: int| 0 <= i < k ==> #[trigger] block[i].depth + depth <= DEPTH_CAP
}

/// `count` copies of the block fit in the list, every depth and the
/// length within `usize`.
pub open spec fn paste_fits(block: Seq<NodeView>, depth: nat, count: nat, len: nat) -> bool {
    &&& depths_fit(block, depth, block.len() as int)
    &&& count * block.len() + len <= usize::MAX
}

/// The message that reports a yank.
pub open spec fn yanked_message(count: nat) -> Seq<char> {
    "yanked "@ + decimal(count) + " node(s)"@
}

/// What `repaired` does: it keeps the texts and the length, never makes a
/// node deeper, gives nodes that are valid, and leaves valid nodes as they
/// are.
pub proof fn lemma_repaired(s: Seq<NodeView>)
    ensures
        repaired(s).len() == s.len(),
        forall|i: int| 0 <= i < s.len() ==> #[trigger] repaired(s)[i].text == s[i].text,
        forall|i: int| 0 <= i < s.len() ==> #[trigger] repaired(s)[i].depth <= s[i].depth,
        depth_valid(repaired(s)),
        depth_valid(s) ==> repaired(s) == s,
    decreases s.len(),
{
    if s.len() > 0 {
        let t = s.drop_last();
        lemma_repaired(t);
        let r = repaired(s);
        assert forall|i: int| 0 <= i < t.len() implies r[i] == repaired(t)[i] by {}
        if depth_valid(s) {
            assert forall|i: int| 0 <= i < t.len() implies #[trigger] t[i].depth <= (if i == 0 {
                0
            } else {
                t[i - 1].depth + 1
            }) by {
                assert(s[i] == t[i]);
            }
            assert(repaired(t) == t);
            assert(r =~= s);
        }
    }
}

/// Repairing twice is repairing once.
pub proof fn lemma_repair_idempotent(s: Seq<NodeView>)
    ensures
        repaired(repaired(s)) == repaired(s),
{
    lemma_repaired(s);
    lemma_repaired(repaired(s));
}

/// The subtree of `index` ends after it, at the list's end at most, and
/// holds only nodes deeper than `index`.
pub proof fn lemma_end_scan(v: Seq<NodeView>, d: nat, i: int)
    requires
        0 <= i <= v.len(),
    ensures
        i <= end_scan(v, d, i) <= v.len(),
        forall|k: int| i <= k < end_scan(v, d, i) ==> #[trigger] v[k].depth > d,
        end_scan(v, d, i) < v.len() ==> v[end_scan(v, d, i)].depth <= d,
    decreases v.len() - i,
{
    if i < v.len() && v[i].depth > d {
        lemma_end_scan(v, d, i + 1);
    }
}

/// The depths of a normalized block are no deeper than the block's.
pub proof fn lemma_normalized_depths(s: Seq<NodeView>)
    ensures
        normalized(s).len() == s.len(),
        forall|i: int| 0 <= i < s.len() ==> #[trigger] normalized(s)[i].depth <= s[i].depth,
        forall|i: int| 0 <= i < s.len() ==> #[trigger] normalized(s)[i].text == s[i].text,
{
    lemma_min_depth(s);
}

/// Sets every depth to at most one more than the depth before it.
pub fn repair_nodes(nodes: &mut Vec<Node>)
    ensures
        nodes_view(final(nodes)@) == repaired(nodes_view(old(nodes)@)),
        final(nodes)@.len() == old(nodes)@.len(),
{
    let ghost v = nodes_view(nodes@);
    let n = nodes.len();
    let mut i: usize = 0;
    assert(v.take(0) =~= Seq::<NodeView>::empty());
    assert(nodes_view(nodes@).take(0) =~= Seq::<NodeView>::empty());
    while i < n
        invariant
            i <= n,
            n == nodes@.len(),
            v.len() == n,
            nodes_view(nodes@).take(i as int) == repaired(v.take(i as int)),
            forall|j: int| i <= j < n ==> #[trigger] nodes@[j]@ == v[j],
        decreases n - i,
    {
        let ghost before = nodes_view(nodes@);
        if i == 0 {
            if nodes[i].depth > 0 {
                nodes[i].depth = 0;
            }
        } else {
            let previous = nodes[i - 1].depth;
            if nodes[i].depth > previous && nodes[i].depth - previous > 1 {
                nodes[i].depth = previous + 1;
            }
        }
        proof {
            let t = v.take(i as int + 1);
            assert(t.drop_last() =~= v.take(i as int));
            assert(t.last() == v[i as int]);
            let p = repaired(v.take(i as int));
            assert(p =~= before.take(i as int));
            if i > 0 {
                assert(p.last() == before[i - 1]);
            }
            assert(before[i as int] == v[i as int]);
            let after = nodes_view(nodes@);
            assert(after[i as int].text == v[i as int].text);
            assert(after.take(i as int) =~= p);
            assert(repaired(t) == p.push(after[i as int]));
            assert(after.take(i as int + 1) =~= p.push(after[i as int]));
        }
        i = i + 1;
    }
    assert(nodes_view(nodes@).take(n as int) =~= nodes_view(nodes@));
    assert(v.take(n as int) =~= v);
}


/// The nodes after `count` of them are deleted at `at`, with the children
/// of deleted nodes moved up.
pub open spec fn after_delete(v: Seq<NodeView>, at: int, count: int) -> Seq<NodeView> {
    repaired(cut_out(v, at, span_end(v.len() as int, at, count)))
}

/// Node `i` with the text of node `i + 1` appended, and node `i + 1` gone.
pub open spec fn joined_next(v: Seq<NodeView>, i: int) -> Seq<NodeView> {
    v.update(i, nv(v[i].text + v[i + 1].text, v[i].depth)).remove(i + 1)
}

/// The nodes in `[a, b)` moved `delta` levels deeper (shallower when
/// negative).
pub open spec fn shifted(v: Seq<NodeView>, a: int, b: int, delta: int) -> Seq<NodeView> {
    Seq::new(
        v.len(),
        |i: int|
            if a <= i < b {
                nv(v[i].text, (v[i].depth + delta) as nat)
            } else {
                v[i]
            },
    )
}

/// Moving a subtree one level deeper keeps its extent, so moving it back
/// up undoes the move.
pub proof fn lemma_shift_subtree_back(v: Seq<NodeView>, a: int)
    requires
        0 <= a < v.len(),
    ensures
        subtree_end_spec(shifted(v, a, subtree_end_spec(v, a), 1), a) == subtree_end_spec(v, a),
        shifted(shifted(v, a, subtree_end_spec(v, a), 1), a, subtree_end_spec(v, a), -1) == v,
{
    let b = subtree_end_spec(v, a);
    let d = v[a].depth;
    let w = shifted(v, a, b, 1);
    lemma_end_scan(v, d, a + 1);
    lemma_end_scan_same(v, w, d, a + 1, b);
    assert(shifted(w, a, b, -1) =~= v);
}

/// `>>` and then `<<` give back the nodes, the cursor and its column,
/// whenever `>>` moved the subtree: not in the source view, not on the
/// first node, not already one level below the node before. A node at
/// the largest depth a `usize` holds cannot move deeper, so the subtree
/// must have none there.
pub proof fn lemma_indent_then_unindent(s0: App, s1: App, s2: App)
    requires
        s0.wf(),
        !s0.source_mode,
        s0.cursor > 0,
        s0.nodes@[s0.cursor as int].depth <= s0.nodes@[s0.cursor - 1].depth,
        forall|k: int|
            s0.cursor <= k < subtree_end_spec(nodes_view(s0.nodes@), s0.cursor as int) ==> #[trigger] s0.nodes@[k].depth
                < usize::MAX,
        subtree_indented(s0, s1),
        subtree_unindented(s1, s2),
    ensures
        nodes_view(s2.nodes@) == nodes_view(s0.nodes@),
        s2.cursor == s0.cursor,
        s2.cursor_col == s0.cursor_col,
{
    let v = nodes_view(s0.nodes@);
    let cur = s0.cursor as int;
    lemma_end_scan(v, v[cur].depth, cur + 1);
    assert forall|k: int| cur <= k < subtree_end_spec(v, cur) implies #[trigger] v[k].depth < DEPTH_CAP by {
        assert(v[k] == s0.nodes@[k]@);
    }
    lemma_shift_subtree_back(v, cur);
}

/// Two lists that agree on being deeper than `d` up to `b`, and on the
/// node at `b`, end the scan at the same place.
proof fn lemma_end_scan_same(v: Seq<NodeView>, w: Seq<NodeView>, d: nat, i: int, b: int)
    requires
        0 <= i <= b <= v.len(),
        w.len() == v.len(),
        end_scan(v, d, i) == b,
        forall|k: int| i <= k < b ==> #[trigger] w[k].depth > d + 1,
        b < v.len() ==> w[b].depth <= d + 1,
    ensures
        end_scan(w, d + 1, i) == b,
    decreases b - i,
{
    if i < b {
        lemma_end_scan_same(v, w, d, i + 1, b);
    }
}


/// The nodes, cursor and column after typing `c`.
pub open spec fn insert_step(v: Seq<NodeView>, cur: int, col: int, c: char) -> (Seq<NodeView>, int, int) {
    (v.update(cur, nv(v[cur].text.insert(col, c), v[cur].depth)), cur, col + 1)
}

/// Joining the two halves that `Enter` split gives back the node.
proof fn lemma_join_split(v: Seq<NodeView>, cur: int, col: int)
    requires
        0 <= cur < v.len(),
        0 <= col <= v[cur].text.len(),
    ensures
        joined_next(enter_step(v, cur, col).0, cur) == v,
{
    let w = enter_step(v, cur, col).0;
    let t = v[cur].text;
    assert(t.take(col) + t.skip(col) =~= t);
    assert(w[cur] == nv(t.take(col), v[cur].depth));
    assert(w[cur + 1] == nv(t.skip(col), v[cur].depth));
    let j = joined_next(w, cur);
    assert(j.len() == v.len());
    assert forall|i: int| 0 <= i < v.len() implies #[trigger] j[i] == v[i] by {
        if i < cur {
        } else if i == cur {
        } else {
            assert(j[i] == w[i + 1]);
        }
    }
    assert(j =~= v);
}

/// Taking out the empty second half that `Enter` made at the end of a
/// node gives back the nodes.
proof fn lemma_cut_split(v: Seq<NodeView>, cur: int)
    requires
        0 <= cur < v.len(),
    ensures
        cut_out(enter_step(v, cur, v[cur].text.len() as int).0, cur + 1, cur + 2) == v,
{
    let t = v[cur].text;
    let w = enter_step(v, cur, t.len() as int).0;
    assert(t.take(t.len() as int) =~= t);
    let r = w.subrange(0, cur + 1) + w.subrange(cur + 2, w.len() as int);
    assert forall|i: int| 0 <= i < v.len() implies #[trigger] r[i] == v[i] by {
        if i <= cur {
        } else {
            assert(r[i] == w[i + 1]);
        }
    }
    assert(r =~= v);
}

/// `Enter` splits a node in two; Backspace at the start of the second
/// half joins them again, so that the nodes, the cursor and its column
/// are those before `Enter` (the second half, when empty, is deleted).
pub proof fn lemma_enter_then_backspace(v: Seq<NodeView>, cur: int, col: int)
    requires
        depth_valid(v),
        0 <= cur < v.len(),
        0 <= col <= v[cur].text.len(),
    ensures
        ({
            let (w, c, k) = enter_step(v, cur, col);
            &&& c == cur + 1 && k == 0
            &&& w[c].text.len() == 0 ==> after_delete(w, c, 1) == v && v[c - 1].text.len() == col
            &&& w[c].text.len() > 0 ==> repaired(joined_next(w, c - 1)) == v && w[c - 1].text.len() == col
        }),
{
    let w = enter_step(v, cur, col).0;
    lemma_repaired(v);
    if w[cur + 1].text.len() == 0 {
        assert(col == v[cur].text.len());
        lemma_cut_split(v, cur);
        assert(span_end(w.len() as int, cur + 1, 1) == cur + 2);
    } else {
        lemma_join_split(v, cur, col);
    }
}

/// Delete at the end of the first half of a node that `Enter` split joins
/// the halves again: the nodes are those before `Enter`.
pub proof fn lemma_enter_then_join(v: Seq<NodeView>, cur: int, col: int)
    requires
        depth_valid(v),
        0 <= cur < v.len(),
        0 <= col <= v[cur].text.len(),
    ensures
        repaired(joined_next(enter_step(v, cur, col).0, cur)) == v,
{
    lemma_join_split(v, cur, col);
    lemma_repaired(v);
}

/// The nodes, cursor and column after `Enter`.
pub open spec fn enter_step(v: Seq<NodeView>, cur: int, col: int) -> (Seq<NodeView>, int, int) {
    (
        v.update(cur, nv(v[cur].text.take(col), v[cur].depth)).insert(
            cur + 1,
            nv(v[cur].text.skip(col), v[cur].depth),
        ),
        cur + 1,
        0,
    )
}

/// The nodes, cursor and column after text is pasted in Insert mode: a
/// line break splits the node as `Enter` does, a carriage return is
/// dropped, anything else is typed.
pub open spec fn typed(v: Seq<NodeView>, cur: int, col: int, s: Seq<char>) -> (Seq<NodeView>, int, int)
    decreases s.len(),
{
    if s.len() == 0 {
        (v, cur, col)
    } else {
        let p = typed(v, cur, col, s.drop_last());
        let c = s.last();
        if c == '\r' {
            p
        } else if c == '\n' {
            enter_step(p.0, p.1, p.2)
        } else {
            insert_step(p.0, p.1, p.2, c)
        }
    }
}

/// Whether pasting the text changes anything: it holds more than carriage
/// returns.
pub open spec fn types_something(s: Seq<char>) -> bool {
    exists|i: int| 0 <= i < s.len() && #[trigger] s[i] != '\r'
}

/// `s1` is `s0` after text was typed in at the cursor, one character
/// after another.
pub open spec fn text_typed(s0: App, s1: App, text: Seq<char>) -> bool {
    &&& (nodes_view(s1.nodes@), s1.cursor as int, s1.cursor_col as int) == typed(
        nodes_view(s0.nodes@),
        s0.cursor as int,
        s0.cursor_col as int,
        text,
    )
    &&& types_something(text) ==> recorded(s0, s1)
    &&& !types_something(text) ==> s1 == s0
    &&& others_kept(s0, s1)
}

/// Recording twice in a row is recording once.
pub proof fn lemma_recorded_twice(a: App, b: App, c: App)
    requires
        recorded(a, b),
        recorded(b, c),
    ensures
        recorded(a, c),
{
}

/// Whether every node in `[a, b)` can go one level deeper.
pub fn can_deepen(nodes: &Vec<Node>, a: usize, b: usize) -> (r: bool)
    requires
        a <= b <= nodes@.len(),
    ensures
        r == (forall|k: int| a <= k < b ==> #[trigger] nodes_view(nodes@)[k].depth < DEPTH_CAP),
{
    let mut k = a;
    while k < b
        invariant
            a <= k <= b <= nodes@.len(),
            forall|j: int| a <= j < k ==> #[trigger] nodes_view(nodes@)[j].depth < DEPTH_CAP,
        decreases b - k,
    {
        if nodes[k].depth >= DEPTH_CAP {
            assert(nodes_view(nodes@)[k as int].depth >= DEPTH_CAP);
            return false;
        }
        k = k + 1;
    }
    true
}

/// Takes the nodes in `[at, end)` out of the list and gives them back.
pub fn take_span(nodes: &mut Vec<Node>, at: usize, end: usize) -> (cut: Vec<Node>)
    requires
        at <= end <= old(nodes)@.len(),
    ensures
        nodes_view(final(nodes)@) == nodes_view(old(nodes)@).subrange(0, at as int) + nodes_view(
            old(nodes)@,
        ).subrange(end as int, old(nodes)@.len() as int),
        final(nodes)@ == old(nodes)@.subrange(0, at as int) + old(nodes)@.subrange(
            end as int,
            old(nodes)@.len() as int,
        ),
        nodes_view(cut@) == nodes_view(old(nodes)@).subrange(at as int, end as int),
{
    let ghost v = nodes_view(nodes@);
    let mut cut = nodes.split_off(at);
    let mut tail = cut.split_off(end - at);
    nodes.append(&mut tail);
    assert(nodes_view(cut@) =~= v.subrange(at as int, end as int));
    assert(nodes_view(nodes@) =~= v.subrange(0, at as int) + v.subrange(end as int, v.len() as int));
    cut
}

/// `s1` is `s0` after `O` made a node above the cursor.
pub open spec fn opened_above(s0: App, s1: App) -> bool {
    &&& nodes_view(s1.nodes@) == nodes_view(s0.nodes@).insert(
                s0.cursor as int,
                nv(Seq::empty(), s0.nodes@[s0.cursor as int].depth as nat),
            )
    &&& s1.cursor == s0.cursor
    &&& s1.cursor_col == 0
    &&& recorded(s0, s1)
    &&& others_kept(s0, s1)
}

/// `s1` is `s0` after `count` nodes from the cursor are deleted, yanked
/// first when `yank` is set.
pub open spec fn nodes_deleted(s0: App, s1: App, count: usize, yank: bool) -> bool {
    &&& (({
                let v = nodes_view(s0.nodes@);
                let end = span_end(v.len() as int, s0.cursor as int, count as int);
                &&& nodes_view(s1.nodes@) == repaired(cut_out(v, s0.cursor as int, end))
                &&& yank && !s0.source_mode ==> nodes_view(s1.register@)
                    == normalized(v.subrange(s0.cursor as int, end))
                    && s1.source_register@ == s0.source_register@
                &&& yank && s0.source_mode ==> nodes_view(s1.source_register@)
                    == normalized(v.subrange(s0.cursor as int, end))
                    && s1.register@ == s0.register@
            }))
    &&& (!yank ==> s1.register@ == s0.register@
                && s1.source_register@ == s0.source_register@)
    &&& s1.cursor == (if s0.cursor < s1.nodes@.len() {
                s0.cursor as int
            } else {
                s1.nodes@.len() - 1
            })
    &&& s1.cursor_col == (if s0.cursor_col <= s1.cur_text().len() {
                s0.cursor_col as int
            } else {
                s1.cur_text().len() as int
            })
    &&& recorded(s0, s1)
    &&& s1 == (App {
        nodes: s1.nodes,
        cursor: s1.cursor,
        cursor_col: s1.cursor_col,
        register: s1.register,
        source_register: s1.source_register,
        modified: s1.modified,
        held: s1.held,
        undo: s1.undo,
        redo: s1.redo,
        ..s0
    })
}

/// `s1` is `s0` after the cursor's subtree moved one level deeper.
pub open spec fn subtree_indented(s0: App, s1: App) -> bool {
    &&& (({
                let v = nodes_view(s0.nodes@);
                let cur = s0.cursor as int;
                let end = subtree_end_spec(v, cur);
                if !s0.source_mode && cur > 0 && v[cur].depth < v[cur - 1].depth + 1
                    && (forall|k: int| cur <= k < end ==> #[trigger] v[k].depth < DEPTH_CAP) {
                    nodes_view(s1.nodes@) == shifted(v, cur, end, 1)
                        && recorded(s0, s1)
                } else {
                    s1 == s0
                }
            }))
    &&& s1.cursor == s0.cursor
    &&& s1.cursor_col == s0.cursor_col
    &&& s1.nodes@.len() == s0.nodes@.len()
    &&& others_kept(s0, s1)
}

/// `s1` is `s0` after the cursor's subtree moved one level up.
pub open spec fn subtree_unindented(s0: App, s1: App) -> bool {
    &&& ({
                let v = nodes_view(s0.nodes@);
                let cur = s0.cursor as int;
                if !s0.source_mode && v[cur].depth > 0 {
                    nodes_view(s1.nodes@) == shifted(v, cur, subtree_end_spec(v, cur), -1)
                        && recorded(s0, s1)
                } else {
                    s1 == s0
                }
            })
    &&& s1.cursor == s0.cursor
    &&& s1.cursor_col == s0.cursor_col
    &&& s1.nodes@.len() == s0.nodes@.len()
    &&& others_kept(s0, s1)
}

/// `s1` is `s0` after the cursor moved up a node.
pub open spec fn moved_up(s0: App, s1: App) -> bool {
    &&& s1.cursor == (if s0.cursor > 0 { s0.cursor - 1 } else { 0 })
    &&& s1.cursor_col == (if s0.cursor == 0 || s0.cursor_col
                <= s1.cur_text().len() {
                s0.cursor_col as int
            } else {
                s1.cur_text().len() as int
            })
    &&& s1.nodes@ == s0.nodes@
    &&& others_kept(s0, s1)
    &&& history_kept(s0, s1)
}

/// `s1` is `s0` after the cursor moved down a node.
pub open spec fn moved_down(s0: App, s1: App) -> bool {
    &&& s1.cursor == (if s0.cursor + 1 < s0.nodes@.len() {
                s0.cursor + 1
            } else {
                s0.cursor as int
            })
    &&& s1.cursor_col == (if s0.cursor + 1 >= s0.nodes@.len()
                || s0.cursor_col <= s1.cur_text().len() {
                s0.cursor_col as int
            } else {
                s1.cur_text().len() as int
            })
    &&& s1.nodes@ == s0.nodes@
    &&& others_kept(s0, s1)
    &&& history_kept(s0, s1)
}

/// `s1` is `s0` after the cursor moved left.
pub open spec fn moved_left(s0: App, s1: App) -> bool {
    &&& s1.cursor_col == (if s0.cursor_col > 0 {
                s0.cursor_col - 1
            } else {
                0
            })
    &&& s1.cursor == s0.cursor
    &&& s1.nodes@ == s0.nodes@
    &&& others_kept(s0, s1)
    &&& history_kept(s0, s1)
}

/// `s1` is `s0` after the cursor moved right.
pub open spec fn moved_right(s0: App, s1: App) -> bool {
    &&& s1.cursor_col == (if s0.cursor_col < s0.cur_text().len() {
                s0.cursor_col + 1
            } else {
                s0.cursor_col as int
            })
    &&& s1.cursor == s0.cursor
    &&& s1.nodes@ == s0.nodes@
    &&& others_kept(s0, s1)
    &&& history_kept(s0, s1)
}

/// `s1` is `s0` after `count` nodes from the cursor are yanked.
pub open spec fn yanked(s0: App, s1: App, count: usize) -> bool {
    &&& (({
                let v = nodes_view(s0.nodes@);
                let end = span_end(v.len() as int, s0.cursor as int, count as int);
                let cut = normalized(v.subrange(s0.cursor as int, end));
                &&& !s0.source_mode ==> nodes_view(s1.register@) == cut
                    && s1.source_register@ == s0.source_register@
                &&& s0.source_mode ==> nodes_view(s1.source_register@) == cut
                    && s1.register@ == s0.register@
                &&& s1.message@ == yanked_message((end - s0.cursor) as nat)
            }))
    &&& s1 == (App { register: s1.register, source_register: s1.source_register, message: s1.message, ..s0 })
}

/// Whether pasting no copies keeps the cursor on a node: the register of
/// the view is empty, or the place the paste goes is not past the last
/// node (an empty node without children that a paste replaces goes
/// away even then).
pub open spec fn empty_paste_fits(s0: App, before: bool) -> bool {
    let v = nodes_view(s0.nodes@);
    let cur = s0.cursor as int;
    let reg = if s0.source_mode {
        nodes_view(s0.source_register@)
    } else {
        nodes_view(s0.register@)
    };
    let replace = v[cur].text.len() == 0 && children_spec(v, cur).len() == 0;
    reg.len() == 0 || cur + 1 < v.len() || (before && !replace)
}

/// `s1` is `s0` after the register is pasted `count` times, before the
/// cursor's node or after it.
pub open spec fn pasted(s0: App, s1: App, before: bool, count: usize) -> bool {
    &&& (({
                let v = nodes_view(s0.nodes@);
                let cur = s0.cursor as int;
                let reg = if s0.source_mode {
                    nodes_view(s0.source_register@)
                } else {
                    nodes_view(s0.register@)
                };
                let depth = v[cur].depth;
                let replace = v[cur].text.len() == 0 && children_spec(v, cur).len() == 0;
                let at = if replace || before { cur } else { cur + 1 };
                let block = pasted_block(reg, depth, count as nat);
                let fits = paste_fits(reg, depth, count as nat, v.len());
                let joined = v.subrange(0, at) + block + v.subrange(at, v.len() as int);
                &&& reg.len() == 0 ==> s1 == (App { message: s1.message, ..s0 }) && s1.message@ == "nothing yanked"@
                &&& reg.len() > 0 && !fits ==> s1 == (App { message: s1.message, ..s0 }) && s1.message@
                    == "paste too large"@
                &&& reg.len() > 0 && fits ==> nodes_view(s1.nodes@) == (if replace {
                        joined.remove(at + block.len())
                    } else {
                        joined
                    }) && s1.cursor == at && s1.cursor_col == 0
                    && recorded(s0, s1) && s1 == (App {
                        nodes: s1.nodes,
                        cursor: s1.cursor,
                        cursor_col: s1.cursor_col,
                        modified: s1.modified,
                        held: s1.held,
                        undo: s1.undo,
                        redo: s1.redo,
                        ..s0
                    })
            }))
    &&& s1.mode == s0.mode
    &&& s1.source_mode == s0.source_mode
    &&& s1.register@ == s0.register@
    &&& s1.source_register@ == s0.source_register@
}

/// `s1` is `s0` after the character under the cursor is deleted.
pub open spec fn char_deleted(s0: App, s1: App, yank: bool) -> bool {
    &&& (({
                let v = nodes_view(s0.nodes@);
                let cur = s0.cursor as int;
                let col = s0.cursor_col as int;
                let t = s0.cur_text();
                &&& t.len() == 0 ==> nodes_deleted(s0, s1, 1, yank)
                &&& t.len() > 0 && col >= t.len() && cur + 1 >= v.len() ==> s1 == s0
                &&& t.len() > 0 && col >= t.len() && cur + 1 < v.len() ==> nodes_view(s1.nodes@)
                    == repaired(joined_next(v, cur)) && s1.cursor == cur && s1.cursor_col
                    == col && recorded(s0, s1) && others_kept(s0, s1)
                &&& col < t.len() ==> nodes_view(s1.nodes@) == v.update(cur, nv(t.remove(col), v[cur].depth))
                    && s1.cursor == cur && s1.cursor_col == col && recorded(s0, s1)
                    && others_kept(s0, s1)
            }))
    &&& s1.mode == s0.mode
    &&& s1.source_mode == s0.source_mode
    &&& s1.message@ == s0.message@
    &&& (!yank || s0.cur_text().len() > 0) ==> s1.register@ == s0.register@
        && s1.source_register@ == s0.source_register@
}

/// `s1` is `s0` after `Enter` split the cursor's node.
pub open spec fn entered(s0: App, s1: App) -> bool {
    &&& (nodes_view(s1.nodes@), s1.cursor as int, s1.cursor_col as int) == enter_step(
                nodes_view(s0.nodes@),
                s0.cursor as int,
                s0.cursor_col as int,
            )
    &&& recorded(s0, s1)
    &&& others_kept(s0, s1)
}

/// `s1` is `s0` after `c` is typed at the cursor.
pub open spec fn char_inserted(s0: App, s1: App, c: char) -> bool {
    &&& nodes_view(s1.nodes@) == nodes_view(s0.nodes@).update(
                s0.cursor as int,
                nv(
                    s0.cur_text().insert(s0.cursor_col as int, c),
                    s0.nodes@[s0.cursor as int].depth as nat,
                ),
            )
    &&& s1.cursor == s0.cursor
    &&& s1.cursor_col == s0.cursor_col + 1
    &&& recorded(s0, s1)
    &&& others_kept(s0, s1)
}

/// `s1` is `s0` after Backspace in Insert mode.
pub open spec fn backspaced(s0: App, s1: App) -> bool {
    &&& (({
                let v = nodes_view(s0.nodes@);
                let cur = s0.cursor as int;
                let col = s0.cursor_col as int;
                let t = s0.cur_text();
                &&& t.len() == 0 ==> nodes_view(s1.nodes@) == after_delete(v, cur, 1)
                    && s1.cursor == (if cur == 0 { 0 } else { cur - 1 })
                    && s1.cursor_col == (if cur == 0 { 0 } else { s1.cur_text().len() })
                    && recorded(s0, s1) && others_kept(s0, s1)
                &&& t.len() > 0 && col == 0 && cur == 0 ==> s1 == s0
                &&& t.len() > 0 && col == 0 && cur > 0 ==> nodes_view(s1.nodes@)
                    == repaired(joined_next(v, cur - 1)) && s1.cursor == cur - 1
                    && s1.cursor_col == v[cur - 1].text.len() && recorded(s0, s1)
                    && others_kept(s0, s1)
                &&& col > 0 ==> nodes_view(s1.nodes@) == v.update(cur, nv(t.remove(col - 1), v[cur].depth))
                    && s1.cursor == cur && s1.cursor_col == col - 1
                    && recorded(s0, s1) && others_kept(s0, s1)
            }))
    &&& s1.mode == s0.mode
    &&& s1.source_mode == s0.source_mode
    &&& s1.message@ == s0.message@
    &&& s1.register@ == s0.register@
    &&& s1.source_register@ == s0.source_register@
}

/// `s1` is `s0` after Tab in Insert mode moved the cursor's node deeper.
pub open spec fn indented(s0: App, s1: App) -> bool {
    &&& ({
                let v = nodes_view(s0.nodes@);
                let cur = s0.cursor as int;
                if !s0.source_mode && cur > 0 && v[cur].depth < v[cur - 1].depth + 1
                    && v[cur].depth < DEPTH_CAP {
                    nodes_view(s1.nodes@) == v.update(cur, nv(v[cur].text, v[cur].depth + 1))
                        && recorded(s0, s1)
                } else {
                    s1 == s0
                }
            })
    &&& s1.cursor == s0.cursor
    &&& s1.cursor_col == s0.cursor_col
    &&& others_kept(s0, s1)
}

/// `s1` is `s0` after Shift-Tab in Insert mode moved the cursor's node up.
pub open spec fn unindented(s0: App, s1: App) -> bool {
    &&& ({
                let v = nodes_view(s0.nodes@);
                let cur = s0.cursor as int;
                if !s0.source_mode && v[cur].depth > 0 {
                    nodes_view(s1.nodes@) == v.update(cur, nv(v[cur].text, (v[cur].depth - 1) as nat))
                        && recorded(s0, s1)
                } else {
                    s1 == s0
                }
            })
    &&& s1.cursor == s0.cursor
    &&& s1.cursor_col == s0.cursor_col
    &&& others_kept(s0, s1)
}

impl App {
    /// `O`: a new empty node above the cursor, at the cursor's depth.
    pub fn open_above(&mut self)
        requires
            old(self).wf(),
        ensures
            final(self).wf(),
            opened_above(*old(self), *final(self)),
    {
        let depth = self.nodes[self.cursor].depth;
        self.nodes.insert(self.cursor, Node::empty(depth));
        self.cursor_col = 0;
        assert(nodes_view(self.nodes@) =~= nodes_view(old(self).nodes@).insert(
            old(self).cursor as int,
            nv(Seq::empty(), depth as nat),
        ));
        self.record();
    }

    /// Typing a character: it goes in at the cursor, which moves past it.
    pub fn insert_char(&mut self, c: char)
        requires
            old(self).wf(),
        ensures
            final(self).wf(),
            char_inserted(*old(self), *final(self), c),
    {
        let cur = self.cursor;
        let col = self.cursor_col;
        self.nodes[cur].text.insert(col, c);
        let len = self.nodes[cur].text.len();
        assert(len == old(self).cur_text().len() + 1);
        self.cursor_col = col + 1;
        assert(nodes_view(self.nodes@) =~= nodes_view(old(self).nodes@).update(
            cur as int,
            nv(old(self).cur_text().insert(col as int, c), old(self).nodes@[cur as int].depth as nat),
        ));
        self.record();
    }

    /// `Enter`: the text after the cursor moves to a new node below, at
    /// the same depth, and the cursor goes to its start.
    pub fn enter(&mut self)
        requires
            old(self).wf(),
        ensures
            final(self).wf(),
            entered(*old(self), *final(self)),
    {
        let cur = self.cursor;
        let n = self.nodes.len();
        let depth = self.nodes[cur].depth;
        let col = self.cursor_col;
        let rest = self.nodes[cur].text.split_off(col);
        self.nodes.insert(cur + 1, Node { text: rest, depth });
        self.cursor = cur + 1;
        self.cursor_col = 0;
        assert(nodes_view(self.nodes@) =~= nodes_view(old(self).nodes@).update(
            cur as int,
            nv(old(self).cur_text().take(col as int), depth as nat),
        ).insert(cur + 1, nv(old(self).cur_text().skip(col as int), depth as nat)));
        self.record();
    }

    /// Deletes `count` nodes from the cursor, into the register when
    /// `yank` is set; the children of deleted nodes move up.
    #[verifier::rlimit(40)]
    pub fn delete_node(&mut self, count: usize, yank: bool)
        requires
            old(self).wf(),
        ensures
            final(self).wf(),
            nodes_deleted(*old(self), *final(self), count, yank),
    {
        let ghost v = nodes_view(self.nodes@);
        let n = self.nodes.len();
        let cur = self.cursor;
        let end = if count <= n - cur {
            cur + count
        } else {
            n
        };
        let cut = take_span(&mut self.nodes, cur, end);
        if yank {
            let r = normalize(cut.as_slice());
            if self.source_mode {
                self.source_register = r;
            } else {
                self.register = r;
            }
        }
        if self.nodes.len() == 0 {
            self.nodes.push(Node::empty(0));
            assert(nodes_view(self.nodes@) =~= seq![nv(Seq::empty(), 0)]);
        }
        assert(nodes_view(self.nodes@) == cut_out(v, cur as int, end as int));
        if self.cursor >= self.nodes.len() {
            self.cursor = self.nodes.len() - 1;
        }
        repair_nodes(&mut self.nodes);
        proof {
            lemma_repaired(cut_out(v, cur as int, end as int));
        }
        let len = self.nodes[self.cursor].text.len();
        if self.cursor_col > len {
            self.cursor_col = len;
        }
        self.record();
    }

    /// The text of the cursor's node.
    pub fn text(&self) -> (r: &Vec<char>)
        requires
            self.wf(),
        ensures
            r@ == self.cur_text(),
    {
        &self.nodes[self.cursor].text
    }

    /// Repairs the depths, keeping the rest.
    pub fn repair(&mut self)
        requires
            old(self).wf(),
        ensures
            final(self).wf(),
            nodes_view(final(self).nodes@) == repaired(nodes_view(old(self).nodes@)),
            final(self).cursor == old(self).cursor,
            final(self).cursor_col == old(self).cursor_col,
            others_kept(*old(self), *final(self)),
            history_kept(*old(self), *final(self)),
    {
        proof {
            lemma_repaired(nodes_view(self.nodes@));
        }
        repair_nodes(&mut self.nodes);
        assert(self.nodes@[self.cursor as int]@ == nodes_view(self.nodes@)[self.cursor as int]);
        assert(old(self).nodes@[self.cursor as int]@ == nodes_view(old(self).nodes@)[self.cursor as int]);
        assert(repaired(nodes_view(old(self).nodes@))[self.cursor as int].text == nodes_view(
            old(self).nodes@,
        )[self.cursor as int].text);
        assert(self.nodes@[self.cursor as int].text@ == old(self).nodes@[self.cursor as int].text@);
    }

    /// The position just after the subtree of `index`.
    pub fn subtree_end(&self, index: usize) -> (r: usize)
        requires
            index < self.nodes@.len(),
        ensures
            r == subtree_end_spec(nodes_view(self.nodes@), index as int),
            index < r <= self.nodes@.len(),
    {
        let ghost v = nodes_view(self.nodes@);
        let n = self.nodes.len();
        let depth = self.nodes[index].depth;
        let mut i = index + 1;
        proof {
            lemma_end_scan(v, depth as nat, index + 1);
        }
        while i < self.nodes.len() && self.nodes[i].depth > depth
            invariant
                index < i <= self.nodes@.len(),
                v == nodes_view(self.nodes@),
                depth == v[index as int].depth,
                end_scan(v, depth as nat, i as int) == subtree_end_spec(v, index as int),
            decreases self.nodes@.len() - i,
        {
            i = i + 1;
        }
        i
    }

    /// The number of nodes in the cursor's subtree.
    pub fn subtree_len(&self) -> (r: usize)
        requires
            self.wf(),
        ensures
            r == subtree_end_spec(nodes_view(self.nodes@), self.cursor as int) - self.cursor,
            r >= 1,
    {
        self.subtree_end(self.cursor) - self.cursor
    }

    /// `x` and `Delete`: deletes the character under the cursor. On an
    /// empty node the node goes, as with `dd`; at the end of a text the
    /// next node's text is pulled in. The register changes only when
    /// `yank` is set (`x` in Normal mode).
    #[verifier::rlimit(40)]
    pub fn delete_char(&mut self, yank: bool)
        requires
            old(self).wf(),
        ensures
            final(self).wf(),
            char_deleted(*old(self), *final(self), yank),
    {
        let cur = self.cursor;
        let col = self.cursor_col;
        let n = self.nodes.len();
        let len = self.nodes[cur].text.len();
        if len == 0 {
            self.delete_node(1, yank);
            return;
        }
        if col >= len {
            if cur + 1 >= n {
                return;
            }
            let mut next = self.nodes.remove(cur + 1);
            self.nodes[cur].text.append(&mut next.text);
            proof {
                let v = nodes_view(old(self).nodes@);
                assert(nodes_view(self.nodes@) =~= joined_next(v, cur as int));
            }
            self.repair();
            self.record();
            return;
        }
        self.nodes[cur].text.remove(col);
        proof {
            let v = nodes_view(old(self).nodes@);
            assert(nodes_view(self.nodes@) =~= v.update(
                cur as int,
                nv(old(self).cur_text().remove(col as int), v[cur as int].depth),
            ));
        }
        self.record();
    }

    /// `Backspace`: deletes the character before the cursor. On an empty
    /// node the node goes and the cursor moves to the end of the node
    /// before; at the start of a text it joins the node before, undoing an
    /// `Enter`. The register never changes.
    #[verifier::rlimit(40)]
    pub fn backspace(&mut self)
        requires
            old(self).wf(),
        ensures
            final(self).wf(),
            backspaced(*old(self), *final(self)),
    {
        let cur = self.cursor;
        let col = self.cursor_col;
        let len = self.nodes[cur].text.len();
        if len == 0 {
            if cur == 0 {
                self.delete_node(1, false);
                self.cursor_col = 0;
                return;
            }
            let previous = cur - 1;
            self.delete_node(1, false);
            proof {
                lemma_repaired(cut_out(nodes_view(old(self).nodes@), cur as int, cur + 1));
            }
            self.cursor = previous;
            self.cursor_col = self.nodes[previous].text.len();
            return;
        }
        if col == 0 {
            if cur == 0 {
                return;
            }
            let join_at = self.nodes[cur - 1].text.len();
            let mut this = self.nodes.remove(cur);
            self.nodes[cur - 1].text.append(&mut this.text);
            self.cursor = cur - 1;
            self.cursor_col = join_at;
            proof {
                let v = nodes_view(old(self).nodes@);
                assert(nodes_view(self.nodes@) =~= joined_next(v, cur - 1));
            }
            self.repair();
            self.record();
            return;
        }
        self.nodes[cur].text.remove(col - 1);
        self.cursor_col = col - 1;
        proof {
            let v = nodes_view(old(self).nodes@);
            assert(nodes_view(self.nodes@) =~= v.update(
                cur as int,
                nv(old(self).cur_text().remove(col - 1), v[cur as int].depth),
            ));
        }
        self.record();
    }

    /// `>` on one node: one level deeper, as deep as one below the node
    /// before at most. The first node and the source view never move.
    pub fn indent(&mut self)
        requires
            old(self).wf(),
        ensures
            final(self).wf(),
            indented(*old(self), *final(self)),
    {
        let cur = self.cursor;
        if self.source_mode || cur == 0 {
            return;
        }
        let previous_depth = self.nodes[cur - 1].depth;
        let current_depth = self.nodes[cur].depth;
        if current_depth <= previous_depth && current_depth < DEPTH_CAP {
            self.nodes[cur].depth = current_depth + 1;
            assert(nodes_view(self.nodes@) =~= nodes_view(old(self).nodes@).update(
                cur as int,
                nv(old(self).cur_text(), (current_depth + 1) as nat),
            ));
            self.record();
        }
    }

    /// `<` on one node: one level shallower. The source view never moves.
    pub fn unindent(&mut self)
        requires
            old(self).wf(),
        ensures
            final(self).wf(),
            unindented(*old(self), *final(self)),
    {
        let cur = self.cursor;
        let depth = self.nodes[cur].depth;
        if !self.source_mode && depth > 0 {
            self.nodes[cur].depth = depth - 1;
            assert(nodes_view(self.nodes@) =~= nodes_view(old(self).nodes@).update(
                cur as int,
                nv(old(self).cur_text(), (depth - 1) as nat),
            ));
            self.record();
        }
    }

    /// Moves the nodes in `[a, b)` by one level, deeper or shallower.
    fn shift_nodes(&mut self, a: usize, b: usize, deeper: bool)
        requires
            old(self).wf(),
            a <= b <= old(self).nodes@.len(),
            forall|k: int| a <= k < b ==> deeper ==> #[trigger] old(self).nodes@[k].depth < DEPTH_CAP,
            forall|k: int| a <= k < b ==> !deeper ==> #[trigger] old(self).nodes@[k].depth > 0,
        ensures
            final(self).wf(),
            nodes_view(final(self).nodes@) == shifted(
                nodes_view(old(self).nodes@),
                a as int,
                b as int,
                if deeper { 1 } else { -1 },
            ),
            final(self).cursor == old(self).cursor,
            final(self).cursor_col == old(self).cursor_col,
            final(self).nodes@.len() == old(self).nodes@.len(),
            others_kept(*old(self), *final(self)),
            history_kept(*old(self), *final(self)),
    {
        let ghost v = nodes_view(self.nodes@);
        let ghost delta: int = if deeper { 1 } else { -1 };
        let mut k = a;
        while k < b
            invariant
                a <= k <= b <= self.nodes@.len(),
                self.nodes@.len() == v.len(),
                forall|j: int| 0 <= j < v.len() ==> #[trigger] nodes_view(self.nodes@)[j] == (if a <= j < k {
                    nv(v[j].text, (v[j].depth + delta) as nat)
                } else {
                    v[j]
                }),
                forall|j: int| a <= j < b ==> deeper ==> #[trigger] v[j].depth < DEPTH_CAP,
                forall|j: int| a <= j < b ==> !deeper ==> #[trigger] v[j].depth > 0,
                v == nodes_view(old(self).nodes@),
                delta == (if deeper { 1int } else { -1int }),
                others_kept(*old(self), *self),
                history_kept(*old(self), *self),
                self.cursor == old(self).cursor,
                self.cursor_col == old(self).cursor_col,
                old(self).wf(),
            decreases b - k,
        {
            assert(nodes_view(self.nodes@)[k as int] == v[k as int]);
            let ghost before = nodes_view(self.nodes@);
            let depth = self.nodes[k].depth;
            assert(depth == v[k as int].depth);
            if deeper {
                self.nodes[k].depth = depth + 1;
            } else {
                self.nodes[k].depth = depth - 1;
            }
            assert forall|j: int| 0 <= j < v.len() implies #[trigger] nodes_view(self.nodes@)[j] == (if a
                <= j < k + 1 {
                nv(v[j].text, (v[j].depth + delta) as nat)
            } else {
                v[j]
            }) by {
                if j != k {
                    assert(nodes_view(self.nodes@)[j] == before[j]);
                }
            }
            k = k + 1;
        }
        assert(nodes_view(self.nodes@) =~= shifted(v, a as int, b as int, delta));
        assert(self.nodes@[self.cursor as int]@ == nodes_view(self.nodes@)[self.cursor as int]);
        assert(old(self).nodes@[self.cursor as int]@ == v[self.cursor as int]);
    }

    /// `>>` on a subtree: the node and its descendants one level deeper,
    /// under the same limit as `indent`.
    pub fn indent_subtree(&mut self)
        requires
            old(self).wf(),
        ensures
            final(self).wf(),
            subtree_indented(*old(self), *final(self)),
    {
        let cur = self.cursor;
        if self.source_mode || cur == 0 {
            return;
        }
        let previous_depth = self.nodes[cur - 1].depth;
        let current_depth = self.nodes[cur].depth;
        if current_depth > previous_depth {
            return;
        }
        let end = self.subtree_end(cur);
        if !can_deepen(&self.nodes, cur, end) {
            return;
        }
        assert forall|j: int| cur <= j < end implies #[trigger] self.nodes@[j].depth < DEPTH_CAP by {
            assert(nodes_view(self.nodes@)[j].depth < DEPTH_CAP);
        }
        self.shift_nodes(cur, end, true);
        self.record();
    }

    /// `<<` on a subtree: the node and its descendants one level
    /// shallower.
    pub fn unindent_subtree(&mut self)
        requires
            old(self).wf(),
        ensures
            final(self).wf(),
            subtree_unindented(*old(self), *final(self)),
    {
        let cur = self.cursor;
        if self.source_mode || self.nodes[cur].depth == 0 {
            return;
        }
        let end = self.subtree_end(cur);
        proof {
            let v = nodes_view(self.nodes@);
            lemma_end_scan(v, v[cur as int].depth, cur + 1);
            assert forall|j: int| cur <= j < end implies #[trigger] self.nodes@[j].depth > 0 by {
                assert(v[j].depth > 0);
            }
        }
        self.shift_nodes(cur, end, false);
        self.record();
    }

    /// `k`: the node above, keeping the column where the text allows.
    pub fn move_up(&mut self)
        requires
            old(self).wf(),
        ensures
            final(self).wf(),
            moved_up(*old(self), *final(self)),
    {
        if self.cursor == 0 {
            return;
        }
        self.cursor = self.cursor - 1;
        let len = self.nodes[self.cursor].text.len();
        if self.cursor_col > len {
            self.cursor_col = len;
        }
    }

    /// `j`: the node below, keeping the column where the text allows.
    pub fn move_down(&mut self)
        requires
            old(self).wf(),
        ensures
            final(self).wf(),
            moved_down(*old(self), *final(self)),
    {
        let n = self.nodes.len();
        if self.cursor + 1 >= n {
            return;
        }
        self.cursor = self.cursor + 1;
        let len = self.nodes[self.cursor].text.len();
        if self.cursor_col > len {
            self.cursor_col = len;
        }
    }

    /// `h`: one character left.
    pub fn move_left(&mut self)
        requires
            old(self).wf(),
        ensures
            final(self).wf(),
            moved_left(*old(self), *final(self)),
    {
        if self.cursor_col > 0 {
            self.cursor_col = self.cursor_col - 1;
        }
    }

    /// `l`: one character right, up to the end of the text.
    pub fn move_right(&mut self)
        requires
            old(self).wf(),
        ensures
            final(self).wf(),
            moved_right(*old(self), *final(self)),
    {
        let len = self.nodes[self.cursor].text.len();
        if self.cursor_col < len {
            self.cursor_col = self.cursor_col + 1;
        }
    }

    /// `yy` and the like: `count` nodes from the cursor go to the register
    /// of the current view, with depths taken from the shallowest of them.
    pub fn yank(&mut self, count: usize)
        requires
            old(self).wf(),
        ensures
            final(self).wf(),
            yanked(*old(self), *final(self), count),
    {
        let n = self.nodes.len();
        let cur = self.cursor;
        let end = if count <= n - cur {
            cur + count
        } else {
            n
        };
        let part = vstd::slice::slice_subrange(self.nodes.as_slice(), cur, end);
        assert(nodes_view(part@) =~= nodes_view(self.nodes@).subrange(cur as int, end as int));
        let cut = normalize(part);
        proof {
            lemma_normalized_depths(nodes_view(part@));
        }
        let length = cut.len();
        assert(length == end - cur);
        if self.source_mode {
            self.source_register = cut;
        } else {
            self.register = cut;
        }
        let mut message: Vec<char> = Vec::new();
        push_str(&mut message, "yanked ");
        push_decimal(&mut message, length);
        push_str(&mut message, " node(s)");
        self.message = message;
    }

    /// `p` and `P`: the register of the current view goes in `count`
    /// times, below the cursor (above for `P`), its shallowest nodes at
    /// the cursor's depth. An empty node without children is replaced
    /// rather than pushed down. A count of 0 pastes nothing but still moves
    /// the cursor and records a step; it is left out only where the cursor
    /// would then be past the last node.
    #[verifier::rlimit(60)]
    pub fn paste(&mut self, before: bool, count: usize)
        requires
            old(self).wf(),
            count >= 1 || empty_paste_fits(*old(self), before),
        ensures
            final(self).wf(),
            pasted(*old(self), *final(self), before, count),
    {
        let cur = self.cursor;
        let n = self.nodes.len();
        let ghost v = nodes_view(self.nodes@);
        let register = if self.source_mode {
            App::copy_nodes(&self.source_register)
        } else {
            App::copy_nodes(&self.register)
        };
        let ghost reg = nodes_view(register@);
        let rlen = register.len();
        if rlen == 0 {
            self.message = crate::text::chars_of("nothing yanked");
            assert(reg.len() == 0);
            assert(self.message@ == "nothing yanked"@);
            assert(self.nodes@ == old(self).nodes@);
            assert(history_kept(*old(self), *self));
            assert(self.cursor == cur);
            assert(old(self).source_mode ==> nodes_view(old(self).source_register@).len() == 0);
            assert(!old(self).source_mode ==> nodes_view(old(self).register@).len() == 0);
            return;
        }
        let depth = self.nodes[cur].depth;
        assert(v[cur as int].depth == depth);
        let mut fits = count <= (usize::MAX - n) / rlen;
        proof {
            assert(count * rlen <= usize::MAX - n <==> count <= (usize::MAX - n) as int / rlen as int) by (nonlinear_arith)
                requires rlen > 0, n <= usize::MAX;
        }
        let mut k: usize = 0;
        while k < rlen
            invariant
                k <= rlen == register@.len(),
                reg == nodes_view(register@),
                fits == ((count * rlen + n <= usize::MAX) && depths_fit(reg, depth as nat, k as int)),
                depth <= DEPTH_CAP,
            decreases rlen - k,
        {
            assert(reg[k as int].depth == register@[k as int].depth);
            if register[k].depth > DEPTH_CAP - depth {
                fits = false;
            }
            k = k + 1;
        }
        if !fits {
            self.message = crate::text::chars_of("paste too large");
            assert(self.message@ == "paste too large"@);
            assert(self.nodes@ == old(self).nodes@);
            assert(history_kept(*old(self), *self));
            assert(self.cursor == cur);
            assert(reg.len() > 0);
            return;
        }
        let replace = self.nodes[cur].text.len() == 0 && self.children(cur).len() == 0;
        let at = if replace || before {
            cur
        } else {
            cur + 1
        };
        let mut block: Vec<Node> = Vec::new();
        let mut c: usize = 0;
        while c < count
            invariant
                c <= count,
                nodes_view(block@) == pasted_block(reg, depth as nat, c as nat),
                block@.len() == c * rlen,
                count * rlen + n <= usize::MAX,
                reg == nodes_view(register@),
                rlen == register@.len(),
                depths_fit(reg, depth as nat, rlen as int),
            decreases count - c,
        {
            let ghost before_block = nodes_view(block@);
            let mut j: usize = 0;
            proof {
                assert(c * rlen + rlen <= count * rlen) by (nonlinear_arith)
                    requires c < count;
            }
            while j < rlen
                invariant
                    j <= rlen == register@.len(),
                    reg == nodes_view(register@),
                    nodes_view(block@) == before_block + Seq::new(j as nat, |i: int| nv(reg[i].text, reg[i].depth + depth as nat)),
                    block@.len() == c * rlen + j,
                    c * rlen + rlen <= count * rlen,
                    count * rlen + n <= usize::MAX,
                    depths_fit(reg, depth as nat, rlen as int),
                decreases rlen - j,
            {
                let ghost prev = nodes_view(block@);
                assert(reg[j as int] == register@[j as int]@);
                assert(reg[j as int].depth + depth <= DEPTH_CAP);
                let text = register[j].text.clone();
                assert(text@ =~= reg[j as int].text);
                let node = Node { text, depth: register[j].depth + depth };
                let ghost item = node@;
                assert(item == nv(reg[j as int].text, reg[j as int].depth + depth as nat));
                block.push(node);
                assert(nodes_view(block@) =~= prev.push(item));
                assert(nodes_view(block@) =~= before_block + Seq::new((j + 1) as nat, |i: int| nv(reg[i].text, reg[i].depth + depth as nat)));
                j = j + 1;
            }
            assert(nodes_view(block@) =~= pasted_block(reg, depth as nat, (c + 1) as nat));
            c = c + 1;
            assert(block@.len() == c * rlen) by (nonlinear_arith)
                requires block@.len() == (c - 1) * rlen + rlen;
        }
        let length = block.len();
        let mut tail = self.nodes.split_off(at);
        self.nodes.append(&mut block);
        self.nodes.append(&mut tail);
        proof {
            assert(nodes_view(self.nodes@) =~= v.subrange(0, at as int) + pasted_block(reg, depth as nat, count as nat)
                + v.subrange(at as int, v.len() as int));
        }
        let ghost joined = nodes_view(self.nodes@);
        if replace {
            self.nodes.remove(at + length);
            assert(nodes_view(self.nodes@) =~= joined.remove(at + length));
        }
        self.cursor = at;
        self.cursor_col = 0;
        self.record();
        assert(nodes_view(self.nodes@) == (if replace { joined.remove(at + length) } else { joined }));
    }

    /// Text pasted in Insert mode: each character typed in turn, a line
    /// break splitting the node and a carriage return dropped.
    pub fn paste_text(&mut self, text: &str)
        requires
            old(self).wf(),
        ensures
            final(self).wf(),
            text_typed(*old(self), *final(self), text@),
    {
        let ghost v = nodes_view(self.nodes@);
        let ghost cur = self.cursor as int;
        let ghost col = self.cursor_col as int;
        for c in it: text.chars()
            invariant
                it.seq() == text@,
                self.wf(),
                (nodes_view(self.nodes@), self.cursor as int, self.cursor_col as int) == typed(v, cur, col, text@.take(it.index() as int)),
                types_something(text@.take(it.index() as int)) ==> recorded(*old(self), *self),
                !types_something(text@.take(it.index() as int)) ==> *self == *old(self),
                others_kept(*old(self), *self),
                v == nodes_view(old(self).nodes@),
                cur == old(self).cursor,
                col == old(self).cursor_col,
        {
            let ghost s = text@.take(it.index() as int + 1);
            assert(s.drop_last() =~= text@.take(it.index() as int));
            let ghost mid = *self;
            if c == '\r' {
            } else if c == '\n' {
                self.enter();
            } else {
                self.insert_char(c);
            }
            proof {
                if c != '\r' {
                    assert(s[s.len() - 1] != '\r');
                    if types_something(text@.take(it.index() as int)) {
                        lemma_recorded_twice(*old(self), mid, *self);
                    }
                } else {
                    if types_something(s) {
                        let i = choose|i: int| 0 <= i < s.len() && #[trigger] s[i] != '\r';
                        assert(text@.take(it.index() as int)[i] != '\r');
                    }
                }
                assert(nodes_view(mid.nodes@)[mid.cursor as int].text == mid.cur_text());
            }
        }
        assert(text@.take(text@.len() as int) =~= text@);
    }
}

} // verus!
