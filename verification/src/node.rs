//! The editor's model of a program: a flat list of nodes, each a line of
//! text with a depth. A node's children are the deeper nodes that follow
//! it.

use vstd::prelude::*;

use crate::reader::data_view;
use crate::reader::Datum;
use crate::reader::SDatum;
use crate::text::chars_of;

verus! {

/// The width that the printer tries to keep lines within.
pub const WIDTH: usize = 80;

/// How the children of a form are laid out.
#[derive(Debug, Clone, Copy, PartialEq, Eq)]
pub enum Indent {
    /// The first n children stay on the head line; the rest go two
    /// columns further in, one per line.
    Body(usize),
    /// The children line up under the first child.
    Align,
}

/// A line of the tree: its text and how deep it sits.
#[derive(Debug, Clone)]
pub struct Node {
    pub text: Vec<char>,
    pub depth: usize,
}

/// The value of a node.
pub struct NodeView {
    pub text: Seq<char>,
    pub depth: nat,
}

impl View for Node {
    type V = NodeView;

    open spec fn view(&self) -> NodeView {
        NodeView { text: self.text@, depth: self.depth as nat }
    }
}

pub open spec fn nv(text: Seq<char>, depth: nat) -> NodeView {
    NodeView { text, depth }
}

/// The values of a sequence of nodes.
pub open spec fn nodes_view(nodes: Seq<Node>) -> Seq<NodeView> {
    Seq::new(nodes.len(), |i: int| nodes[i]@)
}

impl Node {
    /// A node with the same text and depth.
    pub fn duplicate(&self) -> (r: Node)
        ensures
            r@ == self@,
    {
        let text = self.text.clone();
        assert(text@ =~= self.text@);
        Node { text, depth: self.depth }
    }

    /// An empty node at the given depth.
    pub fn empty(depth: usize) -> (r: Node)
        ensures
            r@ == nv(Seq::empty(), depth as nat),
    {
        Node { text: Vec::new(), depth }
    }
}

/// The forms that always break their body onto new lines, even when they
/// would fit on one.
pub open spec fn spec_always_break(text: Seq<char>) -> bool {
    ||| text == "define"@
    ||| text == "lambda"@
    ||| text == "let"@
    ||| text == "let*"@
    ||| text == "letrec"@
    ||| text == "letrec*"@
    ||| text == "when"@
    ||| text == "unless"@
    ||| text == "case"@
    ||| text == "do"@
    ||| text == "begin"@
    ||| text == "cond"@
}

/// Whether `a` spells `b`.
pub fn same_text(a: &[char], b: &str) -> (r: bool)
    ensures
        r == (a@ == b@),
{
    let bs = chars_of(b);
    if a.len() != bs.len() {
        return false;
    }
    let mut i: usize = 0;
    while i < a.len()
        invariant
            a@.len() == bs@.len(),
            bs@ == b@,
            i <= a@.len(),
            forall|j: int| 0 <= j < i ==> a@[j] == bs@[j],
        decreases a@.len() - i,
    {
        if a[i] != bs[i] {
            return false;
        }
        i = i + 1;
    }
    assert(a@ =~= bs@);
    true
}

/// The forms that always break their body onto new lines.
pub fn always_break(text: &[char]) -> (r: bool)
    ensures
        r == spec_always_break(text@),
{
    same_text(text, "define") || same_text(text, "lambda") || same_text(text, "let")
        || same_text(text, "let*") || same_text(text, "letrec") || same_text(text, "letrec*")
        || same_text(text, "when") || same_text(text, "unless") || same_text(text, "case")
        || same_text(text, "do") || same_text(text, "begin") || same_text(text, "cond")
}

/// The column the end of `s` is at: the characters after its last line
/// break.
pub open spec fn column(s: Seq<char>) -> nat
    decreases s.len(),
{
    if s.len() == 0 {
        0
    } else if s.last() == '\n' {
        0
    } else {
        column(s.drop_last()) + 1
    }
}

/// The column the end of `output` is at.
pub fn current_column(output: &str) -> (r: usize)
    ensures
        r == column(output@),
{
    let chars = chars_of(output);
    column_of(&chars)
}

/// The column the end of `s` is at.
pub fn column_of(s: &[char]) -> (r: usize)
    ensures
        r == column(s@),
{
    let mut i = s.len();
    let mut count: usize = 0;
    assert(s@.subrange(0, i as int) =~= s@);
    while i > 0 && s[i - 1] != '\n'
        invariant
            i <= s@.len(),
            count == s@.len() - i,
            column(s@) == column(s@.subrange(0, i as int)) + count,
        decreases i,
    {
        assert(s@.subrange(0, i - 1) =~= s@.subrange(0, i as int).drop_last());
        i = i - 1;
        count = count + 1;
    }
    proof {
        if i > 0 {
            assert(s@.subrange(0, i as int).last() == '\n');
        }
    }
    count
}

// ----------------------------------------------------------------------
// From data to nodes.
/// When a chain of marks ends in an atom, the marks and the atom's text
/// run together: `'`x` is one node. Chains ending in a list or a comment
/// have no such text.
pub open spec fn atom_chain_spec(d: SDatum) -> Option<Seq<char>>
    decreases d,
{
    match d {
        SDatum::Atom(t) => Some(t),
        SDatum::Marker(m, c) => match atom_chain_spec(*c) {
            Some(rest) => Some(m + rest),
            None => None,
        },
        _ => None,
    }
}

/// The nodes of one datum at the given depth.
///
/// A list whose first item is an atom, and that has another item, puts
/// that atom on its head line; otherwise the head line is empty.
pub open spec fn emit_spec(d: SDatum, depth: nat) -> Seq<NodeView>
    decreases d, 0int,
{
    match d {
        SDatum::Atom(t) => seq![nv(t, depth)],
        SDatum::Comment(t) => seq![nv(t, depth)],
        SDatum::Marker(m, c) => emit_marker_spec(m, *c, depth),
        SDatum::List(items) => {
            if items.len() >= 2 && items[0] is Atom {
                seq![nv(items[0]->Atom_0, depth)] + emit_all_spec(items.drop_first(), depth + 1)
            } else {
                seq![nv(Seq::empty(), depth)] + emit_all_spec(items, depth + 1)
            }
        },
    }
}

pub open spec fn emit_all_spec(items: Seq<SDatum>, depth: nat) -> Seq<NodeView>
    decreases items, 0int,
{
    if items.len() == 0 {
        Seq::empty()
    } else {
        emit_spec(items[0], depth) + emit_all_spec(items.drop_first(), depth)
    }
}

/// A mark and the datum it belongs to. A chain that ends in an atom is
/// one node. Otherwise the mark is a node of its own; an empty list gets
/// an empty node under it, and the items of any other list become its
/// children directly, with no empty head node between (inside a quote a
/// list is data, not a call).
pub open spec fn emit_marker_spec(mark: Seq<char>, child: SDatum, depth: nat) -> Seq<NodeView>
    decreases child, 1int,
{
    match atom_chain_spec(child) {
        Some(rest) => seq![nv(mark + rest, depth)],
        None => seq![nv(mark, depth)] + match child {
            SDatum::List(items) => {
                if items.len() == 0 {
                    seq![nv(Seq::empty(), depth + 1)]
                } else {
                    emit_quoted_all_spec(items, depth + 1)
                }
            },
            _ => emit_spec(child, depth + 1),
        },
    }
}

/// The nodes of a datum inside a quote: a list never puts its first item
/// on its head line.
pub open spec fn emit_quoted_spec(d: SDatum, depth: nat) -> Seq<NodeView>
    decreases d, 0int,
{
    match d {
        SDatum::Atom(t) => seq![nv(t, depth)],
        SDatum::Comment(t) => seq![nv(t, depth)],
        SDatum::Marker(m, c) => emit_marker_spec(m, *c, depth),
        SDatum::List(items) => seq![nv(Seq::empty(), depth)] + emit_quoted_all_spec(
            items,
            depth + 1,
        ),
    }
}

pub open spec fn emit_quoted_all_spec(items: Seq<SDatum>, depth: nat) -> Seq<NodeView>
    decreases items, 0int,
{
    if items.len() == 0 {
        Seq::empty()
    } else {
        emit_quoted_spec(items[0], depth) + emit_quoted_all_spec(items.drop_first(), depth)
    }
}

/// The nodes of the data read from a file: never empty.
pub open spec fn nodes_from_spec(data: Seq<SDatum>) -> Seq<NodeView> {
    let nodes = emit_all_spec(data, 0);
    if nodes.len() == 0 {
        seq![nv(Seq::empty(), 0)]
    } else {
        nodes
    }
}

/// Each node at most one level below the one before it.
pub open spec fn steps_ok(s: Seq<NodeView>) -> bool {
    forall|i: int| 0 < i < s.len() ==> #[trigger] s[i].depth <= s[i - 1].depth + 1
}

/// The number of nodes at depth `k`.
pub open spec fn tops(s: Seq<NodeView>, k: nat) -> nat
    decreases s.len(),
{
    if s.len() == 0 {
        0
    } else {
        (if s[0].depth == k { 1nat } else { 0nat }) + tops(s.drop_first(), k)
    }
}

/// One node at depth `k` and, after it, nodes deeper than `k`, stepping
/// down one level at a time.
pub open spec fn block_at(s: Seq<NodeView>, k: nat) -> bool {
    &&& s.len() >= 1
    &&& s[0].depth == k
    &&& forall|i: int| 0 < i < s.len() ==> #[trigger] s[i].depth > k
    &&& steps_ok(s)
}

/// `n` blocks at depth `k`, one after another.
pub open spec fn run_at(s: Seq<NodeView>, k: nat, n: nat) -> bool {
    &&& s.len() > 0 ==> s[0].depth == k
    &&& n > 0 ==> s.len() > 0
    &&& forall|i: int| 0 <= i < s.len() ==> #[trigger] s[i].depth >= k
    &&& steps_ok(s)
    &&& tops(s, k) == n
}

proof fn lemma_tops_add(a: Seq<NodeView>, b: Seq<NodeView>, k: nat)
    ensures
        tops(a + b, k) == tops(a, k) + tops(b, k),
    decreases a.len(),
{
    if a.len() > 0 {
        assert((a + b).drop_first() =~= a.drop_first() + b);
        lemma_tops_add(a.drop_first(), b, k);
    } else {
        assert(a + b =~= b);
    }
}

proof fn lemma_tops_deeper(s: Seq<NodeView>, k: nat)
    requires
        forall|i: int| 0 <= i < s.len() ==> #[trigger] s[i].depth > k,
    ensures
        tops(s, k) == 0,
    decreases s.len(),
{
    if s.len() > 0 {
        assert(forall|i: int| 0 <= i < s.drop_first().len() ==> s.drop_first()[i] == s[i + 1]);
        lemma_tops_deeper(s.drop_first(), k);
    }
}

/// A node at depth `k` over a run at depth `k + 1` is a block at `k`.
proof fn lemma_head_over(h: NodeView, r: Seq<NodeView>, k: nat, n: nat)
    requires
        h.depth == k,
        run_at(r, k + 1, n),
    ensures
        block_at(seq![h] + r, k),
{
    let s = seq![h] + r;
    assert forall|i: int| 0 < i < s.len() implies #[trigger] s[i].depth > k by {
        assert(s[i] == r[i - 1]);
    }
    assert forall|i: int| 0 < i < s.len() implies #[trigger] s[i].depth <= s[i - 1].depth + 1 by {
        assert(s[i] == r[i - 1]);
        if i > 1 {
            assert(s[i - 1] == r[i - 2]);
            assert(r[i - 1].depth <= r[i - 2].depth + 1);
        }
    }
}

/// A block at `k` before a run of `n` blocks at `k` is a run of `n + 1`.
proof fn lemma_block_then_run(a: Seq<NodeView>, b: Seq<NodeView>, k: nat, n: nat)
    requires
        block_at(a, k),
        run_at(b, k, n),
    ensures
        run_at(a + b, k, n + 1),
{
    let s = a + b;
    assert forall|i: int| 0 <= i < s.len() implies #[trigger] s[i].depth >= k by {
        if i < a.len() {
            assert(s[i] == a[i]);
        } else {
            assert(s[i] == b[i - a.len()]);
        }
    }
    assert forall|i: int| 0 < i < s.len() implies #[trigger] s[i].depth <= s[i - 1].depth + 1 by {
        if i < a.len() {
            assert(s[i] == a[i] && s[i - 1] == a[i - 1]);
        } else if i == a.len() {
            assert(s[i] == b[0] && s[i - 1] == a[i - 1]);
        } else {
            assert(s[i] == b[i - a.len()] && s[i - 1] == b[i - 1 - a.len()]);
            assert(b[i - a.len()].depth <= b[i - a.len() - 1].depth + 1);
        }
    }
    lemma_tops_add(a, b, k);
    assert(a.drop_first().len() == a.len() - 1);
    assert forall|i: int| 0 <= i < a.drop_first().len() implies #[trigger] a.drop_first()[i].depth > k by {
        assert(a.drop_first()[i] == a[i + 1]);
    }
    lemma_tops_deeper(a.drop_first(), k);
}

/// The nodes of one datum form a block at their depth.
proof fn lemma_emit_block(d: SDatum, k: nat)
    ensures
        block_at(emit_spec(d, k), k),
    decreases d, 0int,
{
    match d {
        SDatum::Marker(m, c) => lemma_marker_block(m, *c, k),
        SDatum::List(items) => {
            if items.len() >= 2 && items[0] is Atom {
                lemma_emit_run(items.drop_first(), k + 1);
                lemma_head_over(nv(items[0]->Atom_0, k), emit_all_spec(items.drop_first(), k + 1), k, (items.len() - 1) as nat);
            } else {
                lemma_emit_run(items, k + 1);
                lemma_head_over(nv(Seq::empty(), k), emit_all_spec(items, k + 1), k, items.len());
            }
        },
        _ => {},
    }
}

/// The nodes of a list of data form one block at their depth per datum.
proof fn lemma_emit_run(items: Seq<SDatum>, k: nat)
    ensures
        run_at(emit_all_spec(items, k), k, items.len()),
    decreases items, 0int,
{
    if items.len() > 0 {
        lemma_emit_block(items[0], k);
        lemma_emit_run(items.drop_first(), k);
        lemma_block_then_run(emit_spec(items[0], k), emit_all_spec(items.drop_first(), k), k, (items.len() - 1) as nat);
    }
}

proof fn lemma_marker_block(mark: Seq<char>, child: SDatum, k: nat)
    ensures
        block_at(emit_marker_spec(mark, child, k), k),
    decreases child, 1int,
{
    match atom_chain_spec(child) {
        Some(rest) => {},
        None => match child {
            SDatum::List(items) => {
                if items.len() == 0 {
                    let r = seq![nv(Seq::<char>::empty(), k + 1)];
                    assert(tops(r.drop_first(), k + 1) == 0);
                    lemma_head_over(nv(mark, k), r, k, 1);
                } else {
                    lemma_quoted_run(items, k + 1);
                    lemma_head_over(nv(mark, k), emit_quoted_all_spec(items, k + 1), k, items.len());
                }
            },
            _ => {
                lemma_emit_block(child, k + 1);
                let b = emit_spec(child, k + 1);
                assert(run_at(b + Seq::empty(), k + 1, 1)) by {
                    lemma_block_then_run(b, Seq::empty(), k + 1, 0);
                }
                assert(b + Seq::<NodeView>::empty() =~= b);
                lemma_head_over(nv(mark, k), b, k, 1);
            },
        },
    }
}

proof fn lemma_quoted_block(d: SDatum, k: nat)
    ensures
        block_at(emit_quoted_spec(d, k), k),
    decreases d, 0int,
{
    match d {
        SDatum::Marker(m, c) => lemma_marker_block(m, *c, k),
        SDatum::List(items) => {
            lemma_quoted_run(items, k + 1);
            lemma_head_over(nv(Seq::empty(), k), emit_quoted_all_spec(items, k + 1), k, items.len());
        },
        _ => {},
    }
}

proof fn lemma_quoted_run(items: Seq<SDatum>, k: nat)
    ensures
        run_at(emit_quoted_all_spec(items, k), k, items.len()),
    decreases items, 0int,
{
    if items.len() > 0 {
        lemma_quoted_block(items[0], k);
        lemma_quoted_run(items.drop_first(), k);
        lemma_block_then_run(emit_quoted_spec(items[0], k), emit_quoted_all_spec(items.drop_first(), k), k, (items.len() - 1) as nat);
    }
}

/// The nodes made from any data read form a valid tree: there is at
/// least one, the first is at the top, each is at most one level below
/// the one before, and there are as many nodes at the top as there are
/// data.
pub proof fn lemma_nodes_from_valid(data: Seq<SDatum>)
    ensures
        nodes_from_spec(data).len() >= 1,
        nodes_from_spec(data)[0].depth == 0,
        steps_ok(nodes_from_spec(data)),
        data.len() > 0 ==> tops(nodes_from_spec(data), 0) == data.len(),
{
    lemma_emit_run(data, 0);
}

// ----------------------------------------------------------------------
/// The smallest depth among `nodes`, or 0 when there are none.
pub open spec fn min_depth(nodes: Seq<NodeView>) -> nat
    decreases nodes.len(),
{
    if nodes.len() == 0 {
        0
    } else if nodes.len() == 1 {
        nodes[0].depth
    } else {
        let m = min_depth(nodes.drop_last());
        if nodes.last().depth < m {
            nodes.last().depth
        } else {
            m
        }
    }
}

/// The smallest depth is at most every depth, and is the depth of one of
/// the nodes.
pub proof fn lemma_min_depth(nodes: Seq<NodeView>)
    ensures
        forall|i: int| 0 <= i < nodes.len() ==> min_depth(nodes) <= #[trigger] nodes[i].depth,
        nodes.len() > 0 ==> exists|i: int|
            0 <= i < nodes.len() && #[trigger] nodes[i].depth == min_depth(nodes),
    decreases nodes.len(),
{
    if nodes.len() > 1 {
        lemma_min_depth(nodes.drop_last());
        let m = min_depth(nodes.drop_last());
        assert forall|i: int| 0 <= i < nodes.len() implies min_depth(nodes) <= #[trigger] nodes[
            i
        ].depth by {
            if i < nodes.len() - 1 {
                assert(nodes.drop_last()[i] == nodes[i]);
            }
        }
        if nodes.last().depth >= m {
            let j = choose|j: int|
                0 <= j < nodes.drop_last().len() && #[trigger] nodes.drop_last()[j].depth == m;
            assert(nodes[j].depth == min_depth(nodes));
        } else {
            assert(nodes[nodes.len() - 1].depth == min_depth(nodes));
        }
    } else if nodes.len() == 1 {
        assert(nodes[0].depth == min_depth(nodes));
    }
}

/// The nodes moved up so that the shallowest of them is at depth 0.
pub open spec fn normalized(nodes: Seq<NodeView>) -> Seq<NodeView> {
    Seq::new(
        nodes.len(),
        |i: int| nv(nodes[i].text, (nodes[i].depth - min_depth(nodes)) as nat),
    )
}

/// Moves a block of nodes up so that its shallowest node is at depth 0.
///
/// Taking the first node as the base would make the depths of shallower
/// nodes after it negative.
pub fn normalize(nodes: &[Node]) -> (r: Vec<Node>)
    ensures
        nodes_view(r@) == normalized(nodes_view(nodes@)),
{
    let ghost v = nodes_view(nodes@);
    let mut base: usize = 0;
    if nodes.len() > 0 {
        base = nodes[0].depth;
        let mut i: usize = 1;
        assert(v.subrange(0, 1).drop_last() =~= Seq::empty());
        while i < nodes.len()
            invariant
                1 <= i <= nodes@.len(),
                v == nodes_view(nodes@),
                base == min_depth(v.subrange(0, i as int)),
            decreases nodes@.len() - i,
        {
            assert(v.subrange(0, i + 1).drop_last() =~= v.subrange(0, i as int));
            if nodes[i].depth < base {
                base = nodes[i].depth;
            }
            i = i + 1;
        }
        assert(v.subrange(0, i as int) =~= v);
    }
    proof {
        lemma_min_depth(v);
    }
    let mut r: Vec<Node> = Vec::new();
    let mut j: usize = 0;
    while j < nodes.len()
        invariant
            j <= nodes@.len(),
            v == nodes_view(nodes@),
            base == min_depth(v),
            forall|i: int| 0 <= i < v.len() ==> base <= #[trigger] v[i].depth,
            nodes_view(r@) == normalized(v).subrange(0, j as int),
        decreases nodes@.len() - j,
    {
        let text = nodes[j].text.clone();
        assert(text@ =~= nodes@[j as int].text@);
        assert(base <= v[j as int].depth);
        let ghost prev = nodes_view(r@);
        r.push(Node { text, depth: nodes[j].depth - base });
        assert(nodes_view(r@) =~= prev.push(normalized(v)[j as int]));
        j = j + 1;
        assert(nodes_view(r@) =~= normalized(v).subrange(0, j as int));
    }
    assert(normalized(v).subrange(0, j as int) =~= normalized(v));
    r
}

/// Normalizing keeps every text and every difference of depth, and the
/// shallowest node of a non-empty block ends at depth 0.
pub proof fn lemma_normalized(nodes: Seq<NodeView>)
    ensures
        normalized(nodes).len() == nodes.len(),
        forall|i: int| 0 <= i < nodes.len() ==> #[trigger] normalized(nodes)[i].text == nodes[i].text,
        forall|i: int, j: int|
            0 <= i < nodes.len() && 0 <= j < nodes.len() ==> normalized(nodes)[i].depth
                - normalized(nodes)[j].depth == nodes[i].depth - nodes[j].depth,
        nodes.len() > 0 ==> min_depth(normalized(nodes)) == 0,
{
    lemma_min_depth(nodes);
    let n = normalized(nodes);
    lemma_min_depth(n);
    if nodes.len() > 0 {
        let k = choose|k: int| 0 <= k < nodes.len() && #[trigger] nodes[k].depth == min_depth(nodes);
        assert(n[k].depth == 0);
    }
}

/// The number of decimal digits of `n`.
pub open spec fn digits(n: nat) -> nat
    decreases n,
{
    if n < 10 {
        1
    } else {
        1 + digits(n / 10)
    }
}

pub open spec fn pow10(k: nat) -> nat
    decreases k,
{
    if k == 0 {
        1
    } else {
        10 * pow10((k - 1) as nat)
    }
}

proof fn lemma_digits_le(n: nat, k: nat)
    requires
        1 <= k,
        n < pow10(k),
    ensures
        digits(n) <= k,
    decreases k,
{
    if n >= 10 {
        let p = pow10((k - 1) as nat);
        if k == 1 {
            assert(pow10(1) == 10) by {
                reveal_with_fuel(pow10, 2);
            }
        } else {
            assert(n / 10 < p) by (nonlinear_arith)
                requires
                    n < 10 * p,
            ;
            lemma_digits_le(n / 10, (k - 1) as nat);
        }
    }
}

/// A `usize` has at most 20 decimal digits.
proof fn lemma_usize_digits(n: nat)
    requires
        n <= usize::MAX,
    ensures
        digits(n) <= 20,
{
    assert(pow10(20) == 100_000_000_000_000_000_000) by {
        reveal_with_fuel(pow10, 21);
    }
    lemma_digits_le(n, 20);
}

/// The fewest columns a line number gets, so that the tree does not
/// shift sideways each time the count of nodes gains a digit.
pub const NUMBER_WIDTH: usize = 3;

/// The width of the line numbers of `count` lines, the space after them
/// included.
pub fn number_width(count: usize) -> (r: usize)
    ensures
        r == (if digits(count as nat) > NUMBER_WIDTH {
            digits(count as nat)
        } else {
            NUMBER_WIDTH as nat
        }) + 1,
{
    proof {
        lemma_usize_digits(count as nat);
    }
    let mut d: usize = 1;
    let mut m = count;
    while m >= 10
        invariant
            d + digits(m as nat) == 1 + digits(count as nat),
            digits(count as nat) <= 20,
        decreases m,
    {
        m = m / 10;
        d = d + 1;
    }
    if d > NUMBER_WIDTH {
        d + 1
    } else {
        NUMBER_WIDTH + 1
    }
}

/// How deeply a datum nests.
pub open spec fn height(d: SDatum) -> nat
    decreases d,
{
    match d {
        SDatum::Atom(_) => 0,
        SDatum::Comment(_) => 0,
        SDatum::Marker(_, c) => height(*c) + 1,
        SDatum::List(items) => height_all(items) + 1,
    }
}

pub open spec fn height_all(items: Seq<SDatum>) -> nat
    decreases items,
{
    if items.len() == 0 {
        0
    } else {
        let h = height(items[0]);
        let rest = height_all(items.drop_first());
        if h >= rest {
            h
        } else {
            rest
        }
    }
}

proof fn lemma_height_all(items: Seq<SDatum>, i: int)
    requires
        0 <= i < items.len(),
    ensures
        height(items[i]) <= height_all(items),
    decreases items.len(),
{
    if i > 0 {
        lemma_height_all(items.drop_first(), i - 1);
    }
}

proof fn lemma_emit_all_append(a: Seq<SDatum>, b: Seq<SDatum>, depth: nat)
    ensures
        emit_all_spec(a + b, depth) == emit_all_spec(a, depth) + emit_all_spec(b, depth),
    decreases a.len(),
{
    if a.len() == 0 {
        assert(a + b =~= b);
        assert(emit_all_spec(a, depth) =~= Seq::empty());
        assert(emit_all_spec(b, depth) =~= Seq::<NodeView>::empty() + emit_all_spec(b, depth));
    } else {
        assert((a + b).drop_first() =~= a.drop_first() + b);
        assert((a + b)[0] == a[0]);
        lemma_emit_all_append(a.drop_first(), b, depth);
        assert(emit_all_spec(a + b, depth) =~= emit_all_spec(a, depth) + emit_all_spec(b, depth));
    }
}

proof fn lemma_emit_quoted_all_append(a: Seq<SDatum>, b: Seq<SDatum>, depth: nat)
    ensures
        emit_quoted_all_spec(a + b, depth) == emit_quoted_all_spec(a, depth)
            + emit_quoted_all_spec(b, depth),
    decreases a.len(),
{
    if a.len() == 0 {
        assert(a + b =~= b);
        assert(emit_quoted_all_spec(a, depth) =~= Seq::empty());
        assert(emit_quoted_all_spec(b, depth) =~= Seq::<NodeView>::empty()
            + emit_quoted_all_spec(b, depth));
    } else {
        assert((a + b).drop_first() =~= a.drop_first() + b);
        assert((a + b)[0] == a[0]);
        lemma_emit_quoted_all_append(a.drop_first(), b, depth);
        assert(emit_quoted_all_spec(a + b, depth) =~= emit_quoted_all_spec(a, depth)
            + emit_quoted_all_spec(b, depth));
    }
}

proof fn lemma_emit_all_one(x: SDatum, depth: nat)
    ensures
        emit_all_spec(seq![x], depth) == emit_spec(x, depth),
        emit_quoted_all_spec(seq![x], depth) == emit_quoted_spec(x, depth),
{
    assert(seq![x].drop_first() =~= Seq::<SDatum>::empty());
    assert(emit_all_spec(seq![x].drop_first(), depth) =~= Seq::empty());
    assert(emit_quoted_all_spec(seq![x].drop_first(), depth) =~= Seq::empty());
    assert(emit_all_spec(seq![x], depth) =~= emit_spec(x, depth));
    assert(emit_quoted_all_spec(seq![x], depth) =~= emit_quoted_spec(x, depth));
}

/// A list nests less than `h` deep when each of its items does.
proof fn lemma_height_all_below(items: Seq<SDatum>, h: nat)
    requires
        forall|i: int| 0 <= i < items.len() ==> height(#[trigger] items[i]) < h,
        h > 0,
    ensures
        height_all(items) < h,
    decreases items.len(),
{
    if items.len() > 0 {
        assert forall|i: int| 0 <= i < items.drop_first().len() implies height(
            #[trigger] items.drop_first()[i],
        ) < h by {
            assert(items.drop_first()[i] == items[i + 1]);
        }
        lemma_height_all_below(items.drop_first(), h);
    }
}

/// Whether the datum nests less than `limit` deep.
pub fn height_below(d: &Datum, limit: usize) -> (r: bool)
    ensures
        r == (height(d.dview()) < limit),
    decreases height(d.dview()),
{
    match d {
        Datum::Atom(t) => {
            assert(d.dview() == SDatum::Atom(t@));
            limit > 0
        },
        Datum::Comment(t) => {
            assert(d.dview() == SDatum::Comment(t@));
            limit > 0
        },
        Datum::Marker(m, c) => {
            assert(d.dview() == SDatum::Marker(m@, Box::new(c.dview())));
            limit > 0 && height_below(c, limit - 1)
        },
        Datum::List(items) => {
            let ghost s = Seq::new(items@.len(), |j: int| items@[j].dview());
            assert(d.dview() == SDatum::List(s)) by {
                assert(d.dview()->List_0 =~= s);
            }
            if limit <= 1 {
                return false;
            }
            let mut i: usize = 0;
            while i < items.len()
                invariant
                    i <= items@.len(),
                    limit > 1,
                    s == Seq::new(items@.len(), |j: int| items@[j].dview()),
                    forall|j: int| 0 <= j < i ==> height(#[trigger] s[j]) < limit - 1,
                    d.dview() == SDatum::List(s),
                decreases items@.len() - i,
            {
                proof {
                    lemma_height_all(s, i as int);
                    assert(s[i as int] == items@[i as int].dview());
                }
                if !height_below(&items[i], limit - 1) {
                    proof {
                        lemma_height_all(s, i as int);
                    }
                    return false;
                }
                i = i + 1;
            }
            proof {
                lemma_height_all_below(s, (limit - 1) as nat);
            }
            true
        },
    }
}

/// Whether every datum nests less than `usize::MAX` deep, as
/// `nodes_from` needs.
pub fn nest_fits(data: &[Datum]) -> (r: bool)
    ensures
        r == (forall|i: int| 0 <= i < data@.len() ==> height(#[trigger] data@[i].dview()) < usize::MAX),
{
    let mut i: usize = 0;
    while i < data.len()
        invariant
            i <= data@.len(),
            forall|j: int| 0 <= j < i ==> height(#[trigger] data@[j].dview()) < usize::MAX,
        decreases data@.len() - i,
    {
        if !height_below(&data[i], usize::MAX) {
            return false;
        }
        i = i + 1;
    }
    true
}

/// Turns data that was read into nodes.
pub fn nodes_from(data: &[Datum]) -> (nodes: Vec<Node>)
    requires
        forall|i: int| 0 <= i < data@.len() ==> height(#[trigger] data@[i].dview()) < usize::MAX,
    ensures
        nodes_view(nodes@) == nodes_from_spec(data_view(data@)),
{
    let mut nodes: Vec<Node> = Vec::new();
    let ghost dv = data_view(data@);
    let mut i: usize = 0;
    while i < data.len()
        invariant
            i <= data@.len(),
            dv == data_view(data@),
            forall|j: int| 0 <= j < data@.len() ==> height(#[trigger] data@[j].dview()) < usize::MAX,
            nodes_view(nodes@) == emit_all_spec(dv.subrange(0, i as int), 0),
        decreases data@.len() - i,
    {
        proof {
            assert(dv.subrange(0, i + 1) =~= dv.subrange(0, i as int) + seq![dv[i as int]]);
            lemma_emit_all_append(dv.subrange(0, i as int), seq![dv[i as int]], 0);
            lemma_emit_all_one(dv[i as int], 0);
        }
        emit(&data[i], 0, &mut nodes);
        i = i + 1;
    }
    assert(dv.subrange(0, i as int) =~= dv);
    if nodes.len() == 0 {
        nodes.push(Node::empty(0));
        assert(nodes_view(nodes@) =~= seq![nv(Seq::empty(), 0)]);
    }
    nodes
}

/// The text of a chain of marks that ends in an atom.
fn atom_chain(datum: &Datum) -> (r: Option<Vec<char>>)
    ensures
        match atom_chain_spec(datum.dview()) {
            Some(t) => r matches Some(v) && v@ == t,
            None => r is None,
        },
    decreases datum,
{
    match datum {
        Datum::Atom(text) => Some(chars_of(text.as_str())),
        Datum::Marker(mark, child) => match atom_chain(child) {
            Some(rest) => {
                let mut m = chars_of(mark.as_str());
                let mut rest = rest;
                m.append(&mut rest);
                Some(m)
            },
            None => None,
        },
        _ => None,
    }
}

fn text_node(text: &String, depth: usize) -> (n: Node)
    ensures
        n@ == nv(text@, depth as nat),
{
    Node { text: chars_of(text.as_str()), depth }
}

fn emit(datum: &Datum, depth: usize, nodes: &mut Vec<Node>)
    requires
        depth + height(datum.dview()) <= usize::MAX,
    ensures
        nodes_view(final(nodes)@) == nodes_view(old(nodes)@) + emit_spec(
            datum.dview(),
            depth as nat,
        ),
    decreases height(datum.dview()), 0int,
{
    let ghost before = nodes_view(nodes@);
    match datum {
        Datum::Atom(text) => {
            nodes.push(text_node(text, depth));
            assert(nodes_view(nodes@) =~= before + emit_spec(datum.dview(), depth as nat));
        },
        Datum::Comment(text) => {
            nodes.push(text_node(text, depth));
            assert(nodes_view(nodes@) =~= before + emit_spec(datum.dview(), depth as nat));
        },
        Datum::Marker(mark, child) => {
            emit_marker(mark, child, depth, nodes);
        },
        Datum::List(items) => {
            proof {
                crate::reader::lemma_list_view(*items);
            }
            let ghost dv = data_view(items@);
            let head = items.len() >= 2 && match &items[0] {
                Datum::Atom(_) => true,
                _ => false,
            };
            let start: usize = if head {
                match &items[0] {
                    Datum::Atom(text) => nodes.push(text_node(text, depth)),
                    _ => {},
                }
                1
            } else {
                nodes.push(Node::empty(depth));
                0
            };
            assert(head ==> dv[0] is Atom);
            let ghost first = nodes_view(nodes@);
            let mut i: usize = start;
            assert(dv.subrange(start as int, i as int) =~= Seq::empty());
            while i < items.len()
                invariant
                    start <= i <= items@.len(),
                    datum.dview() == SDatum::List(dv),
                    dv == data_view(items@),
                    depth + 1 + height_all(dv) <= usize::MAX,
                    nodes_view(nodes@) == first + emit_all_spec(
                        dv.subrange(start as int, i as int),
                        depth as nat + 1,
                    ),
                decreases items@.len() - i,
            {
                proof {
                    assert(dv.subrange(start as int, i + 1) =~= dv.subrange(start as int, i as int)
                        + seq![dv[i as int]]);
                    lemma_emit_all_append(
                        dv.subrange(start as int, i as int),
                        seq![dv[i as int]],
                        depth as nat + 1,
                    );
                    lemma_emit_all_one(dv[i as int], depth as nat + 1);
                    lemma_height_all(dv, i as int);
                }
                proof {
                    lemma_height_all(dv, i as int);
                }
                emit(&items[i], depth + 1, nodes);
                i = i + 1;
            }
            if head {
                assert(dv.subrange(1, i as int) =~= dv.drop_first());
            } else {
                assert(dv.subrange(0, i as int) =~= dv);
            }
            assert(nodes_view(nodes@) =~= before + emit_spec(datum.dview(), depth as nat));
        },
    }
}

fn emit_marker(mark: &String, child: &Datum, depth: usize, nodes: &mut Vec<Node>)
    requires
        depth + height(child.dview()) + 1 <= usize::MAX,
    ensures
        nodes_view(final(nodes)@) == nodes_view(old(nodes)@) + emit_marker_spec(
            mark@,
            child.dview(),
            depth as nat,
        ),
    decreases height(child.dview()), 1int,
{
    let ghost before = nodes_view(nodes@);
    match atom_chain(child) {
        Some(rest) => {
            let mut text = chars_of(mark.as_str());
            let mut rest = rest;
            text.append(&mut rest);
            nodes.push(Node { text, depth });
            assert(nodes_view(nodes@) =~= before + emit_marker_spec(
                mark@,
                child.dview(),
                depth as nat,
            ));
            return ;
        },
        None => {},
    }
    nodes.push(text_node(mark, depth));
    let ghost first = nodes_view(nodes@);
    match child {
        Datum::List(items) => {
            proof {
                crate::reader::lemma_list_view(*items);
            }
            let ghost dv = data_view(items@);
            if items.len() == 0 {
                nodes.push(Node::empty(depth + 1));
            } else {
                let mut i: usize = 0;
                assert(dv.subrange(0, 0) =~= Seq::empty());
                while i < items.len()
                    invariant
                        i <= items@.len(),
                        child.dview() == SDatum::List(dv),
                        dv == data_view(items@),
                        depth + 1 + height_all(dv) <= usize::MAX,
                        nodes_view(nodes@) == first + emit_quoted_all_spec(
                            dv.subrange(0, i as int),
                            depth as nat + 1,
                        ),
                    decreases items@.len() - i,
                {
                    proof {
                        assert(dv.subrange(0, i + 1) =~= dv.subrange(0, i as int) + seq![
                            dv[i as int],
                        ]);
                        lemma_emit_quoted_all_append(
                            dv.subrange(0, i as int),
                            seq![dv[i as int]],
                            depth as nat + 1,
                        );
                        lemma_emit_all_one(dv[i as int], depth as nat + 1);
                        lemma_height_all(dv, i as int);
                    }
                    proof {
                    lemma_height_all(dv, i as int);
                }
                emit_quoted(&items[i], depth + 1, nodes);
                    i = i + 1;
                }
                assert(dv.subrange(0, i as int) =~= dv);
            }
        },
        _ => {
            emit(child, depth + 1, nodes);
        },
    }
    assert(nodes_view(nodes@) =~= before + emit_marker_spec(mark@, child.dview(), depth as nat));
}

fn emit_quoted(datum: &Datum, depth: usize, nodes: &mut Vec<Node>)
    requires
        depth + height(datum.dview()) <= usize::MAX,
    ensures
        nodes_view(final(nodes)@) == nodes_view(old(nodes)@) + emit_quoted_spec(
            datum.dview(),
            depth as nat,
        ),
    decreases height(datum.dview()), 0int,
{
    let ghost before = nodes_view(nodes@);
    match datum {
        Datum::Atom(text) => {
            nodes.push(text_node(text, depth));
            assert(nodes_view(nodes@) =~= before + emit_quoted_spec(datum.dview(), depth as nat));
        },
        Datum::Comment(text) => {
            nodes.push(text_node(text, depth));
            assert(nodes_view(nodes@) =~= before + emit_quoted_spec(datum.dview(), depth as nat));
        },
        Datum::Marker(mark, child) => {
            emit_marker(mark, child, depth, nodes);
        },
        Datum::List(items) => {
            proof {
                crate::reader::lemma_list_view(*items);
            }
            let ghost dv = data_view(items@);
            nodes.push(Node::empty(depth));
            let ghost first = nodes_view(nodes@);
            let mut i: usize = 0;
            assert(dv.subrange(0, 0) =~= Seq::empty());
            while i < items.len()
                invariant
                    i <= items@.len(),
                    datum.dview() == SDatum::List(dv),
                    dv == data_view(items@),
                    depth + 1 + height_all(dv) <= usize::MAX,
                    nodes_view(nodes@) == first + emit_quoted_all_spec(
                        dv.subrange(0, i as int),
                        depth as nat + 1,
                    ),
                decreases items@.len() - i,
            {
                proof {
                    assert(dv.subrange(0, i + 1) =~= dv.subrange(0, i as int) + seq![dv[i as int]]);
                    lemma_emit_quoted_all_append(
                        dv.subrange(0, i as int),
                        seq![dv[i as int]],
                        depth as nat + 1,
                    );
                    lemma_emit_all_one(dv[i as int], depth as nat + 1);
                    lemma_height_all(dv, i as int);
                }
                proof {
                    lemma_height_all(dv, i as int);
                }
                emit_quoted(&items[i], depth + 1, nodes);
                i = i + 1;
            }
            assert(dv.subrange(0, i as int) =~= dv);
            assert(nodes_view(nodes@) =~= before + emit_quoted_spec(datum.dview(), depth as nat));
        },
    }
}

} // verus!
