//! The two views of the nodes: the tree with its box-drawing prefixes,
//! and the Scheme source that the tree prints as.

use vstd::prelude::*;

use super::App;
use crate::node::nodes_view;
use crate::node::NodeView;
use crate::node::Node;
use crate::node::nv;
use crate::node::height;
use crate::node::nodes_from;
use crate::node::nodes_from_spec;
use crate::node::nest_fits;
use crate::reader::Datum;
use crate::reader::SDatum;
use crate::reader::data_view;
use crate::reader::parse_text;
use crate::reader::error_text;
use crate::reader::read;
use crate::reader::atoms_of;
use crate::reader::is_delim;
use crate::reader::lemma_marked_list_reads;
use crate::reader::lemma_spaced_list_reads;
use crate::reader::quote_mark;
use crate::reader::lemma_symbols_read;
use crate::reader::spaced;
use crate::reader::plain_symbol;
use crate::reader::symbols_text;
use super::history_kept;
use crate::node::Indent;
use crate::node::WIDTH;
use crate::node::column;
use crate::node::column_of;
use crate::node::spec_always_break;
use crate::node::always_break;
use crate::node::same_text;
use crate::text::is_whitespace;
use crate::text::push_str;
use crate::text::string_from;
use crate::text::spec_is_whitespace;

verus! {

/// The direct children of a node at depth `d`, scanning from `i`: the
/// nodes at depth `d + 1` before the first node not deeper than `d`.
pub open spec fn child_scan(v: Seq<NodeView>, d: nat, i: int) -> Seq<int>
    decreases v.len() - i,
{
    if i >= v.len() || v[i].depth <= d {
        Seq::empty()
    } else if v[i].depth == d + 1 {
        seq![i] + child_scan(v, d, i + 1)
    } else {
        child_scan(v, d, i + 1)
    }
}

/// The direct children of `index`. Nodes that are too deep to be
/// anyone's child are skipped.
pub open spec fn children_spec(v: Seq<NodeView>, index: int) -> Seq<int> {
    child_scan(v, v[index].depth, index + 1)
}

/// The children found from `i` lie after `i`, in order, each at depth
/// `d + 1`.
pub proof fn lemma_child_scan(v: Seq<NodeView>, d: nat, i: int)
    requires
        0 <= i,
    ensures
        forall|k: int|
            0 <= k < child_scan(v, d, i).len() ==> i <= #[trigger] child_scan(v, d, i)[k] < v.len()
                && v[child_scan(v, d, i)[k]].depth == d + 1,
        forall|k: int, l: int|
            0 <= k < l < child_scan(v, d, i).len() ==> child_scan(v, d, i)[k] < child_scan(v, d, i)[l],
    decreases v.len() - i,
{
    if i < v.len() && v[i].depth > d {
        lemma_child_scan(v, d, i + 1);
        let rest = child_scan(v, d, i + 1);
        let s = child_scan(v, d, i);
        if v[i].depth == d + 1 {
            assert forall|k: int| 0 <= k < s.len() implies i <= #[trigger] s[k] < v.len() && v[s[k]].depth
                == d + 1 by {
                if k > 0 {
                    assert(s[k] == rest[k - 1]);
                }
            }
            assert forall|k: int, l: int| 0 <= k < l < s.len() implies s[k] < s[l] by {
                assert(s[l] == rest[l - 1]);
                if k > 0 {
                    assert(s[k] == rest[k - 1]);
                }
            }
        }
    }
}


/// The text without white space at its start.
pub open spec fn trim_front(t: Seq<char>) -> Seq<char>
    decreases t.len(),
{
    if t.len() > 0 && spec_is_whitespace(t[0]) {
        trim_front(t.drop_first())
    } else {
        t
    }
}

/// The text without white space at its end.
pub open spec fn trim_back(t: Seq<char>) -> Seq<char>
    decreases t.len(),
{
    if t.len() > 0 && spec_is_whitespace(t.last()) {
        trim_back(t.drop_last())
    } else {
        t
    }
}

/// The text without white space at either end.
pub open spec fn trimmed(t: Seq<char>) -> Seq<char> {
    trim_back(trim_front(t))
}

/// A mark that holds its elements directly, as `'` in `'(a b)`: the text
/// is one of the marks, or `#` and `=` around a label. A mark followed by
/// more text, as in `'a` or `#t`, is an atom.
pub open spec fn is_marker_spec(t: Seq<char>) -> bool {
    ||| t == "'"@
    ||| t == "`"@
    ||| t == ","@
    ||| t == ",@"@
    ||| t == "#;"@
    ||| t == "#"@
    ||| t == "#u8"@
    ||| (t.len() > 2 && t[0] == '#' && t.last() == '=')
}

/// The trimmed text of node `i`.
pub open spec fn ttext(v: Seq<NodeView>, i: int) -> Seq<char> {
    trimmed(v[i].text)
}

/// Whether a mark's single child runs into it: another mark, or an empty
/// node standing for `()`.
pub open spec fn runs_on(v: Seq<NodeView>, i: int) -> bool {
    let cs = children_spec(v, i);
    cs.len() == 1 && (is_marker_spec(ttext(v, cs[0])) || ttext(v, cs[0]).len() == 0)
}

/// The S-expression of node `i` on one line.
pub open spec fn flat_spec(v: Seq<NodeView>, i: int) -> Seq<char>
    decreases v.len() - i + 1, 0int,
{
    if 0 <= i < v.len() {
        let t = ttext(v, i);
        let cs = children_spec(v, i);
        if is_marker_spec(t) {
            if runs_on(v, i) && i < cs[0] < v.len() {
                t + flat_spec(v, cs[0])
            } else {
                t + "("@ + flat_list(v, i, cs) + ")"@
            }
        } else if t.len() > 0 && cs.len() == 0 {
            t
        } else if t.len() > 0 {
            "("@ + t + " "@ + flat_list(v, i, cs) + ")"@
        } else {
            "("@ + flat_list(v, i, cs) + ")"@
        }
    } else {
        Seq::empty()
    }
}

/// The nodes `cs`, all after `lo`, each on one line, with a space
/// between.
pub open spec fn flat_list(v: Seq<NodeView>, lo: int, cs: Seq<int>) -> Seq<char>
    decreases v.len() - lo, cs.len(),
{
    if cs.len() > 0 && 0 <= lo < cs[0] < v.len() {
        if cs.len() == 1 {
            flat_spec(v, cs[0])
        } else {
            flat_spec(v, cs[0]) + " "@ + flat_list(v, lo, cs.drop_first())
        }
    } else {
        Seq::empty()
    }
}


/// The forms whose first child stays on the head line.
pub open spec fn is_body_form(t: Seq<char>) -> bool {
    ||| t == "define"@
    ||| t == "lambda"@
    ||| t == "let"@
    ||| t == "let*"@
    ||| t == "letrec"@
    ||| t == "letrec*"@
    ||| t == "when"@
    ||| t == "unless"@
    ||| t == "case"@
}

/// How the children of node `i` are laid out when they do not fit on
/// one line. A named `let` keeps its name and bindings on the head line.
pub open spec fn indent_style_spec(v: Seq<NodeView>, i: int) -> Indent {
    let t = ttext(v, i);
    let cs = children_spec(v, i);
    if t == "let"@ && cs.len() > 0 && ttext(v, cs[0]).len() > 0 && children_spec(v, cs[0]).len() == 0 {
        Indent::Body(2)
    } else if is_body_form(t) {
        Indent::Body(1)
    } else if t == "do"@ {
        Indent::Body(2)
    } else if t == "begin"@ {
        Indent::Body(0)
    } else {
        Indent::Align
    }
}

/// The line breaks in `s`.
pub open spec fn newlines(s: Seq<char>) -> nat
    decreases s.len(),
{
    if s.len() == 0 {
        0
    } else {
        newlines(s.drop_last()) + if s.last() == '\n' {
            1nat
        } else {
            0nat
        }
    }
}

/// `n` spaces.
pub open spec fn spaces(n: int) -> Seq<char> {
    Seq::new(n as nat, |i: int| ' ')
}

/// Where the printer records that node `i` starts: the line and column
/// the output has reached.
pub type Positions = Seq<Option<(usize, usize)>>;

/// The positions with node `i` recorded at the end of `out`.
pub open spec fn mark(out: Seq<char>, pos: Positions, i: int) -> Positions {
    pos.update(i, Some((newlines(out) as usize, column(out) as usize)))
}

/// The output and positions once node `i` is printed after `out`. A
/// node goes on one line when it fits within the width; otherwise its
/// children break onto lines of their own, aligned under the first
/// child, or indented two columns for the body of a special form.
pub open spec fn pp(v: Seq<NodeView>, i: int, out: Seq<char>, pos: Positions) -> (Seq<char>, Positions)
    decreases v.len() - i + 1, 0int,
{
    if !(0 <= i < v.len()) {
        (out, pos)
    } else {
        let indent = column(out) as int;
        let pos = mark(out, pos, i);
        let t = ttext(v, i);
        let cs = children_spec(v, i);
        let flat = flat_spec(v, i);
        if is_marker_spec(t) {
            if runs_on(v, i) && i < cs[0] < v.len() {
                pp(v, cs[0], out + t, pos)
            } else if cs.len() == 0 || indent + flat.len() <= WIDTH {
                (out + flat, pos)
            } else if i < cs[0] < v.len() {
                let o1 = out + t + "("@;
                let r = pp(v, cs[0], o1, pos);
                let r2 = pp_list(v, i, cs.drop_first(), column(o1) as int, r.0, r.1);
                (r2.0 + ")"@, r2.1)
            } else {
                (out, pos)
            }
        } else if cs.len() == 0 || (!spec_always_break(t) && indent + flat.len() <= WIDTH) {
            (out + flat, pos)
        } else {
            let o1 = out + "("@ + t;
            match indent_style_spec(v, i) {
                Indent::Body(count) => {
                    let k = if count < cs.len() { count as int } else { cs.len() as int };
                    let r = pp_heads(v, i, cs.take(k), o1, pos);
                    let r2 = pp_list(v, i, cs.skip(k), indent + 2, r.0, r.1);
                    (r2.0 + ")"@, r2.1)
                },
                Indent::Align => {
                    let o2 = if t.len() > 0 { o1 + " "@ } else { o1 };
                    if i < cs[0] < v.len() {
                        let r = pp(v, cs[0], o2, pos);
                        let r2 = pp_list(v, i, cs.drop_first(), column(o2) as int, r.0, r.1);
                        (r2.0 + ")"@, r2.1)
                    } else {
                        (out, pos)
                    }
                },
            }
        }
    }
}

/// The children `cs` printed after a space each, on the head line.
pub open spec fn pp_heads(v: Seq<NodeView>, lo: int, cs: Seq<int>, out: Seq<char>, pos: Positions) -> (Seq<char>, Positions)
    decreases v.len() - lo, cs.len(),
{
    if cs.len() > 0 && 0 <= lo < cs[0] < v.len() {
        let r = pp(v, cs[0], out + " "@, pos);
        pp_heads(v, lo, cs.drop_first(), r.0, r.1)
    } else {
        (out, pos)
    }
}

/// The children `cs` printed each on a line of its own, from `column`.
pub open spec fn pp_list(v: Seq<NodeView>, lo: int, cs: Seq<int>, col: int, out: Seq<char>, pos: Positions) -> (Seq<char>, Positions)
    decreases v.len() - lo, cs.len(),
{
    if cs.len() > 0 && 0 <= lo < cs[0] < v.len() {
        let r = pp(v, cs[0], out + "\n"@ + spaces(col), pos);
        pp_list(v, lo, cs.drop_first(), col, r.0, r.1)
    } else {
        (out, pos)
    }
}

/// The top-level nodes among the first `k`, printed one after another
/// with a blank line between.
pub open spec fn pp_top(v: Seq<NodeView>, k: int, out: Seq<char>, pos: Positions) -> (Seq<char>, Positions)
    decreases k,
{
    if k <= 0 {
        (out, pos)
    } else {
        let r = pp_top(v, k - 1, out, pos);
        if v[k - 1].depth != 0 {
            r
        } else {
            let o = if r.0.len() > 0 { r.0 + "\n\n"@ } else { r.0 };
            pp(v, k - 1, o, r.1)
        }
    }
}

/// The Scheme source of the nodes, and where each node starts in it.
pub open spec fn scheme_spec(v: Seq<NodeView>) -> (Seq<char>, Positions) {
    pp_top(v, v.len() as int, Seq::empty(), Seq::new(v.len(), |i: int| None))
}

/// A column is never past the end of the text.
pub proof fn lemma_column_le(s: Seq<char>)
    ensures
        column(s) <= s.len(),
        newlines(s) <= s.len(),
    decreases s.len(),
{
    if s.len() > 0 {
        lemma_column_le(s.drop_last());
    }
}


/// Whether a later node at depth `d` comes, scanning from `j`, before a
/// shallower one.
pub open spec fn next_sibling_scan(v: Seq<NodeView>, d: nat, j: int) -> bool
    decreases v.len() - j,
{
    if j < 0 || j >= v.len() {
        false
    } else if v[j].depth < d {
        false
    } else if v[j].depth == d {
        true
    } else {
        next_sibling_scan(v, d, j + 1)
    }
}

/// Whether node `i` has a later sibling.
pub open spec fn has_next_sibling_spec(v: Seq<NodeView>, i: int) -> bool {
    next_sibling_scan(v, v[i].depth, i + 1)
}

/// The nearest node before position `i` at depth `target`; 0 when there
/// is none.
pub open spec fn ancestor_scan(v: Seq<NodeView>, target: nat, i: int) -> int
    decreases i,
{
    if i <= 0 {
        0
    } else if v[i - 1].depth == target {
        i - 1
    } else {
        ancestor_scan(v, target, i - 1)
    }
}

/// The piece of node `i`'s prefix for the column `level`: a branch for
/// its own level, and for the levels above, a rule where the ancestor at
/// that level has a later sibling.
pub open spec fn prefix_piece(v: Seq<NodeView>, i: int, level: int) -> Seq<char> {
    if level == v[i].depth - 1 {
        if has_next_sibling_spec(v, i) {
            "├── "@
        } else {
            "└── "@
        }
    } else if has_next_sibling_spec(v, ancestor_scan(v, (level + 1) as nat, i)) {
        "│   "@
    } else {
        "    "@
    }
}

/// The first `k` pieces of node `i`'s prefix.
pub open spec fn prefix_upto(v: Seq<NodeView>, i: int, k: int) -> Seq<char>
    decreases k,
{
    if k <= 0 {
        Seq::empty()
    } else {
        prefix_upto(v, i, k - 1) + prefix_piece(v, i, k - 1)
    }
}

/// The box-drawing prefix of node `i` in the tree view.
pub open spec fn prefix_spec(v: Seq<NodeView>, i: int) -> Seq<char> {
    prefix_upto(v, i, v[i].depth as int)
}

/// The line of node `i` in the view: its prefix, then its text; an empty
/// node shows as `◦` in the tree.
pub open spec fn line_spec(v: Seq<NodeView>, i: int, source: bool) -> Seq<char> {
    prefix_spec(v, i) + if v[i].text.len() == 0 && !source {
        "◦"@
    } else {
        v[i].text
    }
}

/// The first recorded position at or before `i`, `(0, 0)` when there is
/// none.
pub open spec fn position_back(p: Positions, i: int) -> (usize, usize)
    decreases i + 1,
{
    if i < 0 || i >= p.len() {
        (0, 0)
    } else if p[i] is Some {
        p[i]->0
    } else {
        position_back(p, i - 1)
    }
}

/// Among the first `k` recorded positions, the last node whose line is
/// the deepest at or above `target`: its index and line, `(0, 0)` when
/// none is.
pub open spec fn best_line(p: Positions, target: int, k: int) -> (int, int)
    decreases k,
{
    if k <= 0 {
        (0, 0)
    } else {
        let b = best_line(p, target, k - 1);
        match p[k - 1] {
            Some((line, _)) => if line <= target && line >= b.1 {
                (k - 1, line as int)
            } else {
                b
            },
            None => b,
        }
    }
}

/// The text cut at its line breaks; a last, empty piece stays.
pub open spec fn split_lines(s: Seq<char>) -> Seq<Seq<char>>
    decreases s.len(),
{
    if s.len() == 0 {
        seq![Seq::empty()]
    } else {
        let p = split_lines(s.drop_last());
        if s.last() == '\n' {
            p.push(Seq::empty())
        } else {
            p.update(p.len() - 1, p.last().push(s.last()))
        }
    }
}

/// A line without the carriage return that ends it.
pub open spec fn strip_cr(l: Seq<char>) -> Seq<char> {
    if l.len() > 0 && l.last() == '\r' {
        l.drop_last()
    } else {
        l
    }
}

/// The lines of a text, as `str::lines` gives them: a line break at the
/// very end starts no line, and a carriage return before a line break
/// goes.
pub open spec fn lines_spec(s: Seq<char>) -> Seq<Seq<char>> {
    let p = split_lines(s);
    let p = if s.len() == 0 || s.last() == '\n' {
        p.drop_last()
    } else {
        p
    };
    p.map_values(|l: Seq<char>| strip_cr(l))
}

/// The lines of the source view, joined into one text.
pub open spec fn joined_lines(v: Seq<NodeView>) -> Seq<char>
    decreases v.len(),
{
    if v.len() == 0 {
        Seq::empty()
    } else if v.len() == 1 {
        v[0].text
    } else {
        joined_lines(v.drop_last()) + "\n"@ + v.last().text
    }
}

/// Every split keeps at least one piece.
pub proof fn lemma_split_lines_len(s: Seq<char>)
    ensures
        split_lines(s).len() >= 1,
    decreases s.len(),
{
    if s.len() > 0 {
        lemma_split_lines_len(s.drop_last());
    }
}


/// The nodes of the source view: one per line, at depth 0; one empty
/// node when there are no lines.
pub open spec fn source_nodes(lines: Seq<Seq<char>>) -> Seq<NodeView> {
    if lines.len() == 0 {
        seq![nv(Seq::empty(), 0)]
    } else {
        lines.map_values(|l: Seq<char>| nv(l, 0))
    }
}

/// The column of the source where the cursor lands when the tree turns
/// into source: where its node's text starts there, past the opening
/// parenthesis of a list, plus the cursor's place in the text. A node
/// folded into its parent's line lands where the parent starts.
pub open spec fn source_column(v: Seq<NodeView>, cur: int, col: int, pos: Positions) -> int {
    let tt = ttext(v, cur);
    let start = position_back(pos, cur).1 as int;
    if pos[cur] is Some {
        let has_paren = !is_marker_spec(tt) && (children_spec(v, cur).len() > 0 || tt.len() == 0);
        let paren = if has_paren && tt.len() > 0 { 1int } else { 0int };
        start + paren + col
    } else {
        start
    }
}

/// The data read back can become nodes: it nests within `usize`.
pub open spec fn tree_fits(data: Seq<SDatum>) -> bool {
    forall|i: int| 0 <= i < data.len() ==> height(#[trigger] data[i]) < usize::MAX
}

/// The children of a node lie after it.
pub proof fn lemma_children(v: Seq<NodeView>, i: int)
    requires
        0 <= i < v.len(),
    ensures
        forall|k: int|
            0 <= k < children_spec(v, i).len() ==> i < #[trigger] children_spec(v, i)[k] < v.len()
                && v[children_spec(v, i)[k]].depth == v[i].depth + 1,
        forall|k: int, l: int|
            0 <= k < l < children_spec(v, i).len() ==> children_spec(v, i)[k] < children_spec(v, i)[l],
{
    lemma_child_scan(v, v[i].depth, i + 1);
}

/// The text without white space at either end.
pub fn trim(t: &Vec<char>) -> (r: Vec<char>)
    ensures
        r@ == trimmed(t@),
{
    let n = t.len();
    let mut start: usize = 0;
    assert(t@.subrange(0, n as int) =~= t@);
    while start < n && is_whitespace(t[start])
        invariant
            start <= n == t@.len(),
            trim_front(t@) == trim_front(t@.subrange(start as int, n as int)),
        decreases n - start,
    {
        assert(t@.subrange(start as int, n as int).drop_first() =~= t@.subrange(start + 1, n as int));
        start = start + 1;
    }
    let ghost front = t@.subrange(start as int, n as int);
    assert(trim_front(t@.subrange(start as int, n as int)) == front);
    let mut end: usize = n;
    while end > start && is_whitespace(t[end - 1])
        invariant
            start <= end <= n == t@.len(),
            trim_back(front) == trim_back(t@.subrange(start as int, end as int)),
        decreases end - start,
    {
        assert(t@.subrange(start as int, end as int).drop_last() =~= t@.subrange(start as int, end - 1));
        end = end - 1;
    }
    assert(t@.subrange(0, n as int) =~= t@);
    let mut r: Vec<char> = Vec::new();
    let mut i = start;
    while i < end
        invariant
            start <= i <= end <= n == t@.len(),
            r@ == t@.subrange(start as int, i as int),
        decreases end - i,
    {
        r.push(t[i]);
        assert(r@ =~= t@.subrange(start as int, i + 1));
        i = i + 1;
    }
    r
}

/// Whether a trimmed text is a mark that holds its elements directly.
pub fn marker_text(t: &Vec<char>) -> (r: bool)
    ensures
        r == is_marker_spec(t@),
{
    let s = t.as_slice();
    same_text(s, "'") || same_text(s, "`") || same_text(s, ",") || same_text(s, ",@") || same_text(s, "#;")
        || same_text(s, "#") || same_text(s, "#u8") || (t.len() > 2 && t[0] == '#' && t[t.len() - 1] == '=')
}


/// The line breaks in `s`.
pub fn count_newlines(s: &Vec<char>) -> (r: usize)
    ensures
        r == newlines(s@),
{
    let mut count: usize = 0;
    let mut i: usize = 0;
    proof {
        lemma_column_le(s@);
    }
    assert(s@.take(0) =~= Seq::<char>::empty());
    while i < s.len()
        invariant
            i <= s@.len(),
            count == newlines(s@.take(i as int)),
            newlines(s@) <= s@.len(),
        decreases s@.len() - i,
    {
        assert(s@.take(i + 1).drop_last() =~= s@.take(i as int));
        proof {
            lemma_newlines_prefix(s@, i + 1);
        }
        if s[i] == '\n' {
            count = count + 1;
        }
        i = i + 1;
    }
    assert(s@.take(s@.len() as int) =~= s@);
    count
}

/// The line breaks of a prefix are no more than those of the whole.
proof fn lemma_newlines_prefix(s: Seq<char>, k: int)
    requires
        0 <= k <= s.len(),
    ensures
        newlines(s.take(k)) <= newlines(s),
    decreases s.len() - k,
{
    if k < s.len() {
        lemma_newlines_prefix(s, k + 1);
        assert(s.take(k + 1).drop_last() =~= s.take(k));
    } else {
        assert(s.take(k) =~= s);
    }
}

/// Appends `n` spaces.
pub fn push_spaces(out: &mut Vec<char>, n: usize)
    ensures
        final(out)@ == old(out)@ + spaces(n as int),
{
    let mut i: usize = 0;
    while i < n
        invariant
            i <= n,
            out@ == old(out)@ + spaces(i as int),
        decreases n - i,
    {
        out.push(' ');
        assert(out@ =~= old(out)@ + spaces(i + 1));
        i = i + 1;
    }
}


/// The first recorded position at or before `index`.
pub fn position_of(index: usize, positions: &Vec<Option<(usize, usize)>>) -> (r: (usize, usize))
    requires
        index < positions@.len(),
    ensures
        r == position_back(positions@, index as int),
{
    let mut i = index;
    loop
        invariant
            i <= index < positions@.len(),
            position_back(positions@, i as int) == position_back(positions@, index as int),
        decreases i,
    {
        if let Some(position) = positions[i] {
            return position;
        }
        if i == 0 {
            assert(position_back(positions@, -1) == (0usize, 0usize));
            return (0, 0);
        }
        i = i - 1;
    }
}

/// The node whose recorded line is the last at or above `target`.
pub fn node_at_line(positions: &Vec<Option<(usize, usize)>>, target: usize) -> (r: usize)
    ensures
        r == best_line(positions@, target as int, positions@.len() as int).0,
        positions@.len() > 0 ==> r < positions@.len(),
{
    let mut best: usize = 0;
    let mut best_at: usize = 0;
    let mut k: usize = 0;
    while k < positions.len()
        invariant
            k <= positions@.len(),
            (best as int, best_at as int) == best_line(positions@, target as int, k as int),
            best == 0 || best < k,
        decreases positions@.len() - k,
    {
        match positions[k] {
            Some((line, _)) => {
                if line <= target && line >= best_at {
                    best_at = line;
                    best = k;
                }
            },
            None => {},
        }
        k = k + 1;
    }
    best
}

/// The lines of a text, as `str::lines` gives them.
pub fn split_into_lines(s: &Vec<char>) -> (r: Vec<Vec<char>>)
    ensures
        r@.len() == lines_spec(s@).len(),
        forall|i: int| 0 <= i < r@.len() ==> #[trigger] r@[i]@ == lines_spec(s@)[i],
{
    let mut pieces: Vec<Vec<char>> = Vec::new();
    let mut current: Vec<char> = Vec::new();
    let mut i: usize = 0;
    assert(s@.take(0) =~= Seq::<char>::empty());
    while i < s.len()
        invariant
            i <= s@.len(),
            pieces@.len() + 1 == split_lines(s@.take(i as int)).len(),
            forall|k: int| 0 <= k < pieces@.len() ==> #[trigger] pieces@[k]@ == split_lines(s@.take(i as int))[k],
            current@ == split_lines(s@.take(i as int)).last(),
        decreases s@.len() - i,
    {
        let ghost t = s@.take(i + 1);
        assert(t.drop_last() =~= s@.take(i as int));
        proof {
            lemma_split_lines_len(s@.take(i as int));
        }
        if s[i] == '\n' {
            let done = current;
            pieces.push(done);
            current = Vec::new();
        } else {
            current.push(s[i]);
        }
        i = i + 1;
    }
    assert(s@.take(s@.len() as int) =~= s@);
    if s.len() > 0 && s[s.len() - 1] != '\n' {
        pieces.push(current);
    }
    proof {
        lemma_split_lines_len(s@);
    }
    let mut r: Vec<Vec<char>> = Vec::new();
    let mut k: usize = 0;
    while k < pieces.len()
        invariant
            k <= pieces@.len(),
            pieces@.len() == lines_spec(s@).len(),
            forall|j: int| 0 <= j < pieces@.len() ==> #[trigger] pieces@[j]@ == (if s@.len() == 0 || s@.last() == '\n' {
                split_lines(s@).drop_last()
            } else {
                split_lines(s@)
            })[j],
            r@.len() == k,
            forall|j: int| 0 <= j < k ==> #[trigger] r@[j]@ == lines_spec(s@)[j],
        decreases pieces@.len() - k,
    {
        let mut line = pieces[k].clone();
        assert(line@ =~= pieces@[k as int]@);
        let n = line.len();
        if n > 0 && line[n - 1] == '\r' {
            line.pop();
        }
        assert(line@ =~= strip_cr(pieces@[k as int]@));
        r.push(line);
        k = k + 1;
    }
    r
}


/// The nodes of data that was read, unless they nest too deeply.
pub fn tree_of(data: &Vec<Datum>) -> (r: Option<Vec<Node>>)
    ensures
        r is Some <==> tree_fits(data_view(data@)),
        r matches Some(nodes) ==> nodes_view(nodes@) == nodes_from_spec(data_view(data@)),
{
    if !nest_fits(data.as_slice()) {
        assert(!tree_fits(data_view(data@))) by {
            let i = choose|i: int| 0 <= i < data@.len() && !(height(#[trigger] data@[i].dview()) < usize::MAX);
            assert(data_view(data@)[i] == data@[i].dview());
        }
        return None;
    }
    assert forall|i: int| 0 <= i < data@.len() implies height(#[trigger] data@[i].dview()) < usize::MAX by {}
    let nodes = nodes_from(data.as_slice());
    assert forall|i: int| 0 <= i < data_view(data@).len() implies height(#[trigger] data_view(data@)[i]) < usize::MAX by {
        assert(data_view(data@)[i] == data@[i].dview());
    }
    Some(nodes)
}

/// `b` is `a` shown as source: the lines of the printed source, one node
/// each at depth 0; the cursor on the line where its node starts, at the
/// column of its text there, within the line; the view centred on it.
pub open spec fn sourced(a: App, b: App) -> bool {
    let v = nodes_view(a.nodes@);
    let (src, pos) = scheme_spec(v);
    let w = source_nodes(lines_spec(src));
    let line = position_back(pos, a.cursor as int).0 as int;
    let column = source_column(v, a.cursor as int, a.cursor_col as int, pos);
    &&& nodes_view(b.nodes@) == w
    &&& b.cursor == (if line < w.len() { line } else { w.len() - 1 })
    &&& b.cursor_col == (if column <= b.cur_text().len() {
        column
    } else {
        b.cur_text().len() as int
    })
    &&& b.scroll == b.centered_scroll()
    &&& b == (App {
        nodes: b.nodes,
        cursor: b.cursor,
        cursor_col: b.cursor_col,
        source_mode: true,
        scroll: b.scroll,
        ..a
    })
}

/// `b` is `a`'s source lines read back into a tree: the nodes of what the
/// lines read as, the cursor at the node that starts nearest above the
/// line it was on, the view centred on it; a text that does not read, or
/// nests too deeply, leaves everything but the message as it was.
pub open spec fn parsed_back(a: App, b: App) -> bool {
    let text = joined_lines(nodes_view(a.nodes@));
    let deep = "cannot parse back into a tree: nested too deeply"@;
    if text.len() > usize::MAX - 8 {
        b.message@ == deep && b == (App { message: b.message, ..a })
    } else {
        match parse_text(text) {
            Ok((data, _)) => if tree_fits(data) {
                let w = nodes_from_spec(data);
                &&& nodes_view(b.nodes@) == w
                &&& b.cursor == best_line(scheme_spec(w).1, a.cursor as int, w.len() as int).0
                &&& b.cursor_col == 0
                &&& b.scroll == b.centered_scroll()
                &&& b == (App {
                    nodes: b.nodes,
                    cursor: b.cursor,
                    cursor_col: 0,
                    source_mode: false,
                    scroll: b.scroll,
                    ..a
                })
            } else {
                b.message@ == deep && b == (App { message: b.message, ..a })
            },
            Err(e) => b.message@ == "cannot parse back into a tree: "@ + error_text(e) && b == (App { message: b.message, ..a }),
        }
    }
}

pub open spec fn toggled(s0: App, s1: App) -> bool {
    &&& history_kept(s0, s1)
    &&& s1.register@ == s0.register@
    &&& s1.source_register@ == s0.source_register@
    &&& s1.mode == s0.mode
    &&& (s0.source_mode ==> parsed_back(s0, s1))
    &&& (!s0.source_mode ==> sourced(s0, s1))
}

impl App {
    /// The direct children of `index`, in order.
    pub fn children(&self, index: usize) -> (r: Vec<usize>)
        requires
            index < self.nodes@.len(),
        ensures
            r@.map_values(|k: usize| k as int) == children_spec(nodes_view(self.nodes@), index as int),
            r@.len() == children_spec(nodes_view(self.nodes@), index as int).len(),
            forall|k: int| 0 <= k < r@.len() ==> #[trigger] r@[k] as int == children_spec(nodes_view(self.nodes@), index as int)[k],
            forall|k: int| 0 <= k < r@.len() ==> index < #[trigger] r@[k] < self.nodes@.len(),
            forall|k: int, l: int| 0 <= k < l < r@.len() ==> r@[k] < r@[l],
    {
        let ghost v = nodes_view(self.nodes@);
        let n = self.nodes.len();
        let depth = self.nodes[index].depth;
        let mut result: Vec<usize> = Vec::new();
        let mut i = index + 1;
        while i < n && self.nodes[i].depth > depth
            invariant
                index < i <= n,
                n == self.nodes@.len(),
                v == nodes_view(self.nodes@),
                depth == v[index as int].depth,
                result@.map_values(|k: usize| k as int) + child_scan(v, depth as nat, i as int)
                    == children_spec(v, index as int),
            decreases n - i,
        {
            let child_depth = self.nodes[i].depth;
            if child_depth == depth + 1 {
                let ghost before = result@;
                result.push(i);
                assert(result@.map_values(|k: usize| k as int) =~= before.map_values(|k: usize| k as int)
                    + seq![i as int]);
                assert(child_scan(v, depth as nat, i as int) == seq![i as int] + child_scan(
                    v,
                    depth as nat,
                    i + 1,
                ));
                assert(result@.map_values(|k: usize| k as int) + child_scan(v, depth as nat, i + 1)
                    =~= before.map_values(|k: usize| k as int) + child_scan(v, depth as nat, i as int));
            }
            i = i + 1;
        }
        assert(child_scan(v, depth as nat, i as int) =~= Seq::<int>::empty());
        assert(result@.map_values(|k: usize| k as int) =~= result@.map_values(|k: usize| k as int)
            + Seq::<int>::empty());
        proof {
            lemma_children(v, index as int);
            let m = result@.map_values(|k: usize| k as int);
            assert forall|k: int| 0 <= k < result@.len() implies #[trigger] result@[k] as int == children_spec(v, index as int)[k] by {
                assert(m[k] == result@[k] as int);
            }
            assert forall|k: int| 0 <= k < result@.len() implies index < #[trigger] result@[k] < self.nodes@.len() by {
                assert(m[k] == result@[k] as int);
                assert(index < children_spec(v, index as int)[k] < v.len());
            }
            assert forall|k: int, l: int| 0 <= k < l < result@.len() implies result@[k] < result@[l] by {
                assert(m[k] == result@[k] as int);
                assert(m[l] == result@[l] as int);
            }
        }
        result
    }

    /// Whether node `index` is a mark that holds its elements directly.
    pub fn is_marker(&self, index: usize) -> (r: bool)
        requires
            index < self.nodes@.len(),
        ensures
            r == is_marker_spec(ttext(nodes_view(self.nodes@), index as int)),
    {
        let t = trim(&self.nodes[index].text);
        assert(t@ == ttext(nodes_view(self.nodes@), index as int));
        marker_text(&t)
    }

    /// Node `index` as an S-expression on one line.
    pub fn flat(&self, index: usize) -> (r: Vec<char>)
        requires
            index < self.nodes@.len(),
        ensures
            r@ == flat_spec(nodes_view(self.nodes@), index as int),
        decreases self.nodes@.len() - index,
    {
        let ghost v = nodes_view(self.nodes@);
        let t = trim(&self.nodes[index].text);
        let children = self.children(index);
        assert(t@ == ttext(v, index as int));
        assert(children@.map_values(|k: usize| k as int).skip(0) =~= children_spec(v, index as int));
        proof {
            reveal_strlit("(");
            reveal_strlit(")");
            reveal_strlit(" ");
        }
        let mut out: Vec<char> = Vec::new();
        if marker_text(&t) {
            let runs = children.len() == 1 && {
                let c = trim(&self.nodes[children[0]].text);
                assert(c@ == ttext(v, children@[0] as int));
                marker_text(&c) || c.len() == 0
            };
            assert(runs == runs_on(v, index as int));
            if runs {
                let mut rest = self.flat(children[0]);
                out = t;
                out.append(&mut rest);
                return out;
            }
            let ghost tt = t@;
            out = t;
            out.push('(');
            let mut list = self.flat_list(index, &children, 0);
            let ghost lv = list@;
            out.append(&mut list);
            out.push(')');
            assert(out@ =~= tt + "("@ + lv + ")"@) by {
                reveal_strlit("(");
                reveal_strlit(")");
            }
            return out;
        }
        if t.len() > 0 && children.len() == 0 {
            return t;
        }
        out.push('(');
        if t.len() > 0 {
            let mut t = t;
            out.append(&mut t);
            out.push(' ');
        }
        let ghost tt = t@;
        let mut list = self.flat_list(index, &children, 0);
        let ghost lv = list@;
        out.append(&mut list);
        out.push(')');
        assert(tt.len() > 0 ==> out@ =~= "("@ + tt + " "@ + lv + ")"@);
        assert(tt.len() == 0 ==> out@ =~= "("@ + lv + ")"@);
        out
    }

    /// The children from `from` on, each on one line, with a space
    /// between.
    fn flat_list(&self, lo: usize, cs: &Vec<usize>, from: usize) -> (r: Vec<char>)
        requires
            lo < self.nodes@.len(),
            from <= cs@.len(),
            forall|k: int| 0 <= k < cs@.len() ==> lo < #[trigger] cs@[k] < self.nodes@.len(),
        ensures
            r@ == flat_list(nodes_view(self.nodes@), lo as int, cs@.map_values(|k: usize| k as int).skip(from as int)),
        decreases self.nodes@.len() - lo, cs@.len() - from,
    {
        let ghost v = nodes_view(self.nodes@);
        let ghost rest = cs@.map_values(|k: usize| k as int).skip(from as int);
        assert(rest.len() == cs@.len() - from);
        if from >= cs.len() {
            assert(rest.len() == 0);
            return Vec::new();
        }
        assert(rest[0] == cs@[from as int] as int);
        let mut out = self.flat(cs[from]);
        if from + 1 < cs.len() {
            let ghost first = out@;
            out.push(' ');
            let mut more = self.flat_list(lo, cs, from + 1);
            assert(rest.drop_first() =~= cs@.map_values(|k: usize| k as int).skip(from + 1));
            let ghost mv = more@;
            out.append(&mut more);
            assert(out@ =~= first + " "@ + mv) by {
                reveal_strlit(" ");
            }
        }
        out
    }

    /// How the children of node `index` are laid out when they break.
    pub fn indent_style(&self, index: usize) -> (r: Indent)
        requires
            index < self.nodes@.len(),
        ensures
            r == indent_style_spec(nodes_view(self.nodes@), index as int),
    {
        let ghost v = nodes_view(self.nodes@);
        let t = trim(&self.nodes[index].text);
        assert(t@ == ttext(v, index as int));
        let s = t.as_slice();
        if same_text(s, "let") {
            let children = self.children(index);
            if children.len() > 0 {
                let first = children[0];
                let c = trim(&self.nodes[first].text);
                assert(c@ == ttext(v, first as int));
                if c.len() > 0 && self.children(first).len() == 0 {
                    return Indent::Body(2);
                }
            }
        }
        if same_text(s, "define") || same_text(s, "lambda") || same_text(s, "let") || same_text(s, "let*")
            || same_text(s, "letrec") || same_text(s, "letrec*") || same_text(s, "when")
            || same_text(s, "unless") || same_text(s, "case") {
            Indent::Body(1)
        } else if same_text(s, "do") {
            Indent::Body(2)
        } else if same_text(s, "begin") {
            Indent::Body(0)
        } else {
            Indent::Align
        }
    }

    /// Prints node `index` after `output`, recording where each printed
    /// node starts.
    #[verifier::rlimit(80)]
    pub fn write_pretty(&self, index: usize, output: &mut Vec<char>, positions: &mut Vec<Option<(usize, usize)>>)
        requires
            index < self.nodes@.len(),
            old(positions)@.len() == self.nodes@.len(),
        ensures
            (final(output)@, final(positions)@) == pp(nodes_view(self.nodes@), index as int, old(output)@, old(positions)@),
            final(positions)@.len() == self.nodes@.len(),
        decreases self.nodes@.len() - index + 1, 0int,
    {
        let ghost v = nodes_view(self.nodes@);
        let ghost out0 = output@;
        let ghost pos0 = positions@;
        let indent = column_of(output.as_slice());
        let line = count_newlines(output);
        positions.set(index, Some((line, indent)));
        assert(positions@ == mark(out0, pos0, index as int));
        let ghost pos1 = positions@;
        let t = trim(&self.nodes[index].text);
        let children = self.children(index);
        let ghost cs = children_spec(v, index as int);
        let ghost tt = t@;
        assert(tt == ttext(v, index as int));
        proof {
            reveal_strlit("(");
            reveal_strlit(")");
            reveal_strlit(" ");
            lemma_column_le(out0);
        }
        if marker_text(&t) {
            let runs = children.len() == 1 && {
                let c = trim(&self.nodes[children[0]].text);
                assert(c@ == ttext(v, children@[0] as int));
                marker_text(&c) || c.len() == 0
            };
            assert(runs == runs_on(v, index as int));
            if runs {
                let mut t = t;
                output.append(&mut t);
                self.write_pretty(children[0], output, positions);
                return;
            }
            let mut flat = self.flat(index);
            let ghost fv = flat@;
            if children.len() == 0 || (indent <= WIDTH && flat.len() <= WIDTH - indent) {
                output.append(&mut flat);
                return;
            }
            let mut t = t;
            output.append(&mut t);
            output.push('(');
            let ghost o1 = output@;
            assert(o1 =~= out0 + tt + "("@);
            let column = column_of(output.as_slice());
            self.write_pretty(children[0], output, positions);
            let ghost r = (output@, positions@);
            assert(cs.drop_first() =~= children@.map_values(|k: usize| k as int).skip(1));
            self.write_children(index, &children, 1, column, output, positions);
            output.push(')');
            return;
        }
        let mut flat = self.flat(index);
        if children.len() == 0 || (!always_break(t.as_slice()) && indent <= WIDTH && flat.len() <= WIDTH - indent) {
            output.append(&mut flat);
            return;
        }
        output.push('(');
        let mut t2 = t.clone();
        assert(t2@ =~= tt);
        output.append(&mut t2);
        let ghost o1 = output@;
        assert(o1 =~= out0 + "("@ + tt);
        let olen = output.len();
        let style = self.indent_style(index);
        match style {
            Indent::Body(count) => {
                let k = if count < children.len() { count } else { children.len() };
                proof {
                    reveal_strlit("define");
                    reveal_strlit("lambda");
                    reveal_strlit("let");
                    reveal_strlit("let*");
                    reveal_strlit("letrec");
                    reveal_strlit("letrec*");
                    reveal_strlit("when");
                    reveal_strlit("unless");
                    reveal_strlit("case");
                    reveal_strlit("do");
                    reveal_strlit("begin");
                }
                assert(tt.len() >= 2);
                assert(cs.take(k as int) =~= children@.map_values(|x: usize| x as int).subrange(0, k as int));
                self.write_heads(index, &children, 0, k, output, positions);
                let ghost r = (output@, positions@);
                assert(r == pp_heads(v, index as int, cs.take(k as int), o1, pos1));
                assert(cs.skip(k as int) =~= children@.map_values(|x: usize| x as int).skip(k as int));
                self.write_children(index, &children, k, indent + 2, output, positions);
                assert((output@, positions@) == pp_list(v, index as int, cs.skip(k as int), indent + 2, r.0, r.1));
                output.push(')');
                assert((output@, positions@) == pp(v, index as int, out0, pos0));
            },
            Indent::Align => {
                if t.len() > 0 {
                    output.push(' ');
                }
                let ghost o2 = output@;
                assert(o2 == if tt.len() > 0 { o1 + " "@ } else { o1 });
                let column = column_of(output.as_slice());
                self.write_pretty(children[0], output, positions);
                let ghost r = (output@, positions@);
                assert(r == pp(v, cs[0], o2, pos1));
                assert(cs.drop_first() =~= children@.map_values(|k: usize| k as int).skip(1));
                self.write_children(index, &children, 1, column, output, positions);
                assert((output@, positions@) == pp_list(v, index as int, cs.drop_first(), column as int, r.0, r.1));
                output.push(')');
                assert((output@, positions@) == pp(v, index as int, out0, pos0));
            },
        }
    }

    /// Prints the children `cs[from..to]` after `output`, each after a
    /// space.
    fn write_heads(&self, lo: usize, cs: &Vec<usize>, from: usize, to: usize, output: &mut Vec<char>, positions: &mut Vec<Option<(usize, usize)>>)
        requires
            lo < self.nodes@.len(),
            from <= to <= cs@.len(),
            forall|k: int| 0 <= k < cs@.len() ==> lo < #[trigger] cs@[k] < self.nodes@.len(),
            old(positions)@.len() == self.nodes@.len(),
        ensures
            (final(output)@, final(positions)@) == pp_heads(
                nodes_view(self.nodes@),
                lo as int,
                cs@.map_values(|k: usize| k as int).subrange(from as int, to as int),
                old(output)@,
                old(positions)@,
            ),
            final(positions)@.len() == self.nodes@.len(),
        decreases self.nodes@.len() - lo, to - from,
    {
        let ghost rest = cs@.map_values(|k: usize| k as int).subrange(from as int, to as int);
        if from >= to {
            return;
        }
        assert(rest[0] == cs@[from as int] as int);
        output.push(' ');
        proof {
            reveal_strlit(" ");
        }
        assert(output@ =~= old(output)@ + " "@);
        self.write_pretty(cs[from], output, positions);
        assert(rest.drop_first() =~= cs@.map_values(|k: usize| k as int).subrange(from + 1, to as int));
        self.write_heads(lo, cs, from + 1, to, output, positions);
    }

    /// Prints the children `cs[from..]` after `output`, each on a line of
    /// its own starting at `column`.
    fn write_children(&self, lo: usize, cs: &Vec<usize>, from: usize, column: usize, output: &mut Vec<char>, positions: &mut Vec<Option<(usize, usize)>>)
        requires
            lo < self.nodes@.len(),
            from <= cs@.len(),
            forall|k: int| 0 <= k < cs@.len() ==> lo < #[trigger] cs@[k] < self.nodes@.len(),
            old(positions)@.len() == self.nodes@.len(),
        ensures
            (final(output)@, final(positions)@) == pp_list(
                nodes_view(self.nodes@),
                lo as int,
                cs@.map_values(|k: usize| k as int).skip(from as int),
                column as int,
                old(output)@,
                old(positions)@,
            ),
            final(positions)@.len() == self.nodes@.len(),
        decreases self.nodes@.len() - lo, cs@.len() - from,
    {
        let ghost rest = cs@.map_values(|k: usize| k as int).skip(from as int);
        if from >= cs.len() {
            assert(rest.len() == 0);
            return;
        }
        assert(rest[0] == cs@[from as int] as int);
        output.push('\n');
        push_spaces(output, column);
        proof {
            reveal_strlit("\n");
        }
        assert(output@ =~= old(output)@ + "\n"@ + spaces(column as int));
        self.write_pretty(cs[from], output, positions);
        assert(rest.drop_first() =~= cs@.map_values(|k: usize| k as int).skip(from + 1));
        self.write_children(lo, cs, from + 1, column, output, positions);
    }

    /// Whether node `index` has a later sibling.
    pub fn has_next_sibling(&self, index: usize) -> (r: bool)
        requires
            index < self.nodes@.len(),
        ensures
            r == has_next_sibling_spec(nodes_view(self.nodes@), index as int),
    {
        let ghost v = nodes_view(self.nodes@);
        let n = self.nodes.len();
        let depth = self.nodes[index].depth;
        let mut i = index + 1;
        while i < n
            invariant
                index < i <= n == self.nodes@.len(),
                v == nodes_view(self.nodes@),
                depth == v[index as int].depth,
                next_sibling_scan(v, depth as nat, i as int) == has_next_sibling_spec(v, index as int),
            decreases n - i,
        {
            let other = self.nodes[i].depth;
            if other < depth {
                return false;
            }
            if other == depth {
                return true;
            }
            i = i + 1;
        }
        false
    }

    /// Whether node `index` is the last of its siblings.
    pub fn is_last_sibling(&self, index: usize) -> (r: bool)
        requires
            index < self.nodes@.len(),
        ensures
            r == !has_next_sibling_spec(nodes_view(self.nodes@), index as int),
    {
        !self.has_next_sibling(index)
    }

    /// The nearest node before `index` at depth `level + 1`, the ancestor
    /// whose rule the column `level` shows; 0 when there is none.
    pub fn find_ancestor(&self, index: usize, level: usize) -> (r: usize)
        requires
            index < self.nodes@.len(),
            level < usize::MAX,
        ensures
            r == ancestor_scan(nodes_view(self.nodes@), (level + 1) as nat, index as int),
            r < self.nodes@.len(),
    {
        let ghost v = nodes_view(self.nodes@);
        let target = level + 1;
        let mut i = index;
        while i > 0
            invariant
                i <= index < self.nodes@.len(),
                v == nodes_view(self.nodes@),
                target == level + 1,
                ancestor_scan(v, target as nat, i as int) == ancestor_scan(v, target as nat, index as int),
            decreases i,
        {
            let ghost before = i as int;
            i = i - 1;
            assert(v[i as int].depth == self.nodes@[i as int].depth);
            if self.nodes[i].depth == target {
                assert(ancestor_scan(v, target as nat, before) == i as int);
                return i;
            }
        }
        0
    }

    /// The box-drawing prefix of node `index` in the tree view.
    pub fn tree_prefix(&self, index: usize) -> (r: Vec<char>)
        requires
            index < self.nodes@.len(),
        ensures
            r@ == prefix_spec(nodes_view(self.nodes@), index as int),
    {
        let ghost v = nodes_view(self.nodes@);
        let depth = self.nodes[index].depth;
        let mut prefix: Vec<char> = Vec::new();
        let mut level: usize = 0;
        while level < depth
            invariant
                level <= depth == v[index as int].depth,
                index < self.nodes@.len(),
                v == nodes_view(self.nodes@),
                prefix@ == prefix_upto(v, index as int, level as int),
            decreases depth - level,
        {
            if level == depth - 1 {
                if self.is_last_sibling(index) {
                    push_str(&mut prefix, "└── ");
                } else {
                    push_str(&mut prefix, "├── ");
                }
            } else {
                let ancestor = self.find_ancestor(index, level);
                if self.has_next_sibling(ancestor) {
                    push_str(&mut prefix, "│   ");
                } else {
                    push_str(&mut prefix, "    ");
                }
            }
            level = level + 1;
        }
        prefix
    }

    /// The line of node `index` in the view.
    pub fn tree_line(&self, index: usize) -> (r: Vec<char>)
        requires
            index < self.nodes@.len(),
        ensures
            r@ == line_spec(nodes_view(self.nodes@), index as int, self.source_mode),
    {
        let mut line = self.tree_prefix(index);
        let ghost p = line@;
        if self.nodes[index].text.len() == 0 && !self.source_mode {
            push_str(&mut line, "◦");
        } else {
            let mut t = self.nodes[index].text.clone();
            assert(t@ =~= self.nodes@[index as int].text@);
            line.append(&mut t);
        }
        line
    }

    /// The lines of the view, without the cursor.
    pub fn tree_lines(&self) -> (r: Vec<String>)
        ensures
            r@.len() == self.nodes@.len(),
            forall|i: int| 0 <= i < r@.len() ==> #[trigger] r@[i]@ == line_spec(nodes_view(self.nodes@), i, self.source_mode),
    {
        let mut lines: Vec<String> = Vec::new();
        let mut index: usize = 0;
        while index < self.nodes.len()
            invariant
                index <= self.nodes@.len(),
                lines@.len() == index,
                forall|i: int| 0 <= i < index ==> #[trigger] lines@[i]@ == line_spec(nodes_view(self.nodes@), i, self.source_mode),
            decreases self.nodes@.len() - index,
        {
            let line = self.tree_line(index);
            lines.push(string_from(line.as_slice()));
            index = index + 1;
        }
        lines
    }

    /// The Scheme source of the nodes, and where each node starts in it:
    /// the top-level nodes one after another with a blank line between.
    pub fn to_scheme_with_positions(&self) -> (r: (Vec<char>, Vec<Option<(usize, usize)>>))
        ensures
            (r.0@, r.1@) == scheme_spec(nodes_view(self.nodes@)),
            r.1@.len() == self.nodes@.len(),
    {
        let ghost v = nodes_view(self.nodes@);
        let n = self.nodes.len();
        let mut output: Vec<char> = Vec::new();
        let mut positions: Vec<Option<(usize, usize)>> = Vec::new();
        let mut k: usize = 0;
        while k < n
            invariant
                k <= n == self.nodes@.len(),
                positions@.len() == k,
                forall|j: int| 0 <= j < k ==> positions@[j] is None,
            decreases n - k,
        {
            positions.push(None);
            k = k + 1;
        }
        let ghost pos0 = positions@;
        assert(pos0 =~= Seq::new(v.len(), |i: int| None));
        let mut index: usize = 0;
        while index < n
            invariant
                index <= n == self.nodes@.len(),
                v == nodes_view(self.nodes@),
                positions@.len() == n,
                (output@, positions@) == pp_top(v, index as int, Seq::empty(), pos0),
            decreases n - index,
        {
            let ghost r = (output@, positions@);
            assert(v[index as int].depth == self.nodes@[index as int].depth);
            if self.nodes[index].depth == 0 {
                if output.len() > 0 {
                    output.push('\n');
                    output.push('\n');
                    proof {
                        reveal_strlit("\n\n");
                    }
                    assert(output@ =~= r.0 + "\n\n"@);
                }
                self.write_pretty(index, &mut output, &mut positions);
            }
            index = index + 1;
        }
        (output, positions)
    }

    /// The Scheme source of the nodes.
    pub fn to_scheme(&self) -> (r: String)
        ensures
            r@ == scheme_spec(nodes_view(self.nodes@)).0,
    {
        let (source, _) = self.to_scheme_with_positions();
        string_from(source.as_slice())
    }

    /// The lines of the nodes joined with line breaks, as the source view
    /// holds them.
    pub fn joined_text(&self) -> (r: Vec<char>)
        ensures
            r@ == joined_lines(nodes_view(self.nodes@)),
    {
        let ghost v = nodes_view(self.nodes@);
        let mut out: Vec<char> = Vec::new();
        let mut i: usize = 0;
        proof {
            reveal_strlit("\n");
        }
        while i < self.nodes.len()
            invariant
                i <= self.nodes@.len(),
                v == nodes_view(self.nodes@),
                out@ == joined_lines(v.take(i as int)),
            decreases self.nodes@.len() - i,
        {
            let ghost before = out@;
            assert(v.take(i + 1).drop_last() =~= v.take(i as int));
            assert(v.take(i + 1).last() == v[i as int]);
            if i > 0 {
                out.push('\n');
            }
            let mut t = self.nodes[i].text.clone();
            assert(t@ =~= v[i as int].text);
            out.append(&mut t);
            proof {
                if i == 0 {
                    assert(out@ =~= joined_lines(v.take(1)));
                } else {
                    reveal_strlit("\n");
                    assert(out@ =~= before + "\n"@ + v[i as int].text);
                }
            }
            i = i + 1;
        }
        assert(v.take(self.nodes@.len() as int) =~= v);
        out
    }

    /// F2 from the tree: the nodes become the lines of their source, at
    /// depth 0, and the cursor goes where its node is printed.
    #[verifier::rlimit(40)]
    pub fn tree_to_source(&mut self)
        requires
            old(self).wf(),
        ensures
            final(self).wf(),
            sourced(*old(self), *final(self)),
    {
        let ghost v = nodes_view(self.nodes@);
        let (source, positions) = self.to_scheme_with_positions();
        let cur = self.cursor;
        let (line, start) = position_of(cur, &positions);
        let column: usize = if positions[cur].is_some() {
            let t = trim(&self.nodes[cur].text);
            assert(t@ == ttext(v, cur as int));
            let has_paren = !self.is_marker(cur) && (self.children(cur).len() > 0 || t.len() == 0);
            let paren: usize = if has_paren && t.len() > 0 { 1 } else { 0 };
            let a = if start <= usize::MAX - paren { start + paren } else { usize::MAX };
            if a <= usize::MAX - self.cursor_col { a + self.cursor_col } else { usize::MAX }
        } else {
            start
        };
        let lines = split_into_lines(&source);
        let mut nodes: Vec<Node> = Vec::new();
        let mut k: usize = 0;
        while k < lines.len()
            invariant
                k <= lines@.len(),
                lines@.len() == lines_spec(source@).len(),
                forall|i: int| 0 <= i < lines@.len() ==> #[trigger] lines@[i]@ == lines_spec(source@)[i],
                nodes@.len() == k,
                forall|i: int| 0 <= i < k ==> #[trigger] nodes@[i]@ == nv(lines_spec(source@)[i], 0),
            decreases lines@.len() - k,
        {
            let text = lines[k].clone();
            assert(text@ =~= lines@[k as int]@);
            nodes.push(Node { text, depth: 0 });
            k = k + 1;
        }
        if nodes.len() == 0 {
            nodes.push(Node::empty(0));
        }
        assert(nodes_view(nodes@) =~= source_nodes(lines_spec(source@)));
        self.nodes = nodes;
        let last = self.nodes.len() - 1;
        self.cursor = if line < last { line } else { last };
        let tl = self.nodes[self.cursor].text.len();
        self.cursor_col = if column <= tl { column } else { tl };
        self.source_mode = true;
        self.center_on_cursor();
    }

    /// F2 from the source: the lines are read back into a tree and the
    /// cursor goes to the node printed nearest above its line. Lines that
    /// do not read back leave the source view as it is, with a message.
    #[verifier::rlimit(40)]
    pub fn source_to_tree(&mut self)
        requires
            old(self).wf(),
        ensures
            final(self).wf(),
            parsed_back(*old(self), *final(self)),
    {
        let text = self.joined_text();
        let line = self.cursor;
        if text.len() > usize::MAX - 8 {
            let mut message: Vec<char> = Vec::new();
            push_str(&mut message, "cannot parse back into a tree: nested too deeply");
            self.message = message;
            return;
        }
        let source = string_from(text.as_slice());
        let reading = match read(source.as_str()) {
            Ok(reading) => reading,
            Err(error) => {
                let mut message: Vec<char> = Vec::new();
                push_str(&mut message, "cannot parse back into a tree: ");
                push_str(&mut message, error.as_str());
                self.message = message;
                return;
            },
        };
        let nodes = match tree_of(&reading.data) {
            Some(nodes) => nodes,
            None => {
                let mut message: Vec<char> = Vec::new();
                push_str(&mut message, "cannot parse back into a tree: nested too deeply");
                self.message = message;
                return;
            },
        };
        self.nodes = nodes;
        let (_, positions) = self.to_scheme_with_positions();
        self.cursor = node_at_line(&positions, line);
        self.cursor_col = 0;
        self.source_mode = false;
        self.center_on_cursor();
    }

    /// F2: switches between the tree and the source view.
    pub fn toggle_source_view(&mut self)
        requires
            old(self).wf(),
        ensures
            final(self).wf(),
            toggled(*old(self), *final(self)),
    {
        if self.source_mode {
            self.source_to_tree();
        } else {
            self.tree_to_source();
        }
    }
}

/// The nodes of symbols at the top level, one each.
pub open spec fn top_nodes(ts: Seq<Seq<char>>) -> Seq<NodeView> {
    Seq::new(ts.len(), |i: int| nv(ts[i], 0))
}

proof fn lemma_leaf_printed(ts: Seq<Seq<char>>, i: int, out: Seq<char>, pos: Positions)
    requires
        0 <= i < ts.len(),
        forall|k: int| 0 <= k < ts.len() ==> plain_symbol(#[trigger] ts[k]),
    ensures
        pp(top_nodes(ts), i, out, pos).0 == out + ts[i],
{
    let v = top_nodes(ts);
    let t = ts[i];
    assert(plain_symbol(t));
    assert(!is_delim(t[0]));
    assert(!is_delim(t.last()));
    assert(trim_front(t) == t);
    assert(trim_back(t) == t);
    assert(ttext(v, i) == t);
    reveal_strlit("'");
    reveal_strlit("`");
    reveal_strlit(",");
    reveal_strlit(",@");
    reveal_strlit("#;");
    reveal_strlit("#");
    reveal_strlit("#u8");
    assert(!is_marker_spec(t));
    assert(children_spec(v, i) =~= Seq::<int>::empty());
    assert(flat_spec(v, i) == t);
}

proof fn lemma_top_printed(ts: Seq<Seq<char>>, k: int, pos: Positions)
    requires
        0 <= k <= ts.len(),
        forall|i: int| 0 <= i < ts.len() ==> plain_symbol(#[trigger] ts[i]),
    ensures
        pp_top(top_nodes(ts), k, Seq::empty(), pos).0 == symbols_text(ts.take(k)),
    decreases k,
{
    if k == 0 {
        assert(ts.take(0) =~= Seq::<Seq<char>>::empty());
    } else {
        let v = top_nodes(ts);
        lemma_top_printed(ts, k - 1, pos);
        let r = pp_top(v, k - 1, Seq::empty(), pos);
        let o = if r.0.len() > 0 { r.0 + "\n\n"@ } else { r.0 };
        lemma_leaf_printed(ts, k - 1, o, r.1);
        assert(ts.take(k).drop_last() =~= ts.take(k - 1));
        if k == 1 {
            assert(ts.take(0) =~= Seq::<Seq<char>>::empty());
            assert(ts.take(1).len() == 1);
            assert(o + ts[0] =~= ts[0]);
        } else {
            assert(plain_symbol(ts[k - 2]));
            assert(ts.take(k - 1).last() == ts[k - 2]);
            assert(ts.take(k - 1).len() >= 2 ==> symbols_text(ts.take(k - 1)).len() >= ts[k - 2].len());
            assert(symbols_text(ts.take(k - 1)).len() > 0);
        }
    }
}

proof fn lemma_atoms_emitted(ts: Seq<Seq<char>>, k: nat)
    ensures
        crate::node::emit_all_spec(atoms_of(ts), k) == Seq::new(ts.len(), |i: int| nv(ts[i], k)),
    decreases ts.len(),
{
    if ts.len() > 0 {
        lemma_atoms_emitted(ts.drop_first(), k);
        assert(atoms_of(ts).drop_first() =~= atoms_of(ts.drop_first()));
        assert(Seq::new(ts.len(), |i: int| nv(ts[i], k)) =~= seq![nv(ts[0], k)] + Seq::new(
            ts.drop_first().len(),
            |i: int| nv(ts.drop_first()[i], k),
        ));
        assert(atoms_of(ts)[0] == SDatum::Atom(ts[0]));
        assert(crate::node::emit_spec(atoms_of(ts)[0], k) =~= seq![nv(ts[0], k)]);
        assert(crate::node::emit_all_spec(atoms_of(ts), k) == crate::node::emit_spec(atoms_of(ts)[0], k)
            + crate::node::emit_all_spec(atoms_of(ts).drop_first(), k));
    } else {
        assert(Seq::new(ts.len(), |i: int| nv(ts[i], k)) =~= Seq::<NodeView>::empty());
        assert(atoms_of(ts) =~= Seq::<SDatum>::empty());
    }
}

/// Symbols (not empty, with no white space or other delimiter, not
/// starting with `#`) at the top level, a blank line between each two,
/// read as their atoms, make one node each at the top, and print back as
/// the same text; so reading and printing again gives it again.
pub proof fn lemma_symbols_round_trip(ts: Seq<Seq<char>>)
    requires
        ts.len() > 0,
        forall|i: int| 0 <= i < ts.len() ==> plain_symbol(#[trigger] ts[i]),
    ensures
        parse_text(symbols_text(ts)) == Ok::<(Seq<SDatum>, nat), crate::reader::ReadError>((atoms_of(ts), 0nat)),
        nodes_from_spec(atoms_of(ts)) == top_nodes(ts),
        scheme_spec(top_nodes(ts)).0 == symbols_text(ts),
{
    lemma_symbols_read(ts);
    lemma_atoms_emitted(ts, 0);
    assert(top_nodes(ts) =~= Seq::new(ts.len(), |i: int| nv(ts[i], 0)));
    let v = top_nodes(ts);
    lemma_top_printed(ts, ts.len() as int, Seq::new(v.len(), |i: int| None));
    assert(ts.take(ts.len() as int) =~= ts);
}

/// The nodes of a list of symbols: the head at the top, the others as
/// its children.
pub open spec fn list_nodes(h: Seq<char>, args: Seq<Seq<char>>) -> Seq<NodeView> {
    seq![nv(h, 0)] + Seq::new(args.len(), |i: int| nv(args[i], 1))
}

proof fn lemma_args_scanned(h: Seq<char>, args: Seq<Seq<char>>, i: int)
    requires
        1 <= i <= args.len() + 1,
    ensures
        child_scan(list_nodes(h, args), 0, i) == Seq::new((args.len() + 1 - i) as nat, |k: int| i + k),
    decreases args.len() + 1 - i,
{
    let v = list_nodes(h, args);
    if i <= args.len() {
        lemma_args_scanned(h, args, i + 1);
        assert(v[i].depth == 1);
        assert(Seq::new((args.len() + 1 - i) as nat, |k: int| i + k) =~= seq![i] + Seq::new(
            (args.len() + 1 - (i + 1)) as nat,
            |k: int| i + 1 + k,
        ));
    } else {
        assert(Seq::new((args.len() + 1 - i) as nat, |k: int| i + k) =~= Seq::<int>::empty());
    }
}

proof fn lemma_arg_flat(h: Seq<char>, args: Seq<Seq<char>>, j: int)
    requires
        1 <= j <= args.len(),
        forall|k: int| 0 <= k < args.len() ==> plain_symbol(#[trigger] args[k]),
    ensures
        flat_spec(list_nodes(h, args), j) == args[j - 1],
{
    let v = list_nodes(h, args);
    let t = args[j - 1];
    assert(v[j] == nv(t, 1));
    assert(plain_symbol(t));
    assert(!is_delim(t[0]));
    assert(!is_delim(t.last()));
    assert(trim_front(t) == t);
    assert(trim_back(t) == t);
    assert(ttext(v, j) == t);
    reveal_strlit("'");
    reveal_strlit("`");
    reveal_strlit(",");
    reveal_strlit(",@");
    reveal_strlit("#;");
    reveal_strlit("#");
    reveal_strlit("#u8");
    assert(!is_marker_spec(t));
    if j + 1 < v.len() {
        assert(v[j + 1].depth == 1);
    }
    assert(children_spec(v, j) =~= Seq::<int>::empty());
}

proof fn lemma_args_flat(h: Seq<char>, args: Seq<Seq<char>>, i: int)
    requires
        1 <= i <= args.len(),
        forall|k: int| 0 <= k < args.len() ==> plain_symbol(#[trigger] args[k]),
    ensures
        flat_list(list_nodes(h, args), 0, child_scan(list_nodes(h, args), 0, i)) == spaced(args.skip(i - 1)),
    decreases args.len() - i,
{
    let v = list_nodes(h, args);
    let cs = child_scan(v, 0, i);
    lemma_args_scanned(h, args, i);
    lemma_arg_flat(h, args, i);
    assert(cs[0] == i);
    if i == args.len() {
        assert(cs.len() == 1);
        assert(args.skip(i - 1) =~= seq![args[i - 1]]);
    } else {
        lemma_args_scanned(h, args, i + 1);
        lemma_args_flat(h, args, i + 1);
        assert(cs.drop_first() =~= child_scan(v, 0, i + 1));
        assert(args.skip(i - 1).drop_first() =~= args.skip(i));
        assert(args.skip(i - 1)[0] == args[i - 1]);
    }
}

proof fn lemma_list_top(h: Seq<char>, args: Seq<Seq<char>>, k: int, pos: Positions)
    requires
        1 <= k <= args.len() + 1,
    ensures
        pp_top(list_nodes(h, args), k, Seq::empty(), pos) == pp_top(list_nodes(h, args), 1, Seq::empty(), pos),
    decreases k,
{
    if k > 1 {
        lemma_list_top(h, args, k - 1, pos);
        assert(list_nodes(h, args)[k - 1].depth == 1);
    }
}

/// A list of symbols (not empty, with no white space or other delimiter,
/// not starting with `#`) that fits on one line and whose head is not a
/// form whose body always goes on lines of its own reads as one list of
/// atoms, makes the head's node with the others as its children, and
/// prints back as the same text; so reading and printing again gives it
/// again.
pub proof fn lemma_list_round_trip(h: Seq<char>, args: Seq<Seq<char>>)
    requires
        plain_symbol(h),
        args.len() >= 1,
        forall|i: int| 0 <= i < args.len() ==> plain_symbol(#[trigger] args[i]),
        !spec_always_break(h),
        ("("@ + spaced(seq![h] + args) + ")"@).len() <= WIDTH,
    ensures
        parse_text("("@ + spaced(seq![h] + args) + ")"@) == Ok::<(Seq<SDatum>, nat), crate::reader::ReadError>(
            (seq![SDatum::List(atoms_of(seq![h] + args))], 0nat),
        ),
        nodes_from_spec(seq![SDatum::List(atoms_of(seq![h] + args))]) == list_nodes(h, args),
        scheme_spec(list_nodes(h, args)).0 == "("@ + spaced(seq![h] + args) + ")"@,
{
    let ws = seq![h] + args;
    assert forall|i: int| 0 <= i < ws.len() implies plain_symbol(#[trigger] ws[i]) by {
        if i > 0 {
            assert(ws[i] == args[i - 1]);
        }
    }
    lemma_spaced_list_reads(ws);
    assert(ws.drop_first() =~= args);
    assert(spaced(ws) == h + " "@ + spaced(args));
    let items = atoms_of(ws);
    assert(items.drop_first() =~= atoms_of(args));
    assert(items[0] == SDatum::Atom(h));
    lemma_atoms_emitted(args, 1);
    let d = SDatum::List(items);
    assert(crate::node::emit_spec(d, 0) == seq![nv(h, 0)] + crate::node::emit_all_spec(items.drop_first(), 1));
    assert(crate::node::emit_spec(d, 0) =~= list_nodes(h, args));
    assert(seq![d].drop_first() =~= Seq::<SDatum>::empty());
    assert(crate::node::emit_all_spec(Seq::<SDatum>::empty(), 0) =~= Seq::<NodeView>::empty());
    assert(crate::node::emit_all_spec(seq![d], 0) == crate::node::emit_spec(d, 0) + crate::node::emit_all_spec(
        seq![d].drop_first(),
        0,
    ));
    assert(crate::node::emit_all_spec(seq![d], 0) =~= list_nodes(h, args));
    let v = list_nodes(h, args);
    let pos = Seq::new(v.len(), |i: int| None);
    lemma_list_top(h, args, v.len() as int, pos);
    assert(pp_top(v, 0, Seq::empty(), pos) == (Seq::<char>::empty(), pos));
    assert(!is_delim(h[0]));
    assert(!is_delim(h.last()));
    assert(trim_front(h) == h);
    assert(trim_back(h) == h);
    assert(ttext(v, 0) == h);
    reveal_strlit("'");
    reveal_strlit("`");
    reveal_strlit(",");
    reveal_strlit(",@");
    reveal_strlit("#;");
    reveal_strlit("#");
    reveal_strlit("#u8");
    assert(!is_marker_spec(h));
    lemma_args_scanned(h, args, 1);
    lemma_args_flat(h, args, 1);
    assert(args.skip(0) =~= args);
    assert(children_spec(v, 0) == child_scan(v, 0, 1));
    assert(flat_spec(v, 0) == "("@ + h + " "@ + spaced(args) + ")"@);
    assert(column(Seq::<char>::empty()) == 0);
    assert("("@ + spaced(ws) + ")"@ =~= "("@ + h + " "@ + spaced(args) + ")"@);
    assert(Seq::<char>::empty() + flat_spec(v, 0) =~= flat_spec(v, 0));
}

proof fn lemma_quoted_atoms_emitted(ts: Seq<Seq<char>>, k: nat)
    ensures
        crate::node::emit_quoted_all_spec(atoms_of(ts), k) == Seq::new(ts.len(), |i: int| nv(ts[i], k)),
    decreases ts.len(),
{
    if ts.len() > 0 {
        lemma_quoted_atoms_emitted(ts.drop_first(), k);
        assert(atoms_of(ts).drop_first() =~= atoms_of(ts.drop_first()));
        assert(Seq::new(ts.len(), |i: int| nv(ts[i], k)) =~= seq![nv(ts[0], k)] + Seq::new(
            ts.drop_first().len(),
            |i: int| nv(ts.drop_first()[i], k),
        ));
        assert(atoms_of(ts)[0] == SDatum::Atom(ts[0]));
        assert(crate::node::emit_quoted_spec(atoms_of(ts)[0], k) =~= seq![nv(ts[0], k)]);
        assert(crate::node::emit_quoted_all_spec(atoms_of(ts), k) == crate::node::emit_quoted_spec(atoms_of(ts)[0], k)
            + crate::node::emit_quoted_all_spec(atoms_of(ts).drop_first(), k));
    } else {
        assert(Seq::new(ts.len(), |i: int| nv(ts[i], k)) =~= Seq::<NodeView>::empty());
        assert(atoms_of(ts) =~= Seq::<SDatum>::empty());
    }
}

/// A quote, quasiquote, unquote (`,`) or unquote-splicing mark before a
/// list of symbols (not empty, with no white space or other delimiter,
/// not starting with `#`) that fits on one line reads as the mark around
/// the list, makes the mark's node with the symbols as its children, and
/// prints back as the same text, the mark written directly before the
/// list's parentheses.
pub proof fn lemma_marked_list_round_trip(m: Seq<char>, ws: Seq<Seq<char>>)
    requires
        quote_mark(m),
        ws.len() >= 1,
        forall|i: int| 0 <= i < ws.len() ==> plain_symbol(#[trigger] ws[i]),
        (m + "("@ + spaced(ws) + ")"@).len() <= WIDTH,
    ensures
        parse_text(m + "("@ + spaced(ws) + ")"@) == Ok::<(Seq<SDatum>, nat), crate::reader::ReadError>(
            (seq![SDatum::Marker(m, Box::new(SDatum::List(atoms_of(ws))))], 0nat),
        ),
        nodes_from_spec(seq![SDatum::Marker(m, Box::new(SDatum::List(atoms_of(ws))))]) == list_nodes(m, ws),
        scheme_spec(list_nodes(m, ws)).0 == m + "("@ + spaced(ws) + ")"@,
{
    lemma_marked_list_reads(m, ws);
    let items = atoms_of(ws);
    let list = SDatum::List(items);
    let d = SDatum::Marker(m, Box::new(list));
    lemma_quoted_atoms_emitted(ws, 1);
    assert(crate::node::atom_chain_spec(list) is None);
    assert(crate::node::emit_marker_spec(m, list, 0) == seq![nv(m, 0)] + crate::node::emit_quoted_all_spec(items, 1));
    assert(crate::node::emit_spec(d, 0) =~= list_nodes(m, ws));
    assert(seq![d].drop_first() =~= Seq::<SDatum>::empty());
    assert(crate::node::emit_all_spec(Seq::<SDatum>::empty(), 0) =~= Seq::<NodeView>::empty());
    assert(crate::node::emit_all_spec(seq![d], 0) == crate::node::emit_spec(d, 0) + crate::node::emit_all_spec(
        seq![d].drop_first(),
        0,
    ));
    assert(crate::node::emit_all_spec(seq![d], 0) =~= list_nodes(m, ws));
    let v = list_nodes(m, ws);
    let pos = Seq::new(v.len(), |i: int| None);
    lemma_list_top(m, ws, v.len() as int, pos);
    assert(pp_top(v, 0, Seq::empty(), pos) == (Seq::<char>::empty(), pos));
    reveal_strlit("'");
    reveal_strlit("`");
    reveal_strlit(",");
    reveal_strlit(",@");
    reveal_strlit("#;");
    reveal_strlit("#");
    reveal_strlit("#u8");
    assert(!spec_is_whitespace(m[0]));
    assert(!spec_is_whitespace(m.last()));
    assert(trim_front(m) == m);
    assert(trim_back(m) == m);
    assert(v[0] == nv(m, 0));
    assert(ttext(v, 0) == m);
    assert("'"@ =~= seq!['\'']);
    assert("`"@ =~= seq!['`']);
    assert(","@ =~= seq![',']);
    assert(",@"@ =~= seq![',', '@']);
    assert(is_marker_spec(m));
    let t = ws[0];
    assert(v[1] == nv(t, 1));
    assert(plain_symbol(t));
    assert(!is_delim(t[0]));
    assert(!is_delim(t.last()));
    assert(trim_front(t) == t);
    assert(trim_back(t) == t);
    assert(ttext(v, 1) == t);
    assert(!is_marker_spec(t));
    lemma_args_scanned(m, ws, 1);
    lemma_args_flat(m, ws, 1);
    assert(ws.skip(0) =~= ws);
    assert(children_spec(v, 0) == child_scan(v, 0, 1));
    assert(!runs_on(v, 0));
    assert(flat_spec(v, 0) == m + "("@ + spaced(ws) + ")"@);
    assert(column(Seq::<char>::empty()) == 0);
    assert(Seq::<char>::empty() + flat_spec(v, 0) =~= flat_spec(v, 0));
}

} // verus!
