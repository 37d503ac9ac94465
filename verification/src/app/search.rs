//! `/`, `?`, `n`, `N`, `*` and `#`: searching the nodes with a pattern
//! written as in vim.

use vstd::prelude::*;

use super::App;
use crate::node::nodes_view;
use crate::node::NodeView;
use crate::pattern::byte_len;
use crate::pattern::char_is_upper;
use crate::pattern::compile;
use crate::pattern::escape;
use crate::pattern::find_chars;
use crate::pattern::Pattern;
use crate::pattern::is_upper;
use crate::pattern::regex_error;
use crate::pattern::regex_escaped;
use crate::text::chars_of;
use crate::text::push_str;
use crate::text::string_from;

verus! {

/// The characters whose meaning vim and the regex syntax swap: plain in
/// vim, special after a backslash.
pub open spec fn is_swapped(c: char) -> bool {
    c == '?' || c == '+' || c == '(' || c == ')' || c == '{' || c == '}' || c == '|'
}

/// A pattern written as in vim's default (magic) mode, in the regex
/// syntax: `? + ( ) { } |` change meaning with and without a backslash,
/// `\=` is `?`, and `\a` is a letter.
pub open spec fn translated(p: Seq<char>) -> Seq<char>
    decreases p.len(),
{
    if p.len() == 0 {
        Seq::empty()
    } else if p[0] == '\\' {
        if p.len() == 1 {
            seq!['\\']
        } else {
            let n = p[1];
            (if is_swapped(n) {
                seq![n]
            } else if n == '=' {
                seq!['?']
            } else if n == 'a' {
                "[[:alpha:]]"@
            } else {
                seq!['\\', n]
            }) + translated(p.skip(2))
        }
    } else if is_swapped(p[0]) {
        seq!['\\', p[0]] + translated(p.skip(1))
    } else {
        seq![p[0]] + translated(p.skip(1))
    }
}

/// In a pattern, vim's `\?`, `\+`, `\(`, `\)`, `\{`, `\}` and `\|` become
/// the regex operators `?`, `+`, `(`, `)`, `{`, `}` and `|` (so `\|` is an
/// alternation), and the same characters written without a backslash
/// become literal ones, whatever follows them.
pub proof fn lemma_vim_swaps(c: char, rest: Seq<char>)
    requires
        c == '?' || c == '+' || c == '(' || c == ')' || c == '{' || c == '}' || c == '|',
    ensures
        translated(seq!['\\', c] + rest) == seq![c] + translated(rest),
        translated(seq![c] + rest) == seq!['\\', c] + translated(rest),
{
    assert((seq!['\\', c] + rest).skip(2) =~= rest);
    assert((seq![c] + rest).skip(1) =~= rest);
}

/// Any other character without a backslash stands for itself in the
/// regex syntax too, and so do `.`, `*`, `^`, `$`, `[`, `]`, `d`, `w`, `s`
/// and a backslash after a backslash, whatever follows them.
pub proof fn lemma_vim_kept(c: char, rest: Seq<char>)
    ensures
        c != '\\' && !(c == '?' || c == '+' || c == '(' || c == ')' || c == '{' || c == '}' || c == '|')
            ==> translated(seq![c] + rest) == seq![c] + translated(rest),
        (c == '.' || c == '*' || c == '^' || c == '$' || c == '[' || c == ']' || c == 'd' || c == 'w' || c == 's'
            || c == '\\') ==> translated(seq!['\\', c] + rest) == seq!['\\', c] + translated(rest),
{
    assert((seq!['\\', c] + rest).skip(2) =~= rest);
    assert((seq![c] + rest).skip(1) =~= rest);
}

/// Whether the pattern ignores case: it holds no upper-case letter.
pub open spec fn smart_case(p: Seq<char>) -> bool {
    !(exists|i: int| 0 <= i < p.len() && is_upper(#[trigger] p[i]))
}

/// Whether the pattern matches the text.
pub open spec fn hits(p: Seq<char>, ic: bool, t: Seq<char>) -> bool {
    byte_len(t) <= usize::MAX && find_chars(p, ic, t, 0) is Some
}

/// The node `offset` steps from `start`, going round the list.
pub open spec fn step_index(len: int, start: int, offset: int, forward: bool) -> int {
    if forward {
        if start + offset < len { start + offset } else { start + offset - len }
    } else {
        if offset <= start { start - offset } else { start + len - offset }
    }
}

/// The first node, `offset` steps on or more, that the pattern matches,
/// trying every node once with the start last.
pub open spec fn first_hit(v: Seq<NodeView>, p: Seq<char>, ic: bool, start: int, forward: bool, offset: int) -> Option<int>
    decreases v.len() + 1 - offset,
{
    if offset < 1 || offset > v.len() {
        None
    } else if hits(p, ic, v[step_index(v.len() as int, start, offset, forward)].text) {
        Some(step_index(v.len() as int, start, offset, forward))
    } else {
        first_hit(v, p, ic, start, forward, offset + 1)
    }
}

/// The message after a search that found a node.
pub open spec fn wrap_message(index: int, start: int, forward: bool) -> Seq<char> {
    if forward && index < start {
        "search wrapped from the end to the start"@
    } else if !forward && index > start {
        "search wrapped from the start to the end"@
    } else {
        Seq::empty()
    }
}

/// Rewrites a pattern written as in vim into the regex syntax.
pub fn translate_vim_pattern(pattern: &Vec<char>) -> (r: Vec<char>)
    ensures
        r@ == translated(pattern@),
{
    let n = pattern.len();
    let mut out: Vec<char> = Vec::new();
    let mut i: usize = 0;
    assert(pattern@.skip(0) =~= pattern@);
    while i < n
        invariant
            i <= n == pattern@.len(),
            out@ + translated(pattern@.skip(i as int)) == translated(pattern@),
        decreases n - i,
    {
        let ghost rest = pattern@.skip(i as int);
        let ghost before = out@;
        let c = pattern[i];
        assert(rest[0] == c);
        if c == '\\' {
            if i + 1 >= n {
                out.push('\\');
                assert(rest.len() == 1);
                assert(pattern@.skip(i + 1) =~= Seq::<char>::empty());
                i = i + 1;
                assert(out@ + translated(pattern@.skip(i as int)) =~= before + translated(rest));
            } else {
                let next = pattern[i + 1];
                assert(rest[1] == next);
                assert(rest.skip(2) =~= pattern@.skip(i + 2));
                if next == '?' || next == '+' || next == '(' || next == ')' || next == '{' || next == '}'
                    || next == '|' {
                    out.push(next);
                    assert(out@ =~= before + seq![next]);
                } else if next == '=' {
                    out.push('?');
                    assert(out@ =~= before + seq!['?']);
                } else if next == 'a' {
                    push_str(&mut out, "[[:alpha:]]");
                } else {
                    out.push('\\');
                    out.push(next);
                    assert(out@ =~= before + seq!['\\', next]);
                }
                i = i + 2;
                assert(out@ + translated(pattern@.skip(i as int)) =~= before + translated(rest));
            }
        } else {
            if c == '?' || c == '+' || c == '(' || c == ')' || c == '{' || c == '}' || c == '|' {
                out.push('\\');
                out.push(c);
                assert(out@ =~= before + seq!['\\', c]);
            } else {
                out.push(c);
                assert(out@ =~= before + seq![c]);
            }
            assert(rest.skip(1) =~= pattern@.skip(i + 1));
            i = i + 1;
            assert(out@ + translated(pattern@.skip(i as int)) =~= before + translated(rest));
        }
    }
    assert(pattern@.skip(n as int) =~= Seq::<char>::empty());
    assert(out@ + Seq::<char>::empty() =~= out@);
    out
}

/// Whether the pattern ignores case: it holds no upper-case letter.
pub fn ignores_case(pattern: &Vec<char>) -> (r: bool)
    ensures
        r == smart_case(pattern@),
{
    let mut i: usize = 0;
    while i < pattern.len()
        invariant
            i <= pattern@.len(),
            forall|j: int| 0 <= j < i ==> !is_upper(#[trigger] pattern@[j]),
        decreases pattern@.len() - i,
    {
        if char_is_upper(pattern[i]) {
            return false;
        }
        i = i + 1;
    }
    true
}

/// `s1` is `s0` after a search for `pattern`: the first node it matches
/// from the one after the cursor round the list (going back when not
/// `forward`), the cursor's column kept within the node, the view centred
/// on it; a pattern that does not compile, or matches nothing, is
/// reported.
pub open spec fn search_performed(s0: App, s1: App, pattern: Seq<char>, forward: bool) -> bool {
    &&& ({
                let v = nodes_view(s0.nodes@);
                let ic = smart_case(pattern);
                match regex_error(pattern, ic) {
                    Some(e) => s1.message@ == "invalid search pattern: "@ + e
                        && s1 == (App { message: s1.message, ..s0 }),
                    None => match first_hit(v, pattern, ic, s0.cursor as int, forward, 1) {
                        None => s1.message@ == "pattern not found: "@ + pattern
                            && s1 == (App { message: s1.message, ..s0 }),
                        Some(index) => {
                            &&& s1.cursor == index
                            &&& s1.cursor_col == (if s0.cursor_col <= s1.cur_text().len() {
                                s0.cursor_col as int
                            } else {
                                s1.cur_text().len() as int
                            })
                            &&& s1.scroll == s1.centered_scroll()
                            &&& s1.message@ == wrap_message(index, s0.cursor as int, forward)
                            &&& s1 == (App {
                                cursor: s1.cursor,
                                cursor_col: s1.cursor_col,
                                scroll: s1.scroll,
                                message: s1.message,
                                ..s0
                            })
                        },
                    },
                }
            })
}

/// `m` is `s0` with only the last search changed.
pub open spec fn search_kept(s0: App, m: App) -> bool {
    m == (App { last_search: m.last_search, ..s0 })
}

/// `s1` is `s0` after `n` or `N`: the last search again, the same way or
/// the other.
pub open spec fn search_repeated(s0: App, s1: App, same_direction: bool) -> bool {
    match s0.last_search {
        None => s1.message@ == "no previous search pattern"@ && s1 == (App { message: s1.message, ..s0 }),
        Some((p, f)) => search_performed(s0, s1, p@, if same_direction { f } else { !f }),
    }
}

/// `s1` is `s0` after `*` or `#`: a search for the cursor's node text,
/// taken literally, which becomes the last search.
pub open spec fn word_searched(s0: App, s1: App, forward: bool) -> bool {
    if s0.cur_text().len() == 0 {
        s1.message@ == "cannot search for an empty node"@ && s1 == (App { message: s1.message, ..s0 })
    } else {
        exists|m: App| #[trigger] search_kept(s0, m) && search_performed(m, s1, regex_escaped(s0.cur_text()), forward)
            && (m.last_search matches Some((p, f)) && p@ == regex_escaped(s0.cur_text()) && f == forward)
    }
}

/// `s1` is `s0` after a search for `pattern` typed on the search line: an
/// empty one repeats the last search's pattern; the pattern, translated
/// from Vim's notation, becomes the last search.
pub open spec fn searched(s0: App, s1: App, pattern: Vec<char>, forward: bool) -> bool {
    if pattern@.len() == 0 && s0.last_search is None {
        s1.message@ == "no previous search pattern"@ && s1 == (App { message: s1.message, ..s0 })
    } else {
        let used = if pattern@.len() == 0 {
            match s0.last_search {
                Some((p, _)) => p@,
                None => Seq::empty(),
            }
        } else {
            translated(pattern@)
        };
        exists|m: App| #[trigger] search_kept(s0, m) && search_performed(m, s1, used, forward)
            && (m.last_search matches Some((p, f)) && p@ == used && f == forward)
    }
}

impl App {
    /// The first node the pattern matches, from the node after the cursor
    /// (before it, going back) round the list, the cursor's node last.
    pub fn find_node(&self, compiled: &Pattern, forward: bool) -> (r: Option<usize>)
        requires
            self.wf(),
        ensures
            match first_hit(nodes_view(self.nodes@), compiled.source(), compiled.ignores_case(), self.cursor as int, forward, 1) {
                Some(i) => r == Some(i as usize) && 0 <= i < self.nodes@.len(),
                None => r is None,
            },
            r matches Some(x) ==> x < self.nodes@.len(),
    {
        let ghost v = nodes_view(self.nodes@);
        let ghost p = compiled.source();
        let ghost ic = compiled.ignores_case();
        let len = self.nodes.len();
        let start = self.cursor;
        let mut k: usize = 0;
        while k < len
            invariant
                k <= len == self.nodes@.len() == v.len(),
                v == nodes_view(self.nodes@),
                start == self.cursor,
                start < len,
                p == compiled.source(),
                ic == compiled.ignores_case(),
                first_hit(v, p, ic, start as int, forward, k + 1) == first_hit(v, p, ic, start as int, forward, 1),
            decreases len - k,
        {
            let offset = k + 1;
            let index = if forward {
                if offset <= len - 1 - start {
                    start + offset
                } else {
                    offset - (len - start)
                }
            } else {
                if offset <= start {
                    start - offset
                } else {
                    len - (offset - start)
                }
            };
            assert(index == step_index(len as int, start as int, offset as int, forward));
            assert(0 <= index < len);
            assert(v[index as int].text == self.nodes@[index as int].text@);
            if compiled.is_match(&self.nodes[index].text) {
                return Some(index);
            }
            k = k + 1;
        }
        None
    }

    /// Searches with a pattern in the regex syntax, from the node after
    /// the cursor (before it, going back) round the list, the cursor's node
    /// last; the cursor goes to the first node the pattern matches, which
    /// is brought to the middle of the view.
    pub fn perform_search(&mut self, pattern: &Vec<char>, forward: bool)
        requires
            old(self).wf(),
        ensures
            final(self).wf(),
            search_performed(*old(self), *final(self), pattern@, forward),
    {
        let ghost v = nodes_view(self.nodes@);
        let ic = ignores_case(pattern);
        let source = string_from(pattern.as_slice());
        let compiled = match compile(source.as_str(), ic) {
            Ok(p) => p,
            Err(error) => {
                let mut message: Vec<char> = Vec::new();
                push_str(&mut message, "invalid search pattern: ");
                push_str(&mut message, error.as_str());
                self.message = message;
                return;
            },
        };
        let n = self.nodes.len();
        let found = self.find_node(&compiled, forward);
        match found {
            Some(index) => {
                proof {
                    let fh = first_hit(v, pattern@, ic, old(self).cursor as int, forward, 1);
                    assert(compiled.source() == pattern@);
                    assert(compiled.ignores_case() == ic);
                    assert(fh == first_hit(nodes_view(self.nodes@), compiled.source(), compiled.ignores_case(), self.cursor as int, forward, 1));
                    assert(fh is Some);
                    assert(0 <= fh->0 < n);
                    assert(fh->0 as usize == index);
                    assert(fh == Some(index as int));
                }
                let start = self.cursor;
                let wrapped = if forward { index < start } else { index > start };
                self.move_to(index);
                self.center_on_cursor();
                self.message = if wrapped && forward {
                    chars_of("search wrapped from the end to the start")
                } else if wrapped {
                    chars_of("search wrapped from the start to the end")
                } else {
                    Vec::new()
                };
                assert(self.message@ == wrap_message(index as int, start as int, forward));
                assert(self.scroll == self.centered_scroll());
                assert(self.cursor == index);
                assert(*self == (App {
                    cursor: self.cursor,
                    cursor_col: self.cursor_col,
                    scroll: self.scroll,
                    message: self.message,
                    ..*old(self)
                }));
                assert(first_hit(v, pattern@, ic, old(self).cursor as int, forward, 1) == Some(index as int));
            },
            None => {
                let mut message: Vec<char> = Vec::new();
                push_str(&mut message, "pattern not found: ");
                let mut p = pattern.clone();
                assert(p@ =~= pattern@);
                message.append(&mut p);
                self.message = message;
                assert(self.message@ == "pattern not found: "@ + pattern@);
                assert(*self == (App { message: self.message, ..*old(self) }));
            },
        }
    }

    /// Enter after `/` or `?`: searches with the pattern typed, in vim's
    /// syntax, or with the last pattern when none was typed; the pattern
    /// and its direction are kept for `n` and `N`.
    pub fn search_and_move(&mut self, pattern: &Vec<char>, forward: bool)
        requires
            old(self).wf(),
        ensures
            final(self).wf(),
            searched(*old(self), *final(self), *pattern, forward),
    {
        let translated = if pattern.len() == 0 {
            match &self.last_search {
                Some((last, _)) => {
                    let p = last.clone();
                    assert(p@ =~= last@);
                    p
                },
                None => {
                    self.message = chars_of("no previous search pattern");
                    return;
                },
            }
        } else {
            translate_vim_pattern(pattern)
        };
        let kept = translated.clone();
        assert(kept@ =~= translated@);
        self.last_search = Some((kept, forward));
        let ghost m = *self;
        self.perform_search(&translated, forward);
        proof {
            let used = if pattern@.len() == 0 {
                match old(self).last_search {
                    Some((p, _)) => p@,
                    None => Seq::empty(),
                }
            } else {
                crate::app::search::translated(pattern@)
            };
            assert(used == translated@);
            assert(search_kept(*old(self), m) && search_performed(m, *self, used, forward));
        }
    }

    /// `n` and `N`: the last search again, the same way or the other way.
    pub fn repeat_search(&mut self, same_direction: bool)
        requires
            old(self).wf(),
        ensures
            final(self).wf(),
            search_repeated(*old(self), *final(self), same_direction),
    {
        let (pattern, forward) = match &self.last_search {
            Some((p, f)) => {
                let q = p.clone();
                assert(q@ =~= p@);
                (q, *f)
            },
            None => {
                self.message = chars_of("no previous search pattern");
                return;
            },
        };
        let direction = if same_direction { forward } else { !forward };
        self.perform_search(&pattern, direction);
    }

    /// `*` and `#`: searches for the cursor's text itself, escaped so
    /// that nothing in it is special.
    pub fn search_word(&mut self, forward: bool)
        requires
            old(self).wf(),
        ensures
            final(self).wf(),
            word_searched(*old(self), *final(self), forward),
    {
        if self.nodes[self.cursor].text.len() == 0 {
            self.message = chars_of("cannot search for an empty node");
            return;
        }
        let text = string_from(self.nodes[self.cursor].text.as_slice());
        let escaped = escape(text.as_str());
        let pattern = chars_of(escaped.as_str());
        let kept = pattern.clone();
        assert(kept@ =~= pattern@);
        self.last_search = Some((kept, forward));
        let ghost m = *self;
        self.perform_search(&pattern, forward);
        assert(search_kept(*old(self), m));
    }
}

} // verus!
