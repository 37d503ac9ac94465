//! `:s`, `:&`, `:&&` and `g&`: substituting matches of a pattern in a
//! range of nodes, with vim's replacement syntax and its flags, at once
//! or one match at a time.

use vstd::prelude::*;

use crate::pattern::char_lower;
use crate::pattern::char_upper;
use crate::pattern::groups_chars;
use crate::pattern::find_chars;
use crate::pattern::byte_len;
use crate::pattern::lower_of;
use crate::pattern::upper_of;
use crate::pattern::Pattern;
use crate::text::spec_is_ascii_digit;
use crate::text::is_ascii_digit;
use crate::text::parse_usize;
use crate::text::parsed_usize;
use crate::text::decimal;
use crate::text::push_decimal;
use crate::text::push_str;
use crate::node::nodes_view;
use crate::node::nv;
use crate::node::same_text;
use crate::node::Node;
use crate::node::NodeView;
use crate::pattern::regex_count;
use super::App;
use super::Mode;
use super::recorded;
use super::edit_began;
use super::input::Key;
use super::search::ignores_case;
use super::search::smart_case;
use super::search::translate_vim_pattern;
use super::search::translated;
use super::view::trim;
use super::view::trimmed;
use crate::pattern::compile;
use crate::pattern::regex_error;
use crate::text::chars_of;
use crate::text::string_from;

verus! {

/// A piece of a replacement.
#[derive(Debug, Clone, PartialEq, Eq)]
pub enum ReplPart {
    /// Text as it is.
    Literal(Vec<char>),
    /// The whole match: `&` or `\0`.
    Whole,
    /// A group of the match: `\1` to `\9`.
    Group(u8),
    /// `\u`: the next character in upper case.
    UpperNext,
    /// `\l`: the next character in lower case.
    LowerNext,
    /// `\U`: upper case until `\e` or `\E`.
    UpperUntil,
    /// `\L`: lower case until `\e` or `\E`.
    LowerUntil,
    /// `\e` or `\E`: the end of `\U` or `\L`.
    EndCase,
}

/// The last substitution: its pattern, its replacement as typed once `~`
/// was expanded, the pieces of that replacement, and its flags.
pub struct LastSubstitute {
    pub pattern: Vec<char>,
    pub replacement_raw: Vec<char>,
    pub parts: Vec<ReplPart>,
    pub flags: SubFlags,
}

/// A substitution that asks about each match.
pub struct ConfirmState {
    pub regex: Pattern,
    pub parts: Vec<ReplPart>,
    pub global: bool,
    /// The node being searched.
    pub node: usize,
    /// Where the search in that node goes on, in characters.
    pub pos: usize,
    /// The last node to search, included.
    pub range_end: usize,
    /// The match being asked about, in characters.
    pub match_range: (usize, usize),
    /// The replacements made so far.
    pub count: usize,
    pub quiet_empty: bool,
    /// Whether a match was ever asked about; until then an end with no
    /// replacement reports that nothing matched.
    pub entered: bool,
}

/// The value of a piece of a replacement.
pub enum ReplView {
    Literal(Seq<char>),
    Whole,
    Group(u8),
    UpperNext,
    LowerNext,
    UpperUntil,
    LowerUntil,
    EndCase,
}

impl View for ReplPart {
    type V = ReplView;

    open spec fn view(&self) -> ReplView {
        match self {
            ReplPart::Literal(t) => ReplView::Literal(t@),
            ReplPart::Whole => ReplView::Whole,
            ReplPart::Group(n) => ReplView::Group(*n),
            ReplPart::UpperNext => ReplView::UpperNext,
            ReplPart::LowerNext => ReplView::LowerNext,
            ReplPart::UpperUntil => ReplView::UpperUntil,
            ReplPart::LowerUntil => ReplView::LowerUntil,
            ReplPart::EndCase => ReplView::EndCase,
        }
    }
}

/// The values of the pieces of a replacement.
pub open spec fn parts_view(parts: Seq<ReplPart>) -> Seq<ReplView> {
    Seq::new(parts.len(), |i: int| parts[i]@)
}

/// The flags of a substitution: `g`, `i` or `I`, `n`, `e` and `c`.
#[derive(Debug, Clone, Copy, PartialEq, Eq)]
pub struct SubFlags {
    /// `g`: every match in a node, not just the first.
    pub global: bool,
    /// `i` or `I`: ignore case or not, overriding smart case.
    pub ignore_case: Option<bool>,
    /// `n`: count the matches without replacing.
    pub no_replace: bool,
    /// `e`: say nothing when nothing matches.
    pub quiet_empty: bool,
    /// `c`: ask before each replacement.
    pub confirm: bool,
}

/// No flag set.
pub open spec fn no_flags() -> SubFlags {
    SubFlags { global: false, ignore_case: None, no_replace: false, quiet_empty: false, confirm: false }
}

impl Default for SubFlags {
    /// No flag set.
    fn default() -> (r: Self)
        ensures
            r == no_flags(),
    {
        SubFlags { global: false, ignore_case: None, no_replace: false, quiet_empty: false, confirm: false }
    }
}

/// The flags that the letters set, each in turn.
pub open spec fn flags_of(s: Seq<char>) -> SubFlags
    decreases s.len(),
{
    if s.len() == 0 {
        no_flags()
    } else {
        let f = flags_of(s.drop_last());
        let c = s.last();
        if c == 'g' {
            SubFlags { global: true, ..f }
        } else if c == 'i' {
            SubFlags { ignore_case: Some(true), ..f }
        } else if c == 'I' {
            SubFlags { ignore_case: Some(false), ..f }
        } else if c == 'n' {
            SubFlags { no_replace: true, ..f }
        } else if c == 'e' {
            SubFlags { quiet_empty: true, ..f }
        } else if c == 'c' {
            SubFlags { confirm: true, ..f }
        } else {
            f
        }
    }
}

/// The first `/` from `i` on that no backslash escapes: a backslash
/// skips the character after it.
pub open spec fn slash_scan(s: Seq<char>, i: int) -> Option<int>
    decreases s.len() + 2 - i,
{
    if i < 0 || i >= s.len() {
        None
    } else if s[i] == '\\' {
        slash_scan(s, i + 2)
    } else if s[i] == '/' {
        Some(i)
    } else {
        slash_scan(s, i + 1)
    }
}

/// `pattern/replacement/flags` cut at the unescaped slashes; what is
/// missing is empty.
pub open spec fn split_body(body: Seq<char>) -> (Seq<char>, Seq<char>, Seq<char>) {
    match slash_scan(body, 0) {
        Some(f) => {
            let rest = body.skip(f + 1);
            match slash_scan(rest, 0) {
                Some(g) => (body.take(f), rest.take(g), rest.skip(g + 1)),
                None => (body.take(f), rest, Seq::empty()),
            }
        },
        None => (body, Seq::empty(), Seq::empty()),
    }
}

/// The replacement with each `~` that no backslash escapes replaced by
/// the previous replacement.
pub open spec fn tilde_expanded(raw: Seq<char>, previous: Seq<char>) -> Seq<char>
    decreases raw.len(),
{
    if raw.len() == 0 {
        Seq::empty()
    } else if raw[0] == '\\' {
        if raw.len() == 1 {
            seq!['\\']
        } else {
            seq!['\\', raw[1]] + tilde_expanded(raw.skip(2), previous)
        }
    } else if raw[0] == '~' {
        previous + tilde_expanded(raw.skip(1), previous)
    } else {
        seq![raw[0]] + tilde_expanded(raw.skip(1), previous)
    }
}

/// The literal gathered so far, as a piece, unless it is empty.
pub open spec fn flush(lit: Seq<char>) -> Seq<ReplView> {
    if lit.len() == 0 {
        Seq::empty()
    } else {
        seq![ReplView::Literal(lit)]
    }
}

/// The pieces of a replacement, `lit` being the literal text gathered
/// before `t`: `&` and `\0` for the whole match, `\1`..`\9` for groups,
/// `\u \l \U \L \e \E` for case, `\r` kept as it is, and a backslash
/// before anything else for that character.
pub open spec fn parse_repl(t: Seq<char>, lit: Seq<char>) -> Seq<ReplView>
    decreases t.len(),
{
    if t.len() == 0 {
        flush(lit)
    } else if t[0] == '&' {
        flush(lit) + seq![ReplView::Whole] + parse_repl(t.skip(1), Seq::empty())
    } else if t[0] == '\\' {
        if t.len() == 1 {
            flush(lit.push('\\'))
        } else {
            let n = t[1];
            let rest = t.skip(2);
            if n == '0' {
                flush(lit) + seq![ReplView::Whole] + parse_repl(rest, Seq::empty())
            } else if spec_is_ascii_digit(n) {
                flush(lit) + seq![ReplView::Group(((n as u32) - 48) as u8)] + parse_repl(rest, Seq::empty())
            } else if n == 'u' {
                flush(lit) + seq![ReplView::UpperNext] + parse_repl(rest, Seq::empty())
            } else if n == 'l' {
                flush(lit) + seq![ReplView::LowerNext] + parse_repl(rest, Seq::empty())
            } else if n == 'U' {
                flush(lit) + seq![ReplView::UpperUntil] + parse_repl(rest, Seq::empty())
            } else if n == 'L' {
                flush(lit) + seq![ReplView::LowerUntil] + parse_repl(rest, Seq::empty())
            } else if n == 'e' || n == 'E' {
                flush(lit) + seq![ReplView::EndCase] + parse_repl(rest, Seq::empty())
            } else if n == 'r' {
                parse_repl(rest, lit + seq!['\\', 'r'])
            } else {
                parse_repl(rest, lit.push(n))
            }
        }
    } else {
        parse_repl(t.skip(1), lit.push(t[0]))
    }
}

/// Replacement text with no `&` and no backslash is literal text, kept
/// after the literal text gathered before it.
pub proof fn lemma_plain_replacement(t: Seq<char>, lit: Seq<char>)
    requires
        forall|i: int| 0 <= i < t.len() ==> #[trigger] t[i] != '&' && t[i] != '\\',
    ensures
        parse_repl(t, lit) == flush(lit + t),
    decreases t.len(),
{
    if t.len() == 0 {
        assert(lit + t =~= lit);
    } else {
        lemma_plain_replacement(t.skip(1), lit.push(t[0]));
        assert(lit.push(t[0]) + t.skip(1) =~= lit + t);
    }
}

/// In a replacement, a backslash before a character that is not a digit
/// or one of `u l U L e E r` stands for that character alone: the
/// backslash is dropped and the character joins the literal text,
/// whatever follows.
pub proof fn lemma_escaped_replacement(n: char, rest: Seq<char>, lit: Seq<char>)
    requires
        !('0' <= n <= '9'),
        n != 'u' && n != 'l' && n != 'U' && n != 'L' && n != 'e' && n != 'E' && n != 'r',
    ensures
        parse_repl(seq!['\\', n] + rest, lit) == parse_repl(rest, lit.push(n)),
{
    assert((seq!['\\', n] + rest).skip(2) =~= rest);
    assert(!spec_is_ascii_digit(n));
}

/// Literal text with such an escaped character inside it gives one
/// literal piece: the text with the backslash taken out.
pub proof fn lemma_escape_in_literal(a: Seq<char>, n: char, b: Seq<char>)
    requires
        forall|i: int| 0 <= i < a.len() ==> #[trigger] a[i] != '&' && a[i] != '\\',
        forall|i: int| 0 <= i < b.len() ==> #[trigger] b[i] != '&' && b[i] != '\\',
        !('0' <= n <= '9'),
        n != 'u' && n != 'l' && n != 'U' && n != 'L' && n != 'e' && n != 'E' && n != 'r',
    ensures
        parse_repl(a + seq!['\\', n] + b, Seq::empty()) == seq![ReplView::Literal(a.push(n) + b)],
    decreases a.len(),
{
    let t = a + seq!['\\', n] + b;
    lemma_plain_prefix(a, seq!['\\', n] + b, Seq::empty());
    assert(t =~= a + (seq!['\\', n] + b));
    assert(Seq::<char>::empty() + a =~= a);
    lemma_escaped_replacement(n, b, a);
    lemma_plain_replacement(b, a.push(n));
}

proof fn lemma_plain_prefix(a: Seq<char>, t: Seq<char>, lit: Seq<char>)
    requires
        forall|i: int| 0 <= i < a.len() ==> #[trigger] a[i] != '&' && a[i] != '\\',
    ensures
        parse_repl(a + t, lit) == parse_repl(t, lit + a),
    decreases a.len(),
{
    if a.len() == 0 {
        assert(a + t =~= t);
        assert(lit + a =~= lit);
    } else {
        assert((a + t)[0] == a[0]);
        assert((a + t).skip(1) =~= a.skip(1) + t);
        lemma_plain_prefix(a.skip(1), t, lit.push(a[0]));
        assert(lit.push(a[0]) + a.skip(1) =~= lit + a);
    }
}

/// Text as the case rules turn it: the one-shot rule for the first
/// character, else the lasting one. Gives the text and the one-shot rule
/// left, which an empty text does not use up.
pub open spec fn transformed(s: Seq<char>, lasting: Option<bool>, once: Option<bool>) -> (Seq<char>, Option<bool>)
    decreases s.len(),
{
    if s.len() == 0 {
        (Seq::empty(), once)
    } else {
        let mode = if once is Some { once } else { lasting };
        let piece = match mode {
            Some(true) => upper_of(s[0]),
            Some(false) => lower_of(s[0]),
            None => seq![s[0]],
        };
        let r = transformed(s.skip(1), lasting, None);
        (piece + r.0, r.1)
    }
}

/// The text of group `n` of a match, empty when it took no part.
pub open spec fn group_text(groups: Seq<Option<(int, int)>>, text: Seq<char>, n: int) -> Seq<char> {
    if 0 <= n < groups.len() {
        match groups[n] {
            Some((a, b)) => text.subrange(a, b),
            None => Seq::empty(),
        }
    } else {
        Seq::empty()
    }
}

/// The replacement for a match built from the first `k` pieces: the text,
/// and the lasting and one-shot case rules it ends with.
pub open spec fn built(groups: Seq<Option<(int, int)>>, text: Seq<char>, parts: Seq<ReplView>, k: int) -> (Seq<char>, Option<bool>, Option<bool>)
    decreases k,
{
    if k <= 0 {
        (Seq::empty(), None, None)
    } else {
        let (out, lasting, once) = built(groups, text, parts, k - 1);
        match parts[k - 1] {
            ReplView::Literal(t) => {
                let r = transformed(t, lasting, once);
                (out + r.0, lasting, r.1)
            },
            ReplView::Whole => {
                let r = transformed(group_text(groups, text, 0), lasting, once);
                (out + r.0, lasting, r.1)
            },
            ReplView::Group(n) => {
                let r = transformed(group_text(groups, text, n as int), lasting, once);
                (out + r.0, lasting, r.1)
            },
            ReplView::UpperNext => (out, lasting, Some(true)),
            ReplView::LowerNext => (out, lasting, Some(false)),
            ReplView::UpperUntil => (out, Some(true), once),
            ReplView::LowerUntil => (out, Some(false), once),
            ReplView::EndCase => (out, None, once),
        }
    }
}

/// The replacement for a match.
pub open spec fn replacement(groups: Seq<Option<(int, int)>>, text: Seq<char>, parts: Seq<ReplView>) -> Seq<char> {
    built(groups, text, parts, parts.len() as int).0
}

/// The first unescaped `/` from `from` on.
pub fn find_unescaped_slash(s: &Vec<char>, from: usize) -> (r: Option<usize>)
    ensures
        match slash_scan(s@, from as int) {
            Some(i) => r == Some(i as usize) && from <= i < s@.len(),
            None => r is None,
        },
{
    let n = s.len();
    let mut i = from;
    while i < n
        invariant
            from <= i,
            n == s@.len(),
            slash_scan(s@, i as int) == slash_scan(s@, from as int),
        decreases n - i,
    {
        if s[i] == '\\' {
            if i + 1 >= n {
                assert(slash_scan(s@, i + 2) is None);
                return None;
            }
            i = i + 2;
        } else if s[i] == '/' {
            return Some(i);
        } else {
            i = i + 1;
        }
    }
    None
}

/// The characters of `s` in `[a, b)`.
pub fn slice_of(s: &Vec<char>, a: usize, b: usize) -> (r: Vec<char>)
    requires
        a <= b <= s@.len(),
    ensures
        r@ == s@.subrange(a as int, b as int),
{
    let mut r: Vec<char> = Vec::new();
    let mut i = a;
    while i < b
        invariant
            a <= i <= b <= s@.len(),
            r@ == s@.subrange(a as int, i as int),
        decreases b - i,
    {
        r.push(s[i]);
        assert(r@ =~= s@.subrange(a as int, i + 1));
        i = i + 1;
    }
    r
}

/// `pattern/replacement/flags` cut at the unescaped slashes.
pub fn split_substitute_body(body: &Vec<char>) -> (r: (Vec<char>, Vec<char>, Vec<char>))
    ensures
        (r.0@, r.1@, r.2@) == split_body(body@),
{
    let n = body.len();
    match find_unescaped_slash(body, 0) {
        Some(first) => {
            let rest = slice_of(body, first + 1, n);
            assert(rest@ =~= body@.skip(first + 1));
            let pattern = slice_of(body, 0, first);
            assert(pattern@ =~= body@.take(first as int));
            match find_unescaped_slash(&rest, 0) {
                Some(second) => {
                    let repl = slice_of(&rest, 0, second);
                    let flags = slice_of(&rest, second + 1, rest.len());
                    assert(repl@ =~= rest@.take(second as int));
                    assert(flags@ =~= rest@.skip(second + 1));
                    (pattern, repl, flags)
                },
                None => (pattern, rest, Vec::new()),
            }
        },
        None => {
            let whole = slice_of(body, 0, n);
            assert(whole@ =~= body@);
            (whole, Vec::new(), Vec::new())
        },
    }
}

/// The flags that the letters set.
pub fn parse_flags(s: &Vec<char>) -> (r: SubFlags)
    ensures
        r == flags_of(s@),
{
    let mut flags = SubFlags::default();
    let mut i: usize = 0;
    assert(s@.take(0) =~= Seq::<char>::empty());
    while i < s.len()
        invariant
            i <= s@.len(),
            flags == flags_of(s@.take(i as int)),
        decreases s@.len() - i,
    {
        assert(s@.take(i + 1).drop_last() =~= s@.take(i as int));
        let c = s[i];
        if c == 'g' {
            flags.global = true;
        } else if c == 'i' {
            flags.ignore_case = Some(true);
        } else if c == 'I' {
            flags.ignore_case = Some(false);
        } else if c == 'n' {
            flags.no_replace = true;
        } else if c == 'e' {
            flags.quiet_empty = true;
        } else if c == 'c' {
            flags.confirm = true;
        }
        i = i + 1;
    }
    assert(s@.take(s@.len() as int) =~= s@);
    flags
}

/// The replacement with each unescaped `~` replaced by the previous
/// replacement.
pub fn expand_tilde(raw: &Vec<char>, previous: &Vec<char>) -> (r: Vec<char>)
    ensures
        r@ == tilde_expanded(raw@, previous@),
{
    let n = raw.len();
    let mut out: Vec<char> = Vec::new();
    let mut i: usize = 0;
    assert(raw@.skip(0) =~= raw@);
    while i < n
        invariant
            i <= n == raw@.len(),
            out@ + tilde_expanded(raw@.skip(i as int), previous@) == tilde_expanded(raw@, previous@),
        decreases n - i,
    {
        let ghost rest = raw@.skip(i as int);
        let ghost before = out@;
        let c = raw[i];
        assert(rest[0] == c);
        if c == '\\' {
            out.push('\\');
            if i + 1 < n {
                out.push(raw[i + 1]);
                assert(rest[1] == raw@[i + 1]);
                assert(rest.skip(2) =~= raw@.skip(i + 2));
                assert(out@ =~= before + seq!['\\', raw@[i + 1]]);
                i = i + 2;
            } else {
                assert(rest.len() == 1);
                assert(raw@.skip(i + 1) =~= Seq::<char>::empty());
                i = i + 1;
            }
        } else if c == '~' {
            let mut p = previous.clone();
            assert(p@ =~= previous@);
            out.append(&mut p);
            assert(rest.skip(1) =~= raw@.skip(i + 1));
            i = i + 1;
        } else {
            out.push(c);
            assert(rest.skip(1) =~= raw@.skip(i + 1));
            i = i + 1;
        }
        assert(out@ + tilde_expanded(raw@.skip(i as int), previous@) =~= before + tilde_expanded(rest, previous@));
    }
    assert(raw@.skip(n as int) =~= Seq::<char>::empty());
    assert(out@ + Seq::<char>::empty() =~= out@);
    out
}

/// Adds the literal gathered so far as a piece, unless it is empty.
fn flush_literal(parts: &mut Vec<ReplPart>, literal: &mut Vec<char>)
    ensures
        parts_view(final(parts)@) == parts_view(old(parts)@) + flush(old(literal)@),
        final(literal)@.len() == 0,
{
    if literal.len() > 0 {
        let mut taken: Vec<char> = Vec::new();
        std::mem::swap(&mut taken, literal);
        parts.push(ReplPart::Literal(taken));
        assert(parts_view(parts@) =~= parts_view(old(parts)@) + flush(old(literal)@));
    } else {
        assert(parts_view(parts@) =~= parts_view(old(parts)@) + flush(old(literal)@));
    }
}

/// The pieces of a replacement.
pub fn parse_replacement(text: &Vec<char>) -> (r: Vec<ReplPart>)
    ensures
        parts_view(r@) == parse_repl(text@, Seq::empty()),
{
    let n = text.len();
    let mut parts: Vec<ReplPart> = Vec::new();
    let mut literal: Vec<char> = Vec::new();
    let mut i: usize = 0;
    assert(text@.skip(0) =~= text@);
    assert(parts_view(parts@) =~= Seq::<ReplView>::empty());
    while i < n
        invariant
            i <= n == text@.len(),
            parts_view(parts@) + parse_repl(text@.skip(i as int), literal@) == parse_repl(text@, Seq::empty()),
        decreases n - i,
    {
        let ghost rest = text@.skip(i as int);
        let ghost pv = parts_view(parts@);
        let ghost lit = literal@;
        let c = text[i];
        assert(rest[0] == c);
        if c == '&' {
            flush_literal(&mut parts, &mut literal);
            let ghost mid = parts_view(parts@);
            parts.push(ReplPart::Whole);
            assert(parts_view(parts@) =~= mid + seq![ReplView::Whole]);
            assert(rest.skip(1) =~= text@.skip(i + 1));
            assert(literal@ =~= Seq::<char>::empty());
            i = i + 1;
            assert(parts_view(parts@) + parse_repl(text@.skip(i as int), literal@) =~= pv + parse_repl(rest, lit));
        } else if c == '\\' {
            if i + 1 >= n {
                literal.push('\\');
                assert(rest.len() == 1);
                assert(text@.skip(i + 1) =~= Seq::<char>::empty());
                i = i + 1;
                assert(parts_view(parts@) + parse_repl(text@.skip(i as int), literal@) =~= pv + parse_repl(rest, lit));
            } else {
                let next = text[i + 1];
                assert(rest[1] == next);
                assert(rest.skip(2) =~= text@.skip(i + 2));
                let piece: Option<ReplPart> = if next == '0' {
                    Some(ReplPart::Whole)
                } else if next >= '0' && next <= '9' {
                    Some(ReplPart::Group(((next as u32) - 48) as u8))
                } else if next == 'u' {
                    Some(ReplPart::UpperNext)
                } else if next == 'l' {
                    Some(ReplPart::LowerNext)
                } else if next == 'U' {
                    Some(ReplPart::UpperUntil)
                } else if next == 'L' {
                    Some(ReplPart::LowerUntil)
                } else if next == 'e' || next == 'E' {
                    Some(ReplPart::EndCase)
                } else {
                    None
                };
                match piece {
                    Some(p) => {
                        let ghost pview = p@;
                        flush_literal(&mut parts, &mut literal);
                        let ghost mid = parts_view(parts@);
                        parts.push(p);
                        assert(parts_view(parts@) =~= mid + seq![pview]);
                        assert(literal@ =~= Seq::<char>::empty());
                    },
                    None => {
                        if next == 'r' {
                            literal.push('\\');
                            literal.push('r');
                            assert(literal@ =~= lit + seq!['\\', 'r']);
                        } else {
                            literal.push(next);
                        }
                    },
                }
                i = i + 2;
                assert(parts_view(parts@) + parse_repl(text@.skip(i as int), literal@) =~= pv + parse_repl(rest, lit));
            }
        } else {
            literal.push(c);
            assert(rest.skip(1) =~= text@.skip(i + 1));
            i = i + 1;
            assert(parts_view(parts@) + parse_repl(text@.skip(i as int), literal@) =~= pv + parse_repl(rest, lit));
        }
    }
    assert(text@.skip(n as int) =~= Seq::<char>::empty());
    flush_literal(&mut parts, &mut literal);
    parts
}


/// The groups of the first match at or after character `pos`, as the
/// editor finds them: none when the text is too long to index in bytes.
pub open spec fn groups_at(p: Seq<char>, ic: bool, text: Seq<char>, pos: int) -> Option<Seq<Option<(int, int)>>> {
    if byte_len(text) <= usize::MAX {
        groups_chars(p, ic, text, pos)
    } else {
        None
    }
}

/// Replacing in `text`, from character `pos` on, the text before `last`
/// having been dealt with into `acc`: the first match only, or each match
/// in turn when `global`; the search goes on after each match, one
/// character further after an empty one, in the original text. Gives the
/// new text, the number of replacements, and where the last replacement
/// starts in the new text.
pub open spec fn replace_scan(
    p: Seq<char>,
    ic: bool,
    text: Seq<char>,
    parts: Seq<ReplView>,
    global: bool,
    last: int,
    pos: int,
    acc: Seq<char>,
    count: nat,
    at: Option<int>,
) -> (Seq<char>, nat, Option<int>)
    decreases text.len() + 2 - pos,
{
    let finish = (acc + text.subrange(last, text.len() as int), count, at);
    if !(0 <= last <= pos <= text.len()) {
        finish
    } else {
        match groups_at(p, ic, text, pos) {
            None => finish,
            Some(g) => if g.len() >= 1 && (g[0] matches Some((s, e)) && pos <= s <= e <= text.len()) {
                let (s, e) = match g[0] {
                    Some((s, e)) => (s, e),
                    None => (0, 0),
                };
                let before = acc + text.subrange(last, s);
                let after = before + replacement(g, text, parts);
                if global {
                    replace_scan(p, ic, text, parts, global, e, if e > s { e } else { e + 1 }, after, count + 1, Some(before.len() as int))
                } else {
                    (after + text.subrange(e, text.len() as int), count + 1, Some(before.len() as int))
                }
            } else {
                finish
            },
        }
    }
}

/// The groups with character positions as `int`.
pub open spec fn groups_view(g: Seq<Option<(usize, usize)>>) -> Seq<Option<(int, int)>> {
    g.map_values(|x: Option<(usize, usize)>| match x {
        Some((a, b)) => Some((a as int, b as int)),
        None => None,
    })
}

/// Appends text as the case rules turn it.
fn push_transformed(out: &mut Vec<char>, s: &Vec<char>, lasting: Option<bool>, once: &mut Option<bool>)
    ensures
        final(out)@ == old(out)@ + transformed(s@, lasting, *old(once)).0,
        *final(once) == transformed(s@, lasting, *old(once)).1,
{
    let n = s.len();
    let mut i: usize = 0;
    assert(s@.skip(0) =~= s@);
    while i < n
        invariant
            i <= n == s@.len(),
            out@ + transformed(s@.skip(i as int), lasting, *once).0 == old(out)@ + transformed(s@, lasting, *old(once)).0,
            transformed(s@.skip(i as int), lasting, *once).1 == transformed(s@, lasting, *old(once)).1,
        decreases n - i,
    {
        let ghost rest = s@.skip(i as int);
        let ghost before = out@;
        let ghost o = *once;
        let c = s[i];
        assert(rest[0] == c);
        assert(rest.skip(1) =~= s@.skip(i + 1));
        let mode = match *once {
            Some(m) => Some(m),
            None => lasting,
        };
        *once = None;
        match mode {
            Some(true) => {
                let mut u = char_upper(c);
                out.append(&mut u);
            },
            Some(false) => {
                let mut l = char_lower(c);
                out.append(&mut l);
            },
            None => {
                out.push(c);
                assert(out@ =~= before + seq![c]);
            },
        }
        i = i + 1;
        assert(out@ + transformed(s@.skip(i as int), lasting, *once).0 =~= before + transformed(rest, lasting, o).0);
    }
    assert(s@.skip(n as int) =~= Seq::<char>::empty());
    assert(out@ + Seq::<char>::empty() =~= out@);
}

/// The text of group `n`, empty when it took no part.
fn group_chars(groups: &Vec<Option<(usize, usize)>>, text: &Vec<char>, n: usize) -> (r: Vec<char>)
    requires
        forall|k: int| 0 <= k < groups@.len() ==> (#[trigger] groups@[k] matches Some((a, b)) ==> a <= b <= text@.len()),
    ensures
        r@ == group_text(groups_view(groups@), text@, n as int),
{
    if n < groups.len() {
        match groups[n] {
            Some((a, b)) => slice_of(text, a, b),
            None => Vec::new(),
        }
    } else {
        Vec::new()
    }
}

/// The replacement for a match, from its groups and the pieces.
pub fn build_replacement(groups: &Vec<Option<(usize, usize)>>, text: &Vec<char>, parts: &Vec<ReplPart>) -> (r: Vec<char>)
    requires
        forall|k: int| 0 <= k < groups@.len() ==> (#[trigger] groups@[k] matches Some((a, b)) ==> a <= b <= text@.len()),
    ensures
        r@ == replacement(groups_view(groups@), text@, parts_view(parts@)),
{
    let ghost g = groups_view(groups@);
    let ghost pv = parts_view(parts@);
    let mut out: Vec<char> = Vec::new();
    let mut lasting: Option<bool> = None;
    let mut once: Option<bool> = None;
    let mut k: usize = 0;
    while k < parts.len()
        invariant
            k <= parts@.len(),
            g == groups_view(groups@),
            pv == parts_view(parts@),
            forall|j: int| 0 <= j < groups@.len() ==> (#[trigger] groups@[j] matches Some((a, b)) ==> a <= b <= text@.len()),
            (out@, lasting, once) == built(g, text@, pv, k as int),
        decreases parts@.len() - k,
    {
        assert(pv[k as int] == parts@[k as int]@);
        match &parts[k] {
            ReplPart::Literal(t) => push_transformed(&mut out, t, lasting, &mut once),
            ReplPart::Whole => {
                let t = group_chars(groups, text, 0);
                push_transformed(&mut out, &t, lasting, &mut once);
            },
            ReplPart::Group(n) => {
                let t = group_chars(groups, text, *n as usize);
                push_transformed(&mut out, &t, lasting, &mut once);
            },
            ReplPart::UpperNext => once = Some(true),
            ReplPart::LowerNext => once = Some(false),
            ReplPart::UpperUntil => lasting = Some(true),
            ReplPart::LowerUntil => lasting = Some(false),
            ReplPart::EndCase => lasting = None,
        }
        k = k + 1;
    }
    out
}

/// Replaces in a text the first match of the pattern, or every match when
/// `global`. Gives the new text, the number of replacements and where the
/// last replacement starts in the new text. A text of `usize::MAX`
/// characters, which no memory holds, is left as it is.
pub fn replace_all_in_text(text: &Vec<char>, regex: &Pattern, parts: &Vec<ReplPart>, global: bool) -> (r: (Vec<char>, usize, Option<usize>))
    ensures
        text@.len() < usize::MAX ==> ({
            let want = replace_scan(regex.source(), regex.ignores_case(), text@, parts_view(parts@), global, 0, 0, Seq::empty(), 0, None);
            &&& r.0@ == want.0
            &&& r.1 == want.1
            &&& match want.2 {
                Some(a) => r.2 == Some(a as usize) && 0 <= a <= usize::MAX,
                None => r.2 is None,
            }
        }),
        text@.len() == usize::MAX ==> r.0@ == text@ && r.1 == 0 && r.2 is None,
        r.2 matches Some(a) ==> a <= r.0@.len(),
{
    let ghost p = regex.source();
    let ghost ic = regex.ignores_case();
    let ghost pv = parts_view(parts@);
    let n = text.len();
    if n == usize::MAX {
        let same = slice_of(text, 0, n);
        assert(same@ =~= text@);
        return (same, 0, None);
    }
    let mut result: Vec<char> = Vec::new();
    let mut last: usize = 0;
    let mut pos: usize = 0;
    let mut count: usize = 0;
    let mut last_start: Option<usize> = None;
    loop
        invariant_except_break
            0 <= last <= pos <= n,
            count <= pos,
            replace_scan(p, ic, text@, pv, global, last as int, pos as int, result@, count as nat, match last_start {
                Some(a) => Some(a as int),
                None => None,
            }) == replace_scan(p, ic, text@, pv, global, 0, 0, Seq::empty(), 0, None),
        invariant
            n == text@.len(),
            n < usize::MAX,
            p == regex.source(),
            ic == regex.ignores_case(),
            pv == parts_view(parts@),
            last_start matches Some(a) ==> a <= result@.len(),
        ensures
            0 <= last <= n,
            last_start matches Some(a) ==> a <= result@.len(),
            (result@ + text@.subrange(last as int, n as int), count as nat, match last_start {
                Some(a) => Some(a as int),
                None => None,
            }) == replace_scan(p, ic, text@, pv, global, 0, 0, Seq::empty(), 0, None),
        decreases n + 2 - pos,
    {
        let ghost ls = match last_start {
            Some(a) => Some(a as int),
            None => None,
        };
        let ghost acc = result@;
        let last_before = last;
        let old_pos = pos;
        let groups = match regex.captures_at(text, pos) {
            Some(groups) => groups,
            None => {
                assert(groups_at(p, ic, text@, pos as int) is None);
                break;
            },
        };
        let ghost g = groups_view(groups@);
        assert(groups_at(p, ic, text@, pos as int) == Some(g));
        let (s, e) = match groups[0] {
            Some(span) => span,
            None => {
                assert(false);
                break;
            },
        };
        assert(g[0] == Some((s as int, e as int)));
        let mut piece = slice_of(text, last, s);
        result.append(&mut piece);
        let ghost before = result@;
        last_start = Some(result.len());
        let mut repl = build_replacement(&groups, text, parts);
        result.append(&mut repl);
        count = count + 1;
        last = e;
        assert(pos <= s <= e <= n);
        assert(result@ == before + replacement(g, text@, pv));
        if !global {
            let ghost r = replace_scan(p, ic, text@, pv, global, last_before as int, old_pos as int, acc, (count - 1) as nat, ls);
            assert(r == (result@ + text@.subrange(e as int, n as int), count as nat, Some(before.len() as int)));
            let mut rest = slice_of(text, last, n);
            result.append(&mut rest);
            return (result, count, last_start);
        }
        pos = if e > s { e } else { e + 1 };
        assert(replace_scan(p, ic, text@, pv, global, last_before as int, old_pos as int, acc, (count - 1) as nat, ls)
            == replace_scan(p, ic, text@, pv, global, e as int, pos as int, result@, count as nat, Some(before.len() as int)));
        if pos > n {
            break;
        }
    }
    let mut rest = slice_of(text, last, n);
    result.append(&mut rest);
    (result, count, last_start)
}


/// A text after replacing in it, as the editor does it.
pub open spec fn text_replaced(p: Seq<char>, ic: bool, t: Seq<char>, parts: Seq<ReplView>, global: bool) -> (Seq<char>, nat, Option<int>) {
    if t.len() < usize::MAX {
        replace_scan(p, ic, t, parts, global, 0, 0, Seq::empty(), 0, None)
    } else {
        (t, 0, None)
    }
}

/// `a + b`, kept within `usize`.
pub open spec fn sat_sum(a: nat, b: nat) -> nat {
    if a + b <= usize::MAX {
        a + b
    } else {
        usize::MAX as nat
    }
}

/// The nodes after replacing in those in `[start, k)`: the nodes, the
/// number of replacements (kept within `usize`), and the node and column
/// of the last replacement.
pub open spec fn sub_fold(v: Seq<NodeView>, p: Seq<char>, ic: bool, parts: Seq<ReplView>, global: bool, start: int, k: int) -> (Seq<NodeView>, nat, Option<(int, int)>)
    decreases k - start,
{
    if k <= start {
        (v, 0, None)
    } else {
        let (w, total, lm) = sub_fold(v, p, ic, parts, global, start, k - 1);
        let r = text_replaced(p, ic, v[k - 1].text, parts, global);
        if r.1 > 0 {
            (w.update(k - 1, nv(r.0, v[k - 1].depth)), sat_sum(total, r.1), match r.2 {
                Some(c) => Some((k - 1, c)),
                None => None,
            })
        } else {
            (w, total, lm)
        }
    }
}

/// A replacement that counts makes a place to put the cursor.
pub proof fn lemma_scan_at(
    p: Seq<char>,
    ic: bool,
    text: Seq<char>,
    parts: Seq<ReplView>,
    global: bool,
    last: int,
    pos: int,
    acc: Seq<char>,
    count: nat,
    at: Option<int>,
)
    requires
        count > 0 ==> at is Some,
    ensures
        replace_scan(p, ic, text, parts, global, last, pos, acc, count, at).1 > 0 ==> replace_scan(
            p,
            ic,
            text,
            parts,
            global,
            last,
            pos,
            acc,
            count,
            at,
        ).2 is Some,
    decreases text.len() + 2 - pos,
{
    if 0 <= last <= pos <= text.len() {
        match groups_at(p, ic, text, pos) {
            None => {},
            Some(g) => if g.len() >= 1 && (g[0] matches Some((s, e)) && pos <= s <= e <= text.len()) {
                let (s, e) = match g[0] {
                    Some((s, e)) => (s, e),
                    None => (0, 0),
                };
                let before = acc + text.subrange(last, s);
                let after = before + replacement(g, text, parts);
                if global {
                    lemma_scan_at(p, ic, text, parts, global, e, if e > s { e } else { e + 1 }, after, count + 1, Some(before.len() as int));
                }
            },
        }
    }
}

/// The first node a range reaches, within the list.
pub open spec fn sub_start(range: (usize, usize), len: int) -> int {
    if range.0 < len - 1 { range.0 as int } else { len - 1 }
}

/// The last node a range reaches, within the list and not before its
/// first.
pub open spec fn sub_end(range: (usize, usize), len: int) -> int {
    let e = if range.1 < len - 1 { range.1 as int } else { len - 1 };
    if e > sub_start(range, len) { e } else { sub_start(range, len) }
}

/// A copy of the pieces of a replacement.
pub fn copy_parts(parts: &Vec<ReplPart>) -> (r: Vec<ReplPart>)
    ensures
        parts_view(r@) == parts_view(parts@),
{
    let mut r: Vec<ReplPart> = Vec::new();
    let mut i: usize = 0;
    while i < parts.len()
        invariant
            i <= parts@.len(),
            r@.len() == i,
            forall|j: int| 0 <= j < i ==> #[trigger] r@[j]@ == parts@[j]@,
        decreases parts@.len() - i,
    {
        let p = match &parts[i] {
            ReplPart::Literal(t) => {
                let c = t.clone();
                assert(c@ =~= t@);
                ReplPart::Literal(c)
            },
            ReplPart::Whole => ReplPart::Whole,
            ReplPart::Group(n) => ReplPart::Group(*n),
            ReplPart::UpperNext => ReplPart::UpperNext,
            ReplPart::LowerNext => ReplPart::LowerNext,
            ReplPart::UpperUntil => ReplPart::UpperUntil,
            ReplPart::LowerUntil => ReplPart::LowerUntil,
            ReplPart::EndCase => ReplPart::EndCase,
        };
        r.push(p);
        i = i + 1;
    }
    assert(parts_view(r@) =~= parts_view(parts@));
    r
}

/// The matches in the nodes of `[start, k)`, kept within `usize`.
pub open spec fn count_fold(v: Seq<NodeView>, p: Seq<char>, ic: bool, start: int, k: int) -> nat
    decreases k - start,
{
    if k <= start {
        0
    } else {
        sat_sum(count_fold(v, p, ic, start, k - 1), regex_count(p, ic, v[k - 1].text))
    }
}

/// The message after a substitution that replaced `n` matches.
pub open spec fn replaced_message(n: nat) -> Seq<char> {
    decimal(n) + " substitution(s)"@
}

/// The message after counting `n` matches.
pub open spec fn counted_message(n: nat) -> Seq<char> {
    decimal(n) + " match(es)"@
}

/// The message when nothing matched: none with the `e` flag.
pub open spec fn not_found_message(source: Seq<char>, quiet: bool) -> Seq<char> {
    if quiet {
        Seq::empty()
    } else {
        "pattern not found: "@ + source
    }
}

/// The characters that a range before `s` or `&` may hold: line numbers,
/// `,`, `.`, `$`, `%`, and the marks `'<` and `'>` of the last Visual
/// selection.
pub open spec fn is_range_char(c: char) -> bool {
    ||| spec_is_ascii_digit(c)
    ||| c == ','
    ||| c == '.'
    ||| c == '$'
    ||| c == '%'
    ||| c == '\''
    ||| c == '<'
    ||| c == '>'
}

/// The length of the range at the start of a command.
pub open spec fn range_len(s: Seq<char>, i: int) -> int
    decreases s.len() - i,
{
    if 0 <= i < s.len() && is_range_char(s[i]) {
        range_len(s, i + 1)
    } else {
        i
    }
}

/// The index of the first `,`, from `i` on.
pub open spec fn comma_at(s: Seq<char>, i: int) -> Option<int>
    decreases s.len() - i,
{
    if i < 0 || i >= s.len() {
        None
    } else if s[i] == ',' {
        Some(i)
    } else {
        comma_at(s, i + 1)
    }
}

/// Whether a range may hold the character.
fn range_char(c: char) -> (r: bool)
    ensures
        r == is_range_char(c),
{
    is_ascii_digit(c) || c == ',' || c == '.' || c == '$' || c == '%' || c == '\'' || c == '<' || c == '>'
}

/// The length of the range at the start of a command.
pub fn range_prefix_len(s: &Vec<char>) -> (r: usize)
    ensures
        r == range_len(s@, 0),
        r <= s@.len(),
{
    let mut i: usize = 0;
    while i < s.len() && range_char(s[i])
        invariant
            i <= s@.len(),
            range_len(s@, i as int) == range_len(s@, 0),
        decreases s@.len() - i,
    {
        i = i + 1;
    }
    i
}

/// The first `,` from `i` on.
fn find_comma(s: &Vec<char>, from: usize) -> (r: Option<usize>)
    ensures
        match comma_at(s@, from as int) {
            Some(i) => r == Some(i as usize) && from <= i < s@.len(),
            None => r is None,
        },
{
    let mut i = from;
    while i < s.len()
        invariant
            from <= i,
            comma_at(s@, i as int) == comma_at(s@, from as int),
        decreases s@.len() - i,
    {
        if s[i] == ',' {
            return Some(i);
        }
        i = i + 1;
    }
    None
}

/// The first match at or after character `pos` of `text`, when the text's
/// bytes can be counted in `usize`.
pub open spec fn match_at(p: Seq<char>, ic: bool, text: Seq<char>, pos: int) -> Option<(int, int)> {
    if byte_len(text) <= usize::MAX {
        find_chars(p, ic, text, pos)
    } else {
        None
    }
}

/// The next match a substitution that asks about each one comes to: the
/// first from column `pos` of node `node` on, else from the start of each
/// later node up to `range_end`.
pub open spec fn next_match(v: Seq<NodeView>, p: Seq<char>, ic: bool, node: int, pos: int, range_end: int) -> Option<(int, int, int)>
    decreases (if node <= range_end { range_end + 1 - node } else { 0 }),
{
    if node > range_end || node < 0 || node >= v.len() {
        None
    } else {
        let found = if 0 <= pos <= v[node].text.len() { match_at(p, ic, v[node].text, pos) } else { None };
        match found {
            Some((s, e)) => Some((node, s, e)),
            None => next_match(v, p, ic, node + 1, 0, range_end),
        }
    }
}

/// Where the question goes next for the state `st` on the nodes `v`.
pub open spec fn next_for(v: Seq<NodeView>, st: ConfirmState) -> Option<(int, int, int)> {
    next_match(v, st.regex.source(), st.regex.ignores_case(), st.node as int, st.pos as int, st.range_end as int)
}

/// What the message says when a substitution that asked about each match
/// ends: how many it replaced, or that nothing matched.
pub open spec fn finish_message(st: ConfirmState) -> Seq<char> {
    if !st.entered && st.count == 0 {
        not_found_message(st.regex.source(), st.quiet_empty)
    } else {
        replaced_message(st.count as nat)
    }
}

/// `s1` is `s0` once a substitution that asked about each match ends:
/// back to Normal mode, the message telling how it went.
pub open spec fn confirm_finished(s0: App, s1: App) -> bool {
    match s0.confirm_state {
        None => s1 == s0,
        Some(st) => s1 == (App { confirm_state: None, mode: Mode::Normal, message: s1.message, ..s0 })
            && s1.message@ == finish_message(st),
    }
}

/// `s1` is `s0` once the next match is looked for: the question moves to
/// it, with the cursor at its start and the view centred; when there is
/// none left, the substitution ends.
pub open spec fn next_found(s0: App, s1: App) -> bool {
    match s0.confirm_state {
        None => s1 == s0,
        Some(o) => match next_for(nodes_view(s0.nodes@), o) {
            Some((node, s, e)) => {
                &&& s1 == (App {
                    cursor: node as usize,
                    cursor_col: s as usize,
                    scroll: s1.scroll,
                    message: s1.message,
                    mode: Mode::Confirm,
                    confirm_state: s1.confirm_state,
                    ..s0
                })
                &&& s1.confirm_state matches Some(st) && st == (ConfirmState {
                    node: node as usize,
                    match_range: (s as usize, e as usize),
                    entered: true,
                    pos: st.pos,
                    ..o
                })
                &&& s1.scroll == s1.centered_scroll()
                &&& s1.message@ == "replace? (y/n/a/q/l)"@
            },
            None => s1 == (App { confirm_state: None, mode: Mode::Normal, message: s1.message, ..s0 })
                && s1.message@ == finish_message(o),
        },
    }
}

/// `s1` is `s0` once the match asked about is passed over: the search
/// goes on after it, or in the next node when only the first match of a
/// node is replaced.
pub open spec fn pending_skipped(s0: App, s1: App) -> bool {
    match s0.confirm_state {
        None => s1 == s0,
        Some(st) => {
            let (start, end) = st.match_range;
            let next_pos: usize = if end > start { end } else if start < usize::MAX { (start + 1) as usize } else { start };
            s1 == (App {
                confirm_state: Some(
                    if st.global {
                        ConfirmState { pos: next_pos, ..st }
                    } else {
                        ConfirmState { node: (if st.node < usize::MAX { st.node + 1 } else { st.node as int }) as usize, pos: 0, ..st }
                    },
                ),
                ..s0
            })
        },
    }
}

/// `s1` is `s0` once the match asked about is replaced: the node's text
/// has the replacement in place of the match, the cursor goes to where it
/// starts, the view is centred, the change is recorded for undo, one more
/// replacement is counted, and the search goes on after the replacement
/// (or in the next node when only the first match of a node is replaced).
pub open spec fn pending_applied(s0: App, s1: App) -> bool {
    match s0.confirm_state {
        None => s1 == s0,
        Some(st) => {
            let v = nodes_view(s0.nodes@);
            let node = st.node as int;
            let (start, end) = st.match_range;
            if node < v.len() && start <= end <= v[node].text.len() {
                match groups_at(st.regex.source(), st.regex.ignores_case(), v[node].text, start as int) {
                    Some(g) => {
                        let t = v[node].text;
                        let r = replacement(g, t, parts_view(st.parts@));
                        let new_pos: usize = if r.len() > 0 && start + r.len() <= usize::MAX {
                            (start + r.len()) as usize
                        } else if start < usize::MAX {
                            (start + 1) as usize
                        } else {
                            start
                        };
                        &&& nodes_view(s1.nodes@) == v.update(node, nv(t.take(start as int) + r + t.skip(end as int), v[node].depth))
                        &&& s1.cursor == st.node
                        &&& s1.cursor_col == start
                        &&& recorded(s0, s1)
                        &&& s1.scroll == s1.centered_scroll()
                        &&& s1 == (App {
                            nodes: s1.nodes,
                            cursor: s1.cursor,
                            cursor_col: s1.cursor_col,
                            scroll: s1.scroll,
                            modified: s1.modified,
                            held: s1.held,
                            undo: s1.undo,
                            redo: s1.redo,
                            confirm_state: s1.confirm_state,
                            ..s0
                        })
                        &&& s1.confirm_state == Some(
                            if st.global {
                                ConfirmState { count: (if st.count < usize::MAX { st.count + 1 } else { st.count as int }) as usize, pos: new_pos, ..st }
                            } else {
                                ConfirmState {
                                    count: (if st.count < usize::MAX { st.count + 1 } else { st.count as int }) as usize,
                                    node: (if st.node < usize::MAX { st.node + 1 } else { st.node as int }) as usize,
                                    pos: 0,
                                    ..st
                                }
                            },
                        )
                    },
                    None => s1 == s0,
                }
            } else {
                s1 == s0
            }
        },
    }
}

/// Whether `st` is the state a substitution that asks about each match
/// starts from: the pattern `pattern` (ignoring case when `ic`), the
/// replacement `parts`, the search at the start of node `start`, the range
/// ending at node `end`, nothing replaced or asked yet.
pub open spec fn fresh_state(
    st: ConfirmState,
    pattern: Seq<char>,
    ic: bool,
    parts: Seq<ReplView>,
    global: bool,
    start: int,
    end: int,
    quiet_empty: bool,
) -> bool {
    &&& st.regex.source() == pattern
    &&& st.regex.ignores_case() == ic
    &&& parts_view(st.parts@) == parts
    &&& st.global == global
    &&& st.node == start
    &&& st.pos == 0
    &&& st.range_end == end
    &&& st.match_range == (0usize, 0usize)
    &&& st.count == 0
    &&& st.quiet_empty == quiet_empty
    &&& !st.entered
}

/// `s1` is `s0` once a substitution that asks about each match starts
/// from the state `st`: the state at the start of the edit is held for
/// undo, and the first match is looked for.
pub open spec fn confirm_started(s0: App, s1: App, st: ConfirmState) -> bool {
    exists|m: App| #[trigger] edit_began(s0, m) && next_found(App { confirm_state: Some(st), ..m }, s1)
}

/// `s1` is `s0` after `g&`: the last substitution's replacement and flags,
/// with the last search's pattern, on every node.
pub open spec fn globally_repeated(s0: App, s1: App) -> bool {
    match (s0.last_substitute, s0.last_search) {
        (Some(last), Some((pattern, _))) => substitution_done(
            s0,
            s1,
            (0, (s0.nodes@.len() - 1) as usize),
            pattern@,
            parts_view(last.parts@),
            last.flags,
        ),
        _ => s1.message@ == "no previous substitute"@ && s1 == (App { message: s1.message, ..s0 }),
    }
}

/// Whether a substitution that asks about each match has none left to ask
/// about.
pub open spec fn none_left(s0: App) -> bool {
    match s0.confirm_state {
        None => true,
        Some(o) => next_for(nodes_view(s0.nodes@), o) is None,
    }
}

/// `s1` is `s0` after one round of `a`: the next match is looked for and
/// replaced.
pub open spec fn replaced_next(s0: App, s1: App) -> bool {
    match s0.confirm_state {
        None => false,
        Some(o) => match next_for(nodes_view(s0.nodes@), o) {
            Some((node, s, e)) => exists|p: usize|
                #[trigger] pending_applied(
                    App {
                        confirm_state: Some(ConfirmState { node: node as usize, pos: p, match_range: (s as usize, e as usize), ..o }),
                        ..s0
                    },
                    s1,
                ),
            None => false,
        },
    }
}

/// `s1` is `s0` after `n` rounds of `a`.
pub open spec fn replaced_times(s0: App, s1: App, n: nat) -> bool
    decreases n,
{
    if n == 0 {
        s1 == s0
    } else {
        exists|m: App| replaced_times(s0, m, (n - 1) as nat) && #[trigger] replaced_next(m, s1)
    }
}

/// `s1` is `s0` with only where the search goes on moved.
pub open spec fn search_moved(s0: App, s1: App) -> bool {
    &&& s1 == (App { confirm_state: s1.confirm_state, ..s0 })
    &&& match (s0.confirm_state, s1.confirm_state) {
        (Some(o), Some(st)) => st == (ConfirmState { node: st.node, pos: st.pos, ..o }),
        (None, None) => true,
        _ => false,
    }
}

/// `s1` is `s0` after a key while a substitution asks about a match: `y`
/// replaces it and asks about the next, `n` passes over it, `l` replaces
/// it and ends, `q` and Esc end, `a` replaces it and every match left and
/// ends; any other key changes nothing.
pub open spec fn confirm_done(s0: App, s1: App, code: Key) -> bool {
    if code == Key::Char('y') {
        exists|m: App| #[trigger] pending_applied(s0, m) && next_found(m, s1)
    } else if code == Key::Char('n') {
        exists|m: App| #[trigger] pending_skipped(s0, m) && next_found(m, s1)
    } else if code == Key::Char('l') {
        exists|m: App| #[trigger] pending_applied(s0, m) && confirm_finished(m, s1)
    } else if code == Key::Char('q') || code == Key::Esc {
        confirm_finished(s0, s1)
    } else if code == Key::Char('a') {
        exists|m: App, m2: App, n: nat|
            #[trigger] pending_applied(s0, m) && #[trigger] replaced_times(m, m2, n) && n <= usize::MAX && (n
                < usize::MAX ==> none_left(m2)) && confirm_finished(m2, s1)
    } else {
        s1 == s0
    }
}

/// The replacement text of the last substitution, empty when there was
/// none.
pub open spec fn previous_raw(s0: App) -> Seq<char> {
    match s0.last_substitute {
        Some(prev) => prev.replacement_raw@,
        None => Seq::empty(),
    }
}

/// `s1` is `s0` after `:&` (or `:&&`, keeping the flags) on `range`.
pub open spec fn repeated(s0: App, s1: App, range: (usize, usize), keep_flags: bool) -> bool {
    match s0.last_substitute {
        None => s1.message@ == "no previous substitute"@ && s1 == (App { message: s1.message, ..s0 }),
        Some(last) => substitution_done(
            s0,
            s1,
            range,
            last.pattern@,
            parts_view(last.parts@),
            if keep_flags { last.flags } else { no_flags() },
        ),
    }
}

/// `s1` is `s0` after a `:` line `line` that may be a substitution: a
/// range (none meaning the cursor's node), then `&`, `&&` or `s/` and the
/// rest; anything else changes nothing.
pub open spec fn substituted(s0: App, s1: App, line: Seq<char>) -> bool {
    let t = trimmed(line);
    let k = range_len(t, 0);
    let rest = t.skip(k);
    match s0.range_spec(t.take(k)) {
        Some((a, b)) => {
            let range = (a as usize, b as usize);
            if rest == "&"@ {
                repeated(s0, s1, range, false)
            } else if rest == "&&"@ {
                repeated(s0, s1, range, true)
            } else if rest.len() >= 2 && rest[0] == 's' && rest[1] == '/' {
                substitute_ran(s0, s1, range, rest.skip(2))
            } else {
                s1 == s0
            }
        },
        None => s1 == s0,
    }
}

/// `m` is `s0` with only the last search and the last substitution
/// changed.
pub open spec fn remembered(s0: App, m: App) -> bool {
    m == (App { last_search: m.last_search, last_substitute: m.last_substitute, ..s0 })
}

/// `s1` is `s0` after `:s/{body}` on `range`: an empty pattern takes the
/// last search's (and there must be one), a new one becomes the last
/// search; `~` in the replacement stands for the last replacement; the
/// substitution is remembered for `:&`, then made.
pub open spec fn substitute_ran(s0: App, s1: App, range: (usize, usize), body: Seq<char>) -> bool {
    let pattern_raw = split_body(body).0;
    let replacement_raw = split_body(body).1;
    let flags_raw = split_body(body).2;
    if pattern_raw.len() == 0 && s0.last_search is None {
        s1.message@ == "no previous search pattern"@ && s1 == (App { message: s1.message, ..s0 })
    } else {
        let pattern = if pattern_raw.len() == 0 {
            match s0.last_search {
                Some((p, _)) => p@,
                None => Seq::empty(),
            }
        } else {
            translated(pattern_raw)
        };
        let expanded = tilde_expanded(replacement_raw, previous_raw(s0));
        let flags = flags_of(flags_raw);
        exists|m: App| #[trigger] remembered(s0, m) && substitution_done(m, s1, range, pattern, parse_repl(expanded, Seq::empty()), flags)
            && (pattern_raw.len() > 0 ==> (m.last_search matches Some((p, f)) && p@ == pattern && f))
            && (pattern_raw.len() == 0 ==> m.last_search == s0.last_search)
            && (m.last_substitute matches Some(last) && last.pattern@ == pattern && last.replacement_raw@ == expanded
                && parts_view(last.parts@) == parse_repl(expanded, Seq::empty()) && last.flags == flags)
    }
}

/// `s1` is `s0` once the matches of `p` in the nodes from `start` to
/// `end` are replaced, as one edit: the message tells how many, and the
/// cursor goes to the start of the last replacement; when nothing
/// matched, only the message changes (and the edit is begun).
#[verifier::opaque]
pub open spec fn substitution_applied(
    s0: App,
    s1: App,
    p: Seq<char>,
    ic: bool,
    parts: Seq<ReplView>,
    global: bool,
    start: int,
    end: int,
    quiet_empty: bool,
) -> bool {
    let (w, total, last) = sub_fold(nodes_view(s0.nodes@), p, ic, parts, global, start, end + 1);
    exists|m: App|
        #[trigger] edit_began(s0, m) && if total == 0 {
            s1 == (App { message: s1.message, ..m }) && s1.message@ == not_found_message(p, quiet_empty)
        } else {
            &&& nodes_view(s1.nodes@) == w
            &&& match last {
                Some((node, col)) => s1.cursor == node && s1.cursor_col == col && s1.scroll == s1.centered_scroll(),
                None => s1.cursor == s0.cursor && s1.cursor_col == s0.cursor_col && s1.scroll == s0.scroll,
            }
            &&& recorded(m, s1)
            &&& s1.message@ == replaced_message(total)
            &&& s1 == (App {
                nodes: s1.nodes,
                cursor: s1.cursor,
                cursor_col: s1.cursor_col,
                scroll: s1.scroll,
                modified: s1.modified,
                held: s1.held,
                undo: s1.undo,
                redo: s1.redo,
                message: s1.message,
                ..s0
            })
        }
}

/// `s1` is `s0` once the matches of `p` in the nodes from `start` to
/// `end` are counted: only the message changes.
pub open spec fn matches_counted(s0: App, s1: App, p: Seq<char>, ic: bool, start: int, end: int, quiet_empty: bool) -> bool {
    let n = count_fold(nodes_view(s0.nodes@), p, ic, start, end + 1);
    &&& s1 == (App { message: s1.message, ..s0 })
    &&& s1.message@ == if n == 0 {
        not_found_message(p, quiet_empty)
    } else {
        counted_message(n)
    }
}

/// `s1` is `s0` after a substitution of `pattern` by `parts` with
/// `flags` on the nodes of `range` (cut to the nodes there are): a
/// pattern that does not compile is reported; with `n` nothing changes;
/// otherwise, unless each match is asked about, every node in the range
/// has its matches replaced.
pub open spec fn substitution_done(
    s0: App,
    s1: App,
    range: (usize, usize),
    pattern: Seq<char>,
    parts: Seq<ReplView>,
    flags: SubFlags,
) -> bool {
    let ic = match flags.ignore_case {
        Some(b) => b,
        None => smart_case(pattern),
    };
    &&& regex_error(pattern, ic) matches Some(e) ==> s1.message@ == "invalid search pattern: "@ + e && s1 == (App {
        message: s1.message,
        ..s0
    })
    &&& regex_error(pattern, ic) is None && flags.no_replace ==> matches_counted(
        s0,
        s1,
        pattern,
        ic,
        sub_start(range, s0.nodes@.len() as int),
        sub_end(range, s0.nodes@.len() as int),
        flags.quiet_empty,
    )
    &&& regex_error(pattern, ic) is None && !flags.no_replace && flags.confirm ==> exists|st: ConfirmState|
        fresh_state(st, pattern, ic, parts, flags.global, sub_start(range, s0.nodes@.len() as int), sub_end(
            range,
            s0.nodes@.len() as int,
        ), flags.quiet_empty) && #[trigger] confirm_started(s0, s1, st)
    &&& regex_error(pattern, ic) is None && !flags.no_replace && !flags.confirm ==> substitution_applied(
        s0,
        s1,
        pattern,
        ic,
        parts,
        flags.global,
        sub_start(range, s0.nodes@.len() as int),
        sub_end(range, s0.nodes@.len() as int),
        flags.quiet_empty,
    )
    &&& s1.source_mode == s0.source_mode
    &&& s1.last_search == s0.last_search
    &&& s1.last_substitute == s0.last_substitute
}

impl App {
    /// The node a part of a range names: `.` the cursor's, `$` the last,
    /// `'<` and `'>` the ends of the last Visual selection, a number the
    /// node of that line.
    pub open spec fn atom_spec(&self, s: Seq<char>) -> Option<int> {
        if s == "."@ {
            Some(self.cursor as int)
        } else if s == "$"@ {
            Some(self.nodes@.len() - 1)
        } else if s.len() == 0 {
            None
        } else if s == "'<"@ {
            match self.last_visual_range {
                Some((a, _)) => Some(a as int),
                None => None,
            }
        } else if s == "'>"@ {
            match self.last_visual_range {
                Some((_, b)) => Some(b as int),
                None => None,
            }
        } else {
            match parsed_usize(s) {
                Some(n) => Some(if n > 0 { n - 1 } else { 0 }),
                None => None,
            }
        }
    }

    /// The nodes a range names, both ends included: the cursor's node
    /// when it is empty, every node for `%`, one part or two parts about a
    /// comma, in order.
    pub open spec fn range_spec(&self, s: Seq<char>) -> Option<(int, int)> {
        if s.len() == 0 {
            Some((self.cursor as int, self.cursor as int))
        } else if s == "%"@ {
            Some((0, self.nodes@.len() - 1))
        } else {
            match comma_at(s, 0) {
                None => match self.atom_spec(s) {
                    Some(n) => Some((n, n)),
                    None => None,
                },
                Some(c) => match comma_at(s, c + 1) {
                    Some(_) => None,
                    None => match (self.atom_spec(s.take(c)), self.atom_spec(s.skip(c + 1))) {
                        (Some(x), Some(y)) => if x <= y { Some((x, y)) } else { Some((y, x)) },
                        _ => None,
                    },
                },
            }
        }
    }

    /// The node a part of a range names.
    pub fn resolve_atom(&self, s: &Vec<char>) -> (r: Option<usize>)
        requires
            self.wf(),
        ensures
            match self.atom_spec(s@) {
                Some(n) => r == Some(n as usize) && 0 <= n <= usize::MAX,
                None => r is None,
            },
    {
        let n = self.nodes.len();
        let t = s.as_slice();
        if same_text(t, ".") {
            Some(self.cursor)
        } else if same_text(t, "$") {
            Some(n - 1)
        } else if s.len() == 0 {
            None
        } else if same_text(t, "'<") {
            match self.last_visual_range {
                Some((a, _)) => Some(a),
                None => None,
            }
        } else if same_text(t, "'>") {
            match self.last_visual_range {
                Some((_, b)) => Some(b),
                None => None,
            }
        } else {
            match parse_usize(t) {
                Some(v) => Some(if v > 0 { v - 1 } else { 0 }),
                None => None,
            }
        }
    }

    /// The nodes a range names, both ends included.
    pub fn parse_range(&self, s: &Vec<char>) -> (r: Option<(usize, usize)>)
        requires
            self.wf(),
        ensures
            match self.range_spec(s@) {
                Some((a, b)) => r == Some((a as usize, b as usize)) && 0 <= a <= b <= usize::MAX,
                None => r is None,
            },
    {
        let n = self.nodes.len();
        if s.len() == 0 {
            return Some((self.cursor, self.cursor));
        }
        if same_text(s.as_slice(), "%") {
            return Some((0, n - 1));
        }
        match find_comma(s, 0) {
            None => match self.resolve_atom(s) {
                Some(x) => Some((x, x)),
                None => None,
            },
            Some(c) => {
                if find_comma(s, c + 1).is_some() {
                    return None;
                }
                let a = slice_of(s, 0, c);
                let b = slice_of(s, c + 1, s.len());
                assert(a@ =~= s@.take(c as int));
                assert(b@ =~= s@.skip(c + 1));
                match (self.resolve_atom(&a), self.resolve_atom(&b)) {
                    (Some(x), Some(y)) => if x <= y { Some((x, y)) } else { Some((y, x)) },
                    _ => None,
                }
            },
        }
    }

    /// Replaces in the nodes of `[start, end]`, at once: each node's first
    /// match, or every match when `global`. The cursor goes to the last
    /// replacement, brought to the middle of the view; the message tells
    /// how many were made, or that nothing matched.
    #[verifier::rlimit(40)]
    pub fn apply_substitute(&mut self, regex: &Pattern, parts: &Vec<ReplPart>, global: bool, start: usize, end: usize, quiet_empty: bool)
        requires
            old(self).wf(),
            start <= end < old(self).nodes@.len(),
        ensures
            final(self).wf(),
            substitution_applied(
                *old(self),
                *final(self),
                regex.source(),
                regex.ignores_case(),
                parts_view(parts@),
                global,
                start as int,
                end as int,
                quiet_empty,
            ),
            final(self).source_mode == old(self).source_mode,
            final(self).last_search == old(self).last_search,
            final(self).last_substitute == old(self).last_substitute,
    {
        let ghost v = nodes_view(self.nodes@);
        let ghost p = regex.source();
        let ghost ic = regex.ignores_case();
        let ghost pv = parts_view(parts@);
        proof {
            reveal(substitution_applied);
        }
        self.begin_edit();
        let ghost m = *self;
        let mut nodes = App::copy_nodes(&self.nodes);
        let nlen = nodes.len();
        let mut total: usize = 0;
        let mut last_match: Option<(usize, usize)> = None;
        let mut node = start;
        while node <= end
            invariant
                start <= node <= end + 1,
                end < nodes@.len(),
                nodes@.len() == v.len(),
                p == regex.source(),
                ic == regex.ignores_case(),
                pv == parts_view(parts@),
                ({
                    let (w, t, lm) = sub_fold(v, p, ic, pv, global, start as int, node as int);
                    &&& nodes_view(nodes@) == w
                    &&& t == total
                    &&& lm == match last_match {
                        Some((a, b)) => Some((a as int, b as int)),
                        None => None,
                    }
                }),
                forall|k: int| node <= k < v.len() ==> #[trigger] nodes_view(nodes@)[k] == v[k],
                forall|k: int| 0 <= k < v.len() ==> #[trigger] nodes@[k].depth == v[k].depth,
                last_match matches Some((a, b)) ==> a < nodes@.len() && b <= nodes@[a as int].text@.len(),
                total > 0 ==> last_match is Some,
                total == 0 ==> nodes_view(nodes@) == v,
                nlen == nodes@.len(),
            decreases end + 1 - node,
        {
            assert(nodes_view(nodes@)[node as int] == v[node as int]);
            assert(nodes@[node as int].text@ == v[node as int].text);
            let (new_text, count, last_start) = replace_all_in_text(&nodes[node].text, regex, parts, global);
            let ghost r = text_replaced(p, ic, v[node as int].text, pv, global);
            proof {
                if v[node as int].text.len() < usize::MAX {
                    lemma_scan_at(p, ic, v[node as int].text, pv, global, 0, 0, Seq::empty(), 0, None);
                }
            }
            let ghost t = nodes@[node as int].text@;
            let tlen = nodes[node].text.len();
            assert(t == v[node as int].text);
            assert(t.len() < usize::MAX ==> new_text@ == replace_scan(regex.source(), regex.ignores_case(), t, parts_view(parts@), global, 0, 0, Seq::empty(), 0, None).0);
            assert(t.len() == usize::MAX ==> new_text@ == t);
            assert(new_text@ == r.0);
            assert(count == r.1);
            if count > 0 {
                let ghost before = nodes_view(nodes@);
                let depth = nodes[node].depth;
                nodes.set(node, Node { text: new_text, depth });
                assert(nodes_view(nodes@) =~= before.update(node as int, nv(r.0, v[node as int].depth)));
                total = if total <= usize::MAX - count { total + count } else { usize::MAX };
                last_match = match last_start {
                    Some(col) => Some((node, col)),
                    None => None,
                };
                assert(last_start is Some);
                assert(r.2 == Some(last_start->0 as int));
            }
            assert(sub_fold(v, p, ic, pv, global, start as int, node + 1) == {
                let (w, t0, lm) = sub_fold(v, p, ic, pv, global, start as int, node as int);
                if r.1 > 0 {
                    (w.update(node as int, nv(r.0, v[node as int].depth)), sat_sum(t0, r.1), match r.2 {
                        Some(c) => Some((node as int, c)),
                        None => None,
                    })
                } else {
                    (w, t0, lm)
                }
            });
            if node == end {
                node = end + 1;
            } else {
                node = node + 1;
            }
        }
        if total == 0 {
            let mut message: Vec<char> = Vec::new();
            if !quiet_empty {
                push_str(&mut message, "pattern not found: ");
                let mut source = regex.source_text().clone();
                assert(source@ =~= regex.source());
                message.append(&mut source);
            }
            self.message = message;
            assert(edit_began(*old(self), m));
            return;
        }
        self.nodes = nodes;
        match last_match {
            Some((node, col)) => {
                self.cursor = node;
                self.cursor_col = col;
                self.center_on_cursor();
            },
            None => {},
        }
        self.record();
        let mut message: Vec<char> = Vec::new();
        push_decimal(&mut message, total);
        push_str(&mut message, " substitution(s)");
        self.message = message;
        assert(edit_began(*old(self), m) && recorded(m, *self));
    }

    /// `n` flag: counts the matches in the nodes of `[start, end]`
    /// without replacing.
    pub fn report_match_count(&mut self, regex: &Pattern, start: usize, end: usize, quiet_empty: bool)
        requires
            old(self).wf(),
            start <= end < old(self).nodes@.len(),
        ensures
            final(self).wf(),
            matches_counted(*old(self), *final(self), regex.source(), regex.ignores_case(), start as int, end as int, quiet_empty),
    {
        let ghost v = nodes_view(self.nodes@);
        let mut count: usize = 0;
        let mut node = start;
        let n = self.nodes.len();
        while node <= end
            invariant
                start <= node <= end + 1,
                end < n == self.nodes@.len(),
                v == nodes_view(self.nodes@),
                count == count_fold(v, regex.source(), regex.ignores_case(), start as int, node as int),
            decreases end + 1 - node,
        {
            assert(v[node as int].text == self.nodes@[node as int].text@);
            let c = regex.count_in(&self.nodes[node].text);
            count = if count <= usize::MAX - c { count + c } else { usize::MAX };
            node = node + 1;
        }
        let mut message: Vec<char> = Vec::new();
        if count == 0 {
            if !quiet_empty {
                push_str(&mut message, "pattern not found: ");
                let mut source = regex.source_text().clone();
                assert(source@ =~= regex.source());
                message.append(&mut source);
            }
        } else {
            push_decimal(&mut message, count);
            push_str(&mut message, " match(es)");
        }
        self.message = message;
    }

    /// Runs a substitution on the nodes of a range with a pattern in the
    /// regex syntax: counts with `n`, asks about each match with `c`,
    /// replaces at once otherwise. Case is ignored as the `i` and `I`
    /// flags say, else when the pattern has no upper-case letter.
    pub fn execute_substitute(&mut self, range: (usize, usize), pattern: &Vec<char>, parts: Vec<ReplPart>, flags: SubFlags)
        requires
            old(self).wf(),
        ensures
            final(self).wf(),
            substitution_done(*old(self), *final(self), range, pattern@, parts_view(parts@), flags),
    {
        let n = self.nodes.len();
        let last = n - 1;
        let start = if range.0 < last { range.0 } else { last };
        let end0 = if range.1 < last { range.1 } else { last };
        let end = if end0 > start { end0 } else { start };
        let ic = match flags.ignore_case {
            Some(b) => b,
            None => ignores_case(pattern),
        };
        let source = string_from(pattern.as_slice());
        let regex = match compile(source.as_str(), ic) {
            Ok(regex) => regex,
            Err(error) => {
                let mut message: Vec<char> = Vec::new();
                push_str(&mut message, "invalid search pattern: ");
                push_str(&mut message, error.as_str());
                self.message = message;
                return;
            },
        };
        proof {
            let n = old(self).nodes@.len() as int;
            assert(start as int == sub_start(range, n));
            assert(end as int == sub_end(range, n));
        }
        if flags.no_replace {
            self.report_match_count(&regex, start, end, flags.quiet_empty);
            return;
        }
        if flags.confirm {
            let ghost st = ConfirmState {
                regex,
                parts,
                global: flags.global,
                node: start,
                pos: 0,
                range_end: end,
                match_range: (0, 0),
                count: 0,
                quiet_empty: flags.quiet_empty,
                entered: false,
            };
            self.start_confirm(regex, parts, flags.global, start, end, flags.quiet_empty);
            proof {
                let n = old(self).nodes@.len() as int;
                assert(ic == match flags.ignore_case {
                    Some(b) => b,
                    None => smart_case(pattern@),
                });
                assert(fresh_state(st, pattern@, ic, parts_view(st.parts@), flags.global, sub_start(range, n), sub_end(range, n), flags.quiet_empty));
                assert(confirm_started(*old(self), *self, st));
            }
            return;
        }
        self.apply_substitute(&regex, &parts, flags.global, start, end, flags.quiet_empty);
    }

    /// `:s/pattern/replacement/flags` on a range. An empty pattern is the
    /// last search's; a pattern given becomes the last search. `~` in the
    /// replacement is the previous replacement.
    pub fn run_substitute(&mut self, range: (usize, usize), body: &Vec<char>)
        requires
            old(self).wf(),
        ensures
            final(self).wf(),
            substitute_ran(*old(self), *final(self), range, body@),
    {
        let (pattern_raw, replacement_raw, flags_raw) = split_substitute_body(body);
        let pattern = if pattern_raw.len() == 0 {
            match &self.last_search {
                Some((last, _)) => {
                    let p = last.clone();
                    assert(p@ =~= last@);
                    p
                },
                None => {
                    self.message = chars_of("no previous search pattern");
                    assert(substitute_ran(*old(self), *self, range, body@));
                    return;
                },
            }
        } else {
            let translated = translate_vim_pattern(&pattern_raw);
            let kept = translated.clone();
            assert(kept@ =~= translated@);
            self.last_search = Some((kept, true));
            translated
        };
        let previous = match &self.last_substitute {
            Some(last) => {
                let p = last.replacement_raw.clone();
                assert(p@ =~= last.replacement_raw@);
                p
            },
            None => Vec::new(),
        };
        let expanded = expand_tilde(&replacement_raw, &previous);
        let parts = parse_replacement(&expanded);
        let flags = parse_flags(&flags_raw);
        let kept_pattern = pattern.clone();
        assert(kept_pattern@ =~= pattern@);
        let kept_parts = copy_parts(&parts);
        self.last_substitute = Some(LastSubstitute { pattern: kept_pattern, replacement_raw: expanded, parts: kept_parts, flags });
        let ghost m = *self;
        let ghost pv = parts_view(parts@);
        proof {
            assert(previous@ == previous_raw(*old(self)));
            assert(m == (App { last_search: m.last_search, last_substitute: m.last_substitute, ..*old(self) }));
            assert(pattern_raw@.len() == 0 ==> pattern@ == match old(self).last_search {
                Some((p, _)) => p@,
                None => Seq::empty(),
            });
        }
        self.execute_substitute(range, &pattern, parts, flags);
        proof {
            let (pr, rr, fr) = split_body(body@);
            assert(pr == pattern_raw@ && rr == replacement_raw@ && fr == flags_raw@);
            assert(expanded@ == tilde_expanded(rr, previous_raw(*old(self))));
            assert(pv == parse_repl(expanded@, Seq::empty()));
            assert(flags == flags_of(fr));
            let pat = if pr.len() == 0 {
                match old(self).last_search {
                    Some((p, _)) => p@,
                    None => Seq::empty(),
                }
            } else {
                translated(pr)
            };
            assert(pat == pattern@);
            let ex = tilde_expanded(rr, previous_raw(*old(self)));
            assert(remembered(*old(self), m) && substitution_done(m, *self, range, pat, parse_repl(ex, Seq::empty()), flags_of(fr))
                && (pr.len() > 0 ==> (m.last_search matches Some((p, f)) && p@ == pat && f))
                && (pr.len() == 0 ==> m.last_search == old(self).last_search)
                && (m.last_substitute matches Some(last) && last.pattern@ == pat && last.replacement_raw@ == ex
                    && parts_view(last.parts@) == parse_repl(ex, Seq::empty()) && last.flags == flags_of(fr)));
            assert(substitute_ran(*old(self), *self, range, body@));
        }
    }

    /// `:&` and `:&&`: the last substitution again on a range, without its
    /// flags or with them.
    pub fn repeat_substitute(&mut self, range: (usize, usize), keep_flags: bool)
        requires
            old(self).wf(),
        ensures
            final(self).wf(),
            repeated(*old(self), *final(self), range, keep_flags),
    {
        let (pattern, parts, flags) = match &self.last_substitute {
            Some(last) => {
                let p = last.pattern.clone();
                assert(p@ =~= last.pattern@);
                (p, copy_parts(&last.parts), last.flags)
            },
            None => {
                self.message = chars_of("no previous substitute");
                return;
            },
        };
        let flags = if keep_flags { flags } else { SubFlags::default() };
        self.execute_substitute(range, &pattern, parts, flags);
    }

    /// `g&`: the last substitution again, with its flags, on every node,
    /// with the last search's pattern.
    pub fn global_repeat_substitute(&mut self)
        requires
            old(self).wf(),
        ensures
            final(self).wf(),
            globally_repeated(*old(self), *final(self)),
    {
        let (parts, flags) = match &self.last_substitute {
            Some(last) => (copy_parts(&last.parts), last.flags),
            None => {
                self.message = chars_of("no previous substitute");
                return;
            },
        };
        let pattern = match &self.last_search {
            Some((p, _)) => {
                let q = p.clone();
                assert(q@ =~= p@);
                q
            },
            None => {
                self.message = chars_of("no previous substitute");
                return;
            },
        };
        let last = self.nodes.len() - 1;
        self.execute_substitute((0, last), &pattern, parts, flags);
    }

    /// A `:` line that is a substitution (`:s`, `:&` or `:&&` after an
    /// optional range) runs, and the answer is true; any other line is
    /// left for the other commands.
    pub fn substitute_command(&mut self, line: &Vec<char>) -> (r: bool)
        requires
            old(self).wf(),
        ensures
            final(self).wf(),
            ({
                let t = trimmed(line@);
                let k = range_len(t, 0);
                let rest = t.skip(k);
                r == (old(self).range_spec(t.take(k)) is Some && (rest == "&"@ || rest == "&&"@
                    || (rest.len() >= 2 && rest[0] == 's' && rest[1] == '/')))
            }),
            !r ==> *final(self) == *old(self),
            substituted(*old(self), *final(self), line@),
    {
        let t = trim(line);
        let k = range_prefix_len(&t);
        let range_text = slice_of(&t, 0, k);
        let rest = slice_of(&t, k, t.len());
        assert(range_text@ =~= t@.take(k as int));
        assert(rest@ =~= t@.skip(k as int));
        let range = match self.parse_range(&range_text) {
            Some(range) => range,
            None => return false,
        };
        if same_text(rest.as_slice(), "&") {
            self.repeat_substitute(range, false);
            return true;
        }
        if same_text(rest.as_slice(), "&&") {
            self.repeat_substitute(range, true);
            return true;
        }
        if rest.len() >= 2 && rest[0] == 's' && rest[1] == '/' {
            let body = slice_of(&rest, 2, rest.len());
            self.run_substitute(range, &body);
            return true;
        }
        false
    }

    /// `c` flag: starts asking about each match in the nodes of
    /// `[start, end]`, from the first.
    pub fn start_confirm(&mut self, regex: Pattern, parts: Vec<ReplPart>, global: bool, start: usize, end: usize, quiet_empty: bool)
        requires
            old(self).wf(),
            start <= end < old(self).nodes@.len(),
        ensures
            final(self).wf(),
            confirm_started(*old(self), *final(self), ConfirmState {
                regex,
                parts,
                global,
                node: start,
                pos: 0,
                range_end: end,
                match_range: (0, 0),
                count: 0,
                quiet_empty,
                entered: false,
            }),
            final(self).nodes@ == old(self).nodes@,
            final(self).source_mode == old(self).source_mode,
            final(self).last_search == old(self).last_search,
            final(self).last_substitute == old(self).last_substitute,
    {
        self.begin_edit();
        let ghost m = *self;
        self.confirm_state = Some(ConfirmState {
            regex,
            parts,
            global,
            node: start,
            pos: 0,
            range_end: end,
            match_range: (0, 0),
            count: 0,
            quiet_empty,
            entered: false,
        });
        let ghost m2 = *self;
        self.find_next();
        assert(edit_began(*old(self), m) && m2 == (App { confirm_state: m2.confirm_state, ..m }));
    }

    /// The next match from where the search stands, up to the last node
    /// of the range: its node and character range. Nodes without one are
    /// passed over.
    pub fn locate_next(&mut self) -> (r: Option<(usize, usize, usize)>)
        requires
            old(self).wf(),
        ensures
            final(self).wf(),
            *final(self) == (App { confirm_state: final(self).confirm_state, ..*old(self) }),
            old(self).confirm_state is None ==> r is None && final(self).confirm_state is None,
            old(self).confirm_state matches Some(o) ==> match next_for(nodes_view(old(self).nodes@), o) {
                Some((node, s, e)) => r == Some((node as usize, s as usize, e as usize)),
                None => r is None,
            },
            r matches Some((node, s, e)) ==> (node < final(self).nodes@.len() && s <= e <= final(self).nodes@[node as int].text@.len()),
            final(self).confirm_state matches Some(st) ==> (old(self).confirm_state matches Some(o) && st.regex == o.regex
                && st.parts == o.parts && st.global == o.global && st.range_end == o.range_end && st.count == o.count
                && st.entered == o.entered && st.quiet_empty == o.quiet_empty && st.match_range == o.match_range),
            old(self).confirm_state is Some ==> final(self).confirm_state is Some,
    {
        let n = self.nodes.len();
        loop
            invariant
                self.wf(),
                n == self.nodes@.len(),
                *self == (App { confirm_state: self.confirm_state, ..*old(self) }),
                old(self).confirm_state is None ==> self.confirm_state is None,
                old(self).confirm_state is Some ==> self.confirm_state is Some,
                self.confirm_state matches Some(st) ==> (old(self).confirm_state matches Some(o) && st.regex == o.regex
                    && st.parts == o.parts && st.global == o.global && st.range_end == o.range_end && st.count == o.count
                    && st.entered == o.entered && st.quiet_empty == o.quiet_empty && st.match_range == o.match_range
                    && next_for(nodes_view(self.nodes@), st) == next_for(nodes_view(old(self).nodes@), o)),
            decreases match self.confirm_state {
                Some(st) => if st.node <= st.range_end { st.range_end - st.node + 1 } else { 0 },
                None => 0,
            },
        {
            let (node, pos, range_end) = match &self.confirm_state {
                Some(st) => (st.node, st.pos, st.range_end),
                None => return None,
            };
            if node > range_end || node >= n {
                return None;
            }
            let found = match &self.confirm_state {
                Some(st) => {
                    let text = &self.nodes[node].text;
                    if pos <= text.len() {
                        st.regex.find_at(text, pos)
                    } else {
                        None
                    }
                },
                None => None,
            };
            if let Some((s, e)) = found {
                return Some((node, s, e));
            }
            match &mut self.confirm_state {
                Some(st) => {
                    st.node = node + 1;
                    st.pos = 0;
                },
                None => {},
            }
        }
    }

    /// Moves to the next match and asks about it; when there is none,
    /// ends the substitution. The answer is whether there was one.
    pub fn find_next(&mut self) -> (r: bool)
        requires
            old(self).wf(),
        ensures
            final(self).wf(),
            next_found(*old(self), *final(self)),
            r == (old(self).confirm_state matches Some(o) && next_for(nodes_view(old(self).nodes@), o) is Some),
    {
        match self.locate_next() {
            Some((node, s, e)) => {
                match &mut self.confirm_state {
                    Some(st) => {
                        st.node = node;
                        st.match_range = (s, e);
                        st.entered = true;
                    },
                    None => {},
                }
                self.cursor = node;
                self.cursor_col = s;
                self.center_on_cursor();
                self.message = chars_of("replace? (y/n/a/q/l)");
                self.mode = Mode::Confirm;
                true
            },
            None => {
                self.finish_confirm();
                false
            },
        }
    }

    /// `y`: replaces the match asked about, then goes on after it in the
    /// same node when `global`, else from the next node.
    pub fn apply_pending(&mut self)
        requires
            old(self).wf(),
        ensures
            final(self).wf(),
            pending_applied(*old(self), *final(self)),
    {
        let (node, start, end, global) = match &self.confirm_state {
            Some(st) => (st.node, st.match_range.0, st.match_range.1, st.global),
            None => return,
        };
        let n = self.nodes.len();
        if node >= n {
            return;
        }
        let len = self.nodes[node].text.len();
        if !(start <= end && end <= len) {
            return;
        }
        let groups = match &self.confirm_state {
            Some(st) => st.regex.captures_at(&self.nodes[node].text, start),
            None => None,
        };
        let groups = match groups {
            Some(groups) => groups,
            None => return,
        };
        let replacement = match &self.confirm_state {
            Some(st) => build_replacement(&groups, &self.nodes[node].text, &st.parts),
            None => return,
        };
        let rlen = replacement.len();
        let ghost rep = replacement@;
        let ghost t = self.nodes@[node as int].text@;
        let mut new_text = slice_of(&self.nodes[node].text, 0, start);
        let mut middle = replacement;
        new_text.append(&mut middle);
        let mut tail = slice_of(&self.nodes[node].text, end, len);
        new_text.append(&mut tail);
        proof {
            assert(new_text@ =~= t.take(start as int) + rep + t.skip(end as int));
            match &self.confirm_state {
                Some(st) => {
                    assert(groups_view(groups@) =~= groups@.map_values(|x: Option<(usize, usize)>| match x {
                        Some((a, b)) => Some((a as int, b as int)),
                        None => None,
                    }));
                    assert(groups_at(st.regex.source(), st.regex.ignores_case(), t, start as int) == Some(groups_view(groups@)));
                    assert(rep == crate::app::substitute::replacement(groups_view(groups@), t, parts_view(st.parts@)));
                },
                None => {},
            }
        }
        let new_pos = if rlen > 0 && start <= usize::MAX - rlen {
            start + rlen
        } else if start < usize::MAX {
            start + 1
        } else {
            start
        };
        let depth = self.nodes[node].depth;
        let ghost before = nodes_view(self.nodes@);
        let ghost nt = new_text@;
        self.nodes.set(node, Node { text: new_text, depth });
        assert(nodes_view(self.nodes@) =~= before.update(node as int, nv(nt, depth as nat)));
        self.cursor = node;
        self.cursor_col = start;
        self.record();
        self.center_on_cursor();
        match &mut self.confirm_state {
            Some(st) => {
                st.count = if st.count < usize::MAX { st.count + 1 } else { st.count };
                if global {
                    st.pos = new_pos;
                } else {
                    st.node = if node < usize::MAX { node + 1 } else { node };
                    st.pos = 0;
                }
            },
            None => {},
        }
    }

    /// `n`: passes over the match asked about.
    pub fn skip_pending(&mut self)
        requires
            old(self).wf(),
        ensures
            final(self).wf(),
            pending_skipped(*old(self), *final(self)),
    {
        match &mut self.confirm_state {
            Some(st) => {
                let (start, end) = st.match_range;
                let next_pos = if end > start {
                    end
                } else if start < usize::MAX {
                    start + 1
                } else {
                    start
                };
                if st.global {
                    st.pos = next_pos;
                } else {
                    st.node = if st.node < usize::MAX { st.node + 1 } else { st.node };
                    st.pos = 0;
                }
            },
            None => {},
        }
    }

    /// Ends the substitution that asks: back to Normal mode, telling how
    /// many matches were replaced, or that nothing matched when no match
    /// was ever asked about.
    pub fn finish_confirm(&mut self)
        requires
            old(self).wf(),
        ensures
            final(self).wf(),
            confirm_finished(*old(self), *final(self)),
    {
        let state = match self.confirm_state.take() {
            Some(state) => state,
            None => return,
        };
        self.mode = Mode::Normal;
        let mut message: Vec<char> = Vec::new();
        if !state.entered && state.count == 0 {
            if !state.quiet_empty {
                push_str(&mut message, "pattern not found: ");
                let mut source = state.regex.source_text().clone();
                assert(source@ =~= state.regex.source());
                message.append(&mut source);
            }
        } else {
            push_decimal(&mut message, state.count);
            push_str(&mut message, " substitution(s)");
        }
        self.message = message;
    }

    /// A key while a substitution asks: `y` replaces and goes on, `n`
    /// passes and goes on, `a` replaces this match and all after it, `l`
    /// replaces this one and stops, `q` and Esc stop.
    pub fn handle_confirm(&mut self, code: Key)
        requires
            old(self).wf(),
        ensures
            final(self).wf(),
            confirm_done(*old(self), *final(self), code),
    {
        match code {
            Key::Char('y') => {
                self.apply_pending();
                let ghost m = *self;
                self.find_next();
                assert(pending_applied(*old(self), m) && next_found(m, *self));
            },
            Key::Char('n') => {
                self.skip_pending();
                let ghost m = *self;
                self.find_next();
                assert(pending_skipped(*old(self), m) && next_found(m, *self));
            },
            Key::Char('a') => {
                self.apply_pending();
                let ghost m = *self;
                let ghost mut last = *self;
                let mut budget: usize = usize::MAX;
                while budget > 0
                    invariant_except_break
                        *self == last,
                    invariant
                        self.wf(),
                        replaced_times(m, last, (usize::MAX - budget) as nat),
                    ensures
                        replaced_times(m, last, (usize::MAX - budget) as nat),
                        budget == 0 ==> *self == last,
                        budget > 0 ==> none_left(last) && search_moved(last, *self),
                    decreases budget,
                {
                    match self.locate_next() {
                        Some((node, s, e)) => {
                            let ghost located = *self;
                            match &mut self.confirm_state {
                                Some(st) => {
                                    st.node = node;
                                    st.match_range = (s, e);
                                },
                                None => {},
                            }
                            let ghost set = *self;
                            self.apply_pending();
                            proof {
                                let p = located.confirm_state->0.pos;
                                assert(set == (App {
                                    confirm_state: Some(ConfirmState { node: node, pos: p, match_range: (s, e), ..last.confirm_state->0 }),
                                    ..last
                                }));
                                assert(replaced_next(last, *self));
                                last = *self;
                            }
                        },
                        None => {
                            break;
                        },
                    }
                    budget = budget - 1;
                }
                self.finish_confirm();
                assert(confirm_finished(last, *self));
            },
            Key::Char('l') => {
                self.apply_pending();
                let ghost m = *self;
                self.finish_confirm();
                assert(pending_applied(*old(self), m) && confirm_finished(m, *self));
            },
            Key::Char('q') | Key::Esc => {
                self.finish_confirm();
            },
            _ => {},
        }
    }
}

} // verus!
