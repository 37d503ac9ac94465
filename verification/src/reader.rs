//! The S-expression reader.
//!
//! Prefix marks such as `'` stay marks: they are not expanded to
//! `(quote x)`, so that writing the data back gives the file it came from.
//!
//! Comments are emitted just before the top-level expression that was
//! being read when they were met. Comments written inside an expression
//! therefore come out at depth 0: their text is kept, their place moves.
//! Such comments are counted as hoisted.

use vstd::prelude::*;

use crate::text::char_alphanumeric;
use crate::text::chars_of;
use crate::text::is_alphanumeric;
use crate::text::is_ascii_digit;
use crate::text::is_whitespace;
use crate::text::spec_is_ascii_digit;
use crate::text::spec_is_whitespace;
use crate::text::push_char;
use crate::text::string_of_range;

verus! {

/// One datum of the source text.
#[derive(Debug, PartialEq)]
pub enum Datum {
    Atom(String),
    List(Vec<Datum>),
    /// A mark such as `'` or `#(` that belongs to the datum right after it.
    Marker(String, Box<Datum>),
    /// A `;` or `#| |#` comment.
    Comment(String),
}

/// The mathematical value of a datum: its texts as character sequences.
pub enum SDatum {
    Atom(Seq<char>),
    List(Seq<SDatum>),
    Marker(Seq<char>, Box<SDatum>),
    Comment(Seq<char>),
}

impl Datum {
    pub open spec fn dview(&self) -> SDatum
        decreases self,
    {
        match self {
            Datum::Atom(t) => SDatum::Atom(t@),
            Datum::List(items) => SDatum::List(
                Seq::new(
                    items@.len(),
                    |i: int|
                        if 0 <= i < items@.len() {
                            items@[i].dview()
                        } else {
                            SDatum::Atom(Seq::empty())
                        },
                ),
            ),
            Datum::Marker(m, c) => SDatum::Marker(m@, Box::new(c.dview())),
            Datum::Comment(t) => SDatum::Comment(t@),
        }
    }
}

/// The values of a sequence of data.
pub open spec fn data_view(data: Seq<Datum>) -> Seq<SDatum> {
    Seq::new(data.len(), |i: int| data[i].dview())
}

/// The result of reading, and how many comments were moved out of the
/// expressions that held them.
pub struct Reading {
    pub data: Vec<Datum>,
    pub hoisted: usize,
}

/// Why a text could not be read.
#[derive(Debug, Clone, Copy, PartialEq, Eq)]
pub enum ReadError {
    /// A `)` with no `(` open at the top level.
    TooManyClosing,
    /// The text ended where a datum was expected.
    NoDatum,
    /// A list was still open at the end of the text.
    UnclosedList,
    UnclosedString,
    UnclosedPipe,
    UnclosedBlockComment,
}

/// The message that reports a read error.
pub open spec fn error_text(e: ReadError) -> Seq<char> {
    match e {
        ReadError::TooManyClosing => "too many closing parentheses"@,
        ReadError::NoDatum => "no datum"@,
        ReadError::UnclosedList => "unclosed parenthesis"@,
        ReadError::UnclosedString => "unclosed string"@,
        ReadError::UnclosedPipe => "unclosed |"@,
        ReadError::UnclosedBlockComment => "unclosed block comment"@,
    }
}

/// The message that reports a read error.
pub fn error_message(e: ReadError) -> (s: String)
    ensures
        s@ == error_text(e),
{
    match e {
        ReadError::TooManyClosing => "too many closing parentheses".to_owned(),
        ReadError::NoDatum => "no datum".to_owned(),
        ReadError::UnclosedList => "unclosed parenthesis".to_owned(),
        ReadError::UnclosedString => "unclosed string".to_owned(),
        ReadError::UnclosedPipe => "unclosed |".to_owned(),
        ReadError::UnclosedBlockComment => "unclosed block comment".to_owned(),
    }
}

// ----------------------------------------------------------------------
// The grammar, as functions on the character sequence.
/// A character that ends a symbol.
///
/// `[` and `]` are not delimiters, so that Gauche's `#[a-z]` and
/// `#/regexp/` read as one atom each.
pub open spec fn is_delim(c: char) -> bool {
    ||| spec_is_whitespace(c)
    ||| c == '('
    ||| c == ')'
    ||| c == '"'
    ||| c == ';'
    ||| c == '\''
    ||| c == '`'
    ||| c == ','
    ||| c == '|'
}

pub open spec fn char_at(s: Seq<char>, p: int) -> Option<char> {
    if 0 <= p < s.len() {
        Some(s[p])
    } else {
        None
    }
}

/// The first position at or after `p` that is not white space.
pub open spec fn skip_ws(s: Seq<char>, p: int) -> int
    decreases s.len() - p,
{
    if 0 <= p < s.len() && spec_is_whitespace(s[p]) {
        skip_ws(s, p + 1)
    } else {
        p
    }
}

/// The end of the symbol that starts at `p`.
pub open spec fn symbol_end(s: Seq<char>, p: int) -> int
    decreases s.len() - p,
{
    if 0 <= p < s.len() && !is_delim(s[p]) {
        symbol_end(s, p + 1)
    } else {
        p
    }
}

/// The end of the line that `p` is on (the position of its `\n`).
pub open spec fn line_end(s: Seq<char>, p: int) -> int
    decreases s.len() - p,
{
    if 0 <= p < s.len() && s[p] != '\n' {
        line_end(s, p + 1)
    } else {
        p
    }
}

/// The position after the `"` that closes a string whose body starts at
/// `p`. A backslash takes the character after it along.
pub open spec fn string_end(s: Seq<char>, p: int) -> Option<int>
    decreases s.len() - p,
{
    if !(0 <= p < s.len()) {
        None
    } else if s[p] == '\\' {
        if p + 2 <= s.len() {
            string_end(s, p + 2)
        } else {
            None
        }
    } else if s[p] == '"' {
        Some(p + 1)
    } else {
        string_end(s, p + 1)
    }
}

/// The position after the `|` that closes a `|...|` symbol whose body
/// starts at `p`.
pub open spec fn pipe_end(s: Seq<char>, p: int) -> Option<int>
    decreases s.len() - p,
{
    if !(0 <= p < s.len()) {
        None
    } else if s[p] == '|' {
        Some(p + 1)
    } else {
        pipe_end(s, p + 1)
    }
}

/// The position after the `|#` that closes a block comment; `level` is
/// the number of `#|` still open. Block comments nest.
pub open spec fn block_end(s: Seq<char>, p: int, level: nat) -> Option<int>
    decreases s.len() - p,
{
    if !(0 <= p < s.len()) {
        None
    } else if s[p] == '#' && char_at(s, p + 1) == Some('|') {
        block_end(s, p + 2, level + 1)
    } else if s[p] == '|' && char_at(s, p + 1) == Some('#') {
        if level <= 1 {
            Some(p + 2)
        } else {
            block_end(s, p + 2, (level - 1) as nat)
        }
    } else {
        block_end(s, p + 1, level)
    }
}

/// The end of a run of alphanumeric characters and `-`.
pub open spec fn name_end(s: Seq<char>, p: int) -> int
    decreases s.len() - p,
{
    if 0 <= p < s.len() && (char_alphanumeric(s[p]) || s[p] == '-') {
        name_end(s, p + 1)
    } else {
        p
    }
}

/// The end of a character literal `#\a` or `#\space` that starts at `p`.
/// The first character after `#\` is taken whatever it is, since it may
/// be a delimiter itself, as in `#\(`.
pub open spec fn char_literal_end(s: Seq<char>, p: int) -> int {
    let q = p + 2;
    if 0 <= q < s.len() {
        if char_alphanumeric(s[q]) {
            name_end(s, q + 1)
        } else {
            q + 1
        }
    } else {
        q
    }
}

/// How far the digits after `s[p]` reach: the first offset from `p`, at
/// or after `off`, that is not a digit.
pub open spec fn digits_end(s: Seq<char>, p: int, off: int) -> int
    decreases s.len() - (p + off),
{
    if 0 <= p + off < s.len() && spec_is_ascii_digit(s[p + off]) {
        digits_end(s, p, off + 1)
    } else {
        off
    }
}

/// What the reader carries from one datum to the next.
pub struct RState {
    pub pos: int,
    /// How many lists are open.
    pub depth: nat,
    /// Comments read and not yet emitted.
    pub comments: Seq<Seq<char>>,
    /// Comments met inside a list so far.
    pub hoisted: nat,
}

pub open spec fn at_pos(st: RState, p: int) -> RState {
    RState { pos: p, depth: st.depth, comments: st.comments, hoisted: st.hoisted }
}

pub open spec fn with_comment(st: RState, text: Seq<char>) -> RState {
    RState {
        pos: st.pos,
        depth: st.depth,
        comments: st.comments.push(text),
        hoisted: if st.depth > 0 {
            st.hoisted + 1
        } else {
            st.hoisted
        },
    }
}

pub type Step = Result<(RState, Option<SDatum>), ReadError>;

pub type ListStep = Result<(RState, SDatum), ReadError>;

pub open spec fn some_of(r: ListStep) -> Step {
    match r {
        Ok((st, d)) => Ok((st, Some(d))),
        Err(e) => Err(e),
    }
}

pub open spec fn marked(mark: Seq<char>, r: ListStep) -> Step {
    match r {
        Ok((st, d)) => Ok((st, Some(SDatum::Marker(mark, Box::new(d))))),
        Err(e) => Err(e),
    }
}

pub open spec fn opt_seq(d: Option<SDatum>) -> Seq<SDatum> {
    match d {
        Some(d) => seq![d],
        None => Seq::empty(),
    }
}

/// One datum read from `st`: `None` when a comment was read instead.
pub open spec fn parse_datum(s: Seq<char>, st: RState) -> Step
    decreases s.len() + 2 - st.pos, 2int,
{
    let p = skip_ws(s, st.pos);
    if !(0 <= p < s.len()) || p < st.pos {
        Err(ReadError::NoDatum)
    } else {
        let c = s[p];
        if c == '(' {
            some_of(parse_items(s, RState { pos: p + 1, depth: st.depth + 1, ..st }, Seq::empty()))
        } else if c == ';' {
            let e = line_end(s, p);
            Ok((with_comment(at_pos(st, e), s.subrange(p, e)), None))
        } else if c == '\'' || c == '`' {
            parse_marker(s, at_pos(st, p + 1), seq![c])
        } else if c == ',' {
            if char_at(s, p + 1) == Some('@') {
                parse_marker(s, at_pos(st, p + 2), seq![',', '@'])
            } else {
                parse_marker(s, at_pos(st, p + 1), seq![','])
            }
        } else if c == '"' {
            match string_end(s, p + 1) {
                None => Err(ReadError::UnclosedString),
                Some(e) => Ok((at_pos(st, e), Some(SDatum::Atom(s.subrange(p, e))))),
            }
        } else if c == '|' {
            match pipe_end(s, p + 1) {
                None => Err(ReadError::UnclosedPipe),
                Some(e) => Ok((at_pos(st, e), Some(SDatum::Atom(s.subrange(p, e))))),
            }
        } else if c == '#' {
            parse_hash(s, at_pos(st, p))
        } else {
            let e = symbol_end(s, p);
            Ok((at_pos(st, e), Some(SDatum::Atom(s.subrange(p, e)))))
        }
    }
}

/// The rest of a list whose items so far are `items`. The `)` that
/// closes it closes one level of depth.
pub open spec fn parse_items(s: Seq<char>, st: RState, items: Seq<SDatum>) -> ListStep
    decreases s.len() + 2 - st.pos, 3int,
{
    let p = skip_ws(s, st.pos);
    if !(0 <= p < s.len()) || p < st.pos {
        Err(ReadError::UnclosedList)
    } else if s[p] == ')' {
        Ok(
            (
                RState {
                    pos: p + 1,
                    depth: (st.depth - 1) as nat,
                    comments: st.comments,
                    hoisted: st.hoisted,
                },
                SDatum::List(items),
            ),
        )
    } else {
        match parse_datum(s, at_pos(st, p)) {
            Err(e) => Err(e),
            Ok((st2, d)) => {
                // Every datum read moves forward; the guard only makes
                // the recursion visibly well founded.
                if p < st2.pos <= s.len() {
                    parse_items(s, st2, items + opt_seq(d))
                } else {
                    Err(ReadError::NoDatum)
                }
            },
        }
    }
}

/// The datum after a mark, skipping the comments in between.
pub open spec fn parse_marker(s: Seq<char>, st: RState, mark: Seq<char>) -> Step
    decreases s.len() + 2 - st.pos, 3int,
{
    if !(0 <= st.pos <= s.len()) {
        Err(ReadError::NoDatum)
    } else {
        match parse_datum(s, st) {
            Err(e) => Err(e),
            Ok((st2, Some(d))) => Ok((st2, Some(SDatum::Marker(mark, Box::new(d))))),
            Ok((st2, None)) => {
                if st.pos < st2.pos <= s.len() {
                    parse_marker(s, st2, mark)
                } else {
                    Err(ReadError::NoDatum)
                }
            },
        }
    }
}

/// What starts with `#` at `st.pos`.
pub open spec fn parse_hash(s: Seq<char>, st: RState) -> Step
    decreases s.len() + 2 - st.pos, 1int,
{
    let p = st.pos;
    if !(0 <= p < s.len()) {
        Err(ReadError::NoDatum)
    } else {
        let next = char_at(s, p + 1);
        if next == Some('(') {
            // a vector
            marked(
                seq!['#'],
                parse_items(s, RState { pos: p + 2, depth: st.depth + 1, ..st }, Seq::empty()),
            )
        } else if next == Some('|') {
            // a block comment
            match block_end(s, p + 2, 1) {
                None => Err(ReadError::UnclosedBlockComment),
                Some(e) => Ok((with_comment(at_pos(st, e), s.subrange(p, e)), None)),
            }
        } else if next == Some(';') {
            // a datum comment
            parse_marker(s, at_pos(st, p + 2), seq!['#', ';'])
        } else if next == Some('\\') {
            // a character
            let e = char_literal_end(s, p);
            Ok((at_pos(st, e), Some(SDatum::Atom(s.subrange(p, e)))))
        } else if next == Some('u') && char_at(s, p + 2) == Some('8') && char_at(s, p + 3) == Some(
            '(',
        ) {
            // a bytevector
            marked(
                seq!['#', 'u', '8'],
                parse_items(s, RState { pos: p + 4, depth: st.depth + 1, ..st }, Seq::empty()),
            )
        } else {
            // `#0=` is a label; `#0#` and `#t` are atoms
            let off = digits_end(s, p, 1);
            if off > 1 && char_at(s, p + off) == Some('=') && p + off < s.len() {
                parse_marker(s, at_pos(st, p + off + 1), s.subrange(p, p + off + 1))
            } else {
                let e = symbol_end(s, p);
                Ok((at_pos(st, e), Some(SDatum::Atom(s.subrange(p, e)))))
            }
        }
    }
}

pub open spec fn comments_data(comments: Seq<Seq<char>>) -> Seq<SDatum> {
    Seq::new(comments.len(), |i: int| SDatum::Comment(comments[i]))
}

/// The rest of the text, read at the top level: each datum comes after
/// the comments that were read along with it.
pub open spec fn parse_rest(s: Seq<char>, st: RState, data: Seq<SDatum>) -> Result<
    (Seq<SDatum>, nat),
    ReadError,
>
    decreases s.len() + 2 - st.pos,
{
    let p = skip_ws(s, st.pos);
    if !(0 <= p < s.len()) || p < st.pos {
        Ok((data + comments_data(st.comments), st.hoisted))
    } else if s[p] == ')' {
        Err(ReadError::TooManyClosing)
    } else {
        match parse_datum(s, at_pos(st, p)) {
            Err(e) => Err(e),
            Ok((st2, d)) => {
                if p < st2.pos <= s.len() {
                    parse_rest(
                        s,
                        RState { comments: Seq::empty(), ..st2 },
                        data + comments_data(st2.comments) + opt_seq(d),
                    )
                } else {
                    Err(ReadError::NoDatum)
                }
            },
        }
    }
}

/// The whole text, read: the data and the number of hoisted comments.
pub open spec fn parse_text(s: Seq<char>) -> Result<(Seq<SDatum>, nat), ReadError> {
    parse_rest(s, RState { pos: 0, depth: 0, comments: Seq::empty(), hoisted: 0 }, Seq::empty())
}

/// Whether a datum holds no comment, at any depth.
pub open spec fn comment_free(d: SDatum) -> bool
    decreases d,
{
    match d {
        SDatum::Atom(_) => true,
        SDatum::Comment(_) => false,
        SDatum::List(items) => forall|i: int| 0 <= i < items.len() ==> comment_free(#[trigger] items[i]),
        SDatum::Marker(_, c) => comment_free(*c),
    }
}

proof fn lemma_datum_free(s: Seq<char>, st: RState)
    ensures
        parse_datum(s, st) matches Ok((_, Some(d))) ==> comment_free(d),
    decreases s.len() + 2 - st.pos, 2int,
{
    let p = skip_ws(s, st.pos);
    if !(0 <= p < s.len()) || p < st.pos {
    } else {
        let c = s[p];
        if c == '(' {
            lemma_items_free(s, RState { pos: p + 1, depth: st.depth + 1, ..st }, Seq::empty());
        } else if c == '\'' || c == '`' {
            lemma_marker_free(s, at_pos(st, p + 1), seq![c]);
        } else if c == ',' {
            if char_at(s, p + 1) == Some('@') {
                lemma_marker_free(s, at_pos(st, p + 2), seq![',', '@']);
            } else {
                lemma_marker_free(s, at_pos(st, p + 1), seq![',']);
            }
        } else if c == '#' {
            lemma_hash_free(s, at_pos(st, p));
        }
    }
}

proof fn lemma_items_free(s: Seq<char>, st: RState, items: Seq<SDatum>)
    requires
        forall|i: int| 0 <= i < items.len() ==> comment_free(#[trigger] items[i]),
    ensures
        parse_items(s, st, items) matches Ok((_, d)) ==> comment_free(d),
    decreases s.len() + 2 - st.pos, 3int,
{
    let p = skip_ws(s, st.pos);
    if !(0 <= p < s.len()) || p < st.pos {
    } else if s[p] == ')' {
    } else {
        lemma_datum_free(s, at_pos(st, p));
        match parse_datum(s, at_pos(st, p)) {
            Err(e) => {},
            Ok((st2, d)) => {
                if p < st2.pos <= s.len() {
                    let more = items + opt_seq(d);
                    assert forall|i: int| 0 <= i < more.len() implies comment_free(#[trigger] more[i]) by {
                        if i >= items.len() {
                            assert(more[i] == d->0);
                        }
                    }
                    lemma_items_free(s, st2, more);
                }
            },
        }
    }
}

proof fn lemma_marker_free(s: Seq<char>, st: RState, mark: Seq<char>)
    ensures
        parse_marker(s, st, mark) matches Ok((_, Some(d))) ==> comment_free(d),
    decreases s.len() + 2 - st.pos, 3int,
{
    if 0 <= st.pos <= s.len() {
        lemma_datum_free(s, st);
        match parse_datum(s, st) {
            Ok((st2, None)) => {
                if st.pos < st2.pos <= s.len() {
                    lemma_marker_free(s, st2, mark);
                }
            },
            _ => {},
        }
    }
}

proof fn lemma_hash_free(s: Seq<char>, st: RState)
    ensures
        parse_hash(s, st) matches Ok((_, Some(d))) ==> comment_free(d),
    decreases s.len() + 2 - st.pos, 1int,
{
    let p = st.pos;
    if 0 <= p < s.len() {
        let next = char_at(s, p + 1);
        if next == Some('(') {
            lemma_items_free(s, RState { pos: p + 2, depth: st.depth + 1, ..st }, Seq::empty());
        } else if next == Some('|') {
        } else if next == Some(';') {
            lemma_marker_free(s, at_pos(st, p + 2), seq!['#', ';']);
        } else if next == Some('\\') {
        } else if next == Some('u') && char_at(s, p + 2) == Some('8') && char_at(s, p + 3) == Some('(') {
            lemma_items_free(s, RState { pos: p + 4, depth: st.depth + 1, ..st }, Seq::empty());
        } else {
            let off = digits_end(s, p, 1);
            if off > 1 && char_at(s, p + off) == Some('=') && p + off < s.len() {
                lemma_marker_free(s, at_pos(st, p + off + 1), s.subrange(p, p + off + 1));
            }
        }
    }
}

proof fn lemma_rest_free(s: Seq<char>, st: RState, data: Seq<SDatum>)
    requires
        forall|i: int| 0 <= i < data.len() ==> (#[trigger] data[i] is Comment || comment_free(data[i])),
    ensures
        parse_rest(s, st, data) matches Ok((out, _)) ==> forall|i: int|
            0 <= i < out.len() ==> (#[trigger] out[i] is Comment || comment_free(out[i])),
    decreases s.len() + 2 - st.pos,
{
    let p = skip_ws(s, st.pos);
    if !(0 <= p < s.len()) || p < st.pos {
        let out = data + comments_data(st.comments);
        assert forall|i: int| 0 <= i < out.len() implies (#[trigger] out[i] is Comment || comment_free(out[i])) by {
            if i >= data.len() {
                assert(out[i] == comments_data(st.comments)[i - data.len()]);
            }
        }
    } else if s[p] == ')' {
    } else {
        lemma_datum_free(s, at_pos(st, p));
        match parse_datum(s, at_pos(st, p)) {
            Err(e) => {},
            Ok((st2, d)) => {
                if p < st2.pos <= s.len() {
                    let more = data + comments_data(st2.comments) + opt_seq(d);
                    assert forall|i: int| 0 <= i < more.len() implies (#[trigger] more[i] is Comment || comment_free(more[i])) by {
                        if i >= data.len() + st2.comments.len() {
                            assert(more[i] == d->0);
                        } else if i >= data.len() {
                            assert(more[i] == comments_data(st2.comments)[i - data.len()]);
                        }
                    }
                    lemma_rest_free(s, RState { comments: Seq::empty(), ..st2 }, more);
                }
            },
        }
    }
}

/// Whether `t` is a plain symbol: not empty, no white space or other
/// delimiter in it, not starting with `#`.
pub open spec fn plain_symbol(t: Seq<char>) -> bool {
    &&& t.len() > 0
    &&& forall|i: int| 0 <= i < t.len() ==> !is_delim(#[trigger] t[i])
    &&& t[0] != '#'
}

/// Symbols one after another, with a blank line between each two.
pub open spec fn symbols_text(ts: Seq<Seq<char>>) -> Seq<char>
    decreases ts.len(),
{
    if ts.len() == 0 {
        Seq::empty()
    } else if ts.len() == 1 {
        ts[0]
    } else {
        symbols_text(ts.drop_last()) + "\n\n"@ + ts.last()
    }
}

/// The atoms of the symbols.
pub open spec fn atoms_of(ts: Seq<Seq<char>>) -> Seq<SDatum> {
    Seq::new(ts.len(), |i: int| SDatum::Atom(ts[i]))
}

proof fn lemma_symbols_prefix(ts: Seq<Seq<char>>, k: int)
    requires
        0 <= k <= ts.len(),
    ensures
        symbols_text(ts.take(k)).len() <= symbols_text(ts).len(),
        symbols_text(ts) .take(symbols_text(ts.take(k)).len() as int) == symbols_text(ts.take(k)),
    decreases ts.len() - k,
{
    if k < ts.len() {
        lemma_symbols_prefix(ts, k + 1);
        let a = symbols_text(ts.take(k));
        let b = symbols_text(ts.take(k + 1));
        assert(ts.take(k + 1).drop_last() =~= ts.take(k));
        if k == 0 {
            assert(a =~= Seq::<char>::empty());
        } else {
            assert(b == a + "\n\n"@ + ts[k]);
        }
        assert(b.take(a.len() as int) =~= a);
        assert(symbols_text(ts).take(a.len() as int) =~= b.take(a.len() as int));
    } else {
        assert(ts.take(k) =~= ts);
    }
}

proof fn lemma_symbol_span(s: Seq<char>, a: int, b: int)
    requires
        0 <= a <= b <= s.len(),
        forall|i: int| a <= i < b ==> !is_delim(#[trigger] s[i]),
        b == s.len() || is_delim(s[b]),
    ensures
        symbol_end(s, a) == b,
    decreases b - a,
{
    if a < b {
        lemma_symbol_span(s, a + 1, b);
    }
}

/// Where symbol `j` starts in the text of all of them.
pub open spec fn symbol_start(ts: Seq<Seq<char>>, j: int) -> int {
    if j == 0 {
        0
    } else {
        symbols_text(ts.take(j)).len() + 2int
    }
}

proof fn lemma_symbol_at(ts: Seq<Seq<char>>, j: int)
    requires
        0 <= j < ts.len(),
        forall|i: int| 0 <= i < ts.len() ==> plain_symbol(#[trigger] ts[i]),
    ensures
        symbol_start(ts, j) + ts[j].len() == symbols_text(ts.take(j + 1)).len(),
        forall|i: int|
            0 <= i < ts[j].len() ==> symbols_text(ts)[symbol_start(ts, j) + i] == #[trigger] ts[j][i],
        j > 0 ==> symbols_text(ts)[symbol_start(ts, j) - 2] == '\n' && symbols_text(ts)[symbol_start(ts, j) - 1] == '\n',
{
    lemma_symbols_prefix(ts, j + 1);
    let s = symbols_text(ts);
    let b = symbols_text(ts.take(j + 1));
    assert(ts.take(j + 1).drop_last() =~= ts.take(j));
    assert(ts.take(j + 1).last() == ts[j]);
    reveal_strlit("\n\n");
    if j == 0 {
        assert(ts.take(1).len() == 1);
        assert(b == ts[0]);
    } else {
        assert(b == symbols_text(ts.take(j)) + "\n\n"@ + ts[j]);
    }
    assert forall|i: int| 0 <= i < ts[j].len() implies s[symbol_start(ts, j) + i] == #[trigger] ts[j][i] by {
        assert(s[symbol_start(ts, j) + i] == s.take(b.len() as int)[symbol_start(ts, j) + i]);
    }
    if j > 0 {
        assert(s[symbol_start(ts, j) - 2] == s.take(b.len() as int)[symbol_start(ts, j) - 2]);
        assert(s[symbol_start(ts, j) - 1] == s.take(b.len() as int)[symbol_start(ts, j) - 1]);
    }
}

proof fn lemma_symbols_rest(ts: Seq<Seq<char>>, j: int)
    requires
        0 <= j <= ts.len(),
        ts.len() > 0,
        forall|i: int| 0 <= i < ts.len() ==> plain_symbol(#[trigger] ts[i]),
    ensures
        parse_rest(
            symbols_text(ts),
            RState { pos: if j == 0 { 0 } else { symbols_text(ts.take(j)).len() as int }, depth: 0, comments: Seq::empty(), hoisted: 0 },
            atoms_of(ts.take(j)),
        ) == Ok::<(Seq<SDatum>, nat), ReadError>((atoms_of(ts), 0nat)),
    decreases ts.len() - j,
{
    let s = symbols_text(ts);
    let pos = if j == 0 { 0 } else { symbols_text(ts.take(j)).len() as int };
    let st = RState { pos, depth: 0, comments: Seq::empty(), hoisted: 0 };
    lemma_symbols_prefix(ts, j);
    assert(ts.take(ts.len() as int) =~= ts);
    if j == ts.len() {
        assert(pos == s.len());
        assert(skip_ws(s, pos) == pos);
        assert(atoms_of(ts.take(j)) + comments_data(Seq::empty()) =~= atoms_of(ts));
    } else {
        lemma_symbol_at(ts, j);
        let a = symbol_start(ts, j);
        let t = ts[j];
        assert(plain_symbol(t));
        assert(!is_delim(t[0]));
        assert(s[a] == t[0]);
        lemma_symbols_prefix(ts, j + 1);
        assert(a + t.len() <= s.len());
        if j > 0 {
            assert(skip_ws(s, a) == a);
            assert(s[pos + 1] == '\n');
            assert(spec_is_whitespace('\n'));
            assert(skip_ws(s, pos + 1) == a);
            assert(skip_ws(s, pos) == a);
        } else {
            assert(skip_ws(s, 0) == 0);
        }
        let e = a + t.len();
        lemma_symbols_prefix(ts, j + 1);
        if j + 1 < ts.len() {
            lemma_symbol_at(ts, j + 1);
            assert(symbol_start(ts, j + 1) == e + 2);
        } else {
            assert(e == s.len());
        }
        assert forall|i: int| a <= i < e implies !is_delim(#[trigger] s[i]) by {
            assert(s[a + (i - a)] == t[i - a]);
        }
        lemma_symbol_span(s, a, e);
        assert(s.subrange(a, e) =~= t);
        let st2 = at_pos(at_pos(st, a), e);
        assert(parse_datum(s, at_pos(st, a)) == Ok::<(RState, Option<SDatum>), ReadError>((st2, Some(SDatum::Atom(t)))));
        let more = atoms_of(ts.take(j)) + comments_data(st2.comments) + opt_seq(Some(SDatum::Atom(t)));
        assert(more =~= atoms_of(ts.take(j + 1)));
        lemma_symbols_rest(ts, j + 1);
        assert(RState { comments: Seq::empty(), ..st2 } == RState {
            pos: symbols_text(ts.take(j + 1)).len() as int,
            depth: 0,
            comments: Seq::empty(),
            hoisted: 0,
        });
    }
}

/// Symbols with a blank line between each two read as their atoms, in
/// order.
pub proof fn lemma_symbols_read(ts: Seq<Seq<char>>)
    requires
        ts.len() > 0,
        forall|i: int| 0 <= i < ts.len() ==> plain_symbol(#[trigger] ts[i]),
    ensures
        parse_text(symbols_text(ts)) == Ok::<(Seq<SDatum>, nat), ReadError>((atoms_of(ts), 0nat)),
{
    lemma_symbols_rest(ts, 0);
    assert(ts.take(0) =~= Seq::<Seq<char>>::empty());
    assert(atoms_of(ts.take(0)) =~= Seq::<SDatum>::empty());
}

/// Symbols with one space between each two.
pub open spec fn spaced(ws: Seq<Seq<char>>) -> Seq<char>
    decreases ws.len(),
{
    if ws.len() == 0 {
        Seq::empty()
    } else if ws.len() == 1 {
        ws[0]
    } else {
        ws[0] + " "@ + spaced(ws.drop_first())
    }
}

proof fn lemma_spaced_items(s: Seq<char>, st: RState, p: int, items: Seq<SDatum>, ws: Seq<Seq<char>>)
    requires
        ws.len() >= 1,
        forall|i: int| 0 <= i < ws.len() ==> plain_symbol(#[trigger] ws[i]),
        0 <= st.pos <= p < s.len(),
        skip_ws(s, st.pos) == p,
        st.depth == 1,
        st.comments.len() == 0,
        st.hoisted == 0,
        s.subrange(p, s.len() as int) == spaced(ws) + ")"@,
    ensures
        parse_items(s, st, items) == Ok::<(RState, SDatum), ReadError>(
            (
                RState { pos: s.len() as int, depth: 0, comments: Seq::empty(), hoisted: 0 },
                SDatum::List(items + atoms_of(ws)),
            ),
        ),
    decreases ws.len(),
{
    reveal_strlit(")");
    reveal_strlit(" ");
    assert(st.comments =~= Seq::<Seq<char>>::empty());
    let w = ws[0];
    assert(plain_symbol(w));
    let tail = s.subrange(p, s.len() as int);
    let q = p + w.len();
    let after = if ws.len() == 1 { ")"@ } else { " "@ + spaced(ws.drop_first()) + ")"@ };
    if ws.len() == 1 {
        assert(spaced(ws) == w);
        assert(tail =~= w + after);
    } else {
        assert(spaced(ws) == w + " "@ + spaced(ws.drop_first()));
        assert(tail =~= w + after);
    }
    assert(tail.len() == s.len() - p);
    assert forall|i: int| 0 <= i < w.len() implies s[p + i] == #[trigger] w[i] by {
        assert(s[p + i] == tail[i]);
        assert(tail[i] == (w + after)[i]);
    }
    assert(after[0] == ')' || after[0] == ' ');
    assert(s[q] == tail[w.len() as int]);
    assert(tail[w.len() as int] == after[0]);
    assert(is_delim(s[q]));
    assert(s[p] == w[0]);
    assert(!is_delim(w[0]));
    assert(s[p] != ')');
    assert forall|i: int| p <= i < q implies !is_delim(#[trigger] s[i]) by {
        assert(s[p + (i - p)] == w[i - p]);
    }
    lemma_symbol_span(s, p, q);
    assert(s.subrange(p, q) =~= w);
    assert(skip_ws(s, p) == p);
    let st2 = at_pos(at_pos(st, p), q);
    assert(parse_datum(s, at_pos(st, p)) == Ok::<(RState, Option<SDatum>), ReadError>((st2, Some(SDatum::Atom(w)))));
    let more = items + opt_seq(Some(SDatum::Atom(w)));
    if ws.len() == 1 {
        assert(s[q] == ')');
        assert(q + 1 == s.len());
        assert(skip_ws(s, q) == q);
        assert(items + atoms_of(ws) =~= more);
        assert(parse_items(s, st2, more) == Ok::<(RState, SDatum), ReadError>(
            (RState { pos: s.len() as int, depth: 0, comments: Seq::empty(), hoisted: 0 }, SDatum::List(more)),
        ));
    } else {
        let rest = ws.drop_first();
        assert(s[q] == ' ');
        assert(plain_symbol(rest[0]));
        assert(s[q + 1] == tail[w.len() + 1int]);
        assert(spaced(rest).len() >= rest[0].len()) by {
            if rest.len() > 1 {
                assert(spaced(rest) == rest[0] + " "@ + spaced(rest.drop_first()));
            }
        }
        assert(spaced(rest)[0] == rest[0][0]) by {
            if rest.len() > 1 {
                assert(spaced(rest) == rest[0] + " "@ + spaced(rest.drop_first()));
            }
        }
        assert(tail[w.len() + 1int] == spaced(rest)[0]);
        assert(!is_delim(rest[0][0]));
        assert(skip_ws(s, q + 1) == q + 1);
        assert(skip_ws(s, q) == q + 1);
        assert(s.subrange(q + 1, s.len() as int) =~= tail.subrange(w.len() + 1int, tail.len() as int));
        assert(tail.subrange(w.len() + 1int, tail.len() as int) =~= after.subrange(1, after.len() as int));
        assert(after.subrange(1, after.len() as int) =~= spaced(rest) + ")"@);
        assert(s.subrange(q + 1, s.len() as int) =~= spaced(rest) + ")"@);
        lemma_spaced_items(s, st2, q + 1, more, rest);
        assert(more + atoms_of(rest) =~= items + atoms_of(ws));
    }
}

/// One list of symbols, with one space between each two, read: the
/// list of their atoms.
pub proof fn lemma_spaced_list_reads(ws: Seq<Seq<char>>)
    requires
        ws.len() >= 1,
        forall|i: int| 0 <= i < ws.len() ==> plain_symbol(#[trigger] ws[i]),
    ensures
        parse_text("("@ + spaced(ws) + ")"@) == Ok::<(Seq<SDatum>, nat), ReadError>(
            (seq![SDatum::List(atoms_of(ws))], 0nat),
        ),
{
    reveal_strlit("(");
    reveal_strlit(")");
    let s = "("@ + spaced(ws) + ")"@;
    let st0 = RState { pos: 0, depth: 0, comments: Seq::empty(), hoisted: 0 };
    assert(s[0] == '(');
    assert(skip_ws(s, 0) == 0);
    let st1 = RState { pos: 1, depth: 1, ..st0 };
    assert(plain_symbol(ws[0]));
    assert(spaced(ws)[0] == ws[0][0]) by {
        if ws.len() > 1 {
            assert(spaced(ws) == ws[0] + " "@ + spaced(ws.drop_first()));
        }
    }
    assert(s[1] == ws[0][0]);
    assert(!is_delim(ws[0][0]));
    assert(skip_ws(s, 1) == 1);
    assert(s.subrange(1, s.len() as int) =~= spaced(ws) + ")"@);
    lemma_spaced_items(s, st1, 1, Seq::empty(), ws);
    assert(Seq::<SDatum>::empty() + atoms_of(ws) =~= atoms_of(ws));
    let d = SDatum::List(atoms_of(ws));
    let end = RState { pos: s.len() as int, depth: 0, comments: Seq::empty(), hoisted: 0 };
    assert(parse_datum(s, at_pos(st0, 0)) == Ok::<(RState, Option<SDatum>), ReadError>((end, Some(d))));
    let more = Seq::<SDatum>::empty() + comments_data(end.comments) + opt_seq(Some(d));
    assert(more =~= seq![d]);
    assert(skip_ws(s, s.len() as int) == s.len());
    assert(parse_rest(s, RState { comments: Seq::empty(), ..end }, more) == Ok::<(Seq<SDatum>, nat), ReadError>(
        (more + comments_data(Seq::empty()), 0nat),
    ));
    assert(more + comments_data(Seq::empty()) =~= more);
}

/// Inside a string a backslash takes the next character with it,
/// whatever that character is: the string goes on after the two.
pub proof fn lemma_string_escape(s: Seq<char>, p: int)
    requires
        0 <= p,
        p + 1 < s.len(),
        s[p] == '\\',
    ensures
        string_end(s, p) == string_end(s, p + 2),
{
}

proof fn lemma_string_plain(s: Seq<char>, p: int, q: int)
    requires
        0 <= p <= q <= s.len(),
        forall|i: int| p <= i < q ==> #[trigger] s[i] != '\\' && s[i] != '"',
    ensures
        string_end(s, p) == string_end(s, q),
    decreases q - p,
{
    if p < q {
        lemma_string_plain(s, p + 1, q);
    }
}

/// A string with a backslash and any character inside it, among other
/// characters that are neither backslashes nor quotes, reads as one atom
/// that is the whole string, quotes included: the escaped character
/// never ends it, even when it is a backslash or a quote.
pub proof fn lemma_escaped_string_reads(a: Seq<char>, c: char, b: Seq<char>)
    requires
        forall|i: int| 0 <= i < a.len() ==> #[trigger] a[i] != '\\' && a[i] != '"',
        forall|i: int| 0 <= i < b.len() ==> #[trigger] b[i] != '\\' && b[i] != '"',
    ensures
        parse_text(seq!['"'] + a + seq!['\\', c] + b + seq!['"']) == Ok::<(Seq<SDatum>, nat), ReadError>(
            (seq![SDatum::Atom(seq!['"'] + a + seq!['\\', c] + b + seq!['"'])], 0nat),
        ),
{
    let s = seq!['"'] + a + seq!['\\', c] + b + seq!['"'];
    let k: int = a.len() + 1int;
    let m: int = k + 2 + b.len();
    assert(s.len() == m + 1);
    assert forall|i: int| 1 <= i < k implies #[trigger] s[i] != '\\' && s[i] != '"' by {
        assert(s[i] == a[i - 1]);
    }
    assert forall|i: int| k + 2 <= i < m implies #[trigger] s[i] != '\\' && s[i] != '"' by {
        assert(s[i] == b[i - k - 2]);
    }
    lemma_string_plain(s, 1, k);
    assert(s[k] == '\\');
    lemma_string_escape(s, k);
    lemma_string_plain(s, k + 2, m);
    assert(s[m] == '"');
    assert(string_end(s, m) == Some(m + 1));
    assert(string_end(s, 1) == Some(s.len() as int));
    assert(s[0] == '"');
    assert(skip_ws(s, 0) == 0);
    let st0 = RState { pos: 0, depth: 0, comments: Seq::empty(), hoisted: 0 };
    let st2 = at_pos(at_pos(st0, 0), s.len() as int);
    assert(s.subrange(0, s.len() as int) =~= s);
    assert(parse_datum(s, at_pos(st0, 0)) == Ok::<(RState, Option<SDatum>), ReadError>((st2, Some(SDatum::Atom(s)))));
    let more = Seq::<SDatum>::empty() + comments_data(st2.comments) + opt_seq(Some(SDatum::Atom(s)));
    assert(more =~= seq![SDatum::Atom(s)]);
    assert(skip_ws(s, s.len() as int) == s.len());
    assert(parse_rest(s, RState { comments: Seq::empty(), ..st2 }, more) == Ok::<(Seq<SDatum>, nat), ReadError>(
        (more + comments_data(Seq::empty()), 0nat),
    ));
    assert(more + comments_data(Seq::empty()) =~= more);
}

/// The marks that belong to the datum right after them: quote,
/// quasiquote, unquote and unquote-splicing.
pub open spec fn quote_mark(m: Seq<char>) -> bool {
    m == seq!['\''] || m == seq!['`'] || m == seq![','] || m == seq![',', '@']
}

/// A quote, quasiquote, unquote or unquote-splicing mark before a list of
/// symbols reads as that mark around the list of their atoms.
pub proof fn lemma_marked_list_reads(m: Seq<char>, ws: Seq<Seq<char>>)
    requires
        quote_mark(m),
        ws.len() >= 1,
        forall|i: int| 0 <= i < ws.len() ==> plain_symbol(#[trigger] ws[i]),
    ensures
        parse_text(m + "("@ + spaced(ws) + ")"@) == Ok::<(Seq<SDatum>, nat), ReadError>(
            (seq![SDatum::Marker(m, Box::new(SDatum::List(atoms_of(ws))))], 0nat),
        ),
{
    reveal_strlit("(");
    reveal_strlit(")");
    let s = m + "("@ + spaced(ws) + ")"@;
    let k = m.len() as int;
    let st0 = RState { pos: 0, depth: 0, comments: Seq::empty(), hoisted: 0 };
    assert(s[k] == '(');
    assert(s[0] == m[0]);
    assert(skip_ws(s, 0) == 0);
    assert(skip_ws(s, k) == k);
    assert(plain_symbol(ws[0]));
    assert(spaced(ws)[0] == ws[0][0]) by {
        if ws.len() > 1 {
            assert(spaced(ws) == ws[0] + " "@ + spaced(ws.drop_first()));
        }
    }
    assert(s[k + 1] == ws[0][0]);
    assert(!is_delim(ws[0][0]));
    assert(skip_ws(s, k + 1) == k + 1);
    assert(s.subrange(k + 1, s.len() as int) =~= spaced(ws) + ")"@);
    let st1 = at_pos(st0, k);
    let inner = RState { pos: k + 1, depth: 1, ..st1 };
    lemma_spaced_items(s, inner, k + 1, Seq::empty(), ws);
    assert(Seq::<SDatum>::empty() + atoms_of(ws) =~= atoms_of(ws));
    let d = SDatum::List(atoms_of(ws));
    let end = RState { pos: s.len() as int, depth: 0, comments: Seq::empty(), hoisted: 0 };
    assert(parse_datum(s, st1) == Ok::<(RState, Option<SDatum>), ReadError>((end, Some(d))));
    let md = SDatum::Marker(m, Box::new(d));
    assert(parse_marker(s, st1, m) == Ok::<(RState, Option<SDatum>), ReadError>((end, Some(md))));
    if m == seq![','] {
        assert(char_at(s, 1) == Some('('));
    }
    if m == seq![',', '@'] {
        assert(char_at(s, 1) == Some('@'));
    }
    assert(parse_datum(s, at_pos(st0, 0)) == Ok::<(RState, Option<SDatum>), ReadError>((end, Some(md))));
    let more = Seq::<SDatum>::empty() + comments_data(end.comments) + opt_seq(Some(md));
    assert(more =~= seq![md]);
    assert(skip_ws(s, s.len() as int) == s.len());
    assert(parse_rest(s, RState { comments: Seq::empty(), ..end }, more) == Ok::<(Seq<SDatum>, nat), ReadError>(
        (more + comments_data(Seq::empty()), 0nat),
    ));
    assert(more + comments_data(Seq::empty()) =~= more);
}

/// Comments are taken out of the expressions they stand in: what a text
/// reads as is a sequence of comments and of data that hold no comment
/// at any depth, none being left inside a list or after a mark.
pub proof fn lemma_comments_hoisted(text: Seq<char>)
    ensures
        parse_text(text) matches Ok((data, _)) ==> forall|i: int|
            0 <= i < data.len() ==> (#[trigger] data[i] is Comment || comment_free(data[i])),
{
    lemma_rest_free(text, RState { pos: 0, depth: 0, comments: Seq::empty(), hoisted: 0 }, Seq::empty());
}

// ----------------------------------------------------------------------
/// Reads every datum of `text`.
pub fn read(text: &str) -> (r: Result<Reading, String>)
    requires
        text@.len() <= usize::MAX - 8,
    ensures
        match parse_text(text@) {
            Ok((data, hoisted)) => r matches Ok(reading) && data_view(reading.data@) == data
                && reading.hoisted == hoisted,
            Err(e) => r matches Err(message) && message@ == error_text(e),
        },
{
    let mut reader = Reader {
        chars: chars_of(text),
        position: 0,
        depth: 0,
        comments: Vec::new(),
        hoisted: 0,
    };
    match reader.read_all() {
        Ok(data) => Ok(Reading { data, hoisted: reader.hoisted }),
        Err(e) => Err(error_message(e)),
    }
}

/// A character that ends a symbol.
fn is_delimiter(c: char) -> (r: bool)
    ensures
        r == is_delim(c),
{
    is_whitespace(c) || c == '(' || c == ')' || c == '"' || c == ';' || c == '\'' || c == '`'
        || c == ',' || c == '|'
}

struct Reader {
    chars: Vec<char>,
    position: usize,
    /// How many lists are open; used to count hoisted comments.
    depth: usize,
    /// Comments not yet emitted.
    comments: Vec<String>,
    hoisted: usize,
}

pub open spec fn comments_view(c: Seq<String>) -> Seq<Seq<char>> {
    Seq::new(c.len(), |i: int| c[i]@)
}

pub open spec fn opt_view(d: Option<Datum>) -> Option<SDatum> {
    match d {
        Some(d) => Some(d.dview()),
        None => None,
    }
}

impl Reader {
    spec fn st(&self) -> RState {
        RState {
            pos: self.position as int,
            depth: self.depth as nat,
            comments: comments_view(self.comments@),
            hoisted: self.hoisted as nat,
        }
    }

    spec fn inv(&self) -> bool {
        &&& self.chars@.len() <= usize::MAX - 8
        &&& self.position <= self.chars@.len()
        &&& self.depth <= self.position
        &&& self.hoisted <= self.position
    }

    /// After an `Ok`, how the reader moved: forward, within the text,
    /// with the same depth, and with one hoisted comment at most per
    /// character read.
    spec fn moved(&self, after: &Self) -> bool {
        &&& after.inv()
        &&& after.depth == self.depth
        &&& after.chars@ == self.chars@
        &&& self.position <= after.position
        &&& after.hoisted <= self.hoisted + (after.position - self.position)
    }

    fn peek(&self) -> (r: Option<char>)
        ensures
            r == char_at(self.chars@, self.position as int),
    {
        if self.position < self.chars.len() {
            Some(self.chars[self.position])
        } else {
            None
        }
    }

    fn peek_at(&self, offset: usize) -> (r: Option<char>)
        requires
            self.position + offset <= usize::MAX,
        ensures
            r == char_at(self.chars@, self.position + offset),
    {
        if self.position + offset < self.chars.len() {
            Some(self.chars[self.position + offset])
        } else {
            None
        }
    }

    fn digit_at(&self, offset: usize) -> (r: bool)
        requires
            self.position + offset <= usize::MAX,
        ensures
            r == (char_at(self.chars@, self.position + offset) matches Some(c)
                && spec_is_ascii_digit(c)),
    {
        match self.peek_at(offset) {
            Some(c) => is_ascii_digit(c),
            None => false,
        }
    }

    fn skip_space(&mut self)
        requires
            old(self).position <= old(self).chars@.len(),
        ensures
            final(self).position == skip_ws(old(self).chars@, old(self).position as int),
            final(self).position >= old(self).position,
            final(self).position <= final(self).chars@.len(),
            final(self).chars == old(self).chars,
            final(self).depth == old(self).depth,
            final(self).comments == old(self).comments,
            final(self).hoisted == old(self).hoisted,
    {
        while self.position < self.chars.len() && is_whitespace(self.chars[self.position])
            invariant
                old(self).position <= self.position <= self.chars@.len(),
                skip_ws(self.chars@, self.position as int) == skip_ws(
                    old(self).chars@,
                    old(self).position as int,
                ),
                self.chars == old(self).chars,
                self.depth == old(self).depth,
                self.comments == old(self).comments,
                self.hoisted == old(self).hoisted,
            decreases self.chars@.len() - self.position,
        {
            self.position = self.position + 1;
        }
    }

    fn slice(&self, start: usize) -> (s: String)
        requires
            start <= self.position <= self.chars@.len(),
        ensures
            s@ == self.chars@.subrange(start as int, self.position as int),
    {
        string_of_range(&self.chars, start, self.position)
    }

    /// Emits the comments read so far, before the datum just read.
    fn flush(&mut self, data: &mut Vec<Datum>)
        ensures
            data_view(final(data)@) == data_view(old(data)@) + comments_data(
                comments_view(old(self).comments@),
            ),
            final(self).comments@ == Seq::<String>::empty(),
            final(self).chars == old(self).chars,
            final(self).position == old(self).position,
            final(self).depth == old(self).depth,
            final(self).hoisted == old(self).hoisted,
    {
        let mut i: usize = 0;
        while i < self.comments.len()
            invariant
                i <= self.comments@.len(),
                self.comments == old(self).comments,
                self.chars == old(self).chars,
                self.position == old(self).position,
                self.depth == old(self).depth,
                self.hoisted == old(self).hoisted,
                data_view(data@) == data_view(old(data)@) + comments_data(
                    comments_view(self.comments@).subrange(0, i as int),
                ),
            decreases self.comments@.len() - i,
        {
            let text = self.comments[i].clone();
            let ghost prev = data@;
            let ghost cv = comments_view(self.comments@);
            data.push(Datum::Comment(text));
            assert(data_view(data@) =~= data_view(prev).push(SDatum::Comment(cv[i as int])));
            assert(cv.subrange(0, i + 1) =~= cv.subrange(0, i as int).push(cv[i as int]));
            assert(comments_data(cv.subrange(0, i + 1)) =~= comments_data(
                cv.subrange(0, i as int),
            ).push(SDatum::Comment(cv[i as int])));
            i = i + 1;
            assert(data_view(data@) =~= data_view(old(data)@) + comments_data(
                comments_view(self.comments@).subrange(0, i as int),
            ));
        }
        assert(comments_view(self.comments@).subrange(0, i as int) =~= comments_view(
            self.comments@,
        ));
        self.comments.clear();
    }

    fn read_all(&mut self) -> (r: Result<Vec<Datum>, ReadError>)
        requires
            old(self).inv(),
            old(self).position == 0,
            old(self).depth == 0,
            old(self).comments@.len() == 0,
            old(self).hoisted == 0,
        ensures
            match parse_text(old(self).chars@) {
                Ok((data, hoisted)) => r matches Ok(v) && data_view(v@) == data
                    && final(self).hoisted == hoisted,
                Err(e) => r == Err::<Vec<Datum>, ReadError>(e),
            },
    {
        let ghost s = self.chars@;
        let mut data: Vec<Datum> = Vec::new();
        assert(comments_view(self.comments@) =~= Seq::empty());
        assert(data_view(data@) =~= Seq::empty());
        assert(self.st() == RState { pos: 0, depth: 0, comments: Seq::empty(), hoisted: 0 });
        loop
            invariant
                self.inv(),
                self.chars@ == s,
                old(self).chars@ == s,
                self.depth == 0,
                parse_rest(s, self.st(), data_view(data@)) == parse_text(s),
            decreases s.len() + 2 - self.position,
        {
            let ghost st0 = self.st();
            self.skip_space();
            let ghost p = self.position as int;
            proof {
                lemma_skip_ws(s, st0.pos);
            }
            match self.peek() {
                None => {
                    self.flush(&mut data);
                    return Ok(data);
                },
                Some(c) => {
                    if c == ')' {
                        assert(parse_text(s) == Err::<(Seq<SDatum>, nat), ReadError>(ReadError::TooManyClosing));
                        return Err(ReadError::TooManyClosing);
                    }
                    assert(self.st() == at_pos(st0, p));
                    let datum = match self.read_datum() {
                        Ok(d) => d,
                        Err(e) => {
                            return Err(e);
                        },
                    };
                    proof {
                        lemma_skip_ws_stays(s, p);
                    }
                    let ghost st2 = self.st();
                    let ghost old_data = data_view(data@);
                    self.flush(&mut data);
                    match datum {
                        Some(d) => {
                            data.push(d);
                        },
                        None => {},
                    }
                    assert(data_view(data@) =~= old_data + comments_data(st2.comments) + opt_seq(
                        opt_view(datum),
                    ));
                    assert(comments_view(self.comments@) =~= Seq::empty());
                    assert(self.st() == RState { comments: Seq::empty(), ..st2 });
                },
            }
        }
    }

    fn push_comment(&mut self, text: String)
        requires
            old(self).hoisted < usize::MAX,
        ensures
            final(self).st() == with_comment(old(self).st(), text@),
            final(self).chars == old(self).chars,
            final(self).position == old(self).position,
            final(self).depth == old(self).depth,
            final(self).hoisted <= old(self).hoisted + 1,
    {
        if self.depth > 0 {
            self.hoisted = self.hoisted + 1;
        }
        let ghost old_comments = comments_view(self.comments@);
        self.comments.push(text);
        assert(comments_view(self.comments@) =~= old_comments.push(text@));
    }

    /// One datum. `None` when only a comment was read; the comment is
    /// kept to be emitted later.
    #[verifier::rlimit(60)]
    fn read_datum(&mut self) -> (r: Result<Option<Datum>, ReadError>)
        requires
            old(self).inv(),
        ensures
            step_matches(parse_datum(old(self).chars@, old(self).st()), r, final(self).st()),
            r is Ok ==> old(self).moved(&*final(self)),
            r is Ok && char_at(
                old(self).chars@,
                skip_ws(old(self).chars@, old(self).position as int),
            ) != Some(')') ==> final(self).position > old(self).position,
            r matches Ok(None) ==> final(self).position > old(self).position,
        decreases old(self).chars@.len() + 2 - old(self).position, 2int,
    {
        let ghost s = self.chars@;
        let ghost st0 = self.st();
        self.skip_space();
        proof {
            lemma_skip_ws(s, st0.pos);
        }
        let ghost p = self.position as int;
        let c = match self.peek() {
            None => {
                return Err(ReadError::NoDatum);
            },
            Some(c) => c,
        };
        assert(self.st() == at_pos(st0, p));
        if c == '(' {
            self.position = self.position + 1;
            let list = match self.read_list() {
                Ok(l) => l,
                Err(e) => {
                    return Err(e);
                },
            };
            Ok(Some(list))
        } else if c == ';' {
            let text = self.read_line_comment();
            proof {
                lemma_line_end(s, p + 1);
            }
            self.push_comment(text);
            Ok(None)
        } else if c == '\'' || c == '`' {
            self.position = self.position + 1;
            let mark = string_of_char(c);
            let d = match self.read_marker(mark) {
                Ok(d) => d,
                Err(e) => {
                    return Err(e);
                },
            };
            Ok(Some(d))
        } else if c == ',' {
            self.position = self.position + 1;
            let mark = if self.peek() == Some('@') {
                self.position = self.position + 1;
                let mut m = string_of_char(',');
                push_char(&mut m, '@');
                m
            } else {
                string_of_char(',')
            };
            assert(mark@ =~= seq![',', '@'] || mark@ =~= seq![',']);
            let d = match self.read_marker(mark) {
                Ok(d) => d,
                Err(e) => {
                    return Err(e);
                },
            };
            Ok(Some(d))
        } else if c == '"' {
            proof {
                lemma_string_end(s, p + 1);
            }
            let d = match self.read_string() {
                Ok(d) => d,
                Err(e) => {
                    return Err(e);
                },
            };
            Ok(Some(d))
        } else if c == '|' {
            proof {
                lemma_pipe_end(s, p + 1);
            }
            let d = match self.read_pipe() {
                Ok(d) => d,
                Err(e) => {
                    return Err(e);
                },
            };
            Ok(Some(d))
        } else if c == '#' {
            self.read_hash()
        } else {
            proof {
                lemma_symbol_end(s, p + 1);
            }
            let text = self.read_symbol();
            Ok(Some(Datum::Atom(text)))
        }
    }

    /// The items of a list, the `(` already read.
    fn read_list(&mut self) -> (r: Result<Datum, ReadError>)
        requires
            old(self).inv(),
            old(self).depth < old(self).position,
        ensures
            list_matches(
                parse_items(
                    old(self).chars@,
                    RState { depth: old(self).depth as nat + 1, ..old(self).st() },
                    Seq::empty(),
                ),
                r,
                final(self).st(),
            ),
            r is Ok ==> old(self).moved(&*final(self)) && final(self).position > old(
                self,
            ).position,
        decreases old(self).chars@.len() + 2 - old(self).position, 3int,
    {
        let ghost s = self.chars@;
        let ghost start = self.position;
        let ghost target = parse_items(
            s,
            RState { depth: self.depth as nat + 1, ..self.st() },
            Seq::empty(),
        );
        let mut items: Vec<Datum> = Vec::new();
        self.depth = self.depth + 1;
        assert(data_view(items@) =~= Seq::empty());
        loop
            invariant
                self.chars@ == s,
                old(self).chars@ == s,
                old(self).position == start,
                target == parse_items(
                    old(self).chars@,
                    RState { depth: old(self).depth as nat + 1, ..old(self).st() },
                    Seq::empty(),
                ),
                self.position <= s.len(),
                start <= self.position,
                self.depth == old(self).depth + 1,
                self.depth <= self.position,
                self.hoisted <= old(self).hoisted + (self.position - start),
                old(self).hoisted <= start,
                s.len() <= usize::MAX - 8,
                parse_items(s, self.st(), data_view(items@)) == target,
            decreases s.len() + 2 - self.position,
        {
            let ghost st0 = self.st();
            self.skip_space();
            proof {
                lemma_skip_ws(s, st0.pos);
            }
            let ghost p = self.position as int;
            match self.peek() {
                None => {
                    return Err(ReadError::UnclosedList);
                },
                Some(c) => {
                    if c == ')' {
                        self.position = self.position + 1;
                        self.depth = self.depth - 1;
                        proof {
                            lemma_list_view(items);
                        }
                        return Ok(Datum::List(items));
                    }
                    assert(self.st() == at_pos(st0, p));
                    let datum = match self.read_datum() {
                        Ok(d) => d,
                        Err(e) => {
                            return Err(e);
                        },
                    };
                    proof {
                        lemma_skip_ws_stays(s, p);
                    }
                    let ghost old_items = data_view(items@);
                    match datum {
                        Some(d) => {
                            items.push(d);
                        },
                        None => {},
                    }
                    assert(data_view(items@) =~= old_items + opt_seq(opt_view(datum)));
                },
            }
        }
    }

    /// The datum after a mark; comments in between are skipped.
    fn read_marker(&mut self, mark: String) -> (r: Result<Datum, ReadError>)
        requires
            old(self).inv(),
        ensures
            step_matches(
                parse_marker(old(self).chars@, old(self).st(), mark@),
                match r {
                    Ok(d) => Ok(Some(d)),
                    Err(e) => Err(e),
                },
                final(self).st(),
            ),
            r is Ok ==> old(self).moved(&*final(self)),
        decreases old(self).chars@.len() + 2 - old(self).position, 3int,
    {
        let ghost s = self.chars@;
        let ghost start = self.position;
        let ghost target = parse_marker(s, self.st(), mark@);
        loop
            invariant
                self.inv(),
                self.chars@ == s,
                old(self).chars@ == s,
                target == parse_marker(old(self).chars@, old(self).st(), mark@),
                start <= self.position,
                self.depth == old(self).depth,
                self.hoisted <= old(self).hoisted + (self.position - start),
                old(self).inv(),
                old(self).position == start,
                parse_marker(s, self.st(), mark@) == target,
            decreases s.len() + 2 - self.position,
        {
            match self.read_datum() {
                Ok(Some(d)) => {
                    return Ok(Datum::Marker(mark, Box::new(d)));
                },
                Ok(None) => {},
                Err(e) => {
                    return Err(e);
                },
            }
        }
    }

    fn read_symbol(&mut self) -> (text: String)
        requires
            old(self).inv(),
        ensures
            final(self).position == symbol_end(old(self).chars@, old(self).position as int),
            text@ == old(self).chars@.subrange(
                old(self).position as int,
                final(self).position as int,
            ),
            final(self).chars == old(self).chars,
            final(self).depth == old(self).depth,
            final(self).comments == old(self).comments,
            final(self).hoisted == old(self).hoisted,
    {
        let start = self.position;
        while self.position < self.chars.len() && !is_delimiter(self.chars[self.position])
            invariant
                start <= self.position <= self.chars@.len(),
                symbol_end(self.chars@, self.position as int) == symbol_end(
                    old(self).chars@,
                    start as int,
                ),
                start == old(self).position,
                self.chars == old(self).chars,
                self.depth == old(self).depth,
                self.comments == old(self).comments,
                self.hoisted == old(self).hoisted,
            decreases self.chars@.len() - self.position,
        {
            self.position = self.position + 1;
        }
        self.slice(start)
    }

    fn read_line_comment(&mut self) -> (text: String)
        requires
            old(self).inv(),
        ensures
            final(self).position == line_end(old(self).chars@, old(self).position as int),
            text@ == old(self).chars@.subrange(
                old(self).position as int,
                final(self).position as int,
            ),
            final(self).chars == old(self).chars,
            final(self).depth == old(self).depth,
            final(self).comments == old(self).comments,
            final(self).hoisted == old(self).hoisted,
    {
        let start = self.position;
        while self.position < self.chars.len() && self.chars[self.position] != '\n'
            invariant
                start <= self.position <= self.chars@.len(),
                line_end(self.chars@, self.position as int) == line_end(
                    old(self).chars@,
                    start as int,
                ),
                start == old(self).position,
                self.chars == old(self).chars,
                self.depth == old(self).depth,
                self.comments == old(self).comments,
                self.hoisted == old(self).hoisted,
            decreases self.chars@.len() - self.position,
        {
            self.position = self.position + 1;
        }
        self.slice(start)
    }

    /// A string literal; the position is at its `"`.
    fn read_string(&mut self) -> (r: Result<Datum, ReadError>)
        requires
            old(self).inv(),
            old(self).position < old(self).chars@.len(),
        ensures
            match string_end(old(self).chars@, old(self).position + 1) {
                None => r == Err::<Datum, ReadError>(ReadError::UnclosedString),
                Some(e) => r matches Ok(d) && d.dview() == SDatum::Atom(
                    old(self).chars@.subrange(old(self).position as int, e),
                ) && final(self).position == e,
            },
            final(self).chars == old(self).chars,
            final(self).depth == old(self).depth,
            final(self).comments == old(self).comments,
            final(self).hoisted == old(self).hoisted,
    {
        let ghost s = self.chars@;
        let start = self.position;
        self.position = self.position + 1;
        loop
            invariant
                start + 1 <= self.position <= s.len() + 1,
                start == old(self).position,
                s.len() <= usize::MAX - 8,
                self.chars@ == s,
                self.chars == old(self).chars,
                self.depth == old(self).depth,
                self.comments == old(self).comments,
                self.hoisted == old(self).hoisted,
                string_end(s, self.position as int) == string_end(s, start + 1),
            decreases s.len() + 2 - self.position,
        {
            match self.peek() {
                None => {
                    return Err(ReadError::UnclosedString);
                },
                Some(c) => {
                    if c == '\\' {
                        self.position = self.position + 2;
                    } else if c == '"' {
                        self.position = self.position + 1;
                        return Ok(Datum::Atom(self.slice(start)));
                    } else {
                        self.position = self.position + 1;
                    }
                },
            }
        }
    }

    /// A `|...|` symbol; the position is at its first `|`.
    fn read_pipe(&mut self) -> (r: Result<Datum, ReadError>)
        requires
            old(self).inv(),
            old(self).position < old(self).chars@.len(),
        ensures
            match pipe_end(old(self).chars@, old(self).position + 1) {
                None => r == Err::<Datum, ReadError>(ReadError::UnclosedPipe),
                Some(e) => r matches Ok(d) && d.dview() == SDatum::Atom(
                    old(self).chars@.subrange(old(self).position as int, e),
                ) && final(self).position == e,
            },
            final(self).chars == old(self).chars,
            final(self).depth == old(self).depth,
            final(self).comments == old(self).comments,
            final(self).hoisted == old(self).hoisted,
    {
        let ghost s = self.chars@;
        let start = self.position;
        self.position = self.position + 1;
        loop
            invariant
                start + 1 <= self.position <= s.len(),
                start == old(self).position,
                s.len() <= usize::MAX - 8,
                self.chars@ == s,
                self.chars == old(self).chars,
                self.depth == old(self).depth,
                self.comments == old(self).comments,
                self.hoisted == old(self).hoisted,
                pipe_end(s, self.position as int) == pipe_end(s, start + 1),
            decreases s.len() + 2 - self.position,
        {
            match self.peek() {
                None => {
                    return Err(ReadError::UnclosedPipe);
                },
                Some(c) => {
                    self.position = self.position + 1;
                    if c == '|' {
                        return Ok(Datum::Atom(self.slice(start)));
                    }
                },
            }
        }
    }

    /// What starts with `#`; the position is at the `#`.
    fn read_hash(&mut self) -> (r: Result<Option<Datum>, ReadError>)
        requires
            old(self).inv(),
            old(self).position < old(self).chars@.len(),
            old(self).chars@[old(self).position as int] == '#',
        ensures
            step_matches(parse_hash(old(self).chars@, old(self).st()), r, final(self).st()),
            r is Ok ==> old(self).moved(&*final(self)) && final(self).position > old(
                self,
            ).position,
        decreases old(self).chars@.len() + 2 - old(self).position, 1int,
    {
        let ghost s = self.chars@;
        let ghost p = self.position as int;
        let ghost st0 = self.st();
        let next = self.peek_at(1);
        if next == Some('(') {
            self.position = self.position + 2;
            let list = match self.read_list() {
                Ok(l) => l,
                Err(e) => {
                    return Err(e);
                },
            };
            Ok(Some(Datum::Marker(string_of_char('#'), Box::new(list))))
        } else if next == Some('|') {
            proof {
                lemma_block_end(s, p + 2, 1);
            }
            let text = match self.read_block_comment() {
                Ok(t) => t,
                Err(e) => {
                    return Err(e);
                },
            };
            self.push_comment(text);
            Ok(None)
        } else if next == Some(';') {
            self.position = self.position + 2;
            let mut mark = string_of_char('#');
            push_char(&mut mark, ';');
            assert(mark@ =~= seq!['#', ';']);
            let d = match self.read_marker(mark) {
                Ok(d) => d,
                Err(e) => {
                    return Err(e);
                },
            };
            Ok(Some(d))
        } else if next == Some('\\') {
            proof {
                if p + 3 <= s.len() {
                    lemma_name_end(s, p + 3);
                }
            }
            let text = self.read_character();
            Ok(Some(Datum::Atom(text)))
        } else if next == Some('u') && self.peek_at(2) == Some('8') && self.peek_at(3) == Some(
            '(',
        ) {
            self.position = self.position + 4;
            let list = match self.read_list() {
                Ok(l) => l,
                Err(e) => {
                    return Err(e);
                },
            };
            let mut mark = string_of_char('#');
            push_char(&mut mark, 'u');
            push_char(&mut mark, '8');
            assert(mark@ =~= seq!['#', 'u', '8']);
            Ok(Some(Datum::Marker(mark, Box::new(list))))
        } else {
            let mut offset: usize = 1;
            while self.digit_at(offset)
                invariant
                    1 <= offset,
                    p + offset <= s.len(),
                    self.position == p,
                    self.chars@ == s,
                    self.inv(),
                    digits_end(s, p, offset as int) == digits_end(s, p, 1),
                decreases s.len() - (p + offset),
            {
                offset = offset + 1;
            }
            if offset > 1 && self.peek_at(offset) == Some('=') {
                let start = self.position;
                self.position = self.position + offset + 1;
                let label = self.slice(start);
                let d = match self.read_marker(label) {
                    Ok(d) => d,
                    Err(e) => {
                        return Err(e);
                    },
                };
                return Ok(Some(d));
            }
            proof {
                lemma_symbol_end(s, p + 1);
            }
            let text = self.read_symbol();
            Ok(Some(Datum::Atom(text)))
        }
    }

    /// `#\a` or `#\space`. The first character after `#\` is taken
    /// whatever it is, since it may be a delimiter itself, as in `#\(`.
    fn read_character(&mut self) -> (text: String)
        requires
            old(self).inv(),
            old(self).position + 1 < old(self).chars@.len(),
        ensures
            final(self).position == char_literal_end(old(self).chars@, old(self).position as int),
            text@ == old(self).chars@.subrange(
                old(self).position as int,
                final(self).position as int,
            ),
            final(self).chars == old(self).chars,
            final(self).depth == old(self).depth,
            final(self).comments == old(self).comments,
            final(self).hoisted == old(self).hoisted,
    {
        let ghost s = self.chars@;
        let start = self.position;
        self.position = self.position + 2;
        match self.peek() {
            Some(c) => {
                self.position = self.position + 1;
                if is_alphanumeric(c) {
                    while self.position < self.chars.len() && (is_alphanumeric(
                        self.chars[self.position],
                    ) || self.chars[self.position] == '-')
                        invariant
                            start + 3 <= self.position <= s.len(),
                            self.chars@ == s,
                            start == old(self).position,
                            self.chars == old(self).chars,
                            self.depth == old(self).depth,
                            self.comments == old(self).comments,
                            self.hoisted == old(self).hoisted,
                            name_end(s, self.position as int) == name_end(s, start + 3),
                        decreases s.len() - self.position,
                    {
                        self.position = self.position + 1;
                    }
                }
            },
            None => {},
        }
        self.slice(start)
    }

    /// A block comment `#| |#`; they nest. The position is at its `#`.
    fn read_block_comment(&mut self) -> (r: Result<String, ReadError>)
        requires
            old(self).inv(),
            old(self).position + 1 < old(self).chars@.len(),
        ensures
            match block_end(old(self).chars@, old(self).position + 2, 1) {
                None => r == Err::<String, ReadError>(ReadError::UnclosedBlockComment),
                Some(e) => r matches Ok(t) && t@ == old(self).chars@.subrange(
                    old(self).position as int,
                    e,
                ) && final(self).position == e,
            },
            final(self).chars == old(self).chars,
            final(self).depth == old(self).depth,
            final(self).comments == old(self).comments,
            final(self).hoisted == old(self).hoisted,
    {
        let ghost s = self.chars@;
        let ghost target = block_end(s, self.position + 2, 1);
        let start = self.position;
        self.position = self.position + 2;
        let mut level: usize = 1;
        while level > 0
            invariant
                start + 2 <= self.position <= s.len(),
                old(self).chars@ == s,
                target == block_end(old(self).chars@, old(self).position + 2, 1),
                level <= self.position,
                start == old(self).position,
                s.len() <= usize::MAX - 8,
                self.chars@ == s,
                self.chars == old(self).chars,
                self.depth == old(self).depth,
                self.comments == old(self).comments,
                self.hoisted == old(self).hoisted,
                level > 0 ==> block_end(s, self.position as int, level as nat) == target,
                level == 0 ==> target == Some(self.position as int),
            decreases s.len() + 2 - self.position,
        {
            let here = self.peek();
            let next = self.peek_at(1);
            match here {
                None => {
                    return Err(ReadError::UnclosedBlockComment);
                },
                Some(c) => {
                    if c == '#' && next == Some('|') {
                        self.position = self.position + 2;
                        level = level + 1;
                    } else if c == '|' && next == Some('#') {
                        self.position = self.position + 2;
                        level = level - 1;
                    } else {
                        self.position = self.position + 1;
                    }
                },
            }
        }
        Ok(self.slice(start))
    }
}

/// How a step of the reader meets the grammar.
pub open spec fn step_matches(
    expected: Step,
    r: Result<Option<Datum>, ReadError>,
    after: RState,
) -> bool {
    match expected {
        Ok((st, d)) => r matches Ok(x) && after == st && opt_view(x) == d,
        Err(e) => r == Err::<Option<Datum>, ReadError>(e),
    }
}

pub open spec fn list_matches(expected: ListStep, r: Result<Datum, ReadError>, after: RState) -> bool {
    match expected {
        Ok((st, d)) => r matches Ok(x) && after == st && x.dview() == d,
        Err(e) => r == Err::<Datum, ReadError>(e),
    }
}

fn string_of_char(c: char) -> (s: String)
    ensures
        s@ == seq![c],
{
    let mut s = String::new();
    push_char(&mut s, c);
    assert(s@ =~= seq![c]);
    s
}

pub proof fn lemma_list_view(items: Vec<Datum>)
    ensures
        Datum::List(items).dview() == SDatum::List(data_view(items@)),
{
    match Datum::List(items).dview() {
        SDatum::List(x) => {
            assert(x =~= data_view(items@));
        },
        _ => {},
    }
}

proof fn lemma_skip_ws(s: Seq<char>, p: int)
    requires
        0 <= p <= s.len(),
    ensures
        p <= skip_ws(s, p) <= s.len(),
        skip_ws(s, p) < s.len() ==> !spec_is_whitespace(s[skip_ws(s, p)]),
    decreases s.len() - p,
{
    if p < s.len() && spec_is_whitespace(s[p]) {
        lemma_skip_ws(s, p + 1);
    }
}

proof fn lemma_skip_ws_stays(s: Seq<char>, p: int)
    requires
        0 <= p < s.len(),
        !spec_is_whitespace(s[p]),
    ensures
        skip_ws(s, p) == p,
{
}

proof fn lemma_symbol_end(s: Seq<char>, p: int)
    requires
        0 <= p <= s.len(),
    ensures
        p <= symbol_end(s, p) <= s.len(),
    decreases s.len() - p,
{
    if p < s.len() && !is_delim(s[p]) {
        lemma_symbol_end(s, p + 1);
    }
}

proof fn lemma_line_end(s: Seq<char>, p: int)
    requires
        0 <= p <= s.len(),
    ensures
        p <= line_end(s, p) <= s.len(),
    decreases s.len() - p,
{
    if p < s.len() && s[p] != '\n' {
        lemma_line_end(s, p + 1);
    }
}

proof fn lemma_string_end(s: Seq<char>, p: int)
    requires
        0 <= p,
    ensures
        string_end(s, p) matches Some(e) ==> p < e <= s.len(),
    decreases s.len() - p,
{
    if 0 <= p < s.len() {
        if s[p] == '\\' {
            if p + 2 <= s.len() {
                lemma_string_end(s, p + 2);
            }
        } else if s[p] != '"' {
            lemma_string_end(s, p + 1);
        }
    }
}

proof fn lemma_pipe_end(s: Seq<char>, p: int)
    requires
        0 <= p,
    ensures
        pipe_end(s, p) matches Some(e) ==> p < e <= s.len(),
    decreases s.len() - p,
{
    if 0 <= p < s.len() && s[p] != '|' {
        lemma_pipe_end(s, p + 1);
    }
}

proof fn lemma_block_end(s: Seq<char>, p: int, level: nat)
    requires
        0 <= p,
    ensures
        block_end(s, p, level) matches Some(e) ==> p < e <= s.len(),
    decreases s.len() - p,
{
    if 0 <= p < s.len() {
        if s[p] == '#' && char_at(s, p + 1) == Some('|') {
            lemma_block_end(s, p + 2, level + 1);
        } else if s[p] == '|' && char_at(s, p + 1) == Some('#') {
            if level > 1 {
                lemma_block_end(s, p + 2, (level - 1) as nat);
            }
        } else {
            lemma_block_end(s, p + 1, level);
        }
    }
}

proof fn lemma_name_end(s: Seq<char>, p: int)
    requires
        0 <= p <= s.len(),
    ensures
        p <= name_end(s, p) <= s.len(),
    decreases s.len() - p,
{
    if p < s.len() && (char_alphanumeric(s[p]) || s[p] == '-') {
        lemma_name_end(s, p + 1);
    }
}

} // verus!
