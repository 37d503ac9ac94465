//! Regular expressions, through the `regex` crate, and the character
//! classes of `char` that the search and substitute commands use.
//!
//! The crate reports positions as byte offsets into UTF-8 text; the
//! editor holds texts as characters, so this module also converts
//! between the two.

use vstd::prelude::*;

use crate::text::string_from;

verus! {

#[verifier::external_type_specification]
#[verifier::external_body]
pub struct ExRegex(regex::Regex);

/// The bytes that UTF-8 spends on a character.
pub open spec fn utf8_width(c: char) -> nat {
    if (c as u32) < 0x80 {
        1
    } else if (c as u32) < 0x800 {
        2
    } else if (c as u32) < 0x10000 {
        3
    } else {
        4
    }
}

/// The bytes of a text in UTF-8.
pub open spec fn byte_len(s: Seq<char>) -> nat
    decreases s.len(),
{
    if s.len() == 0 {
        0
    } else {
        byte_len(s.drop_last()) + utf8_width(s.last())
    }
}

/// Whether byte offset `b` falls between two characters of `s`.
pub open spec fn on_boundary(s: Seq<char>, b: nat) -> bool {
    exists|i: int| 0 <= i <= s.len() && byte_len(s.take(i)) == b
}

/// The character index at byte offset `b`.
pub open spec fn char_of_byte(s: Seq<char>, b: nat) -> int {
    choose|i: int| 0 <= i <= s.len() && byte_len(s.take(i)) == b
}

/// The first match of the pattern, compiled with the case rule, in
/// `text` at or after byte `start`: its byte range.
pub uninterp spec fn regex_find(pattern: Seq<char>, ignore_case: bool, text: Seq<char>, start: nat) -> Option<(nat, nat)>;

/// The groups of that match: the byte range of each group that took
/// part, group 0 being the whole match.
pub uninterp spec fn regex_groups(pattern: Seq<char>, ignore_case: bool, text: Seq<char>, start: nat) -> Option<Seq<Option<(nat, nat)>>>;

/// The number of matches, one after another and not overlapping, that
/// the pattern finds in `text`.
pub uninterp spec fn regex_count(pattern: Seq<char>, ignore_case: bool, text: Seq<char>) -> nat;

/// Why the pattern does not compile, when it does not.
pub uninterp spec fn regex_error(pattern: Seq<char>, ignore_case: bool) -> Option<Seq<char>>;

/// Whether the pattern syntax gives the character a meaning of its own.
pub open spec fn is_meta(c: char) -> bool {
    c == '\\' || c == '.' || c == '+' || c == '*' || c == '?' || c == '(' || c == ')' || c == '|' || c == '['
        || c == ']' || c == '{' || c == '}' || c == '^' || c == '$' || c == '#' || c == '&' || c == '-' || c == '~'
}

/// The text with a backslash before every character that the pattern
/// syntax gives a meaning, so that it matches itself.
pub open spec fn regex_escaped(text: Seq<char>) -> Seq<char>
    decreases text.len(),
{
    if text.len() == 0 {
        Seq::empty()
    } else {
        let c = text.last();
        regex_escaped(text.drop_last()) + if is_meta(c) {
            seq!['\\', c]
        } else {
            seq![c]
        }
    }
}

/// Whether a character is upper case, by Unicode.
pub uninterp spec fn is_upper(c: char) -> bool;

/// The upper case of a character, by Unicode: one or more characters.
pub uninterp spec fn upper_of(c: char) -> Seq<char>;

/// The lower case of a character, by Unicode: one or more characters.
pub uninterp spec fn lower_of(c: char) -> Seq<char>;

/// A compiled pattern, with the text and the case rule it came from.
pub struct Pattern {
    regex: regex::Regex,
    source: Vec<char>,
    ignore_case: bool,
}

impl Pattern {
    /// The text the pattern was compiled from.
    pub closed spec fn source(&self) -> Seq<char> {
        self.source@
    }

    /// Whether the pattern ignores case.
    pub closed spec fn ignores_case(&self) -> bool {
        self.ignore_case
    }

    /// The text the pattern was compiled from.
    pub fn source_text(&self) -> (r: &Vec<char>)
        ensures
            r@ == self.source(),
    {
        &self.source
    }
}

/// Compiles a pattern with `RegexBuilder`, ignoring case when asked; the
/// error's text when it does not compile. The contract ties the outcome
/// to the pattern and the case rule, through `regex_error`.
#[verifier::external_body]
pub(crate) fn compile(pattern: &str, ignore_case: bool) -> (r: Result<Pattern, String>)
    ensures
        match r {
            Ok(p) => regex_error(pattern@, ignore_case) is None && p.source() == pattern@
                && p.ignores_case() == ignore_case,
            Err(m) => regex_error(pattern@, ignore_case) == Some(m@),
        },
{
    match regex::RegexBuilder::new(pattern).case_insensitive(ignore_case).build() {
        Ok(regex) => Ok(Pattern { regex, source: pattern.chars().collect(), ignore_case }),
        Err(error) => Err(error.to_string()),
    }
}

/// `Regex::find_at`: the first match at or after byte `start`. As the
/// crate documents, a match lies within the searched span, its start is
/// not after its end, and both fall on character boundaries.
#[verifier::external_body]
fn find_bytes(p: &Pattern, text: &str, start: usize) -> (r: Option<(usize, usize)>)
    requires
        start <= byte_len(text@),
    ensures
        r matches Some((s, e)) ==> regex_find(p.source(), p.ignores_case(), text@, start as nat) == Some(
            (s as nat, e as nat),
        ) && start <= s <= e <= byte_len(text@) && on_boundary(text@, s as nat) && on_boundary(
            text@,
            e as nat,
        ),
        r is None ==> regex_find(p.source(), p.ignores_case(), text@, start as nat) is None,
{
    p.regex.find_at(text, start).map(|m| (m.start(), m.end()))
}

/// `Regex::captures_at`: the groups of the first match at or after byte
/// `start`, `None` for a group that took no part. Group 0 is the match
/// that `find_at` gives, and the ranges fall on character boundaries.
#[verifier::external_body]
fn captures_bytes(p: &Pattern, text: &str, start: usize) -> (r: Option<Vec<Option<(usize, usize)>>>)
    requires
        start <= byte_len(text@),
    ensures
        r matches Some(g) ==> regex_groups(p.source(), p.ignores_case(), text@, start as nat) == Some(
            g@.map_values(|x: Option<(usize, usize)>| match x {
                Some((a, b)) => Some((a as nat, b as nat)),
                None => None,
            }),
        ) && g@.len() >= 1 && (g@[0] matches Some((a0, b0)) && regex_find(p.source(), p.ignores_case(), text@, start as nat) == Some(
            (a0 as nat, b0 as nat),
        ) && start <= a0) && (forall|k: int|
            0 <= k < g@.len() ==> (#[trigger] g@[k] matches Some((a, b)) ==> a <= b <= byte_len(text@)
                && on_boundary(text@, a as nat) && on_boundary(text@, b as nat))),
        r is None ==> regex_groups(p.source(), p.ignores_case(), text@, start as nat) is None
            && regex_find(p.source(), p.ignores_case(), text@, start as nat) is None,
{
    p.regex.captures_at(text, start).map(|caps| caps.iter().map(|m| m.map(|m| (m.start(), m.end()))).collect())
}

/// `Regex::find_iter(..).count()`: how many matches the text holds.
#[verifier::external_body]
fn count_matches(p: &Pattern, text: &str) -> (r: usize)
    ensures
        r == regex_count(p.source(), p.ignores_case(), text@),
{
    p.regex.find_iter(text).count()
}

/// `regex::escape`: a backslash before each of the characters that
/// `regex_syntax::is_meta_character` names, every other character as it is.
#[verifier::external_body]
pub(crate) fn escape(text: &str) -> (r: String)
    ensures
        r@ == regex_escaped(text@),
{
    regex::escape(text)
}

/// `char::is_uppercase`.
#[verifier::external_body]
pub(crate) fn char_is_upper(c: char) -> (r: bool)
    ensures
        r == is_upper(c),
{
    c.is_uppercase()
}

/// `char::to_uppercase`, collected.
#[verifier::external_body]
pub(crate) fn char_upper(c: char) -> (r: Vec<char>)
    ensures
        r@ == upper_of(c),
{
    c.to_uppercase().collect()
}

/// `char::to_lowercase`, collected.
#[verifier::external_body]
pub(crate) fn char_lower(c: char) -> (r: Vec<char>)
    ensures
        r@ == lower_of(c),
{
    c.to_lowercase().collect()
}

/// The bytes that UTF-8 spends on a character.
pub fn char_width(c: char) -> (r: usize)
    ensures
        r == utf8_width(c),
{
    let n = c as u32;
    if n < 0x80 {
        1
    } else if n < 0x800 {
        2
    } else if n < 0x10000 {
        3
    } else {
        4
    }
}

/// Each character adds to the byte length of a prefix.
pub proof fn lemma_byte_len_grows(s: Seq<char>, i: int, j: int)
    requires
        0 <= i < j <= s.len(),
    ensures
        byte_len(s.take(i)) < byte_len(s.take(j)),
    decreases j - i,
{
    assert(s.take(j).drop_last() =~= s.take(j - 1));
    if i < j - 1 {
        lemma_byte_len_grows(s, i, j - 1);
    }
}

/// The byte offset of character index `i`, when it fits in `usize`.
pub fn byte_offset(s: &Vec<char>, i: usize) -> (r: Option<usize>)
    requires
        i <= s@.len(),
    ensures
        r matches Some(b) ==> b == byte_len(s@.take(i as int)),
        r is None ==> byte_len(s@.take(i as int)) > usize::MAX,
{
    let mut acc: usize = 0;
    let mut k: usize = 0;
    assert(s@.take(0) =~= Seq::<char>::empty());
    while k < i
        invariant
            k <= i <= s@.len(),
            acc == byte_len(s@.take(k as int)),
        decreases i - k,
    {
        assert(s@.take(k + 1).drop_last() =~= s@.take(k as int));
        let w = char_width(s[k]);
        if acc > usize::MAX - w {
            proof {
                if k + 1 < i {
                    lemma_byte_len_grows(s@, k + 1, i as int);
                }
            }
            return None;
        }
        acc = acc + w;
        k = k + 1;
    }
    Some(acc)
}

/// The character index at byte offset `b`, which falls between two
/// characters.
pub fn char_index(s: &Vec<char>, b: usize) -> (r: usize)
    requires
        on_boundary(s@, b as nat),
    ensures
        r <= s@.len(),
        byte_len(s@.take(r as int)) == b,
        r == char_of_byte(s@, b as nat),
{
    let ghost w = choose|i: int| 0 <= i <= s@.len() && byte_len(s@.take(i)) == b;
    let n = s.len();
    let mut acc: usize = 0;
    let mut k: usize = 0;
    assert(s@.take(0) =~= Seq::<char>::empty());
    proof {
        if w > 0 {
            lemma_byte_len_grows(s@, 0, w);
        }
    }
    while acc < b
        invariant
            k <= w <= s@.len(),
            n == s@.len(),
            acc == byte_len(s@.take(k as int)),
            byte_len(s@.take(w)) == b,
        decreases w - k,
    {
        proof {
            if k == w {
                assert(false);
            }
            if k + 1 < w {
                lemma_byte_len_grows(s@, k + 1, w);
            }
        }
        assert(s@.take(k + 1).drop_last() =~= s@.take(k as int));
        let c = char_width(s[k]);
        acc = acc + c;
        k = k + 1;
    }
    proof {
        if k < w {
            lemma_byte_len_grows(s@, k as int, w);
        }
        let c = char_of_byte(s@, b as nat);
        if c < k {
            lemma_byte_len_grows(s@, c, k as int);
        } else if c > k {
            lemma_byte_len_grows(s@, k as int, c);
        }
    }
    k
}

/// The first match of the pattern in `text` at or after character
/// `start`: its character range.
pub open spec fn find_chars(p: Seq<char>, ic: bool, text: Seq<char>, start: int) -> Option<(int, int)> {
    match regex_find(p, ic, text, byte_len(text.take(start))) {
        Some((s, e)) => Some((char_of_byte(text, s), char_of_byte(text, e))),
        None => None,
    }
}

/// The groups of the first match at or after character `start`, as
/// character ranges.
pub open spec fn groups_chars(p: Seq<char>, ic: bool, text: Seq<char>, start: int) -> Option<Seq<Option<(int, int)>>> {
    match regex_groups(p, ic, text, byte_len(text.take(start))) {
        Some(g) => Some(g.map_values(|x: Option<(nat, nat)>| match x {
            Some((a, b)) => Some((char_of_byte(text, a), char_of_byte(text, b))),
            None => None,
        })),
        None => None,
    }
}

impl Pattern {
    /// The first match in `text` at or after character `start`, as a
    /// character range; none when the text is too long to index in bytes.
    pub fn find_at(&self, text: &Vec<char>, start: usize) -> (r: Option<(usize, usize)>)
        requires
            start <= text@.len(),
        ensures
            byte_len(text@) <= usize::MAX ==> match find_chars(self.source(), self.ignores_case(), text@, start as int) {
                Some((s, e)) => r == Some((s as usize, e as usize)),
                None => r is None,
            },
            byte_len(text@) > usize::MAX ==> r is None,
            r matches Some((s, e)) ==> start <= s <= e <= text@.len(),
    {
        assert(text@.take(text@.len() as int) =~= text@);
        proof {
            if start < text@.len() {
                lemma_byte_len_grows(text@, start as int, text@.len() as int);
            }
        }
        let total = match byte_offset(text, text.len()) {
            Some(total) => total,
            None => return None,
        };
        let b = match byte_offset(text, start) {
            Some(b) => b,
            None => return None,
        };
        let hay = string_from(text.as_slice());
        match find_bytes(self, hay.as_str(), b) {
            Some((s, e)) => {
                let cs = char_index(text, s);
                let ce = char_index(text, e);
                proof {
                    if cs < start {
                        lemma_byte_len_grows(text@, cs as int, start as int);
                    }
                    if ce < cs {
                        lemma_byte_len_grows(text@, ce as int, cs as int);
                    }
                }
                Some((cs, ce))
            },
            None => None,
        }
    }

    /// Whether the pattern matches anywhere in `text`.
    pub fn is_match(&self, text: &Vec<char>) -> (r: bool)
        ensures
            r == (byte_len(text@) <= usize::MAX && find_chars(self.source(), self.ignores_case(), text@, 0) is Some),
    {
        match self.find_at(text, 0) {
            Some(_) => true,
            None => false,
        }
    }

    /// The groups of the first match in `text` at or after character
    /// `start`, as character ranges.
    pub fn captures_at(&self, text: &Vec<char>, start: usize) -> (r: Option<Vec<Option<(usize, usize)>>>)
        requires
            start <= text@.len(),
        ensures
            byte_len(text@) <= usize::MAX ==> (r is Some <==> groups_chars(self.source(), self.ignores_case(), text@, start as int) is Some),
            byte_len(text@) > usize::MAX ==> r is None,
            r matches Some(g) ==> g@.len() >= 1 && groups_chars(self.source(), self.ignores_case(), text@, start as int) == Some(
                g@.map_values(|x: Option<(usize, usize)>| match x {
                    Some((a, b)) => Some((a as int, b as int)),
                    None => None,
                }),
            ) && (g@[0] matches Some((a0, b0)) && find_chars(self.source(), self.ignores_case(), text@, start as int) == Some(
                (a0 as int, b0 as int),
            ) && start <= a0) && (forall|k: int| 0 <= k < g@.len() ==> (#[trigger] g@[k] matches Some((a, b)) ==> a <= b <= text@.len())),
    {
        assert(text@.take(text@.len() as int) =~= text@);
        proof {
            if start < text@.len() {
                lemma_byte_len_grows(text@, start as int, text@.len() as int);
            }
        }
        let total = match byte_offset(text, text.len()) {
            Some(total) => total,
            None => return None,
        };
        let b = match byte_offset(text, start) {
            Some(b) => b,
            None => return None,
        };
        let hay = string_from(text.as_slice());
        let groups = match captures_bytes(self, hay.as_str(), b) {
            Some(groups) => groups,
            None => return None,
        };
        let ghost gb = groups@.map_values(|x: Option<(usize, usize)>| match x {
            Some((a, b)) => Some((a as nat, b as nat)),
            None => None,
        });
        let mut out: Vec<Option<(usize, usize)>> = Vec::new();
        let mut k: usize = 0;
        while k < groups.len()
            invariant
                k <= groups@.len(),
                out@.len() == k,
                hay@ == text@,
                forall|j: int| 0 <= j < groups@.len() ==> (#[trigger] groups@[j] matches Some((a, b)) ==> a <= b
                    <= byte_len(text@) && on_boundary(text@, a as nat) && on_boundary(text@, b as nat)),
                forall|j: int| 0 <= j < k ==> #[trigger] out@[j] == match groups@[j] {
                    Some((a, b)) => Some((char_of_byte(text@, a as nat) as usize, char_of_byte(text@, b as nat) as usize)),
                    None => None,
                },
                forall|j: int| 0 <= j < k ==> (#[trigger] out@[j] matches Some((a, b)) ==> a <= b <= text@.len()),
            decreases groups@.len() - k,
        {
            match groups[k] {
                Some((a, e)) => {
                    let ca = char_index(text, a);
                    let ce = char_index(text, e);
                    proof {
                        if ce < ca {
                            lemma_byte_len_grows(text@, ce as int, ca as int);
                        }
                    }
                    out.push(Some((ca, ce)));
                },
                None => {
                    out.push(None);
                },
            }
            k = k + 1;
        }
        proof {
            let m = out@.map_values(|x: Option<(usize, usize)>| match x {
                Some((a, b)) => Some((a as int, b as int)),
                None => None,
            });
            let want = gb.map_values(|x: Option<(nat, nat)>| match x {
                Some((a, b)) => Some((char_of_byte(text@, a), char_of_byte(text@, b))),
                None => None,
            });
            assert forall|j: int| 0 <= j < m.len() implies m[j] == want[j] by {
                if let Some((a, e)) = groups@[j] {
                    let ca = char_of_byte(text@, a as nat);
                    let ce = char_of_byte(text@, e as nat);
                    assert(0 <= ca <= text@.len() && byte_len(text@.take(ca)) == a);
                    assert(0 <= ce <= text@.len() && byte_len(text@.take(ce)) == e);
                }
            }
            assert(m =~= want);
            if let Some((a0, b0)) = groups@[0] {
                let c0 = char_of_byte(text@, a0 as nat);
                assert(out@[0] == Some((c0 as usize, char_of_byte(text@, b0 as nat) as usize)));
                if c0 < start {
                    lemma_byte_len_grows(text@, c0, start as int);
                }
            }
        }
        Some(out)
    }

    /// How many matches, one after another, `text` holds; none when the
    /// text is too long to index in bytes.
    pub fn count_in(&self, text: &Vec<char>) -> (r: usize)
        ensures
            r == regex_count(self.source(), self.ignores_case(), text@),
    {
        let hay = string_from(text.as_slice());
        count_matches(self, hay.as_str())
    }
}

} // verus!
