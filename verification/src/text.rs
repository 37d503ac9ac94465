//! Characters and strings: the helpers the rest of the library builds on.

use vstd::prelude::*;

verus! {

/// The Unicode `White_Space` property, which `char::is_whitespace` tests.
pub open spec fn spec_is_whitespace(c: char) -> bool {
    let u = c as u32;
    ||| 0x09 <= u <= 0x0D
    ||| u == 0x20
    ||| u == 0x85
    ||| u == 0xA0
    ||| u == 0x1680
    ||| 0x2000 <= u <= 0x200A
    ||| u == 0x2028
    ||| u == 0x2029
    ||| u == 0x202F
    ||| u == 0x205F
    ||| u == 0x3000
}

/// Whether `c` is white space in the sense of Unicode.
pub fn is_whitespace(c: char) -> (r: bool)
    ensures
        r == spec_is_whitespace(c),
{
    let u = c as u32;
    (0x09 <= u && u <= 0x0D) || u == 0x20 || u == 0x85 || u == 0xA0 || u == 0x1680 || (0x2000
        <= u && u <= 0x200A) || u == 0x2028 || u == 0x2029 || u == 0x202F || u == 0x205F || u
        == 0x3000
}

/// Appends one character to a string.
#[verifier::external_body]
pub(crate) fn push_char(s: &mut String, c: char)
    ensures
        final(s)@ == old(s)@.push(c),
{
    s.push(c);
}

/// The string whose characters are `chars`.
pub fn string_from(chars: &[char]) -> (s: String)
    ensures
        s@ == chars@,
{
    let mut s = String::new();
    let mut i: usize = 0;
    while i < chars.len()
        invariant
            i <= chars@.len(),
            s@ == chars@.subrange(0, i as int),
        decreases chars@.len() - i,
    {
        push_char(&mut s, chars[i]);
        i = i + 1;
        assert(s@ =~= chars@.subrange(0, i as int));
    }
    assert(s@ =~= chars@);
    s
}

/// The string made of `chars[start..end]`.
pub fn string_of_range(chars: &Vec<char>, start: usize, end: usize) -> (s: String)
    requires
        start <= end <= chars@.len(),
    ensures
        s@ == chars@.subrange(start as int, end as int),
{
    let mut s = String::new();
    let mut i: usize = start;
    while i < end
        invariant
            start <= i <= end <= chars@.len(),
            s@ == chars@.subrange(start as int, i as int),
        decreases end - i,
    {
        push_char(&mut s, chars[i]);
        i = i + 1;
        assert(s@ =~= chars@.subrange(start as int, i as int));
    }
    s
}

/// Whether `c` is one of the ASCII digits `0`..`9`.
pub open spec fn spec_is_ascii_digit(c: char) -> bool {
    '0' <= c <= '9'
}

/// Whether `c` is one of the ASCII digits `0`..`9`.
pub fn is_ascii_digit(c: char) -> (r: bool)
    ensures
        r == spec_is_ascii_digit(c),
{
    '0' <= c && c <= '9'
}

/// The name for what `char::is_alphanumeric` answers: whether the
/// character has the Unicode `Alphabetic` or `Numeric` property.
pub uninterp spec fn char_alphanumeric(c: char) -> bool;

/// Calls `char::is_alphanumeric`. Its contract only ties the answer to
/// the name `char_alphanumeric`; the Unicode tables behind it are not
/// written out here.
#[verifier::external_body]
pub(crate) fn is_alphanumeric(c: char) -> (r: bool)
    ensures
        r == char_alphanumeric(c),
{
    c.is_alphanumeric()
}

/// The characters of a string.
pub fn chars_of(s: &str) -> (v: Vec<char>)
    ensures
        v@ == s@,
{
    let mut v: Vec<char> = Vec::new();
    for c in it: s.chars()
        invariant
            it.seq() == s@,
            v@ == s@.take(it.index() as int),
    {
        v.push(c);
        assert(v@ =~= s@.take(it.index() as int + 1));
    }
    assert(v@ =~= s@);
    v
}


/// The character of a decimal digit.
pub open spec fn digit_char(d: nat) -> char {
    if d == 0 { '0' } else if d == 1 { '1' } else if d == 2 { '2' } else if d == 3 { '3' }
    else if d == 4 { '4' } else if d == 5 { '5' } else if d == 6 { '6' } else if d == 7 { '7' }
    else if d == 8 { '8' } else { '9' }
}

/// `n` written in decimal.
pub open spec fn decimal(n: nat) -> Seq<char>
    decreases n,
{
    if n < 10 {
        seq![digit_char(n)]
    } else {
        decimal(n / 10).push(digit_char(n % 10))
    }
}

/// Appends `n` written in decimal.
pub fn push_decimal(out: &mut Vec<char>, n: usize)
    ensures
        final(out)@ == old(out)@ + decimal(n as nat),
    decreases n,
{
    if n >= 10 {
        push_decimal(out, n / 10);
    }
    let d = n % 10;
    let c = if d == 0 { '0' } else if d == 1 { '1' } else if d == 2 { '2' } else if d == 3 { '3' }
    else if d == 4 { '4' } else if d == 5 { '5' } else if d == 6 { '6' } else if d == 7 { '7' }
    else if d == 8 { '8' } else { '9' };
    out.push(c);
    proof {
        if n >= 10 {
            assert(old(out)@ + decimal(n as nat) =~= old(out)@ + decimal((n / 10) as nat) + seq![c]);
        } else {
            assert(old(out)@ + decimal(n as nat) =~= old(out)@.push(c));
        }
    }
}

/// Appends the characters of a string.
pub fn push_str(out: &mut Vec<char>, s: &str)
    ensures
        final(out)@ == old(out)@ + s@,
{
    let ghost start = out@;
    for c in it: s.chars()
        invariant
            it.seq() == s@,
            out@ == start + s@.take(it.index() as int),
    {
        out.push(c);
        assert(out@ =~= start + s@.take(it.index() as int + 1));
    }
    assert(s@.take(s@.len() as int) =~= s@);
}

/// The value of a run of decimal digits.
pub open spec fn digits_value(s: Seq<char>) -> nat
    decreases s.len(),
{
    if s.len() == 0 {
        0
    } else {
        digits_value(s.drop_last()) * 10 + ((s.last() as u32) - 48) as nat
    }
}

/// What `str::parse::<usize>` gives: an optional `+`, then one or more
/// decimal digits whose value fits in `usize`.
pub open spec fn parsed_usize(s: Seq<char>) -> Option<nat> {
    let body = strip_plus(s);
    if body.len() > 0 && all_digits(body) && digits_value(body) <= usize::MAX {
        Some(digits_value(body))
    } else {
        None
    }
}

/// The text without a leading `+`.
pub open spec fn strip_plus(s: Seq<char>) -> Seq<char> {
    if s.len() > 0 && s[0] == '+' {
        s.skip(1)
    } else {
        s
    }
}

/// Whether every character is a decimal digit.
pub open spec fn all_digits(s: Seq<char>) -> bool {
    forall|i: int| 0 <= i < s.len() ==> spec_is_ascii_digit(#[trigger] s[i])
}

/// A prefix's value is no more than the whole's.
proof fn lemma_digits_value_prefix(s: Seq<char>, k: int)
    requires
        0 <= k <= s.len(),
        forall|i: int| 0 <= i < s.len() ==> spec_is_ascii_digit(#[trigger] s[i]),
    ensures
        digits_value(s.take(k)) <= digits_value(s),
    decreases s.len() - k,
{
    if k < s.len() {
        lemma_digits_value_prefix(s, k + 1);
        assert(s.take(k + 1).drop_last() =~= s.take(k));
    } else {
        assert(s.take(k) =~= s);
    }
}

/// A text read as `usize`, as `str::parse` reads it.
pub fn parse_usize(s: &[char]) -> (r: Option<usize>)
    ensures
        match parsed_usize(s@) {
            Some(n) => r == Some(n as usize),
            None => r is None,
        },
{
    let n = s.len();
    let start: usize = if n > 0 && s[0] == '+' { 1 } else { 0 };
    let ghost body = if n > 0 && s@[0] == '+' { s@.skip(1) } else { s@ };
    assert(body =~= s@.skip(start as int));
    if start >= n {
        return None;
    }
    let mut value: usize = 0;
    let mut i = start;
    assert(body.take(0) =~= Seq::<char>::empty());
    while i < n
        invariant
            start <= i <= n == s@.len(),
            body == s@.skip(start as int),
            body == strip_plus(s@),
            value == digits_value(body.take(i - start)),
            forall|j: int| 0 <= j < i - start ==> spec_is_ascii_digit(#[trigger] body[j]),
        decreases n - i,
    {
        let c = s[i];
        assert(body[i - start] == c);
        if !is_ascii_digit(c) {
            assert(!spec_is_ascii_digit(body[i - start]));
            assert(!(forall|j: int| 0 <= j < body.len() ==> spec_is_ascii_digit(#[trigger] body[j])));
            assert(!(body.len() > 0 && (forall|j: int| 0 <= j < body.len() ==> spec_is_ascii_digit(#[trigger] body[j]))
                && digits_value(body) <= usize::MAX));
            assert(parsed_usize(s@) is None);
            return None;
        }
        let d = ((c as u32) - 48) as usize;
        assert(digits_value(body.take(i - start + 1)) == value * 10 + d) by {
            assert(body.take(i - start + 1).drop_last() =~= body.take(i - start));
            assert(body.take(i - start + 1).last() == c);
        }
        assert(body.take(i - start + 1).drop_last() =~= body.take(i - start));
        if value > (usize::MAX - d) / 10 {
            proof {
                assert(value * 10 + d > usize::MAX) by (nonlinear_arith)
                    requires value > (usize::MAX - d) / 10, d <= 9;
                if forall|j: int| 0 <= j < body.len() ==> spec_is_ascii_digit(#[trigger] body[j]) {
                    lemma_digits_value_prefix(body, i - start + 1);
                    assert(digits_value(body) > usize::MAX);
                }
                assert(parsed_usize(s@) is None);
            }
            return None;
        }
        assert(value * 10 + d <= usize::MAX) by (nonlinear_arith)
            requires value <= (usize::MAX - d) / 10, d <= 9;
        value = value * 10 + d;
        i = i + 1;
    }
    assert(body.take(n - start) =~= body);
    Some(value)
}
} // verus!
