//! Conversions between strings and character sequences, and the small
//! sequence predicates the rest of the crate states its contracts with.

use vstd::prelude::*;

verus! {

/// `String::push` appends exactly one character to the end of the string.
pub assume_specification[ String::push ](s: &mut String, c: char)
    ensures
        final(s)@ == old(s)@.push(c),
;

/// The texts of a sequence of strings.
pub open spec fn texts(strings: Seq<String>) -> Seq<Seq<char>> {
    strings.map_values(|s: String| s@)
}

/// The characters of `s`, in order.
pub fn chars_of(s: &str) -> (out: Vec<char>)
    ensures
        out@ == s@,
{
    let mut out: Vec<char> = Vec::new();
    for c in iter: s.chars()
        invariant
            iter.seq() == s@,
            out@ == iter.seq().take(iter.index() as int),
    {
        out.push(c);
    }
    out
}

/// The string made of the characters `chars`, in order.
pub fn string_of(chars: &[char]) -> (out: String)
    ensures
        out@ == chars@,
{
    let mut out = String::new();
    let mut i: usize = 0;
    while i < chars.len()
        invariant
            i <= chars.len(),
            out@ == chars@.take(i as int),
        decreases chars.len() - i,
    {
        out.push(chars[i]);
        i += 1;
    }
    out
}

/// Appends the characters of `src` to `out`.
pub fn append_chars(out: &mut Vec<char>, src: &[char])
    ensures
        final(out)@ == old(out)@ + src@,
{
    let mut i: usize = 0;
    while i < src.len()
        invariant
            i <= src.len(),
            out@ == old(out)@ + src@.take(i as int),
        decreases src.len() - i,
    {
        out.push(src[i]);
        i += 1;
    }
}

/// `pattern` occurs in `text` starting at position `pos`.
pub open spec fn occurs_at(text: Seq<char>, pos: int, pattern: Seq<char>) -> bool {
    &&& 0 <= pos
    &&& pos + pattern.len() <= text.len()
    &&& text.subrange(pos, pos + pattern.len()) == pattern
}

/// Whether `pattern` occurs in `text` starting at position `pos`.
pub fn matches_at(text: &[char], pos: usize, pattern: &[char]) -> (out: bool)
    ensures
        out == occurs_at(text@, pos as int, pattern@),
{
    if pos > text.len() || pattern.len() > text.len() - pos {
        return false;
    }
    let mut i: usize = 0;
    while i < pattern.len()
        invariant
            i <= pattern.len(),
            pos + pattern.len() <= text.len(),
            forall|j: int| 0 <= j < i ==> text@[pos + j] == pattern@[j],
        decreases pattern.len() - i,
    {
        if text[pos + i] != pattern[i] {
            proof {
                let window = text@.subrange(pos as int, pos + pattern.len());
                assert(window[i as int] == text@[pos + i]);
            }
            return false;
        }
        i += 1;
    }
    assert(text@.subrange(pos as int, pos + pattern.len()) =~= pattern@);
    true
}

/// `pattern` occurs somewhere in `text`.
pub open spec fn occurs(text: Seq<char>, pattern: Seq<char>) -> bool {
    exists|pos: int| occurs_at(text, pos, pattern)
}

/// Whether `pattern` occurs somewhere in `text`.
pub fn occurs_in(text: &[char], pattern: &[char]) -> (out: bool)
    ensures
        out == occurs(text@, pattern@),
{
    let mut pos: usize = 0;
    while pos < text.len()
        invariant
            pos <= text.len(),
            forall|p: int| 0 <= p < pos ==> !occurs_at(text@, p, pattern@),
        decreases text.len() - pos,
    {
        if matches_at(text, pos, pattern) {
            return true;
        }
        pos += 1;
    }
    matches_at(text, pos, pattern)
}

/// The character of the decimal digit `d`.
pub open spec fn digit_char(d: int) -> char {
    if d == 0 {
        '0'
    } else if d == 1 {
        '1'
    } else if d == 2 {
        '2'
    } else if d == 3 {
        '3'
    } else if d == 4 {
        '4'
    } else if d == 5 {
        '5'
    } else if d == 6 {
        '6'
    } else if d == 7 {
        '7'
    } else if d == 8 {
        '8'
    } else {
        '9'
    }
}

/// The decimal numeral of `n`, without leading zeros.
pub open spec fn decimal_text(n: nat) -> Seq<char>
    decreases n,
{
    if n < 10 {
        seq![digit_char(n as int)]
    } else {
        decimal_text(n / 10).push(digit_char((n % 10) as int))
    }
}

/// Different numbers have different numerals.
pub proof fn lemma_decimal_injective(a: nat, b: nat)
    requires
        decimal_text(a) == decimal_text(b),
    ensures
        a == b,
    decreases a,
{
    if a < 10 {
        if b >= 10 {
            assert(decimal_text(b).len() == decimal_text(b / 10).len() + 1);
            assert(decimal_text(b / 10).len() >= 1) by {
                lemma_decimal_not_empty(b / 10);
            }
        } else {
            assert(decimal_text(a)[0] == digit_char(a as int));
            assert(decimal_text(b)[0] == digit_char(b as int));
        }
    } else {
        if b < 10 {
            assert(decimal_text(a).len() == decimal_text(a / 10).len() + 1);
            assert(decimal_text(a / 10).len() >= 1) by {
                lemma_decimal_not_empty(a / 10);
            }
        } else {
            let x = decimal_text(a / 10);
            let y = decimal_text(b / 10);
            assert(x.push(digit_char((a % 10) as int)).drop_last() =~= x);
            assert(y.push(digit_char((b % 10) as int)).drop_last() =~= y);
            assert(x.push(digit_char((a % 10) as int)).last() == digit_char((a % 10) as int));
            assert(y.push(digit_char((b % 10) as int)).last() == digit_char((b % 10) as int));
            assert(x == y);
            assert(digit_char((a % 10) as int) == digit_char((b % 10) as int));
            lemma_decimal_injective(a / 10, b / 10);
            assert(a % 10 == b % 10);
            assert(a == 10 * (a / 10) + a % 10);
            assert(b == 10 * (b / 10) + b % 10);
        }
    }
}

/// A numeral has at least one digit.
pub proof fn lemma_decimal_not_empty(n: nat)
    ensures
        decimal_text(n).len() >= 1,
    decreases n,
{
    if n >= 10 {
        lemma_decimal_not_empty(n / 10);
    }
}

/// The character of the digit `d`.
fn digit(d: usize) -> (out: char)
    requires
        d < 10,
    ensures
        out == digit_char(d as int),
{
    if d == 0 {
        '0'
    } else if d == 1 {
        '1'
    } else if d == 2 {
        '2'
    } else if d == 3 {
        '3'
    } else if d == 4 {
        '4'
    } else if d == 5 {
        '5'
    } else if d == 6 {
        '6'
    } else if d == 7 {
        '7'
    } else if d == 8 {
        '8'
    } else {
        '9'
    }
}

/// Appends the decimal numeral of `n` to `out`.
fn push_decimal(out: &mut String, n: usize)
    ensures
        final(out)@ == old(out)@ + decimal_text(n as nat),
    decreases n,
{
    if n >= 10 {
        push_decimal(out, n / 10);
    }
    out.push(digit(n % 10));
    assert(out@ =~= old(out)@ + decimal_text(n as nat));
}

/// The decimal numeral of `n`.
pub fn decimal(n: usize) -> (out: String)
    ensures
        out@ == decimal_text(n as nat),
{
    let mut out = String::new();
    push_decimal(&mut out, n);
    assert(out@ =~= decimal_text(n as nat));
    out
}

} // verus!
