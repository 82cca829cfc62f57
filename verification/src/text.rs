//! Character classification, token runs and numeric literals.
//!
//! The assembler reads its source as a sequence of characters.  The three
//! lexical shapes of the language are runs of whitespace, runs of letters
//! (identifiers) and runs of letters and digits (instruction arguments).
//! `run_len` is the specification of a maximal run; the executable readers
//! are proved against it.

use vstd::prelude::*;

verus! {

/// The three character classes the grammar distinguishes.
#[derive(Clone, Copy, Debug)]
pub enum CharClass {
    /// Space, tab or newline: separates tokens.
    Whitespace,
    /// An ASCII letter: the body of an identifier.
    Letter,
    /// An ASCII letter or digit: the body of an instruction argument.
    LetterOrDigit,
}

pub open spec fn spec_is_whitespace(c: char) -> bool {
    c == ' ' || c == '\t' || c == '\n'
}

pub open spec fn spec_is_letter(c: char) -> bool {
    (('a' as u32) <= (c as u32) && (c as u32) <= ('z' as u32)) || (('A' as u32) <= (c as u32)
        && (c as u32) <= ('Z' as u32))
}

pub open spec fn spec_is_digit(c: char) -> bool {
    ('0' as u32) <= (c as u32) && (c as u32) <= ('9' as u32)
}

pub open spec fn char_in_class(class: CharClass, c: char) -> bool {
    match class {
        CharClass::Whitespace => spec_is_whitespace(c),
        CharClass::Letter => spec_is_letter(c),
        CharClass::LetterOrDigit => spec_is_letter(c) || spec_is_digit(c),
    }
}

/// Whitespace is space, tab or newline; newlines carry no special meaning.
pub fn is_whitespace(c: char) -> (b: bool)
    ensures
        b == spec_is_whitespace(c),
{
    c == ' ' || c == '\t' || c == '\n'
}

/// Identifiers consist of ASCII letters only.
pub fn is_letter(c: char) -> (b: bool)
    ensures
        b == spec_is_letter(c),
{
    ((c as u32) >= ('a' as u32) && (c as u32) <= ('z' as u32)) || ((c as u32) >= ('A' as u32) && (c
        as u32) <= ('Z' as u32))
}

/// Numeric literals consist of ASCII digits only.
pub fn is_digit(c: char) -> (b: bool)
    ensures
        b == spec_is_digit(c),
{
    (c as u32) >= ('0' as u32) && (c as u32) <= ('9' as u32)
}

pub fn class_matches(class: CharClass, c: char) -> (b: bool)
    ensures
        b == char_in_class(class, c),
{
    match class {
        CharClass::Whitespace => is_whitespace(c),
        CharClass::Letter => is_letter(c),
        CharClass::LetterOrDigit => {
            let l = is_letter(c);
            let d = is_digit(c);
            l || d
        },
    }
}

/// The length of the maximal run of characters of `class` in `s` starting at `pos`.
pub open spec fn run_len(s: Seq<char>, pos: int, class: CharClass) -> nat
    decreases s.len() - pos,
{
    if 0 <= pos && pos < s.len() && char_in_class(class, s[pos]) {
        (1 + run_len(s, pos + 1, class)) as nat
    } else {
        0
    }
}

/// Equality of two string slices, by characters.
pub fn str_eq(a: &str, b: &str) -> (r: bool)
    ensures
        r == (a@ == b@),
{
    let la = a.unicode_len();
    let lb = b.unicode_len();
    if la != lb {
        return false;
    }
    let mut i: usize = 0;
    while i < la
        invariant
            la == a@.len(),
            la == b@.len(),
            i <= la,
            forall|j: int| 0 <= j < i ==> a@[j] == b@[j],
        decreases la - i,
    {
        let ca = a.get_char(i);
        let cb = b.get_char(i);
        if ca != cb {
            return false;
        }
        i = i + 1;
    }
    proof {
        assert(a@ =~= b@);
    }
    true
}

pub open spec fn spec_digit_val(c: char) -> int {
    c as u32 - '0' as u32
}

pub open spec fn spec_all_digits(t: Seq<char>) -> bool {
    forall|i: int| 0 <= i < t.len() ==> spec_is_digit(#[trigger] t[i])
}

/// The value of a sequence of decimal digits, most significant first.
pub open spec fn spec_digits_value(t: Seq<char>) -> int
    decreases t.len(),
{
    if t.len() == 0 {
        0
    } else {
        spec_digits_value(t.drop_last()) * 10 + spec_digit_val(t.last())
    }
}

pub proof fn lemma_digits_value_nonneg(t: Seq<char>)
    requires
        spec_all_digits(t),
    ensures
        spec_digits_value(t) >= 0,
    decreases t.len(),
{
    if t.len() > 0 {
        assert(spec_all_digits(t.drop_last()));
        lemma_digits_value_nonneg(t.drop_last());
    }
}

/// Extending a digit string never decreases its value.
pub proof fn lemma_digits_value_prefix(t: Seq<char>, i: int)
    requires
        spec_all_digits(t),
        0 <= i <= t.len(),
    ensures
        spec_digits_value(t.take(i)) <= spec_digits_value(t),
    decreases t.len() - i,
{
    if i < t.len() {
        lemma_digits_value_prefix(t, i + 1);
        assert(t.take(i + 1).drop_last() =~= t.take(i));
        assert(t.take(i + 1).last() == t[i]);
        assert(spec_all_digits(t.take(i)));
        lemma_digits_value_nonneg(t.take(i));
    } else {
        assert(t.take(i) =~= t);
    }
}

/// Parsing of a decimal literal: defined exactly when the text is a non-empty
/// run of digits whose value does not exceed `max`.
pub open spec fn spec_parse_num(t: Seq<char>, max: int) -> Option<int> {
    if t.len() > 0 && spec_all_digits(t) && spec_digits_value(t) <= max {
        Some(spec_digits_value(t))
    } else {
        None
    }
}

/// Reads a decimal literal of value at most `max`.
pub fn parse_digits(s: &str, max: u32) -> (r: Option<u32>)
    requires
        max <= 0xFFFF,
    ensures
        match r {
            Some(v) => spec_parse_num(s@, max as int) == Some(v as int),
            None => spec_parse_num(s@, max as int) is None,
        },
{
    let n = s.unicode_len();
    if n == 0 {
        return None;
    }
    let mut acc: u32 = 0;
    let mut i: usize = 0;
    while i < n
        invariant
            n == s@.len(),
            i <= n,
            max <= 0xFFFF,
            acc <= max,
            spec_all_digits(s@.take(i as int)),
            acc as int == spec_digits_value(s@.take(i as int)),
        decreases n - i,
    {
        let c = s.get_char(i);
        if !is_digit(c) {
            assert(!spec_all_digits(s@));
            return None;
        }
        let d: u32 = c as u32 - 48;
        assert(d == spec_digit_val(c)) by {
            assert('0' as u32 == 48);
        }
        acc = acc * 10 + d;
        i = i + 1;
        proof {
            assert(s@.take(i as int).drop_last() =~= s@.take(i - 1));
            assert(s@.take(i as int).last() == s@[i - 1]);
        }
        if acc > max {
            proof {
                if spec_all_digits(s@) {
                    lemma_digits_value_prefix(s@, i as int);
                }
            }
            return None;
        }
    }
    proof {
        assert(s@.take(n as int) =~= s@);
    }
    Some(acc)
}

} // verus!
