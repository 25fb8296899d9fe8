//! Small operations on text, stated over sequences of characters.

use vstd::prelude::*;

verus! {

/// `pattern` stands in `text` at position `at`.
pub open spec fn occurs_at(text: Seq<char>, pattern: Seq<char>, at: int) -> bool {
    &&& 0 <= at
    &&& at + pattern.len() <= text.len()
    &&& text.subrange(at, at + pattern.len()) == pattern
}

/// `text` begins with `pattern`.
pub open spec fn has_prefix(text: Seq<char>, pattern: Seq<char>) -> bool {
    occurs_at(text, pattern, 0)
}

/// `pattern` stands somewhere in `text`.
pub open spec fn has_infix(text: Seq<char>, pattern: Seq<char>) -> bool {
    exists|at: int| occurs_at(text, pattern, at)
}

/// Compares the characters of `pattern` with those of `text` from `at` on.
/// `text_len` and `pattern_len` are the lengths of the two, in characters.
fn matches_at(text: &str, text_len: usize, pattern: &str, pattern_len: usize, at: usize) -> (found:
    bool)
    requires
        text_len == text@.len(),
        pattern_len == pattern@.len(),
        at + pattern_len <= text_len,
    ensures
        found == occurs_at(text@, pattern@, at as int),
{
    let mut k: usize = 0;
    while k < pattern_len
        invariant
            text_len == text@.len(),
            pattern_len == pattern@.len(),
            at + pattern_len <= text_len,
            k <= pattern_len,
            forall|j: int| 0 <= j < k ==> text@[at + j] == pattern@[j],
        decreases pattern_len - k,
    {
        if text.get_char(at + k) != pattern.get_char(k) {
            assert(text@.subrange(at as int, at + pattern_len)[k as int] != pattern@[k as int]);
            return false;
        }
        k = k + 1;
    }
    assert(text@.subrange(at as int, at + pattern_len) =~= pattern@);
    true
}

/// Whether `text` begins with `pattern`.
pub fn starts_with(text: &str, pattern: &str) -> (found: bool)
    ensures
        found == has_prefix(text@, pattern@),
{
    let text_len: usize = text.unicode_len();
    let pattern_len: usize = pattern.unicode_len();
    if pattern_len > text_len {
        return false;
    }
    matches_at(text, text_len, pattern, pattern_len, 0)
}

/// Whether `pattern` stands somewhere in `text`.
pub fn contains(text: &str, pattern: &str) -> (found: bool)
    ensures
        found == has_infix(text@, pattern@),
{
    let text_len: usize = text.unicode_len();
    let pattern_len: usize = pattern.unicode_len();
    if pattern_len > text_len {
        return false;
    }
    let last: usize = text_len - pattern_len;
    let mut at: usize = 0;
    loop
        invariant
            text_len == text@.len(),
            pattern_len == pattern@.len(),
            last == text_len - pattern_len,
            at <= last,
            forall|j: int| 0 <= j < at ==> !occurs_at(text@, pattern@, j),
        decreases last - at,
    {
        if matches_at(text, text_len, pattern, pattern_len, at) {
            return true;
        }
        if at == last {
            return false;
        }
        at = at + 1;
    }
}

/// Whether two texts hold the same characters.
pub fn same_text(a: &str, b: &str) -> (same: bool)
    ensures
        same == (a@ == b@),
{
    let a_len: usize = a.unicode_len();
    let b_len: usize = b.unicode_len();
    if a_len != b_len {
        return false;
    }
    let same = matches_at(a, a_len, b, b_len, 0);
    assert(a@.subrange(0, a_len as int) =~= a@);
    same
}

/// The digit that stands for `d` in decimal notation.
pub open spec fn digit_char(d: nat) -> char {
    if d == 0 {
        '0'
    } else if d == 1 {
        '1'
    } else if d == 2 {
        '2'
    } else if d == 3 {
        '3'
    } else if d == 4 {
        '4'
    } else if d == 5 {
        '5'
    } else if d == 6 {
        '6'
    } else if d == 7 {
        '7'
    } else if d == 8 {
        '8'
    } else {
        '9'
    }
}

/// The decimal notation of `n`, without leading zeros.
pub open spec fn decimal(n: nat) -> Seq<char>
    decreases n,
{
    if n < 10 {
        seq![digit_char(n)]
    } else {
        decimal(n / 10).push(digit_char(n % 10))
    }
}

/// The one-character text of a decimal digit.
fn digit_text(d: usize) -> (text: &'static str)
    requires
        d < 10,
    ensures
        text@ == seq![digit_char(d as nat)],
{
    proof {
        reveal_strlit("0");
        reveal_strlit("1");
        reveal_strlit("2");
        reveal_strlit("3");
        reveal_strlit("4");
        reveal_strlit("5");
        reveal_strlit("6");
        reveal_strlit("7");
        reveal_strlit("8");
        reveal_strlit("9");
    }
    let text = if d == 0 {
        "0"
    } else if d == 1 {
        "1"
    } else if d == 2 {
        "2"
    } else if d == 3 {
        "3"
    } else if d == 4 {
        "4"
    } else if d == 5 {
        "5"
    } else if d == 6 {
        "6"
    } else if d == 7 {
        "7"
    } else if d == 8 {
        "8"
    } else {
        "9"
    };
    assert(text@ =~= seq![digit_char(d as nat)]);
    text
}

/// Writes `n` in decimal notation.
pub fn to_decimal(n: usize) -> (text: String)
    ensures
        text@ == decimal(n as nat),
    decreases n,
{
    if n < 10 {
        String::from_str(digit_text(n))
    } else {
        let mut text = to_decimal(n / 10);
        text.append(digit_text(n % 10));
        text
    }
}

} // verus!
