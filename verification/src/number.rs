//! The numeric literals of the language: what reads as an integer or as a
//! floating-point number in decimal notation.

use crate::text::{is_keyword, keyword_matches};
use vstd::prelude::*;
use vstd::string::*;

verus! {

/// A decimal digit.
pub open spec fn is_digit(c: char) -> bool {
    0x30 <= c as u32 <= 0x39
}

/// Length of the leading run of decimal digits.
pub open spec fn digits_len(s: Seq<char>) -> nat
    decreases s.len(),
{
    if s.len() == 0 || !is_digit(s[0]) {
        0
    } else {
        1 + digits_len(s.drop_first())
    }
}

/// One digit or more, and nothing else.
pub open spec fn all_digits(s: Seq<char>) -> bool {
    s.len() > 0 && digits_len(s) == s.len()
}

/// The text begins with `+` or `-`.
pub open spec fn has_sign(s: Seq<char>) -> bool {
    s.len() > 0 && (s[0] == '+' || s[0] == '-')
}

/// `s` without a leading `+` or `-`.
pub open spec fn strip_sign(s: Seq<char>) -> Seq<char> {
    if has_sign(s) {
        s.drop_first()
    } else {
        s
    }
}

/// `e` or `E`, an optional sign, then digits.
pub open spec fn is_exponent(s: Seq<char>) -> bool {
    &&& s.len() > 0
    &&& (s[0] == 'e' || s[0] == 'E')
    &&& all_digits(strip_sign(s.drop_first()))
}

/// Digits with at most one `.` among them and at least one digit in all,
/// then an optional exponent.
pub open spec fn is_decimal(s: Seq<char>) -> bool {
    let whole = digits_len(s);
    let after_whole = s.skip(whole as int);
    if after_whole.len() > 0 && after_whole[0] == '.' {
        let fraction = after_whole.drop_first();
        let part = digits_len(fraction);
        let after_fraction = fraction.skip(part as int);
        whole + part >= 1 && (after_fraction.len() == 0 || is_exponent(after_fraction))
    } else {
        whole >= 1 && (after_whole.len() == 0 || is_exponent(after_whole))
    }
}

/// `inf`, `infinity` or `nan`, in any mix of ASCII case.
pub open spec fn is_special_number(s: Seq<char>) -> bool {
    is_keyword(s, "inf"@) || is_keyword(s, "infinity"@) || is_keyword(s, "nan"@)
}

/// What parses as a number: an optional sign, then a decimal number or one of
/// the special values. Every integer in decimal notation is among them.
pub open spec fn is_number(s: Seq<char>) -> bool {
    is_special_number(strip_sign(s)) || is_decimal(strip_sign(s))
}

/// Delimited by double quotes. A lone `"` counts.
pub open spec fn is_quoted(s: Seq<char>) -> bool {
    s.len() > 0 && s[0] == '"' && s.last() == '"'
}

/// What an expression takes for a literal rather than for a variable.
pub open spec fn is_literal(s: Seq<char>) -> bool {
    is_quoted(s) || is_number(s)
}

/// The leading run of digits is no longer than the text.
pub proof fn lemma_digits_len(s: Seq<char>)
    ensures
        digits_len(s) <= s.len(),
    decreases s.len(),
{
    if s.len() == 0 || !is_digit(s[0]) {
    } else {
        lemma_digits_len(s.drop_first());
    }
}

/// Where `n` digits are followed by a character that is none, or by nothing,
/// the leading run of digits has length `n`.
pub proof fn lemma_digits_len_is(s: Seq<char>, n: nat)
    requires
        n <= s.len(),
        forall|i: int| 0 <= i < n ==> is_digit(#[trigger] s[i]),
        n < s.len() ==> !is_digit(s[n as int]),
    ensures
        digits_len(s) == n,
    decreases n,
{
    if n == 0 {
    } else {
        let r = s.drop_first();
        assert(is_digit(s[0]));
        assert forall|i: int| 0 <= i < n - 1 implies is_digit(#[trigger] r[i]) by {
            assert(r[i] == s[i + 1]);
        }
        if n - 1 < r.len() {
            assert(r[n - 1] == s[n as int]);
        }
        lemma_digits_len_is(r, (n - 1) as nat);
    }
}

fn char_is_digit(c: char) -> (b: bool)
    ensures
        b == is_digit(c),
{
    let n: u32 = c as u32;
    0x30 <= n && n <= 0x39
}

/// Where the run of digits that starts at `from` ends.
fn skip_digits(t: &str, from: usize, n: usize) -> (end: usize)
    requires
        from <= n,
        n == t@.len(),
    ensures
        from <= end <= n,
        end - from == digits_len(t@.skip(from as int)),
{
    let mut i: usize = from;
    while i < n && char_is_digit(t.get_char(i))
        invariant
            from <= i <= n,
            n == t@.len(),
            forall|k: int| from <= k < i ==> is_digit(#[trigger] t@[k]),
        decreases n - i,
    {
        i += 1;
    }
    proof {
        let tail = t@.skip(from as int);
        assert forall|k: int| 0 <= k < i - from implies is_digit(#[trigger] tail[k]) by {
            assert(tail[k] == t@[from + k]);
        }
        if i - from < tail.len() {
            assert(tail[i - from] == t@[i as int]);
        }
        lemma_digits_len_is(tail, (i - from) as nat);
    }
    i
}

/// Tells whether the characters from `from` on are an exponent.
fn exponent_at(t: &str, from: usize, n: usize) -> (b: bool)
    requires
        from < n,
        n == t@.len(),
    ensures
        b == is_exponent(t@.skip(from as int)),
{
    let ghost tail = t@.skip(from as int);
    let c = t.get_char(from);
    assert(tail[0] == c);
    if !(c == 'e' || c == 'E') {
        return false;
    }
    let ghost after = tail.drop_first();
    assert(after =~= t@.skip(from + 1));
    let mut at: usize = from + 1;
    if at < n {
        let s = t.get_char(at);
        assert(after[0] == s);
        if s == '+' || s == '-' {
            at += 1;
            assert(strip_sign(after) =~= t@.skip(at as int));
        }
    }
    assert(strip_sign(after) == t@.skip(at as int));
    let end = skip_digits(t, at, n);
    at < n && end == n
}

/// Tells whether the characters from `from` on are a decimal number.
fn decimal_at(t: &str, from: usize, n: usize) -> (b: bool)
    requires
        from <= n,
        n == t@.len(),
    ensures
        b == is_decimal(t@.skip(from as int)),
{
    let ghost s = t@.skip(from as int);
    let whole_end = skip_digits(t, from, n);
    let ghost after_whole = s.skip(whole_end - from);
    assert(after_whole =~= t@.skip(whole_end as int));
    if whole_end < n && t.get_char(whole_end) == '.' {
        assert(after_whole[0] == '.');
        let ghost fraction = after_whole.drop_first();
        assert(fraction =~= t@.skip(whole_end + 1));
        let fraction_end = skip_digits(t, whole_end + 1, n);
        assert(fraction.skip(fraction_end - (whole_end + 1)) =~= t@.skip(fraction_end as int));
        if (whole_end - from) + (fraction_end - (whole_end + 1)) < 1 {
            return false;
        }
        if fraction_end == n {
            return true;
        }
        exponent_at(t, fraction_end, n)
    } else {
        if whole_end < n {
            assert(after_whole[0] == t@[whole_end as int]);
        }
        if whole_end == from {
            return false;
        }
        if whole_end == n {
            return true;
        }
        exponent_at(t, whole_end, n)
    }
}

/// Tells whether `token` reads as a number, integer or floating-point.
pub fn is_number_token(token: &str) -> (b: bool)
    ensures
        b == is_number(token@),
{
    let n = token.unicode_len();
    let mut from: usize = 0;
    if n > 0 {
        let c = token.get_char(0);
        if c == '+' || c == '-' {
            from = 1;
        }
    }
    let body = token.substring_char(from, n);
    assert(body@ =~= strip_sign(token@));
    assert(token@.skip(from as int) =~= strip_sign(token@));
    if keyword_matches(body, "inf") || keyword_matches(body, "infinity") || keyword_matches(
        body,
        "nan",
    ) {
        return true;
    }
    decimal_at(token, from, n)
}

/// Tells whether `token` is delimited by double quotes.
pub fn is_quoted_token(token: &str) -> (b: bool)
    ensures
        b == is_quoted(token@),
{
    let n = token.unicode_len();
    n > 0 && token.get_char(0) == '"' && token.get_char(n - 1) == '"'
}

/// Tells whether `token` is a literal: quoted, or a number.
pub fn is_literal_token(token: &str) -> (b: bool)
    ensures
        b == is_literal(token@),
{
    is_quoted_token(token) || is_number_token(token)
}

} // verus!
