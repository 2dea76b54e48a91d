//! Amounts of money as the user types them.
//!
//! A text in ASCII is judged here. A text with other characters is left to the `regex` crate,
//! which knows the digits of every script.

use vstd::prelude::*;

use crate::text::{chars_of, is_digit, lemma_run, lemma_run_is, run};

verus! {

/// The form of an amount: digits with commas between them where the user likes, and at most
/// one decimal point followed by digits. No sign, no exponent.
pub const AMOUNT_FORMAT: &'static str = r"^[\d,]+(?:\.\d+)?$";

/// Whether `regex::Regex::new` takes `pattern` and `regex::Regex::is_match` then finds a match
/// in `text`; `None` where the pattern is refused.
pub uninterp spec fn regex_match(pattern: Seq<char>, text: Seq<char>) -> Option<bool>;

/// Calls `regex::Regex::new` and, on the expression it gives, `regex::Regex::is_match`.
#[verifier::external_body]
fn match_pattern(pattern: &str, text: &str) -> (r: Option<bool>)
    ensures
        r == regex_match(pattern@, text@),
{
    match regex::Regex::new(pattern) {
        Ok(expression) => Some(expression.is_match(text)),
        Err(_) => None,
    }
}

/// Whether every character of `s` is an ASCII character.
pub open spec fn is_ascii_text(s: Seq<char>) -> bool {
    forall|i: int| 0 <= i < s.len() ==> (#[trigger] s[i] as u32) < 128
}

/// The ASCII digits and the comma, as a predicate.
pub open spec fn digits_and_commas() -> spec_fn(char) -> bool {
    |c: char| is_digit(c) || c == ','
}

/// The ASCII digits, as a predicate.
pub open spec fn digits() -> spec_fn(char) -> bool {
    |c: char| is_digit(c)
}

/// Whether `s` is at least one ASCII digit or comma, followed by nothing or by a point and
/// at least one ASCII digit.
pub open spec fn is_plain_amount(s: Seq<char>) -> bool {
    let whole = run(s, digits_and_commas());
    whole > 0 && (whole >= s.len() || (s[whole as int] == '.' && whole + 1 < s.len() && run(
        s.skip(whole as int + 1),
        digits(),
    ) == s.len() - whole - 1))
}

/// Whether `text` has the form of an amount.
pub open spec fn is_amount(text: Seq<char>) -> bool {
    if is_ascii_text(text) {
        is_plain_amount(text)
    } else {
        regex_match(AMOUNT_FORMAT@, text) == Some(true)
    }
}

/// Whether every character of `v` is an ASCII character.
fn ascii_only(v: &Vec<char>) -> (r: bool)
    ensures
        r == is_ascii_text(v@),
{
    let mut i: usize = 0;
    while i < v.len()
        invariant
            i <= v.len(),
            forall|k: int| 0 <= k < i ==> (#[trigger] v@[k] as u32) < 128,
        decreases v.len() - i,
    {
        if v[i] as u32 >= 128 {
            return false;
        }
        i += 1;
    }
    true
}

/// Whether `v` is an amount written in ASCII.
fn plain_amount(v: &Vec<char>) -> (r: bool)
    ensures
        r == is_plain_amount(v@),
{
    let mut i: usize = 0;
    while i < v.len() && (('0' <= v[i] && v[i] <= '9') || v[i] == ',')
        invariant
            i <= v.len(),
            forall|k: int| 0 <= k < i ==> digits_and_commas()(#[trigger] v@[k]),
        decreases v.len() - i,
    {
        i += 1;
    }
    proof {
        lemma_run(v@, digits_and_commas(), i as nat);
    }
    if i == 0 {
        return false;
    }
    if i == v.len() {
        return true;
    }
    if v[i] != '.' || i + 1 >= v.len() {
        return false;
    }
    let start = i + 1;
    let mut j: usize = start;
    while j < v.len() && '0' <= v[j] && v[j] <= '9'
        invariant
            start <= j <= v.len(),
            forall|k: int| start <= k < j ==> is_digit(#[trigger] v@[k]),
        decreases v.len() - j,
    {
        j += 1;
    }
    proof {
        let t = v@.skip(start as int);
        assert forall|k: int| 0 <= k < j - start implies digits()(#[trigger] t[k]) by {
            assert(t[k] == v@[start + k]);
        }
        lemma_run(t, digits(), (j - start) as nat);
    }
    j == v.len()
}

/// Whether `text` has the form of an amount.
pub fn amount(text: &str) -> (r: bool)
    ensures
        r == is_amount(text@),
{
    let v = chars_of(text);
    if ascii_only(&v) {
        plain_amount(&v)
    } else {
        match match_pattern(AMOUNT_FORMAT, text) {
            Some(found) => found,
            None => false,
        }
    }
}

/// An amount in ASCII holds nothing but digits, commas and points: no sign, no letter, no
/// other symbol. It starts with a digit or a comma, ends with a digit or a comma, and holds
/// at most one point.
pub proof fn law_plain_amount(s: Seq<char>)
    requires
        is_ascii_text(s),
        is_amount(s),
    ensures
        s.len() > 0,
        forall|i: int| 0 <= i < s.len() ==> is_digit(#[trigger] s[i]) || s[i] == ',' || s[i] == '.',
        is_digit(s[0]) || s[0] == ',',
        is_digit(s.last()) || s.last() == ',',
        forall|i: int, j: int|
            0 <= i < j < s.len() ==> !(#[trigger] s[i] == '.' && #[trigger] s[j] == '.'),
{
    let whole = run(s, digits_and_commas());
    lemma_run_is(s, digits_and_commas());
    assert(digits_and_commas()(s[0]));
    if whole < s.len() {
        let t = s.skip(whole as int + 1);
        lemma_run_is(t, digits());
        assert forall|i: int| whole < i < s.len() implies is_digit(#[trigger] s[i]) by {
            assert(s[i] == t[i - whole - 1]);
            assert(digits()(t[i - whole - 1]));
        }
    }
    assert forall|i: int| 0 <= i < whole implies is_digit(#[trigger] s[i]) || s[i] == ',' by {
        assert(digits_and_commas()(s[i]));
    }
}

} // verus!
