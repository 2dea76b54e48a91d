//! Currency codes: three ASCII letters, kept in upper case.

use vstd::prelude::*;

use crate::text::{is_letter, letter, upper_text};

verus! {

/// Whether `s` is a currency code in any mix of cases: exactly three ASCII letters.
pub open spec fn is_code(s: Seq<char>) -> bool {
    s.len() == 3 && is_letter(s[0]) && is_letter(s[1]) && is_letter(s[2])
}

/// Whether `s` is a currency code as the library keeps it: three ASCII letters in upper case.
pub open spec fn is_kept_code(s: Seq<char>) -> bool {
    is_code(s) && upper_text(s) == s
}

/// Whether `v` is a currency code in any mix of cases.
pub fn code(v: &Vec<char>) -> (r: bool)
    ensures
        r == is_code(v@),
{
    v.len() == 3 && letter(v[0]) && letter(v[1]) && letter(v[2])
}

/// A code in upper case is a code that is kept as it is.
pub proof fn lemma_upper_code(s: Seq<char>)
    requires
        is_code(s),
    ensures
        is_kept_code(upper_text(s)),
{
    let u = upper_text(s);
    assert(upper_text(u) =~= u);
}

} // verus!
