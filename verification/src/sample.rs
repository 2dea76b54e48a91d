//! A sample command with two whole numbers as arguments.

use vstd::prelude::*;
use vstd::string::StringExecFns;

use crate::commands::Args;
use crate::error::{invalid, Failure, HandlerError};
use crate::text::{chars_of, is_digit, split_words, string_of, texts, words};

verus! {

/// Heads the complaint about a wrong number of arguments.
pub const WRONG_COUNT: &'static str = "invalid arguments for test command: ";

/// The complaint about a first argument that is no number.
pub const FIRST_NOT_A_NUMBER: &'static str = "test command invalid first argument: must be a number";

/// The complaint about a second argument that is no number.
pub const SECOND_NOT_A_NUMBER: &'static str =
    "test command invalid second argument: must be a number";

/// The arguments of the sample command.
#[derive(Debug, Clone, Copy, PartialEq, Eq)]
pub struct TestArgs {
    pub x: i32,
    pub y: i32,
}

/// The value of an ASCII digit.
pub open spec fn digit_value(c: char) -> int {
    c as int - '0' as int
}

/// Whether `s` holds ASCII digits only.
pub open spec fn all_digits(s: Seq<char>) -> bool {
    forall|i: int| 0 <= i < s.len() ==> is_digit(#[trigger] s[i])
}

/// The value of a sequence of ASCII digits in base ten.
pub open spec fn digits_value(s: Seq<char>) -> int
    decreases s.len(),
{
    if s.len() == 0 {
        0
    } else {
        digits_value(s.drop_last()) * 10 + digit_value(s.last())
    }
}

/// Whether `s` starts with a sign.
pub open spec fn has_sign(s: Seq<char>) -> bool {
    s.len() > 0 && (s[0] == '-' || s[0] == '+')
}

/// The digits of `s`: what follows its sign, or all of it where it has none.
pub open spec fn digits_of(s: Seq<char>) -> Seq<char> {
    if has_sign(s) {
        s.drop_first()
    } else {
        s
    }
}

/// The number that `s` stands for as an `i32` does: an optional sign and then at least one
/// ASCII digit and nothing else, with a value that an `i32` holds.
pub open spec fn number_of(s: Seq<char>) -> Option<int> {
    let body = digits_of(s);
    let value = if has_sign(s) && s[0] == '-' {
        -digits_value(body)
    } else {
        digits_value(body)
    };
    if body.len() == 0 || !all_digits(body) || value < i32::MIN || value > i32::MAX {
        None
    } else {
        Some(value)
    }
}

/// The value of digits is not negative, and not less than the value of any prefix of them.
pub proof fn lemma_digits_grow(s: Seq<char>, k: int)
    requires
        all_digits(s),
        0 <= k <= s.len(),
    ensures
        0 <= digits_value(s.take(k)) <= digits_value(s),
    decreases s.len() - k,
{
    lemma_digits_not_negative(s.take(k));
    if k < s.len() {
        lemma_digits_grow(s, k + 1);
        assert(s.take(k + 1).drop_last() == s.take(k));
        assert(is_digit(s[k]));
    } else {
        assert(s.take(k) == s);
    }
}

/// The value of digits is not negative.
pub proof fn lemma_digits_not_negative(s: Seq<char>)
    requires
        all_digits(s),
    ensures
        0 <= digits_value(s),
    decreases s.len(),
{
    if s.len() > 0 {
        assert(is_digit(s[s.len() - 1]));
        lemma_digits_not_negative(s.drop_last());
    }
}

/// Reads a number as `i32` does from a string.
pub fn number(v: &Vec<char>) -> (r: Option<i32>)
    ensures
        match r {
            Some(n) => number_of(v@) == Some(n as int),
            None => number_of(v@) is None,
        },
{
    let negative = v.len() > 0 && v[0] == '-';
    let start: usize = if v.len() > 0 && (v[0] == '-' || v[0] == '+') {
        1
    } else {
        0
    };
    if start >= v.len() {
        return None;
    }
    let ghost body = digits_of(v@);
    proof {
        assert(body == v@.skip(start as int));
        assert(body.take(0) =~= Seq::<char>::empty());
    }
    let mut value: i64 = 0;
    let mut i: usize = start;
    while i < v.len()
        invariant
            start <= i <= v.len(),
            body == v@.skip(start as int),
            body == digits_of(v@),
            all_digits(body.take(i - start)),
            value == digits_value(body.take(i - start)),
            0 <= value <= 2147483648,
        decreases v.len() - i,
    {
        let c = v[i];
        proof {
            assert(body[i - start] == c);
            assert(body.take(i - start + 1).drop_last() == body.take(i - start));
        }
        if !('0' <= c && c <= '9') {
            proof {
                assert(!is_digit(body[i - start]));
            }
            return None;
        }
        let digit: i64 = (c as u32 - '0' as u32) as i64;
        value = value * 10 + digit;
        proof {
            assert(all_digits(body.take(i - start + 1))) by {
                assert forall|k: int| 0 <= k < i - start + 1 implies is_digit(
                    #[trigger] body.take(i - start + 1)[k],
                ) by {
                    if k < i - start {
                        assert(body.take(i - start)[k] == body[k]);
                    }
                }
            }
        }
        if value > 2147483648 {
            proof {
                if all_digits(body) {
                    lemma_digits_grow(body, i - start + 1);
                }
            }
            return None;
        }
        i += 1;
    }
    proof {
        assert(body.take(i - start) == body);
    }
    if negative {
        Some((-value) as i32)
    } else if value > 2147483647 {
        None
    } else {
        Some(value as i32)
    }
}

/// How a list of words is shown in a complaint: as `std` formats a list of strings for
/// debugging.
pub uninterp spec fn debug_text(list: Seq<Seq<char>>) -> Seq<char>;

/// Formats a list of strings with `{:?}`.
#[verifier::external_body]
fn debug_list(list: &Vec<String>) -> (r: String)
    ensures
        r@ == debug_text(Seq::new(list@.len(), |i: int| list@[i]@)),
{
    format!("{:?}", list)
}

/// The arguments that `raw` holds, or the complaint about the first thing wrong with it:
/// other than two words, a first word that is no number, a second word that is none.
pub open spec fn sample_outcome(raw: Seq<char>) -> Result<TestArgs, Failure> {
    let parts = words(raw);
    if parts.len() != 2 {
        Err(Failure::InvalidArguments(WRONG_COUNT@ + debug_text(parts)))
    } else {
        match number_of(parts[0]) {
            None => Err(Failure::InvalidArguments(FIRST_NOT_A_NUMBER@)),
            Some(x) => match number_of(parts[1]) {
                None => Err(Failure::InvalidArguments(SECOND_NOT_A_NUMBER@)),
                Some(y) => Ok(TestArgs { x: x as i32, y: y as i32 }),
            },
        }
    }
}

impl TestArgs {
    /// Reads the two numbers of the sample command.
    pub fn try_from(value: Args) -> (r: Result<TestArgs, HandlerError>)
        ensures
            match r {
                Ok(a) => sample_outcome(value.0@) == Ok::<TestArgs, Failure>(a),
                Err(e) => sample_outcome(value.0@) == Err::<TestArgs, Failure>(e@),
            },
    {
        let parts = split_words(&chars_of(value.0.as_str()));
        if parts.len() != 2 {
            let mut list: Vec<String> = Vec::new();
            let mut i: usize = 0;
            while i < parts.len()
                invariant
                    i <= parts.len(),
                    list@.len() == i,
                    forall|k: int| 0 <= k < i ==> (#[trigger] list@[k])@ == parts@[k]@,
                decreases parts.len() - i,
            {
                list.push(string_of(&parts[i]));
                i += 1;
            }
            proof {
                assert(Seq::new(list@.len(), |i: int| list@[i]@) =~= texts(parts@));
            }
            let message = String::from_str(WRONG_COUNT).concat(debug_list(&list).as_str());
            return Err(HandlerError::InvalidArguments(message));
        }
        assert(texts(parts@)[0] == parts@[0]@);
        assert(texts(parts@)[1] == parts@[1]@);
        match number(&parts[0]) {
            None => Err(invalid(FIRST_NOT_A_NUMBER)),
            Some(x) => match number(&parts[1]) {
                None => Err(invalid(SECOND_NOT_A_NUMBER)),
                Some(y) => Ok(TestArgs { x, y }),
            },
        }
    }
}

} // verus!
