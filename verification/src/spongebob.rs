//! The mocking case: letters alternately in lower and upper case.

use vstd::prelude::*;

use crate::commands::Args;
use crate::error::{invalid, Failure, HandlerError};
use crate::text::{chars_of, is_letter, letter, lower, lower_of, trim, trimmed, upper, upper_of};

verus! {

/// The complaint about a command with nothing to mock.
pub const NOTHING_TO_MOCK: &'static str = "Provide text or reply to a message";

/// The number of ASCII letters in `s`.
pub open spec fn letters_in(s: Seq<char>) -> nat
    decreases s.len(),
{
    if s.len() == 0 {
        0
    } else if is_letter(s.last()) {
        letters_in(s.drop_last()) + 1
    } else {
        letters_in(s.drop_last())
    }
}

/// The character at `i` in the mocking case of `s`: an ASCII letter in lower case after an
/// even number of letters and in upper case after an odd number, any other character as it is.
pub open spec fn mocked(s: Seq<char>, i: int) -> char {
    if !is_letter(s[i]) {
        s[i]
    } else if letters_in(s.take(i)) % 2 == 0 {
        lower_of(s[i])
    } else {
        upper_of(s[i])
    }
}

/// `s` in the mocking case.
pub open spec fn spongebob_text(s: Seq<char>) -> Seq<char> {
    Seq::new(s.len(), |i: int| mocked(s, i))
}

/// Writes `s` in the mocking case: its ASCII letters alternately in lower and upper case,
/// the first one in lower case, every other character as it is.
pub fn to_spongebob(s: &str) -> (out: String)
    ensures
        out@ == spongebob_text(s@),
{
    let v = chars_of(s);
    let mut out = String::new();
    let mut upper_next = false;
    let mut i: usize = 0;
    proof {
        assert(v@.take(0) =~= Seq::<char>::empty());
    }
    while i < v.len()
        invariant
            i <= v.len(),
            v@ == s@,
            out@ == spongebob_text(v@).take(i as int),
            upper_next == (letters_in(v@.take(i as int)) % 2 == 1),
        decreases v.len() - i,
    {
        let c = v[i];
        proof {
            assert(v@.take(i + 1).drop_last() == v@.take(i as int));
            assert(v@.take(i + 1).last() == c);
        }
        if letter(c) {
            if upper_next {
                out.push(upper(c));
            } else {
                out.push(lower(c));
            }
            upper_next = !upper_next;
        } else {
            out.push(c);
        }
        proof {
            assert(out@ =~= spongebob_text(v@).take(i + 1));
        }
        i += 1;
    }
    out
}

/// The message that a command replies to, as far as the mocking command looks at it.
#[derive(Debug)]
pub struct Replied {
    /// The number of the message.
    pub id: i32,
    pub text: Option<String>,
    pub caption: Option<String>,
}

/// The text to mock and the number of the message to answer: the text of the message
/// replied to, else its caption; without such a message the arguments, where they hold more
/// than white space, and the command's own message.
pub open spec fn mock_source(reply: Option<Replied>, args: Seq<char>, message: i32) -> Result<
    (Seq<char>, i32),
    Failure,
> {
    match reply {
        Some(replied) => match replied.text {
            Some(t) => Ok((t@, replied.id)),
            None => match replied.caption {
                Some(c) => Ok((c@, replied.id)),
                None => Err(Failure::InvalidArguments(NOTHING_TO_MOCK@)),
            },
        },
        None => if trimmed(args).len() != 0 {
            Ok((args, message))
        } else {
            Err(Failure::InvalidArguments(NOTHING_TO_MOCK@))
        },
    }
}

/// Decides what the mocking command answers: the mocked text and the number of the message
/// to answer, or the complaint that there is nothing to mock.
pub fn spongebob_handler(reply: &Option<Replied>, args: &Args, message: i32) -> (r: Result<
    (String, i32),
    HandlerError,
>)
    ensures
        match r {
            Ok(answer) => mock_source(*reply, args.0@, message) matches Ok(source)
                && answer.0@ == spongebob_text(source.0) && answer.1 == source.1,
            Err(e) => mock_source(*reply, args.0@, message) == Err::<(Seq<char>, i32), Failure>(
                e@,
            ),
        },
{
    match reply {
        Some(replied) => match &replied.text {
            Some(t) => Ok((to_spongebob(t.as_str()), replied.id)),
            None => match &replied.caption {
                Some(c) => Ok((to_spongebob(c.as_str()), replied.id)),
                None => Err(invalid(NOTHING_TO_MOCK)),
            },
        },
        None => {
            if trim(&chars_of(args.0.as_str())).len() != 0 {
                Ok((to_spongebob(args.0.as_str()), message))
            } else {
                Err(invalid(NOTHING_TO_MOCK))
            }
        },
    }
}

} // verus!
