//! The echo of a message that was replied to.

use vstd::prelude::*;
use vstd::string::StringExecFns;

verus! {

/// Heads the echo of a message.
pub const ECHO_HEAD: &'static str = "reply: ";

/// Decides what is answered to a reply, given the text of the message replied to: that text
/// behind `reply: `, or nothing where the message has no text.
pub fn reply_handler(replied: Option<&str>) -> (r: Option<String>)
    ensures
        match r {
            Some(t) => replied matches Some(s) && t@ == ECHO_HEAD@ + s@,
            None => replied is None,
        },
{
    match replied {
        Some(t) => Some(String::from_str(ECHO_HEAD).concat(t)),
        None => None,
    }
}

} // verus!
