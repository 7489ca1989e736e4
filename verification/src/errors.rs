//! Messages shown to the user when an operation fails.
use vstd::prelude::*;

use crate::text::push_char;

verus! {

/// What failed, a colon, and on the next line why.
pub open spec fn user_message_text(context: Seq<char>, error: Seq<char>) -> Seq<char> {
    context + seq![':', '\n'] + error
}

/// The message for an error met while doing `context`; `error` is the
/// error's own text.
pub fn user_message(context: &str, error: &str) -> (r: String)
    ensures
        r@ == user_message_text(context@, error@),
{
    let mut r: String = context.to_owned();
    push_char(&mut r, ':');
    push_char(&mut r, '\n');
    r.append(error);
    r
}

} // verus!
