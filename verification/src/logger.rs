//! The lines the game's logger hands to the console.
use vstd::prelude::*;
use crate::text::{owned, push_text};

verus! {

/// A log line: the level in brackets, a space, then the message.
pub open spec fn log_line_spec(level: Seq<char>, message: Seq<char>) -> Seq<char> {
    "["@ + level + "] "@ + message
}

/// The line the logger sends for a record of the given level and message.
pub fn log_message(level: &str, message: &str) -> (r: String)
    ensures
        r@ == log_line_spec(level@, message@),
{
    let mut line = owned("[");
    push_text(&mut line, level);
    push_text(&mut line, "] ");
    push_text(&mut line, message);
    line
}

} // verus!
