//! The interactive mode: queries are read line by line until `exit`.

use vstd::prelude::*;
use crate::text::{chars_eq, chars_of};

verus! {

/// What to do with a line typed in the interactive mode.
#[derive(PartialEq, Eq, Structural, Clone, Copy, Debug)]
pub enum LineAction {
    /// Leave the interactive mode.
    Exit,
    /// Send the line as a query.
    Submit,
}

/// The line that ends the interactive mode: `exit` and its newline.
pub open spec fn exit_line() -> Seq<char> {
    seq!['e', 'x', 'i', 't', '\n']
}

/// `exit` followed by a newline ends the session; any other line is a query.
pub fn line_action(line: &String) -> (a: LineAction)
    ensures
        a == (if line@ == exit_line() {
            LineAction::Exit
        } else {
            LineAction::Submit
        }),
{
    proof {
        reveal_strlit("exit\n");
        assert("exit\n"@ =~= exit_line());
    }
    if chars_eq(&chars_of(line.as_str()), &chars_of("exit\n")) {
        LineAction::Exit
    } else {
        LineAction::Submit
    }
}

} // verus!
