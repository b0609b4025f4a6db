//! The decision a read-evaluate-print loop makes about each line it reads.
use vstd::prelude::*;

use crate::text::{same_text, trim_white_space, trimmed};

verus! {

/// What to do with a line read by the loop.
pub enum ReplCommand<'a> {
    /// The line holds only white space: read the next one.
    Skip,
    /// The line is `quit` or `exit`: stop.
    Quit,
    /// Evaluate the line, without its surrounding white space.
    Evaluate(&'a str),
}

/// Decides what to do with a line read by the loop.
pub fn read_command<'a>(input: &'a str) -> (r: ReplCommand<'a>)
    ensures
        (r is Skip) == (trimmed(input@).len() == 0),
        (r is Quit) == (trimmed(input@) == "quit"@ || trimmed(input@) == "exit"@),
        r matches ReplCommand::Evaluate(line) ==> line@ == trimmed(input@),
{
    let line = trim_white_space(input);
    if line.is_empty() {
        proof {
            reveal_strlit("quit");
            reveal_strlit("exit");
        }
        ReplCommand::Skip
    } else if same_text(line, "quit") || same_text(line, "exit") {
        ReplCommand::Quit
    } else {
        ReplCommand::Evaluate(line)
    }
}

} // verus!
