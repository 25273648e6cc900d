//! Lines on their way into a line editor's history.

use vstd::prelude::*;

verus! {

/// The history entry for an input line, as a line editor that takes C
/// strings expects it: the text of the line, closed by a NUL character.
pub fn add_history(string: &str) -> (entry: String)
    ensures
        entry@ == string@.push('\0'),
{
    let mut entry = string.to_owned();
    entry.push('\0');
    entry
}

} // verus!
