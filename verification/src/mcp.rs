//! Answers of the tool server that lets the agent read the vault's mirror.

use vstd::prelude::*;
use crate::text::{join, join_with, string_views};

verus! {

/// The answer listing the notes `files` of the mirror: one per line, or a
/// notice when there is none.
pub open spec fn note_listing(files: Seq<Seq<char>>) -> Seq<char> {
    if files.len() == 0 {
        "(nenhuma nota encontrada)"@
    } else {
        join_with(files, "\n"@)
    }
}

/// The answer listing the notes `files` of the mirror.
pub fn format_note_listing(files: &Vec<String>) -> (r: String)
    ensures
        r@ == note_listing(string_views(files@)),
{
    if files.len() == 0 {
        String::from_str("(nenhuma nota encontrada)")
    } else {
        join(files, "\n")
    }
}

} // verus!
