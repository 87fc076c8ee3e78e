//! Theme helpers: the class-attribute rewriting behind the light/dark toggle.
//! The host reads and writes the document's class attribute; these functions
//! decide what it becomes.

use vstd::prelude::*;
use vstd::string::StringExecFns;
use crate::text::{contains_seq, remove_all, remove_occurrences, str_contains};

verus! {

/// The root class attribute after one theme toggle: every "dark" is removed
/// when one is present, else " dark" is appended.
pub fn toggle_theme_class(class: &str) -> (r: String)
    ensures
        contains_seq(class@, "dark"@) ==> r@ == remove_all(class@, "dark"@),
        !contains_seq(class@, "dark"@) ==> r@ == class@ + " dark"@,
{
    proof {
        reveal_strlit("dark");
    }
    if str_contains(class, "dark") {
        remove_occurrences(class, "dark")
    } else {
        String::from_str(class).concat(" dark")
    }
}

/// The theme a root class attribute denotes: "dark" when it contains "dark",
/// else "light".
pub fn theme_name(class: &str) -> (r: String)
    ensures
        contains_seq(class@, "dark"@) ==> r@ == "dark"@,
        !contains_seq(class@, "dark"@) ==> r@ == "light"@,
{
    proof {
        reveal_strlit("dark");
    }
    if str_contains(class, "dark") {
        String::from_str("dark")
    } else {
        String::from_str("light")
    }
}

} // verus!
