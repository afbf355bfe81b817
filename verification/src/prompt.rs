//! What the answers to the program's questions mean.

use crate::errors::{ErrorKind, ThecaError};
use crate::profile::is_cancelled;
use crate::text::{chars_of, same_text, string_between};
use crate::utils::{trim_bounds, trimmed};
use vstd::prelude::*;

verus! {

/// The answer that a word gives to a question of yes or no.
pub open spec fn yes_no(word: Seq<char>) -> Option<bool> {
    if word == "y"@ || word == "Y"@ || word == "yes"@ || word == "YES"@ || word == "Yes"@ {
        Some(true)
    } else if word == "n"@ || word == "N"@ || word == "no"@ || word == "NO"@ || word == "No"@ {
        Some(false)
    } else {
        None
    }
}

/// Reads a line that answers a question of yes or no. White space around
/// the answer does not count; a line that gives neither answer is to be
/// asked for again.
pub fn read_yes_no(line: &str) -> (r: Option<bool>)
    ensures
        r == yes_no(trimmed(line@)),
{
    let v = chars_of(line);
    let (a, b) = trim_bounds(&v, 0, v.len());
    assert(v@.subrange(0, v.len() as int) =~= v@);
    let word = string_between(&v, a, b);
    let w = word.as_str();
    if same_text(w, "y") || same_text(w, "Y") || same_text(w, "yes") || same_text(w, "YES")
        || same_text(w, "Yes") {
        Some(true)
    } else if same_text(w, "n") || same_text(w, "N") || same_text(w, "no") || same_text(w, "NO")
        || same_text(w, "No") {
        Some(false)
    } else {
        None
    }
}

/// The failure for a confirmation that the user refused.
pub fn cancelled() -> (e: ThecaError)
    ensures
        is_cancelled(e),
{
    ThecaError::new(ErrorKind::UserCancelled, "ok bye ♥")
}

/// What is to be said of a new key that was typed twice.
#[derive(Clone, Copy, PartialEq, Eq, Debug, Structural)]
pub enum NewKey {
    /// The key is taken.
    Accepted,
    /// Nothing was typed: the user is told that a key cannot be empty.
    Empty,
    /// The two differ: the user is told so.
    Mismatch,
}

/// Judges a new key that was typed twice: it is taken where both times
/// gave the same text and that is not empty.
pub fn check_new_key(first: &str, second: &str) -> (r: NewKey)
    ensures
        r == if first@ != second@ {
            NewKey::Mismatch
        } else if first@.len() == 0 {
            NewKey::Empty
        } else {
            NewKey::Accepted
        },
{
    if !same_text(first, second) {
        NewKey::Mismatch
    } else if first.is_empty() {
        NewKey::Empty
    } else {
        NewKey::Accepted
    }
}

/// What an empty pointer to the profile folder gives.
pub open spec fn is_empty_pointer(e: ThecaError) -> bool {
    e.is(
        ErrorKind::Generic,
        "~/.theca is a file but is empty. It should contain a path to the profile directory."@,
    ) && e.detail is None
}

/// The profile folder that the text of a pointer file names: the text
/// without the white space around it. A pointer that names nothing is
/// refused.
pub fn folder_from_pointer(contents: &str) -> (r: Result<String, ThecaError>)
    ensures
        match r {
            Ok(folder) => folder@ == trimmed(contents@) && folder@.len() > 0,
            Err(e) => trimmed(contents@).len() == 0 && is_empty_pointer(e),
        },
{
    let v = chars_of(contents);
    let (a, b) = trim_bounds(&v, 0, v.len());
    assert(v@.subrange(0, v.len() as int) =~= v@);
    if a == b {
        return Err(
            ThecaError::new(
                ErrorKind::Generic,
                "~/.theca is a file but is empty. It should contain a path to the profile directory.",
            ),
        );
    }
    Ok(string_between(&v, a, b))
}

} // verus!
