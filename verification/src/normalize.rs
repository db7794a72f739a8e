//! Normalizing an instruction name to snake case.
//!
//! Names arrive in camel or Pascal case. Before hashing they are split into
//! words, lowercased and joined with underscores.

use vstd::prelude::*;

verus! {

/// The snake-case form of `name`: its words, lowercased and joined with
/// underscores.
///
/// The words are found outside this crate, by grapheme; nothing is known of
/// the result here beyond what `to_snake` states. In particular the form of a
/// form is not always the form itself: lowercasing can bring a letter next
/// to a digit that was not split from it before, as in a titlecase letter
/// followed by a digit.
pub uninterp spec fn snake_case(name: Seq<char>) -> Seq<char>;

/// Calls `convert_case::Casing::to_case` with `Case::Snake`.
///
/// Trusted: the string returned is the snake-case form of `name`, which
/// depends on `name` alone, and the empty name has the empty form.
#[verifier::external_body]
fn to_snake(name: &str) -> (snake: String)
    ensures
        snake@ == snake_case(name@),
        name@.len() == 0 ==> snake@.len() == 0,
{
    convert_case::Casing::to_case(&name, convert_case::Case::Snake)
}

/// Converts a camel-case name to snake case.
///
/// Total: every string has a snake-case form, and that of the empty string
/// is empty.
pub fn camel_to_snake_case(camel_case: &str) -> (snake: String)
    ensures
        snake@ == snake_case(camel_case@),
        camel_case@.len() == 0 ==> snake@.len() == 0,
{
    to_snake(camel_case)
}

} // verus!
