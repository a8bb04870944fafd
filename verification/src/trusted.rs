//! Calls into code that is not verified here. The contract of each function
//! in this file is believed, not proved.

use rand::rngs::StdRng;
use rand::seq::SliceRandom;
use vstd::prelude::*;

verus! {

/// The upper-case form of a character, as `char::to_uppercase` gives it. It
/// may be more than one character long.
pub uninterp spec fn uppercase_of(c: char) -> Seq<char>;

/// The lower-case form of a text, as `str::to_lowercase` gives it.
pub uninterp spec fn lowercase_of(s: Seq<char>) -> Seq<char>;

/// Calls `char::to_uppercase` and collects the characters it yields. Trusted:
/// the result depends on `c` alone, so it is named `uppercase_of(c)`; nothing
/// else is claimed of it.
#[verifier::external_body]
pub(crate) fn char_to_uppercase(c: char) -> (r: String)
    ensures
        r@ == uppercase_of(c),
{
    c.to_uppercase().collect()
}

/// Calls `str::to_lowercase`. Trusted: the result depends on the characters
/// of `s` alone, so it is named `lowercase_of(s@)`; nothing else is claimed
/// of it.
#[verifier::external_body]
pub(crate) fn str_to_lowercase(s: &str) -> (r: String)
    ensures
        r@ == lowercase_of(s@),
{
    s.to_lowercase()
}

/// The generator `rand::rngs::StdRng`. Nothing is said of what it holds.
#[verifier::external_type_specification]
#[verifier::external_body]
pub struct ExStdRng(StdRng);

/// Calls `rand::seq::SliceRandom::choose` on the items of `pool`, with the
/// generator `rng`. Trusted: the result is `None` exactly when `pool` is
/// empty, and otherwise one of the items of `pool`. Which one is left open,
/// and so is what becomes of `rng`.
#[verifier::external_body]
pub(crate) fn choose_one<'a>(pool: &'a Vec<String>, rng: &mut StdRng) -> (r: Option<&'a String>)
    ensures
        pool@.len() == 0 ==> r is None,
        pool@.len() > 0 ==> r is Some && pool@.contains(*r->0),
{
    pool.choose(rng)
}

} // verus!
