//! Case folding for the case-insensitive username matching.

use vstd::prelude::*;

verus! {

/// The case-folded form of a character sequence. What exactly folding does
/// is Unicode's business; the contracts only rely on equal inputs folding
/// equally.
pub uninterp spec fn lower_of(s: Seq<char>) -> Seq<char>;

/// Relies on str::to_lowercase: the result is a pure function of the
/// characters alone.
#[verifier::external_body]
pub(crate) fn lowercase(s: &str) -> (r: String)
    ensures
        r@ == lower_of(s@),
{
    s.to_lowercase()
}

} // verus!
