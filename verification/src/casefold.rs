//! Case folding for case-insensitive matching.

use vstd::prelude::*;

verus! {

/// The lowercase form of `s`, as `str::to_lowercase` computes it. The full
/// Unicode mapping is not written out here; contracts only relate folded
/// texts to one another through this name.
pub uninterp spec fn lower_of(s: Seq<char>) -> Seq<char>;

/// Relies on str::to_lowercase: the lowercase form of a string depends on
/// its characters alone.
#[verifier::external_body]
pub(crate) fn lowercase(s: &str) -> (r: String)
    ensures
        r@ == lower_of(s@),
{
    s.to_lowercase()
}

} // verus!
