use vstd::prelude::*;

verus! {

/// The case-folded form of an identity.  Two spellings of one identity fold
/// to the same key, so store lookups are case-insensitive.
pub uninterp spec fn lower_of(s: Seq<char>) -> Seq<char>;

/// Relies on str::to_lowercase: the folded form is a function of the
/// characters alone.
#[verifier::external_body]
pub(crate) fn fold_identity(s: &str) -> (r: String)
    ensures
        r@ == lower_of(s@),
{
    s.to_lowercase()
}

} // verus!
