use vstd::prelude::*;

verus! {

/// `cosmic_text::AttrsOwned`: the attributes of a run of text. They are
/// carried with the run and compared as values; nothing is known of what
/// they hold.
#[verifier::external_type_specification]
#[verifier::external_body]
pub struct ExAttrsOwned(cosmic_text::AttrsOwned);

/// `Clone::clone` of `cosmic_text::AttrsOwned`, whose impl is derived: the
/// copy equals the attribute set that it was made from.
pub assume_specification[ <cosmic_text::AttrsOwned as Clone>::clone ](
    attrs: &cosmic_text::AttrsOwned,
) -> (copy: cosmic_text::AttrsOwned)
    ensures
        copy == *attrs,
;

} // verus!
