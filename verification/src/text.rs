//! What the crate relies on about comparing text.

use vstd::prelude::*;

verus! {

/// `==` on two string slices (std's `PartialEq` for `str`) holds exactly when the two
/// hold the same characters in the same order. This is taken from std's documentation,
/// not proved.
pub assume_specification[ <str as PartialEq>::eq ](a: &str, b: &str) -> (same: bool)
    ensures
        same == (a@ == b@),
;

} // verus!
