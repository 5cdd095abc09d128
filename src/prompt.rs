//! The status mark shown in the prompt.
use vstd::prelude::*;

verus! {

/// A smile after a line that succeeded, a frown after one that failed.
pub fn get_face(b: bool) -> (r: &'static str)
    ensures
        b ==> r@ == ":)"@,
        !b ==> r@ == ":("@,
{
    if b {
        ":)"
    } else {
        ":("
    }
}

} // verus!
