//! What the answer of a parser stands for.

use vstd::prelude::*;

verus! {

/// What an answer stands for: what its value stands for, or what its error stands for.
pub open spec fn result_view<T: View, E: View>(r: Result<T, E>) -> Result<T::V, E::V> {
    match r {
        Ok(value) => Ok(value@),
        Err(error) => Err(error@),
    }
}

} // verus!
