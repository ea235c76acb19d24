//! `take`: the rows at given indices.
use vstd::prelude::*;

use crate::error::Error;

verus! {

/// Indices are positional, and a predicate would make them ambiguous: the two do not
/// go together. Checked before a dataset is opened.
pub fn require_no_filter(filtered: bool) -> (r: Result<(), Error>)
    ensures
        filtered ==> r == Err::<(), Error>(Error::TakeWhereConflict),
        !filtered ==> r is Ok,
{
    if filtered {
        Err(Error::TakeWhereConflict)
    } else {
        Ok(())
    }
}

} // verus!
