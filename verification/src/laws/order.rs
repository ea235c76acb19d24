//! The orders that listings are sorted by.
use vstd::prelude::*;

use crate::sort::{number_order, text_order};
use crate::text::text_le;

verus! {

/// Numbers are sorted from the smallest up.
pub proof fn law_numbers_ascend(a: u64, b: u64)
    ensures
        number_order()(a, b) <==> a <= b,
{
}

/// Texts are sorted by the first character in which they differ; a text comes before
/// those that it begins.
pub proof fn law_texts_are_compared_where_they_differ(a: Seq<char>, b: Seq<char>, k: int)
    requires
        0 <= k <= a.len(),
        k <= b.len(),
        forall|i: int| 0 <= i < k ==> a[i] == b[i],
    ensures
        text_order()(a, b) == text_le(a, b),
        k < a.len() && k < b.len() && a[k] != b[k] ==> (text_le(a, b) <==> (a[k] as int) < (
        b[k] as int)),
        k == a.len() ==> text_le(a, b),
        k == b.len() && k < a.len() ==> !text_le(a, b),
    decreases k,
{
    if k > 0 {
        let x = a.drop_first();
        let y = b.drop_first();
        assert forall|i: int| 0 <= i < k - 1 implies x[i] == y[i] by {
            assert(a[i + 1] == b[i + 1]);
        }
        assert(a[0] == b[0]);
        law_texts_are_compared_where_they_differ(x, y, k - 1);
        if k < a.len() && k < b.len() {
            assert(x[k - 1] == a[k] && y[k - 1] == b[k]);
        }
    }
}

} // verus!
