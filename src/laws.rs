use vstd::prelude::*;
use crate::rope::{RopeNode, spliced, removed};

verus! {

/// Concatenation adds lengths: the rope `concat(a, b)` holds `a@ + b@`, whose length
/// is the sum of the two.
pub proof fn lemma_concat_length(a: &RopeNode, b: &RopeNode)
    requires
        a.wf(),
        b.wf(),
    ensures
        (a@ + b@).len() == a@.len() + b@.len(),
{
}

/// Splitting a rope at any offset and concatenating the two parts gives back its text.
pub proof fn lemma_split_concat(r: &RopeNode, i: int)
    requires
        r.wf(),
        0 <= i <= r@.len(),
    ensures
        r@.subrange(0, i) + r@.subrange(i, r@.len() as int) == r@,
{
    assert(r@.subrange(0, i) + r@.subrange(i, r@.len() as int) =~= r@);
}

/// Deleting, at the same offset, as many scalars as were just inserted gives back the
/// original text.
pub proof fn lemma_insert_delete(r: &RopeNode, i: int, s: &RopeNode)
    requires
        r.wf(),
        s.wf(),
        0 <= i <= r@.len(),
    ensures
        removed(spliced(r@, i, s@), i, s@.len() as int) == r@,
{
    let t = spliced(r@, i, s@);
    assert(t.subrange(0, i) =~= r@.subrange(0, i));
    assert(t.subrange(i + s@.len(), t.len() as int) =~= r@.subrange(i, r@.len() as int));
    assert(removed(t, i, s@.len() as int) =~= r@);
}

} // verus!
