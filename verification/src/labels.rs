use vstd::prelude::*;

verus! {

/// Every label names one of the `output_size` classes.
pub open spec fn all_in_range(labels: Seq<usize>, output_size: usize) -> bool {
    forall|i: int| 0 <= i < labels.len() ==> labels[i] < output_size
}

/// Checks that every label is below `output_size`, as training targets must
/// be.
pub fn labels_in_range(labels: &[usize], output_size: usize) -> (r: bool)
    ensures
        r == all_in_range(labels@, output_size),
{
    let mut i: usize = 0;
    while i < labels.len()
        invariant
            i <= labels@.len(),
            all_in_range(labels@.take(i as int), output_size),
        decreases labels@.len() - i,
    {
        if labels[i] >= output_size {
            return false;
        }
        i += 1;
    }
    assert(labels@.take(i as int) =~= labels@);
    true
}

} // verus!
