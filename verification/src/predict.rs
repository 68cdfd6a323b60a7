use vstd::prelude::*;
use crate::error::ConfigError;

verus! {

/// Rank of an IEEE 754 single-precision bit pattern in the standard's total
/// order: patterns with the sign bit clear rank by their value as unsigned
/// integers, patterns with the sign bit set rank below all of those, the
/// larger magnitude the lower. Negative zero therefore ranks just below
/// positive zero, and distinct patterns never share a rank.
pub open spec fn total_order_key(bits: u32) -> int {
    if bits < 0x8000_0000 {
        bits as int
    } else {
        0x7fff_ffff - bits
    }
}

/// Two bit patterns share a rank only if they are the same pattern.
pub proof fn lemma_key_injective(a: u32, b: u32)
    requires
        total_order_key(a) == total_order_key(b),
    ensures
        a == b,
{
}

/// `index` is the position of the greatest of `values` in the total order,
/// and the earliest such position if the greatest value occurs more than once.
pub open spec fn is_argmax(values: Seq<u32>, index: int) -> bool {
    &&& 0 <= index < values.len()
    &&& forall|j: int|
        0 <= j < values.len() ==> total_order_key(#[trigger] values[j]) <= total_order_key(
            values[index],
        )
    &&& forall|j: int|
        0 <= j < index ==> total_order_key(#[trigger] values[j]) < total_order_key(values[index])
}

/// At most one position is the argmax of a sequence.
pub proof fn lemma_argmax_unique(values: Seq<u32>, i: int, j: int)
    requires
        is_argmax(values, i),
        is_argmax(values, j),
    ensures
        i == j,
{
    if i < j {
        assert(total_order_key(values[i]) < total_order_key(values[j]));
    } else if j < i {
        assert(total_order_key(values[j]) < total_order_key(values[i]));
    }
}

/// Where the greatest value occurs at several positions, the argmax is the
/// lowest of them.
pub proof fn lemma_tie_goes_to_lower_index(values: Seq<u32>, best: int, other: int)
    requires
        is_argmax(values, best),
        0 <= other < values.len(),
        values[other] == values[best],
    ensures
        best <= other,
{
    if other < best {
        assert(total_order_key(values[other]) < total_order_key(values[best]));
    }
}

/// Whether `a` comes strictly before `b` in the total order.
pub fn ranks_below(a: u32, b: u32) -> (r: bool)
    ensures
        r == (total_order_key(a) < total_order_key(b)),
{
    let a_negative = a >= 0x8000_0000;
    let b_negative = b >= 0x8000_0000;
    if a_negative && b_negative {
        a > b
    } else if a_negative {
        true
    } else if b_negative {
        false
    } else {
        a < b
    }
}

/// Position of the greatest of `values`, the first one on a tie, or `None`
/// for an empty slice, which has no greatest value.
pub fn argmax(values: &[u32]) -> (r: Option<usize>)
    ensures
        match r {
            Some(index) => is_argmax(values@, index as int),
            None => values@.len() == 0,
        },
{
    if values.len() == 0 {
        return None;
    }
    let mut best: usize = 0;
    let mut i: usize = 1;
    while i < values.len()
        invariant
            1 <= i <= values@.len(),
            is_argmax(values@.take(i as int), best as int),
        decreases values@.len() - i,
    {
        if ranks_below(values[best], values[i]) {
            best = i;
        }
        i += 1;
        assert(is_argmax(values@.take(i as int), best as int));
    }
    assert(values@.take(i as int) =~= values@);
    Some(best)
}

/// Picks the class of every sample from its output activations, given as
/// single-precision bit patterns: the class is the position of the greatest
/// activation, the lowest such position on a tie.
///
/// Fails only if some sample has no outputs at all.
pub fn predict(outputs: &[Vec<u32>]) -> (r: Result<Vec<usize>, ConfigError>)
    ensures
        match r {
            Ok(classes) => {
                &&& classes@.len() == outputs@.len()
                &&& forall|s: int|
                    0 <= s < outputs@.len() ==> is_argmax(
                        (#[trigger] outputs@[s])@,
                        classes@[s] as int,
                    )
            },
            Err(e) => {
                &&& e == ConfigError::EmptyOutput
                &&& exists|s: int| 0 <= s < outputs@.len() && (#[trigger] outputs@[s])@.len() == 0
            },
        },
{
    let mut classes: Vec<usize> = Vec::new();
    let mut s: usize = 0;
    while s < outputs.len()
        invariant
            s <= outputs@.len(),
            classes@.len() == s,
            forall|t: int|
                0 <= t < s ==> is_argmax((#[trigger] outputs@[t])@, classes@[t] as int),
        decreases outputs@.len() - s,
    {
        match argmax(outputs[s].as_slice()) {
            Some(class) => {
                classes.push(class);
            },
            None => {
                assert(outputs@[s as int]@.len() == 0);
                return Err(ConfigError::EmptyOutput);
            },
        }
        s += 1;
    }
    Ok(classes)
}

} // verus!
