use vstd::prelude::*;
use vstd::slice::slice_subrange;
use crate::error::ConfigError;

verus! {

/// Number of items in each of `count` equal batches cut from `total` items.
pub open spec fn batch_len(total: nat, count: nat) -> nat
    recommends
        count > 0,
{
    total / count
}

/// The batch at position `index` when `items` is cut into `count` batches:
/// the `index`-th run of `batch_len` consecutive items.
pub open spec fn batch_of<T>(items: Seq<T>, count: nat, index: int) -> Seq<T>
    recommends
        count > 0,
        0 <= index < count,
{
    let len = batch_len(items.len(), count);
    items.subrange(index * len, (index + 1) * len)
}

/// The first `upto` batches laid end to end.
pub open spec fn batches_joined<T>(items: Seq<T>, count: nat, upto: nat) -> Seq<T>
    recommends
        count > 0,
        upto <= count,
    decreases upto,
{
    if upto == 0 {
        Seq::empty()
    } else {
        batches_joined(items, count, (upto - 1) as nat) + batch_of(items, count, upto - 1)
    }
}

/// Batches never reach past the items: batch `index` ends where batch
/// `index + 1` begins, and the last one ends at or before the end.
pub proof fn lemma_batch_bounds(total: nat, count: nat, index: int)
    requires
        count > 0,
        0 <= index < count,
    ensures
        0 <= index * batch_len(total, count) <= (index + 1) * batch_len(total, count) <= total,
        (index + 1) * batch_len(total, count) == index * batch_len(total, count) + batch_len(
            total,
            count,
        ),
        count * batch_len(total, count) == total - total % count,
{
    let len = batch_len(total, count);
    assert(0 <= index * len <= (index + 1) * len <= count * len && (index + 1) * len == index * len
        + len) by (nonlinear_arith)
        requires
            0 <= index < count,
            0 <= len,
    ;
    assert(count * len == total - total % count) by (nonlinear_arith)
        requires
            count > 0,
            len == total / count,
    ;
}

/// Laid end to end, the batches are the items in the order they were given, with
/// only the remainder cut off the end: the last `total % count` items belong
/// to no batch, and nothing else is lost or moved.
pub proof fn lemma_batches_cover_prefix<T>(items: Seq<T>, count: nat)
    requires
        count > 0,
    ensures
        batches_joined(items, count, count) == items.take(items.len() - items.len() % count),
{
    lemma_batches_joined(items, count, count);
    lemma_batch_bounds(items.len(), count, count - 1);
}

/// When the batch count divides the number of items, no item is dropped.
pub proof fn lemma_even_split_keeps_all<T>(items: Seq<T>, count: nat)
    requires
        count > 0,
        items.len() % count == 0,
    ensures
        batches_joined(items, count, count) == items,
{
    lemma_batches_cover_prefix(items, count);
    assert(items.take(items.len() as int) =~= items);
}

proof fn lemma_batches_joined<T>(items: Seq<T>, count: nat, upto: nat)
    requires
        count > 0,
        upto <= count,
    ensures
        upto * batch_len(items.len(), count) <= items.len(),
        batches_joined(items, count, upto) == items.take((upto * batch_len(items.len(), count)) as int),
    decreases upto,
{
    let len = batch_len(items.len(), count);
    if upto == 0 {
        assert(0 * len == 0);
        assert(batches_joined(items, count, upto) =~= items.take(0));
    } else {
        lemma_batches_joined(items, count, (upto - 1) as nat);
        lemma_batch_bounds(items.len(), count, upto - 1);
        assert(batches_joined(items, count, upto) =~= items.take((upto * len) as int));
    }
}

/// Cuts parallel sequences of features and labels into `count` mini-batches.
///
/// Every batch is a pair of views into `data` and `labels`, `data.len() / count`
/// items long; batch `i` starts where batch `i - 1` ends, so order is kept
/// within and across batches, and the `data.len() % count` trailing items are
/// left out. With more batches than items all `count` batches are empty.
///
/// Fails if `data` and `labels` differ in length, or else if `count` is zero.
pub fn mini_batch<'a, T>(data: &'a [T], labels: &'a [usize], count: usize) -> (r: Result<
    Vec<(&'a [T], &'a [usize])>,
    ConfigError,
>)
    ensures
        match r {
            Ok(batches) => {
                &&& data@.len() == labels@.len()
                &&& count > 0
                &&& batches@.len() == count
                &&& forall|i: int|
                    0 <= i < count ==> {
                        &&& (#[trigger] batches@[i]).0@ == batch_of(data@, count as nat, i)
                        &&& batches@[i].1@ == batch_of(labels@, count as nat, i)
                        &&& batches@[i].0@.len() == batch_len(data@.len(), count as nat)
                        &&& batches@[i].1@.len() == batch_len(data@.len(), count as nat)
                    }
            },
            Err(e) => {
                &&& data@.len() != labels@.len() || count == 0
                &&& e == if data@.len() != labels@.len() {
                    ConfigError::LengthMismatch
                } else {
                    ConfigError::ZeroBatchCount
                }
            },
        },
{
    if data.len() != labels.len() {
        return Err(ConfigError::LengthMismatch);
    }
    if count == 0 {
        return Err(ConfigError::ZeroBatchCount);
    }
    let total = data.len();
    let len = total / count;
    let mut batches: Vec<(&'a [T], &'a [usize])> = Vec::new();
    let mut start: usize = 0;
    let mut i: usize = 0;
    while i < count
        invariant
            count > 0,
            data@.len() == labels@.len(),
            len == batch_len(data@.len(), count as nat),
            i <= count,
            total == data@.len(),
            start == i * len,
            start <= total,
            batches@.len() == i,
            forall|b: int|
                0 <= b < i ==> {
                    &&& (#[trigger] batches@[b]).0@ == batch_of(data@, count as nat, b)
                    &&& batches@[b].1@ == batch_of(labels@, count as nat, b)
                    &&& batches@[b].0@.len() == len
                    &&& batches@[b].1@.len() == len
                },
        decreases count - i,
    {
        proof {
            lemma_batch_bounds(data@.len(), count as nat, i as int);
        }
        let end = start + len;
        batches.push((slice_subrange(data, start, end), slice_subrange(labels, start, end)));
        start = end;
        i += 1;
    }
    Ok(batches)
}

} // verus!
