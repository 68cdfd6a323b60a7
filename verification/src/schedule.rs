use vstd::prelude::*;
use crate::batch::{batch_len, batch_of, lemma_batch_bounds, mini_batch};
use crate::error::ConfigError;

verus! {

/// One training step's worth of data: the features and the labels of a batch.
pub type BatchView<T> = (Seq<T>, Seq<usize>);

/// The gradient steps of a whole training run, in the order they are taken.
///
/// The data is cut into `count` mini-batches once; each of the `epochs`
/// passes then visits every batch in order, so step `t` uses batch
/// `t % count`. Batches without samples call for no step, and since all
/// batches are equally long the plan is then empty.
pub open spec fn training_plan<T>(
    data: Seq<T>,
    labels: Seq<usize>,
    epochs: nat,
    count: nat,
) -> Seq<BatchView<T>>
    recommends
        count > 0,
        data.len() == labels.len(),
{
    if batch_len(data.len(), count) == 0 {
        Seq::empty()
    } else {
        Seq::new(
            epochs * count,
            |step: int|
                (
                    batch_of(data, count, step % (count as int)),
                    batch_of(labels, count, step % (count as int)),
                ),
        )
    }
}

/// Within every epoch the plan visits the batches in order: the step for batch
/// `index` of epoch `epoch` uses exactly that batch of the one partition, and
/// it has as many labels as features and at least one of each.
pub proof fn lemma_plan_step<T>(
    data: Seq<T>,
    labels: Seq<usize>,
    epochs: nat,
    count: nat,
    epoch: nat,
    index: nat,
)
    requires
        count > 0,
        data.len() == labels.len(),
        batch_len(data.len(), count) > 0,
        epoch < epochs,
        index < count,
    ensures
        training_plan(data, labels, epochs, count).len() == epochs * count,
        epoch * count + index < epochs * count,
        training_plan(data, labels, epochs, count)[(epoch * count + index) as int] == (
            batch_of(data, count, index as int),
            batch_of(labels, count, index as int),
        ),
        batch_of(data, count, index as int).len() == batch_of(labels, count, index as int).len(),
        batch_of(data, count, index as int).len() == batch_len(data.len(), count),
{
    let k = count as int;
    let e = epoch as int;
    let i = index as int;
    assert(e * k + i < epochs * k && 0 <= e * k + i) by (nonlinear_arith)
        requires
            0 <= e < epochs,
            0 <= i < k,
    ;
    assert((e * k + i) % k == i) by (nonlinear_arith)
        requires
            0 <= e,
            0 <= i < k,
    ;
    lemma_batch_bounds(data.len(), count, i);
}

/// A plan over data too short to fill one batch of `count` holds no step.
pub proof fn lemma_short_data_needs_no_step<T>(
    data: Seq<T>,
    labels: Seq<usize>,
    epochs: nat,
    count: nat,
)
    requires
        count > 0,
        data.len() < count,
    ensures
        training_plan(data, labels, epochs, count).len() == 0,
{
    assert(data.len() / count == 0) by (nonlinear_arith)
        requires
            count > 0,
            0 <= data.len() < count,
    ;
}

/// Walks through a training plan one mini-batch at a time.
///
/// The caller takes a gradient step on each batch that [`Schedule::next_batch`]
/// hands out and stops when it returns `None`.
pub struct Schedule<'a, T> {
    batches: Vec<(&'a [T], &'a [usize])>,
    epochs: usize,
    epoch: usize,
    index: usize,
}

impl<'a, T> Schedule<'a, T> {
    #[verifier::type_invariant]
    spec fn inv(self) -> bool {
        &&& self.epoch <= self.epochs
        &&& self.batches@.len() == 0 ==> self.index == 0
        &&& self.batches@.len() > 0 ==> self.index < self.batches@.len()
        &&& self.epoch == self.epochs ==> self.index == 0
        &&& forall|i: int|
            0 <= i < self.batches@.len() ==> 0 < (#[trigger] self.batches@[i]).0@.len()
                == self.batches@[i].1@.len()
    }

    /// The batches still to be handed out, next one first.
    pub closed spec fn remaining(self) -> Seq<BatchView<T>> {
        let count = self.batches@.len() as int;
        Seq::new(
            ((self.epochs - self.epoch) * count - self.index) as nat,
            |step: int|
                (
                    self.batches@[(self.index + step) % count].0@,
                    self.batches@[(self.index + step) % count].1@,
                ),
        )
    }

    /// Plans `epochs` passes over `data` and `labels` cut into `count`
    /// mini-batches.
    ///
    /// Fails if `data` and `labels` differ in length, or else if `count` is
    /// zero.
    pub fn new(data: &'a [T], labels: &'a [usize], epochs: usize, count: usize) -> (r: Result<
        Self,
        ConfigError,
    >)
        ensures
            match r {
                Ok(schedule) => {
                    &&& data@.len() == labels@.len()
                    &&& count > 0
                    &&& schedule.remaining() == training_plan(
                        data@,
                        labels@,
                        epochs as nat,
                        count as nat,
                    )
                },
                Err(e) => {
                    &&& data@.len() != labels@.len() || count == 0
                    &&& e == if data@.len() != labels@.len() {
                        ConfigError::LengthMismatch
                    } else {
                        ConfigError::ZeroBatchCount
                    }
                },
            },
    {
        match mini_batch(data, labels, count) {
            Err(e) => Err(e),
            Ok(batches) => {
                let total = data.len();
                let schedule = if total / count == 0 {
                    Schedule { batches: Vec::new(), epochs, epoch: 0, index: 0 }
                } else {
                    Schedule { batches, epochs, epoch: 0, index: 0 }
                };
                proof {
                    let plan = training_plan(data@, labels@, epochs as nat, count as nat);
                    let k = count as int;
                    if total / count != 0 {
                        assert forall|step: int| 0 <= step implies 0 <= #[trigger] (step % k)
                            < k by {
                            assert(0 <= step % k < k) by (nonlinear_arith)
                                requires
                                    k > 0,
                            ;
                        }
                    } else {
                        assert(epochs * 0 == 0) by (nonlinear_arith);
                    }
                    assert(schedule.remaining() =~= plan);
                }
                Ok(schedule)
            },
        }
    }

    /// Hands out the batch for the next gradient step, or `None` once every
    /// epoch has seen every batch.
    pub fn next_batch(&mut self) -> (r: Option<(&'a [T], &'a [usize])>)
        ensures
            match r {
                Some(batch) => {
                    &&& old(self).remaining().len() > 0
                    &&& (batch.0@, batch.1@) == old(self).remaining().first()
                    &&& 0 < batch.0@.len() == batch.1@.len()
                    &&& final(self).remaining() == old(self).remaining().drop_first()
                },
                None => {
                    &&& old(self).remaining().len() == 0
                    &&& final(self).remaining() == old(self).remaining()
                },
            },
    {
        proof {
            use_type_invariant(&*self);
        }
        let count = self.batches.len();
        let ghost k = count as int;
        if count == 0 || self.epoch == self.epochs {
            proof {
                assert((self.epochs - self.epoch) * k == 0) by (nonlinear_arith)
                    requires
                        k == 0 || self.epochs - self.epoch == 0,
                ;
            }
            return None;
        }
        let batch = self.batches[self.index];
        let ghost before = *self;
        proof {
            assert((before.epochs - before.epoch) * k >= k) by (nonlinear_arith)
                requires
                    before.epochs - before.epoch >= 1,
                    k >= 1,
            ;
            assert((before.index + 0) % k == before.index) by (nonlinear_arith)
                requires
                    0 <= before.index < k,
            ;
        }
        if self.index + 1 == count {
            self.index = 0;
            self.epoch = self.epoch + 1;
        } else {
            self.index = self.index + 1;
        }
        proof {
            let after = *self;
            assert((after.epochs - after.epoch) * k - after.index == (before.epochs - before.epoch)
                * k - before.index - 1) by (nonlinear_arith)
                requires
                    after.epochs == before.epochs,
                    (after.index == before.index + 1 && after.epoch == before.epoch) || (
                    after.index == 0 && before.index + 1 == k && after.epoch == before.epoch + 1),
            ;
            assert forall|step: int| 0 <= step implies #[trigger] ((after.index + step) % k) == (
            before.index + (step + 1)) % k by {
                if after.index == 0 && before.index + 1 == k {
                    assert((0 + step) % k == (k - 1 + (step + 1)) % k) by (nonlinear_arith)
                        requires
                            k > 0,
                    ;
                }
            }
            assert(after.remaining() =~= before.remaining().drop_first());
        }
        Some(batch)
    }
}

} // verus!
