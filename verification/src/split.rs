//! Deterministic train/validation split: position-based, no randomness.
//! Of `n` images in stable order the first `floor(n * 8 / 10)` are train
//! and the rest are val; a single image therefore lands in val.

use vstd::prelude::*;
use vstd::arithmetic::div_mod::lemma_div_is_ordered;
use vstd::arithmetic::div_mod::lemma_div_pos_is_pos;
use vstd::arithmetic::div_mod::lemma_div_multiples_vanish;
use crate::models::AggregatedImage;

verus! {

/// The two partitions of an exported dataset.
#[derive(Clone, Copy, Debug, PartialEq, Eq, Structural)]
pub enum Split {
    Train,
    Val,
}

/// How many of `n` images belong to the train partition.
pub open spec fn train_count(n: int) -> int {
    n * 8 / 10
}

/// The partition of the image at ordinal position `i` of `n`: a pure
/// function of position and count alone, so re-running an export on an
/// unchanged store reproduces the same assignment.
pub open spec fn split_of(i: int, n: int) -> Split {
    if i < train_count(n) {
        Split::Train
    } else {
        Split::Val
    }
}

/// The train partition never exceeds the image count.
pub proof fn lemma_train_count_le(n: int)
    requires
        n >= 0,
    ensures
        0 <= train_count(n) <= n,
{
    lemma_div_pos_is_pos(n * 8, 10);
    lemma_div_is_ordered(n * 8, n * 10, 10);
    lemma_div_multiples_vanish(n, 10);
}

/// A lone image is assigned to val: `floor(1 * 8 / 10)` is zero, so no
/// position lies in the train partition.
pub proof fn lemma_single_image_goes_to_val()
    ensures
        forall|i: int| 0 <= i < 1 ==> split_of(i, 1) == Split::Val,
{
    assert(train_count(1) == 0);
}

/// Computes `floor(n * 8 / 10)` without overflow.
pub fn compute_train_count(n: usize) -> (r: usize)
    ensures
        r == train_count(n as int),
        r <= n,
{
    proof {
        lemma_train_count_le(n as int);
    }
    let wide: u128 = (n as u128) * 8 / 10;
    wide as usize
}

/// The partition of position `i` out of `n`.
pub fn split_for(i: usize, n: usize) -> (r: Split)
    ensures
        r == split_of(i as int, n as int),
{
    if i < compute_train_count(n) {
        Split::Train
    } else {
        Split::Val
    }
}

/// Assigns every aggregated image its partition by ordinal position: the
/// entry at position `i` is the split of image `i`.
pub fn assign_splits(images: &Vec<AggregatedImage>) -> (r: Vec<Split>)
    ensures
        r@.len() == images@.len(),
        forall|i: int|
            0 <= i < images@.len() ==> r@[i] == split_of(i, images@.len() as int),
{
    let n = images.len();
    let mut out: Vec<Split> = Vec::new();
    let mut i: usize = 0;
    while i < n
        invariant
            i <= n,
            n == images@.len(),
            out@.len() == i,
            forall|j: int| 0 <= j < i ==> out@[j] == split_of(j, n as int),
        decreases n - i,
    {
        out.push(split_for(i, n));
        i = i + 1;
    }
    out
}

} // verus!
