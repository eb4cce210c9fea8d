//! Weighted random selection — selection order is observable.
//!
//! One bounded draw picks a point in `0..total`, and the items are walked in
//! order, each claiming the next `weight` values, until the point is passed.
//! Which item is chosen therefore depends on the order of the items as well
//! as on their weights, and exactly one [`JavaRandom::next_int`] is consumed
//! per selection.
//!
//! All weight arithmetic is wrapping `i32` arithmetic. Weights are not
//! required to be positive: a zero weight is never chosen, and negative
//! weights take part in the walk like any other.

use vstd::prelude::*;

use crate::mth::{
    lemma_wrap_i32_add, lemma_wrap_i32_small, lemma_wrapping_add_i32, lemma_wrapping_sub_i32, wrap_i32,
};
use crate::random::{next_int_outcome, JavaRandom};

verus! {

/// Something that can be chosen by weight.
///
/// The weight is expected to stay the same for as long as the item is part of
/// a selection. Nothing here is assumed of the value an implementation
/// returns: the selections below read each weight once and are specified in
/// terms of the weights they read (see [`reported_weights`]).
pub trait WeighedRandomItem {
    /// The relative likelihood of this item being chosen.
    fn random_weight(&self) -> i32;
}

impl<'b, T: WeighedRandomItem + ?Sized> WeighedRandomItem for &'b T {
    /// The weight of the referenced item: a value its own `random_weight`
    /// can return.
    fn random_weight(&self) -> (w: i32)
        ensures
            call_ensures(T::random_weight, (&**self,), w),
    {
        (**self).random_weight()
    }
}

impl<T: WeighedRandomItem + ?Sized> WeighedRandomItem for Box<T> {
    /// The weight of the boxed item: a value its own `random_weight` can
    /// return.
    fn random_weight(&self) -> (w: i32)
        ensures
            call_ensures(T::random_weight, (&**self,), w),
    {
        (**self).random_weight()
    }
}

/// Whether `weights` are weights that `items` report: one per item, in
/// order, each a value that the item's [`WeighedRandomItem::random_weight`]
/// can return.
pub open spec fn reported_weights<T: WeighedRandomItem>(items: Seq<T>, weights: Seq<i32>) -> bool {
    &&& weights.len() == items.len()
    &&& forall|k: int|
        0 <= k < items.len() ==> call_ensures(T::random_weight, (&items[k],), #[trigger] weights[k])
}

/// The exact sum of `weights` (no wrapping).
pub open spec fn weight_sum(weights: Seq<i32>) -> int
    decreases weights.len(),
{
    if weights.len() == 0 {
        0
    } else {
        weight_sum(weights.drop_last()) + weights.last()
    }
}

/// The walk of a selection over `weights` from index `i`, with `selection`
/// left: subtract weight `i` (wrapping); if the rest is negative, index `i`
/// is chosen, otherwise the walk goes on with the next weight. Running off
/// the end chooses nothing.
pub open spec fn walk_from(weights: Seq<i32>, i: int, selection: int) -> Option<int>
    decreases weights.len() - i,
{
    if i < 0 || i >= weights.len() {
        None
    } else {
        let rest = wrap_i32(selection - weights[i]);
        if rest < 0 {
            Some(i)
        } else {
            walk_from(weights, i + 1, rest)
        }
    }
}

/// The sum of `weights`, wrapping on overflow.
pub fn total_of_weights(weights: &[i32]) -> (r: i32)
    ensures
        r == wrap_i32(weight_sum(weights@)),
{
    let mut total: i32 = 0;
    let mut i: usize = 0;
    proof {
        lemma_wrap_i32_small(0);
    }
    while i < weights.len()
        invariant
            i <= weights@.len(),
            total == wrap_i32(weight_sum(weights@.subrange(0, i as int))),
        decreases weights@.len() - i,
    {
        let w = weights[i];
        proof {
            lemma_wrapping_add_i32(total, w);
            lemma_wrap_i32_add(weight_sum(weights@.subrange(0, i as int)), w as int);
            assert(weights@.subrange(0, i as int + 1).drop_last() == weights@.subrange(
                0,
                i as int,
            ));
        }
        total = total.wrapping_add(w);
        i = i + 1;
    }
    assert(weights@.subrange(0, weights@.len() as int) == weights@);
    total
}

/// The weights of `items`, read once each, in order.
fn read_weights<T: WeighedRandomItem>(items: &[T]) -> (r: Vec<i32>)
    ensures
        reported_weights(items@, r@),
{
    let mut weights: Vec<i32> = Vec::new();
    let mut i: usize = 0;
    while i < items.len()
        invariant
            i <= items@.len(),
            weights@.len() == i,
            forall|k: int|
                0 <= k < i ==> call_ensures(T::random_weight, (&items@[k],), #[trigger] weights@[k]),
        decreases items@.len() - i,
    {
        let w = items[i].random_weight();
        weights.push(w);
        i = i + 1;
    }
    weights
}

/// The sum of the weights of `items`, wrapping on overflow.
///
/// The result is the wrapping sum of the weights the items report, one
/// reading per item.
pub fn total_weight<T: WeighedRandomItem>(items: &[T]) -> (r: i32)
    ensures
        exists|weights: Seq<i32>|
            reported_weights(items@, weights) && r == wrap_i32(#[trigger] weight_sum(weights)),
{
    let weights = read_weights(items);
    total_of_weights(weights.as_slice())
}

/// Whether `r` is what walking `items` with `selection` gives, the items
/// reporting their weights one at a time: some `n` items are read, in order,
/// reporting `weights`; either the walk stops at the last item read, which
/// is the result, or it runs through every item and the result is `None`.
pub open spec fn lazy_walk_result<'a, T: WeighedRandomItem>(
    items: Seq<T>,
    selection: int,
    r: Option<&'a T>,
) -> bool {
    exists|weights: Seq<i32>|
        weights.len() <= items.len() && #[trigger] reported_weights(
            items.take(weights.len() as int),
            weights,
        ) && match walk_from(weights, 0, selection) {
            Some(i) => i == weights.len() - 1 && r == Some(&items[i]),
            None => weights.len() == items.len() && r is None,
        }
}

/// Picks one of `items`, each with probability `weight / total_weight`.
///
/// Draws `selection = random.next_int(total_weight)`, then walks `items` in
/// order, subtracting each weight from `selection` (read as the walk reaches
/// the item), and returns the first item after which `selection` is
/// negative.
///
/// Any positive `total_weight` is used as given: if it exceeds the real
/// total, the walk can run off the end and the result is `None`; if it is
/// smaller, later items are never reached. A `total_weight` of zero or less
/// returns `None` without drawing and without reading any weight.
pub fn random_item_with_total<'a, T: WeighedRandomItem>(
    random: &mut JavaRandom,
    items: &'a [T],
    total_weight: i32,
) -> (r: Option<&'a T>)
    ensures
        total_weight <= 0 ==> r is None && final(random).lcg_state() == old(random).lcg_state(),
        total_weight > 0 ==> final(random).lcg_state() == next_int_outcome(
            old(random).lcg_state(),
            total_weight as int,
        ).1,
        total_weight > 0 ==> lazy_walk_result(
            items@,
            next_int_outcome(old(random).lcg_state(), total_weight as int).0,
            r,
        ),
        final(random).cached_gaussian_bits() == old(random).cached_gaussian_bits(),
{
    if total_weight <= 0 {
        return None;
    }
    let ghost s0 = random.lcg_state();
    let selection = random.next_int(total_weight);
    let ghost outcome = next_int_outcome(s0, total_weight as int);
    assert(selection as int == outcome.0);
    let ghost mut weights: Seq<i32> = Seq::empty();
    let mut rest = selection;
    let mut i: usize = 0;
    proof {
        assert(reported_weights(items@.take(0), weights));
    }
    while i < items.len()
        invariant
            i <= items@.len(),
            weights.len() == i,
            reported_weights(items@.take(i as int), weights),
            forall|x: Seq<i32>|
                x.len() >= i && x.take(i as int) == weights ==> #[trigger] walk_from(
                    x,
                    0,
                    selection as int,
                ) == walk_from(x, i as int, rest as int),
            total_weight > 0,
            selection as int == outcome.0,
            outcome == next_int_outcome(old(random).lcg_state(), total_weight as int),
            random.lcg_state() == outcome.1,
            random.cached_gaussian_bits() == old(random).cached_gaussian_bits(),
        decreases items@.len() - i,
    {
        let w = items[i].random_weight();
        proof {
            lemma_wrapping_sub_i32(rest, w);
        }
        let next = rest.wrapping_sub(w);
        proof {
            let extended = weights.push(w);
            assert forall|x: Seq<i32>|
                x.len() >= i + 1 && x.take(i + 1) == extended implies #[trigger] walk_from(
                x,
                0,
                selection as int,
            ) == (if next < 0 {
                Some(i as int)
            } else {
                walk_from(x, i + 1, next as int)
            }) by {
                assert(x.take(i as int) == extended.take(i as int));
                assert(extended.take(i as int) == weights);
                assert(x[i as int] == x.take(i + 1)[i as int]);
                assert(x[i as int] == w);
            }
            assert(items@.take(i + 1).take(i as int) == items@.take(i as int));
            assert forall|k: int|
                0 <= k < items@.take(i + 1).len() implies call_ensures(
                T::random_weight,
                (&items@.take(i + 1)[k],),
                #[trigger] extended[k],
            ) by {
                if k < i {
                    assert(items@.take(i + 1)[k] == items@.take(i as int)[k]);
                    assert(extended[k] == weights[k]);
                }
            }
            weights = extended;
        }
        rest = next;
        if rest < 0 {
            proof {
                assert(weights.take(i + 1) == weights);
                assert(walk_from(weights, 0, selection as int) == Some(i as int));
                assert(reported_weights(items@.take(weights.len() as int), weights));
            }
            return Some(&items[i]);
        }
        i = i + 1;
    }
    proof {
        assert(weights.take(i as int) == weights);
        assert(walk_from(weights, 0, selection as int) == walk_from(weights, i as int, rest as int));
        assert(items@.take(weights.len() as int) == items@);
        assert(reported_weights(items@.take(weights.len() as int), weights));
    }
    None
}

/// Picks one of `items`, each with probability `weight / total`, where
/// `total` is [`total_weight`] of `items`.
///
/// `None` without drawing if the total is zero or less, which includes an
/// empty `items`. Otherwise, with non-negative weights, always `Some`, and
/// never an item of weight zero (see [`lemma_nonnegative_weights_pick_an_item`]).
pub fn random_item<'a, T: WeighedRandomItem>(random: &mut JavaRandom, items: &'a [T]) -> (r: Option<
    &'a T,
>)
    ensures
        exists|totals: Seq<i32>|
            reported_weights(items@, totals) && ({
                let total = #[trigger] wrap_i32(weight_sum(totals));
                &&& total <= 0 ==> r is None && final(random).lcg_state() == old(
                    random,
                ).lcg_state()
                &&& total > 0 ==> final(random).lcg_state() == next_int_outcome(
                    old(random).lcg_state(),
                    total,
                ).1
                &&& total > 0 ==> lazy_walk_result(
                    items@,
                    next_int_outcome(old(random).lcg_state(), total).0,
                    r,
                )
            }),
        final(random).cached_gaussian_bits() == old(random).cached_gaussian_bits(),
{
    let total = total_weight(items);
    random_item_with_total(random, items, total)
}

/// A chosen index lies in range.
pub proof fn lemma_walk_in_range(weights: Seq<i32>, i: int, selection: int)
    ensures
        walk_from(weights, i, selection) matches Some(j) ==> i <= j < weights.len() && 0 <= j,
    decreases weights.len() - i,
{
    if 0 <= i < weights.len() {
        lemma_walk_in_range(weights, i + 1, wrap_i32(selection - weights[i]));
    }
}

/// A zero weight is never chosen: the walk only stops at an item whose
/// weight turns a non-negative selection negative.
pub proof fn lemma_zero_weight_never_chosen(weights: Seq<i32>, i: int, selection: int)
    requires
        0 <= selection <= i32::MAX,
    ensures
        walk_from(weights, i, selection) matches Some(j) ==> weights[j] != 0,
    decreases weights.len() - i,
{
    if 0 <= i < weights.len() {
        let rest = wrap_i32(selection - weights[i]);
        if weights[i] == 0 {
            lemma_wrap_i32_small(selection);
        }
        if rest >= 0 {
            lemma_wrap_i32_small(selection - weights[i]);
            lemma_zero_weight_never_chosen(weights, i + 1, rest);
        }
    }
}

/// With non-negative weights and a positive wrapping total, a selection in
/// `0..total` always finds an item, and never one of weight zero.
pub proof fn lemma_nonnegative_weights_pick_an_item(weights: Seq<i32>, selection: int)
    requires
        forall|k: int| 0 <= k < weights.len() ==> #[trigger] weights[k] >= 0,
        0 <= selection < wrap_i32(weight_sum(weights)),
    ensures
        walk_from(weights, 0, selection) is Some,
        walk_from(weights, 0, selection) matches Some(j) ==> weights[j] > 0,
{
    lemma_weight_sum_split(weights, 0);
    assert(weights.subrange(0, 0).len() == 0);
    lemma_weight_sum_from_nonneg(weights, 0);
    crate::mth::lemma_wrap_i32_below(weight_sum(weights));
    lemma_wrap_i32_small(weight_sum(weights));
    lemma_walk_finds_from(weights, 0, selection);
    lemma_zero_weight_never_chosen(weights, 0, selection);
    lemma_walk_in_range(weights, 0, selection);
}

/// The weights from index `i` on, summed exactly.
pub open spec fn weight_sum_from(weights: Seq<i32>, i: int) -> int
    decreases weights.len() - i,
{
    if i < 0 || i >= weights.len() {
        0
    } else {
        weights[i] + weight_sum_from(weights, i + 1)
    }
}

/// Summing from the front or from the back gives the same total: the sum of
/// the first `i` weights plus the sum of the rest.
proof fn lemma_weight_sum_split(weights: Seq<i32>, i: int)
    requires
        0 <= i <= weights.len(),
    ensures
        weight_sum(weights) == weight_sum(weights.subrange(0, i)) + weight_sum_from(weights, i),
    decreases weights.len() - i,
{
    if i < weights.len() {
        lemma_weight_sum_split(weights, i + 1);
        assert(weights.subrange(0, i + 1).drop_last() == weights.subrange(0, i));
        assert(weights.subrange(0, i + 1).last() == weights[i]);
    } else {
        assert(weights.subrange(0, i) == weights);
    }
}

/// The inductive step of [`lemma_nonnegative_weights_pick_an_item`].
proof fn lemma_walk_finds_from(weights: Seq<i32>, i: int, selection: int)
    requires
        0 <= i <= weights.len(),
        forall|k: int| 0 <= k < weights.len() ==> #[trigger] weights[k] >= 0,
        0 <= selection <= i32::MAX,
        selection < weight_sum_from(weights, i),
    ensures
        walk_from(weights, i, selection) is Some,
    decreases weights.len() - i,
{
    if i < weights.len() {
        let w = weights[i];
        lemma_wrap_i32_small(selection - w);
        if selection - w >= 0 {
            lemma_weight_sum_from_nonneg(weights, i + 1);
            lemma_walk_finds_from(weights, i + 1, selection - w);
        }
    }
}

/// With non-negative weights, every suffix sum is non-negative.
proof fn lemma_weight_sum_from_nonneg(weights: Seq<i32>, i: int)
    requires
        forall|k: int| 0 <= k < weights.len() ==> #[trigger] weights[k] >= 0,
    ensures
        weight_sum_from(weights, i) >= 0,
    decreases weights.len() - i,
{
    if 0 <= i < weights.len() {
        lemma_weight_sum_from_nonneg(weights, i + 1);
    }
}

} // verus!
