//! Sums over the hands of a round, and what follows for them when a hand is
//! added or changed.

use crate::gamelogic::Hand;
use vstd::prelude::*;

verus! {

/// The sum of `f` over the hands.
pub open spec fn sum_hands(hands: Seq<Hand>, f: spec_fn(Hand) -> int) -> int
    decreases hands.len(),
{
    if hands.len() == 0 {
        0
    } else {
        sum_hands(hands.drop_last(), f) + f(hands.last())
    }
}

/// The number of cards a hand holds, as a summand.
pub open spec fn cards_fn() -> spec_fn(Hand) -> int {
    |hand: Hand| hand.cards@.len() as int
}

/// The bet of a hand, as a summand.
pub open spec fn bet_fn() -> spec_fn(Hand) -> int {
    |hand: Hand| hand.bet as int
}

/// The number of cards in all the hands.
pub open spec fn cards_total(hands: Seq<Hand>) -> int {
    sum_hands(hands, cards_fn())
}

/// The sum of the bets of all the hands.
pub open spec fn bets_total(hands: Seq<Hand>) -> int {
    sum_hands(hands, bet_fn())
}

/// A sum over one hand more is the sum so far and the summand of that hand.
pub proof fn lemma_sum_push(hands: Seq<Hand>, hand: Hand, f: spec_fn(Hand) -> int)
    ensures
        sum_hands(hands.push(hand), f) == sum_hands(hands, f) + f(hand),
{
    assert(hands.push(hand).drop_last() == hands);
}

/// The sum over the first `j + 1` hands is the sum over the first `j` and
/// the summand of hand `j`; the sum over none is zero, over all the whole.
pub proof fn lemma_sum_take(hands: Seq<Hand>, f: spec_fn(Hand) -> int, j: int)
    requires
        0 <= j < hands.len(),
    ensures
        sum_hands(hands.take(j + 1), f) == sum_hands(hands.take(j), f) + f(hands[j]),
        sum_hands(hands.take(0), f) == 0,
        hands.take(hands.len() as int) == hands,
{
    assert(hands.take(j + 1).drop_last() == hands.take(j));
}

/// Where two runs of hands differ in their summands at `i` alone, their sums
/// differ by that much.
pub proof fn lemma_sum_update(a: Seq<Hand>, b: Seq<Hand>, f: spec_fn(Hand) -> int, i: int)
    requires
        a.len() == b.len(),
        0 <= i < a.len(),
        forall|j: int| 0 <= j < a.len() && j != i ==> f(#[trigger] b[j]) == f(a[j]),
    ensures
        sum_hands(b, f) == sum_hands(a, f) - f(a[i]) + f(b[i]),
    decreases a.len(),
{
    let a0 = a.drop_last();
    let b0 = b.drop_last();
    if i == a.len() - 1 {
        lemma_sum_same(a0, b0, f);
    } else {
        assert forall|j: int| 0 <= j < a0.len() && j != i implies f(#[trigger] b0[j]) == f(
            a0[j],
        ) by {
            assert(b0[j] == b[j]);
        }
        lemma_sum_update(a0, b0, f, i);
        assert(f(b[b.len() - 1]) == f(a[a.len() - 1]));
    }
}

/// Runs of hands with the same summands have the same sum.
pub proof fn lemma_sum_same(a: Seq<Hand>, b: Seq<Hand>, f: spec_fn(Hand) -> int)
    requires
        a.len() == b.len(),
        forall|j: int| 0 <= j < a.len() ==> f(#[trigger] b[j]) == f(a[j]),
    ensures
        sum_hands(b, f) == sum_hands(a, f),
    decreases a.len(),
{
    if a.len() > 0 {
        let a0 = a.drop_last();
        let b0 = b.drop_last();
        assert forall|j: int| 0 <= j < a0.len() implies f(#[trigger] b0[j]) == f(a0[j]) by {
            assert(b0[j] == b[j]);
        }
        lemma_sum_same(a0, b0, f);
        assert(f(b[b.len() - 1]) == f(a[a.len() - 1]));
    }
}

/// A sum of summands that all lie between `lo` and `hi` lies between `lo`
/// and `hi` times the number of hands.
pub proof fn lemma_sum_bounds(hands: Seq<Hand>, f: spec_fn(Hand) -> int, lo: int, hi: int)
    requires
        forall|j: int| 0 <= j < hands.len() ==> lo <= f(#[trigger] hands[j]) <= hi,
    ensures
        lo * hands.len() <= sum_hands(hands, f) <= hi * hands.len(),
    decreases hands.len(),
{
    if hands.len() > 0 {
        let init = hands.drop_last();
        assert forall|j: int| 0 <= j < init.len() implies lo <= f(#[trigger] init[j]) <= hi by {
            assert(init[j] == hands[j]);
        }
        lemma_sum_bounds(init, f, lo, hi);
        assert(lo <= f(hands[hands.len() - 1]) <= hi);
        assert(lo * hands.len() == lo * init.len() + lo && hi * hands.len() == hi * init.len()
            + hi) by (nonlinear_arith)
            requires
                hands.len() == init.len() + 1,
        ;
    } else {
        assert(lo * hands.len() == 0 && hi * hands.len() == 0) by (nonlinear_arith)
            requires
                hands.len() == 0,
        ;
    }
}

/// Where one summand is, hand by hand, the sum of two others, so are the
/// sums.
pub proof fn lemma_sum_add(
    hands: Seq<Hand>,
    f: spec_fn(Hand) -> int,
    g: spec_fn(Hand) -> int,
    h: spec_fn(Hand) -> int,
)
    requires
        forall|j: int| 0 <= j < hands.len() ==> f(#[trigger] hands[j]) == g(hands[j]) + h(hands[j]),
    ensures
        sum_hands(hands, f) == sum_hands(hands, g) + sum_hands(hands, h),
    decreases hands.len(),
{
    if hands.len() > 0 {
        let init = hands.drop_last();
        assert forall|j: int| 0 <= j < init.len() implies f(#[trigger] init[j]) == g(init[j]) + h(
            init[j],
        ) by {
            assert(init[j] == hands[j]);
        }
        lemma_sum_add(init, f, g, h);
        assert(f(hands[hands.len() - 1]) == g(hands[hands.len() - 1]) + h(
            hands[hands.len() - 1],
        ));
    }
}

/// A sum of summands that are never negative grows with every hand: over
/// the first `j` hands it is at most the sum over all.
pub proof fn lemma_sum_prefix(hands: Seq<Hand>, f: spec_fn(Hand) -> int, j: int)
    requires
        0 <= j <= hands.len(),
        forall|k: int| 0 <= k < hands.len() ==> 0 <= f(#[trigger] hands[k]),
    ensures
        0 <= sum_hands(hands.take(j), f) <= sum_hands(hands, f),
    decreases hands.len() - j,
{
    if j == hands.len() {
        assert(hands.take(j) == hands);
        lemma_sum_nonneg(hands, f);
    } else {
        lemma_sum_prefix(hands, f, j + 1);
        lemma_sum_take(hands, f, j);
        lemma_sum_nonneg(hands.take(j), f);
    }
}

/// A sum of summands that are never negative is not negative.
pub proof fn lemma_sum_nonneg(hands: Seq<Hand>, f: spec_fn(Hand) -> int)
    requires
        forall|k: int| 0 <= k < hands.len() ==> 0 <= f(#[trigger] hands[k]),
    ensures
        0 <= sum_hands(hands, f),
    decreases hands.len(),
{
    if hands.len() > 0 {
        let init = hands.drop_last();
        assert forall|k: int| 0 <= k < init.len() implies 0 <= f(#[trigger] init[k]) by {
            assert(init[k] == hands[k]);
        }
        lemma_sum_nonneg(init, f);
        assert(0 <= f(hands[hands.len() - 1]));
    }
}

/// The sum over a single hand is its summand.
pub proof fn lemma_sum_one(hand: Hand, f: spec_fn(Hand) -> int)
    ensures
        sum_hands(seq![hand], f) == f(hand),
{
    assert(seq![hand].drop_last() == Seq::<Hand>::empty());
    assert(sum_hands(Seq::<Hand>::empty(), f) == 0);
}

} // verus!
