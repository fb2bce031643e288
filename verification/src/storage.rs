//! The two small-vector collections the simulator keeps its cards and hands
//! in, and the random source. Everything in this file is trusted: each
//! function states what the `smallvec` or `rand` call in its body does, and
//! the rest of the crate is proved against those statements.

use crate::cardutils::Card;
use crate::gamelogic::Hand;
use rand::seq::SliceRandom;
use rand::Rng;
use smallvec::SmallVec;
use vstd::prelude::*;

verus! {

/// An ordered run of cards, stored in a `smallvec::SmallVec` with room for
/// four cards inline. The verifier sees it only through [`card_items`].
#[derive(Debug)]
#[verifier::external_body]
pub struct CardVec {
    inner: SmallVec<[Card; 4]>,
}

/// The ordered hands of a round, stored in a `smallvec::SmallVec` with room
/// for four hands inline. The verifier sees it only through [`hand_items`].
#[derive(Debug)]
#[verifier::external_body]
pub struct HandVec {
    inner: SmallVec<[Hand; 4]>,
}

/// The cards a `CardVec` holds, first pushed first.
pub uninterp spec fn card_items(v: CardVec) -> Seq<Card>;

/// The hands a `HandVec` holds, first pushed first.
pub uninterp spec fn hand_items(v: HandVec) -> Seq<Hand>;

/// `SmallVec::new`: the new vector holds nothing.
#[verifier::external_body]
pub(crate) fn cards_new() -> (v: CardVec)
    ensures
        card_items(v) == Seq::<Card>::empty(),
{
    CardVec { inner: SmallVec::new() }
}

/// `SmallVec::push`: the card is appended after the cards already held.
#[verifier::external_body]
pub(crate) fn cards_push(v: &mut CardVec, card: Card)
    ensures
        card_items(*final(v)) == card_items(*old(v)).push(card),
{
    v.inner.push(card)
}

/// `SmallVec::pop`: `None` on an empty vector, which stays as it was;
/// otherwise the last card, which is removed.
#[verifier::external_body]
pub(crate) fn cards_pop(v: &mut CardVec) -> (popped: Option<Card>)
    ensures
        card_items(*old(v)).len() == 0 ==> popped is None && card_items(*final(v)) == card_items(
            *old(v),
        ),
        card_items(*old(v)).len() > 0 ==> popped == Some(card_items(*old(v)).last())
            && card_items(*final(v)) == card_items(*old(v)).drop_last(),
{
    v.inner.pop()
}

/// `SmallVec::len`: the number of cards held.
#[verifier::external_body]
pub(crate) fn cards_len(v: &CardVec) -> (n: usize)
    ensures
        n == card_items(*v).len(),
{
    v.inner.len()
}

/// Indexing a `SmallVec` by position: the card at `i`. Out of range it
/// panics, so `i` must be in range.
#[verifier::external_body]
pub(crate) fn cards_get(v: &CardVec, i: usize) -> (card: Card)
    requires
        i < card_items(*v).len(),
    ensures
        card == card_items(*v)[i as int],
{
    v.inner[i]
}

/// `SliceRandom::shuffle` with `rand::thread_rng()`: the cards are swapped
/// among themselves, so afterwards the vector holds the same cards, each as
/// often as before. Nothing is claimed about their order.
#[verifier::external_body]
pub(crate) fn cards_shuffle(v: &mut CardVec)
    ensures
        card_items(*final(v)).to_multiset() == card_items(*old(v)).to_multiset(),
{
    v.inner.shuffle(&mut rand::thread_rng())
}

/// `Rng::gen_range` on `0..bound` with `rand::thread_rng()`: some number
/// below `bound`. It panics on an empty range, so `bound` must be positive.
#[verifier::external_body]
pub(crate) fn random_below(bound: u8) -> (n: u8)
    requires
        bound > 0,
    ensures
        n < bound,
{
    rand::thread_rng().gen_range(0..bound)
}

/// `SmallVec::new`: the new vector holds nothing.
#[verifier::external_body]
pub(crate) fn hands_new() -> (v: HandVec)
    ensures
        hand_items(v) == Seq::<Hand>::empty(),
{
    HandVec { inner: SmallVec::new() }
}

/// `SmallVec::push`: the hand is appended after the hands already held.
#[verifier::external_body]
pub(crate) fn hands_push(v: &mut HandVec, hand: Hand)
    ensures
        hand_items(*final(v)) == hand_items(*old(v)).push(hand),
{
    v.inner.push(hand)
}

/// `SmallVec::len`: the number of hands held.
#[verifier::external_body]
pub(crate) fn hands_len(v: &HandVec) -> (n: usize)
    ensures
        n == hand_items(*v).len(),
{
    v.inner.len()
}

/// Indexing a `SmallVec` by position: a reference to the hand at `i`. Out of
/// range it panics, so `i` must be in range.
#[verifier::external_body]
pub(crate) fn hands_get(v: &HandVec, i: usize) -> (hand: &Hand)
    requires
        i < hand_items(*v).len(),
    ensures
        *hand == hand_items(*v)[i as int],
{
    &v.inner[i]
}

/// Indexing a `SmallVec` by position for writing: a mutable reference to the
/// hand at `i`. Whatever the caller leaves behind it is the hand at `i`
/// afterwards, and no other hand changes. Out of range it panics, so `i` must
/// be in range.
#[verifier::external_body]
pub(crate) fn hands_get_mut(v: &mut HandVec, i: usize) -> (hand: &mut Hand)
    requires
        i < hand_items(*old(v)).len(),
    ensures
        *hand == hand_items(*old(v))[i as int],
        hand_items(*final(v)) == hand_items(*old(v)).update(i as int, *final(hand)),
{
    &mut v.inner[i]
}

} // verus!
