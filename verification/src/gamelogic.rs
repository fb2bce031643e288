//! The rules of a session, the running count, the hands of a round, what
//! each may do, and how the round is settled.

use crate::basicstrategy::{Decision, Surrender};
use crate::cardutils::{
    cards_wf, dealt, hand_total, hilo_total, is_pair_of, lemma_raw_total_bounds,
    lemma_raw_total_push, raw_total, Card, HandCards, Rank, Shoe,
};
use crate::storage::{
    cards_get, hand_items, hands_get, hands_get_mut, hands_len, hands_new, hands_push, HandVec,
};
use crate::tally::{lemma_sum_one, lemma_sum_prefix, lemma_sum_take, sum_hands};
use vstd::prelude::*;

verus! {

/// The table rules of a session.
#[derive(Debug, Clone, Copy)]
pub struct GameRules {
    pub decks_in_shoe: u8,
    pub deck_penetration: usize,
    pub hit_soft_17: bool,
    pub double_after_split: bool,
    pub surrender: Option<Surrender>,
    pub resplit_aces: bool,
    pub hit_split_aces: bool,
    pub double_split_aces: bool,
}

impl GameRules {
    pub fn new(
        decks_in_shoe: u8,
        deck_penetration: usize,
        hit_soft_17: bool,
        double_after_split: bool,
        surrender: Option<Surrender>,
        resplit_aces: bool,
        hit_split_aces: bool,
        double_split_aces: bool,
    ) -> (rules: GameRules)
        ensures
            rules == (GameRules {
                decks_in_shoe,
                deck_penetration,
                hit_soft_17,
                double_after_split,
                surrender,
                resplit_aces,
                hit_split_aces,
                double_split_aces,
            }),
    {
        GameRules {
            decks_in_shoe,
            deck_penetration,
            hit_soft_17,
            double_after_split,
            surrender,
            resplit_aces,
            hit_split_aces,
            double_split_aces,
        }
    }
}

/// The running Hi-Lo count and the number of cards seen since the last
/// shuffle, with the standard bet.
#[derive(Debug, Clone, Copy)]
pub struct Count {
    pub running_count: isize,
    pub cards_seen: usize,
    pub std_bet: usize,
}

impl Count {
    /// The count after `cards` more cards whose Hi-Lo counts add up to `hilo`.
    pub open spec fn spec_record(self, hilo: int, cards: int) -> Count {
        Count {
            running_count: (self.running_count + hilo) as isize,
            cards_seen: (self.cards_seen + cards) as usize,
            std_bet: self.std_bet,
        }
    }

    /// The count after a shuffle: nothing seen, the count at zero.
    pub open spec fn spec_reset(self) -> Count {
        Count { running_count: 0, cards_seen: 0, std_bet: self.std_bet }
    }

    /// The count can take `cards` more cards without overflow, whatever
    /// their Hi-Lo counts are.
    pub open spec fn has_room(self, cards: int) -> bool {
        &&& self.cards_seen + cards <= usize::MAX
        &&& isize::MIN <= self.running_count - cards
        &&& self.running_count + cards <= isize::MAX
    }

    pub fn new() -> (count: Count)
        ensures
            count == (Count { running_count: 0, cards_seen: 0, std_bet: 100 }),
    {
        Count { running_count: 0, cards_seen: 0, std_bet: 100 }
    }

    /// Counts one card of Hi-Lo count `hilo_value`.
    pub fn update(&mut self, hilo_value: isize)
        requires
            old(self).cards_seen < usize::MAX,
            isize::MIN <= old(self).running_count + hilo_value <= isize::MAX,
        ensures
            *final(self) == old(self).spec_record(hilo_value as int, 1),
            final(self).running_count == old(self).running_count + hilo_value,
            final(self).cards_seen == old(self).cards_seen + 1,
    {
        self.cards_seen += 1;
        self.running_count += hilo_value;
    }

    /// Counts `cards` cards whose Hi-Lo counts add up to `hilo_value`.
    pub fn record(&mut self, hilo_value: isize, cards: usize)
        requires
            old(self).cards_seen + cards <= usize::MAX,
            isize::MIN <= old(self).running_count + hilo_value <= isize::MAX,
        ensures
            *final(self) == old(self).spec_record(hilo_value as int, cards as int),
            final(self).running_count == old(self).running_count + hilo_value,
            final(self).cards_seen == old(self).cards_seen + cards,
    {
        self.cards_seen += cards;
        self.running_count += hilo_value;
    }

    /// Back to nothing seen and a count of zero; the standard bet stays.
    pub fn reset(&mut self)
        ensures
            *final(self) == old(self).spec_reset(),
            final(self).running_count == 0,
            final(self).cards_seen == 0,
    {
        self.cards_seen = 0;
        self.running_count = 0;
    }
}

/// Resetting clears the count whatever it was, and resetting twice is
/// resetting once.
pub proof fn lemma_reset_idempotent(count: Count)
    ensures
        count.spec_reset().running_count == 0,
        count.spec_reset().cards_seen == 0,
        count.spec_reset().spec_reset() == count.spec_reset(),
{
}

/// One hand of the player: its cards, its bet, and the rank of the pair it
/// came from if a split made it.
#[derive(Debug)]
pub struct Hand {
    pub split_from: Option<Rank>,
    pub bet: usize,
    pub cards: HandCards,
}

impl Hand {
    /// A hand in play holds at least two valid cards whose raw sum fits.
    pub open spec fn wf(&self) -> bool {
        self.cards.wf() && self.cards@.len() >= 2
    }

    /// An unsplit two-card hand of 21.
    pub open spec fn spec_is_blackjack(&self) -> bool {
        self.split_from is None && self.cards@.len() == 2 && hand_total(self.cards@) == 21
    }

    /// Deals a new hand of two cards with the given bet and returns it with
    /// the Hi-Lo count of the two cards.
    pub fn new(bet: usize, shoe: &mut Shoe) -> (dealt_hand: (Hand, isize))
        requires
            old(shoe)@.len() >= 2,
            old(shoe)@[old(shoe)@.len() - 1].wf(),
            old(shoe)@[old(shoe)@.len() - 2].wf(),
        ensures
            dealt_hand.0.bet == bet,
            dealt_hand.0.split_from is None,
            dealt_hand.0.cards@ == dealt(old(shoe)@, 2),
            dealt_hand.1 == hilo_total(dealt_hand.0.cards@),
            final(shoe)@ == old(shoe)@.take(old(shoe)@.len() - 2),
            old(shoe).wf() ==> final(shoe).wf() && cards_wf(dealt_hand.0.cards@),
    {
        let (hand_cards, hi_lo_value) = HandCards::from(shoe);
        (Hand { bet, split_from: None, cards: hand_cards }, hi_lo_value)
    }

    /// Splits the hand: its last card goes to a new hand, which gets the
    /// next card of the shoe; this hand gets the card after that. Both are
    /// marked as split from the rank of the card that moved, and the new
    /// hand carries the same bet.
    pub fn split(&mut self, shoe: &mut Shoe) -> (new_hand: Hand)
        requires
            old(self).cards@.len() > 0,
            old(shoe)@.len() >= 2,
        ensures
            new_hand.cards@ == seq![old(self).cards@.last(), old(shoe)@[old(shoe)@.len() - 1]],
            new_hand.bet == old(self).bet,
            new_hand.split_from == Some(old(self).cards@.last().spec_rank()),
            final(self).cards@ == old(self).cards@.drop_last().push(
                old(shoe)@[old(shoe)@.len() - 2],
            ),
            final(self).bet == old(self).bet,
            final(self).split_from == Some(old(self).cards@.last().spec_rank()),
            final(shoe)@ == old(shoe)@.take(old(shoe)@.len() - 2),
            old(shoe).wf() ==> final(shoe).wf(),
    {
        let card = self.cards.pop();
        let card_rank = card.get_rank();
        let mut hand = HandCards::new();
        hand.push(card);
        hand.push(shoe.deal());

        self.cards.push(shoe.deal());
        self.split_from = Some(card_rank);
        proof {
            assert(shoe@ == old(shoe)@.take(old(shoe)@.len() - 2));
            assert(hand@ == seq![old(self).cards@.last(), old(shoe)@[old(shoe)@.len() - 1]]);
        }
        Hand { bet: self.bet, split_from: Some(card_rank), cards: hand }
    }

    /// Draws one card and returns its Hi-Lo count.
    pub fn hit(&mut self, shoe: &mut Shoe) -> (hilo: isize)
        requires
            old(shoe)@.len() > 0,
            old(shoe)@.last().wf(),
        ensures
            final(self).cards@ == old(self).cards@.push(old(shoe)@.last()),
            final(self).bet == old(self).bet,
            final(self).split_from == old(self).split_from,
            final(shoe)@ == old(shoe)@.drop_last(),
            hilo == old(shoe)@.last().spec_hilo(),
            old(shoe).wf() ==> final(shoe).wf(),
    {
        self.cards.hit(shoe)
    }

    /// Doubles the bet, draws one card and returns its Hi-Lo count.
    pub fn double(&mut self, shoe: &mut Shoe) -> (hilo: isize)
        requires
            old(self).bet * 2 <= usize::MAX,
            old(shoe)@.len() > 0,
            old(shoe)@.last().wf(),
        ensures
            final(self).cards@ == old(self).cards@.push(old(shoe)@.last()),
            final(self).bet == old(self).bet * 2,
            final(self).split_from == old(self).split_from,
            final(shoe)@ == old(shoe)@.drop_last(),
            hilo == old(shoe)@.last().spec_hilo(),
            old(shoe).wf() ==> final(shoe).wf(),
    {
        self.bet = self.bet * 2;
        self.cards.hit(shoe)
    }

    pub fn is_bust(&self) -> (bust: bool)
        requires
            raw_total(self.cards@) <= u8::MAX,
        ensures
            bust == (hand_total(self.cards@) > 21),
    {
        self.cards.is_bust()
    }

    pub fn is_blackjack(&self) -> (blackjack: bool)
        requires
            raw_total(self.cards@) <= u8::MAX,
        ensures
            blackjack == self.spec_is_blackjack(),
    {
        self.split_from.is_none() && self.cards.len() == 2 && self.cards.num_value() == 21
    }
}

/// One round: the shoe, the dealer's cards, the player's hands in the order
/// they were made, and whether a pair of aces has been split.
#[derive(Debug)]
pub struct Round {
    pub rules: GameRules,
    pub shoe: Shoe,
    pub has_split_aces: bool,
    pub hands: HandVec,
    pub dealer: HandCards,
}

impl Round {
    /// The player's hands, the first hand first.
    pub open spec fn hands_view(&self) -> Seq<Hand> {
        hand_items(self.hands)
    }

    /// The number of splits so far: every split adds one hand to the first.
    pub open spec fn splits(&self) -> int {
        self.hands_view().len() - 1
    }

    /// A hand may be split when it is a pair, fewer than three splits have
    /// been made, and it is not a pair of aces after aces were split where
    /// the rules forbid splitting them again.
    pub open spec fn spec_can_split(&self, i: int) -> bool {
        let hand = self.hands_view()[i];
        &&& is_pair_of(hand.cards@)
        &&& !(!self.rules.resplit_aces && self.has_split_aces && hand.cards@[0].spec_rank()
            == Rank::Ace)
        &&& self.splits() < 3
    }

    /// A hand may be doubled when it holds exactly two cards, is not a hand
    /// split from aces where the rules forbid doubling those, and the round
    /// has not been split where the rules forbid doubling after a split.
    pub open spec fn spec_can_double(&self, i: int) -> bool {
        let hand = self.hands_view()[i];
        &&& hand.cards@.len() == 2
        &&& !(!self.rules.double_split_aces && hand.split_from == Some(Rank::Ace))
        &&& !(!self.rules.double_after_split && self.splits() > 0)
    }

    /// Surrender is open only to the single unsplit hand while it holds its
    /// first two cards, and only where the rules have surrender.
    pub open spec fn spec_can_surrender(&self) -> bool {
        &&& self.splits() == 0
        &&& self.hands_view()[0].cards@.len() == 2
        &&& self.rules.surrender is Some
    }

    /// A hand may be hit unless it was split from aces, the round has been
    /// split, and the rules forbid hitting split aces.
    pub open spec fn spec_can_hit(&self, i: int) -> bool {
        let hand = self.hands_view()[i];
        !(hand.split_from == Some(Rank::Ace) && self.splits() != 0 && !self.rules.hit_split_aces)
    }

    pub fn can_split(&self, hand_to_split: usize) -> (can: bool)
        requires
            hand_to_split < self.hands_view().len(),
            self.hands_view()[hand_to_split as int].cards@.len() > 0,
        ensures
            can == self.spec_can_split(hand_to_split as int),
    {
        let splits = hands_len(&self.hands) - 1;
        let hand = hands_get(&self.hands, hand_to_split);
        let pair_of = hand.cards.first_card().get_rank();

        !((!hand.cards.is_pair()) || (!self.rules.resplit_aces && self.has_split_aces && pair_of
            == Rank::Ace) || (splits >= 3))
    }

    pub fn can_double(&self, hand_to_double: usize) -> (can: bool)
        requires
            hand_to_double < self.hands_view().len(),
        ensures
            can == self.spec_can_double(hand_to_double as int),
    {
        let hand = hands_get(&self.hands, hand_to_double);
        let splits = hands_len(&self.hands) - 1;
        let double_after_split = self.rules.double_after_split;
        let double_split_aces = self.rules.double_split_aces;
        let from_aces = match hand.split_from {
            Some(rank) => rank == Rank::Ace,
            None => false,
        };

        !((hand.cards.len() != 2) || (!double_split_aces && from_aces) || (!double_after_split && (
        splits > 0)))
    }

    pub fn can_surrender(&self) -> (can: bool)
        requires
            self.hands_view().len() > 0,
        ensures
            can == self.spec_can_surrender(),
    {
        let splits = hands_len(&self.hands) - 1;
        let hand_len = hands_get(&self.hands, 0).cards.len();
        !(splits != 0 || hand_len != 2 || self.rules.surrender.is_none())
    }

    pub fn can_hit(&self, hand_to_hit: usize) -> (can: bool)
        requires
            hand_to_hit < self.hands_view().len(),
        ensures
            can == self.spec_can_hit(hand_to_hit as int),
    {
        let hand = hands_get(&self.hands, hand_to_hit);
        let from_aces = match hand.split_from {
            Some(rank) => rank == Rank::Ace,
            None => false,
        };
        if !from_aces {
            return true;
        }
        let splits = hands_len(&self.hands) - 1;
        !(splits != 0 && !self.rules.hit_split_aces)
    }

    /// Splits hand `hand_index`: its last card starts a new hand, which is
    /// appended after the hands already there; the new hand gets the next
    /// card of the shoe and the split hand the one after. Returns the Hi-Lo
    /// count of the two cards dealt.
    pub fn split(&mut self, hand_index: usize) -> (hilo: isize)
        requires
            hand_index < old(self).hands_view().len(),
            old(self).hands_view()[hand_index as int].cards@.len() > 0,
            old(self).shoe@.len() >= 2,
            old(self).shoe@[old(self).shoe@.len() - 1].wf(),
            old(self).shoe@[old(self).shoe@.len() - 2].wf(),
        ensures
            final(self).rules == old(self).rules,
            final(self).dealer == old(self).dealer,
            final(self).shoe@ == old(self).shoe@.take(old(self).shoe@.len() - 2),
            old(self).shoe.wf() ==> final(self).shoe.wf(),
            final(self).has_split_aces == (old(self).has_split_aces || old(self).hands_view()[hand_index as int].cards@[0].spec_rank()
                == Rank::Ace),
            hilo == hilo_total(dealt(old(self).shoe@, 2)),
            final(self).hands_view().len() == old(self).hands_view().len() + 1,
            forall|j: int|
                0 <= j < old(self).hands_view().len() && j != hand_index
                    ==> #[trigger] final(self).hands_view()[j] == old(self).hands_view()[j],
            split_pair(
                old(self).hands_view()[hand_index as int],
                old(self).shoe@,
                final(self).hands_view()[hand_index as int],
                final(self).hands_view().last(),
            ),
    {
        let ghost shoe0 = self.shoe@;
        let hand = hands_get_mut(&mut self.hands, hand_index);
        let card = hand.cards.first_card();
        let new_hand = hand.split(&mut self.shoe);
        if card.get_rank() == Rank::Ace {
            self.has_split_aces = true;
        }
        let second_dealt = cards_get(&hand.cards.cards, hand.cards.len() - 1);
        let first_dealt = cards_get(&new_hand.cards.cards, 1);
        hands_push(&mut self.hands, new_hand);
        proof {
            let d = dealt(shoe0, 2);
            assert(d.drop_last() == seq![shoe0[shoe0.len() - 1]]);
            assert(d.drop_last().drop_last() == Seq::<Card>::empty());
            assert(hilo_total(d) == shoe0[shoe0.len() - 1].spec_hilo() + shoe0[shoe0.len()
                - 2].spec_hilo()) by {
                lemma_raw_total_push(Seq::<Card>::empty(), shoe0[shoe0.len() - 1]);
                lemma_raw_total_push(seq![shoe0[shoe0.len() - 1]], shoe0[shoe0.len() - 2]);
                assert(Seq::<Card>::empty().push(shoe0[shoe0.len() - 1]) == seq![
                    shoe0[shoe0.len() - 1],
                ]);
                assert(seq![shoe0[shoe0.len() - 1]].push(shoe0[shoe0.len() - 2]) == d);
            }
        }
        first_dealt.hilo_value() + second_dealt.hilo_value()
    }

    /// Doubles the bet of hand `hand_index` and deals it one card. Returns
    /// the Hi-Lo count of that card.
    pub fn double(&mut self, hand_index: usize) -> (hilo: isize)
        requires
            hand_index < old(self).hands_view().len(),
            old(self).hands_view()[hand_index as int].bet * 2 <= usize::MAX,
            old(self).shoe@.len() > 0,
            old(self).shoe@.last().wf(),
        ensures
            final(self).rules == old(self).rules,
            final(self).dealer == old(self).dealer,
            final(self).has_split_aces == old(self).has_split_aces,
            final(self).shoe@ == old(self).shoe@.drop_last(),
            old(self).shoe.wf() ==> final(self).shoe.wf(),
            hilo == old(self).shoe@.last().spec_hilo(),
            final(self).hands_view().len() == old(self).hands_view().len(),
            forall|j: int|
                0 <= j < old(self).hands_view().len() && j != hand_index
                    ==> #[trigger] final(self).hands_view()[j] == old(self).hands_view()[j],
            drew_card(
                old(self).hands_view()[hand_index as int],
                old(self).shoe@.last(),
                old(self).hands_view()[hand_index as int].bet * 2,
                final(self).hands_view()[hand_index as int],
            ),
    {
        let hand = hands_get_mut(&mut self.hands, hand_index);
        hand.double(&mut self.shoe)
    }

    /// Deals one card to hand `hand_index`. Returns its Hi-Lo count.
    pub fn hit(&mut self, hand_index: usize) -> (hilo: isize)
        requires
            hand_index < old(self).hands_view().len(),
            old(self).shoe@.len() > 0,
            old(self).shoe@.last().wf(),
        ensures
            final(self).rules == old(self).rules,
            final(self).dealer == old(self).dealer,
            final(self).has_split_aces == old(self).has_split_aces,
            final(self).shoe@ == old(self).shoe@.drop_last(),
            old(self).shoe.wf() ==> final(self).shoe.wf(),
            hilo == old(self).shoe@.last().spec_hilo(),
            final(self).hands_view().len() == old(self).hands_view().len(),
            forall|j: int|
                0 <= j < old(self).hands_view().len() && j != hand_index
                    ==> #[trigger] final(self).hands_view()[j] == old(self).hands_view()[j],
            drew_card(
                old(self).hands_view()[hand_index as int],
                old(self).shoe@.last(),
                old(self).hands_view()[hand_index as int].bet as int,
                final(self).hands_view()[hand_index as int],
            ),
    {
        let hand = hands_get_mut(&mut self.hands, hand_index);
        hand.hit(&mut self.shoe)
    }
}

/// A pair of any rank but the ace may be split exactly while fewer than
/// three splits have been made in the round, whatever the suits of the two
/// cards and whatever the rules.
pub proof fn lemma_pair_can_split(round: &Round, i: int)
    requires
        0 <= i < round.hands_view().len(),
        is_pair_of(round.hands_view()[i].cards@),
        round.hands_view()[i].cards@[0].spec_rank() != Rank::Ace,
    ensures
        round.spec_can_split(i) <==> round.splits() < 3,
{
}

/// A pair of aces may be split when no aces have been split yet, or where
/// the rules allow aces to be split again, and fewer than three splits have
/// been made.
pub proof fn lemma_aces_can_split(round: &Round, i: int)
    requires
        0 <= i < round.hands_view().len(),
        is_pair_of(round.hands_view()[i].cards@),
        round.hands_view()[i].cards@[0].spec_rank() == Rank::Ace,
    ensures
        round.spec_can_split(i) <==> (round.rules.resplit_aces || !round.has_split_aces)
            && round.splits() < 3,
{
}

/// `after` is `before` with `card` added and the bet at `bet`.
pub open spec fn drew_card(before: Hand, card: Card, bet: int, after: Hand) -> bool {
    &&& after.cards@ == before.cards@.push(card)
    &&& after.bet == bet
    &&& after.split_from == before.split_from
}

/// `kept` and `made` are the two hands that splitting `before` gives when
/// `shoe` is dealt from: `made` takes the last card of `before` and the top
/// card of the shoe, `kept` the rest of `before` and the card under the top;
/// both carry the bet of `before` and the rank of the card that moved.
pub open spec fn split_pair(before: Hand, shoe: Seq<Card>, kept: Hand, made: Hand) -> bool {
    &&& made.cards@ == seq![before.cards@.last(), shoe[shoe.len() - 1]]
    &&& kept.cards@ == before.cards@.drop_last().push(shoe[shoe.len() - 2])
    &&& made.bet == before.bet
    &&& kept.bet == before.bet
    &&& made.split_from == Some(before.cards@.last().spec_rank())
    &&& kept.split_from == Some(before.cards@.last().spec_rank())
}

/// A session: the rules, the count, the round in play, the bankroll, the
/// rounds still to play, and the tallies of what has happened so far.
#[derive(Debug)]
pub struct Game {
    pub rounds_left: usize,
    pub rules: GameRules,
    pub count: Count,
    pub wins: usize,
    pub losses: usize,
    pub pushes: usize,
    pub hits: usize,
    pub doubles: usize,
    pub splits: usize,
    pub stands: usize,
    pub surrenders: usize,
    pub blackjacks: usize,
    pub amount_bet: usize,
    pub amount_won: usize,
    pub amount_lost: usize,
    pub current_round: Round,
    pub bankroll: usize,
}

/// How a hand stands against the dealer once both are played out.
#[derive(Debug, Clone, Copy, PartialEq, Eq, Structural)]
pub enum Outcome {
    Surrendered,
    Loss,
    Push,
    Win,
    Blackjack,
}

/// The outcome of a hand: a surrendered round loses half of every bet;
/// otherwise a bust hand loses, a hand level with a dealer who is not bust
/// pushes, a hand over the dealer or facing a bust dealer wins (as a
/// blackjack when it is one), and any other hand loses.
pub open spec fn outcome_of(hand: Hand, dealer: Seq<Card>, surrendered: bool) -> Outcome {
    let player_value = hand_total(hand.cards@);
    let dealer_value = hand_total(dealer);
    if surrendered {
        Outcome::Surrendered
    } else if player_value > 21 {
        Outcome::Loss
    } else if dealer_value == player_value && dealer_value <= 21 {
        Outcome::Push
    } else if player_value > dealer_value || dealer_value > 21 {
        if hand.spec_is_blackjack() {
            Outcome::Blackjack
        } else {
            Outcome::Win
        }
    } else {
        Outcome::Loss
    }
}

impl Game {
    /// The player's hands in the round in play.
    pub open spec fn hands(&self) -> Seq<Hand> {
        self.current_round.hands_view()
    }

    /// The session as it is but for the round in play, the count, the
    /// bankroll and the tallies that `other` is free to differ in: the rules
    /// and the rounds left are the same.
    pub open spec fn same_session(&self, other: &Game) -> bool {
        &&& self.rules == other.rules
        &&& self.rounds_left == other.rounds_left
        &&& self.count.std_bet == other.count.std_bet
        &&& self.amount_bet == other.amount_bet
    }

    /// The tallies of how hands were played are those of `other`.
    pub open spec fn same_plays(&self, other: &Game) -> bool {
        &&& self.hits == other.hits
        &&& self.doubles == other.doubles
        &&& self.splits == other.splits
        &&& self.stands == other.stands
        &&& self.surrenders == other.surrenders
    }

    /// The tallies of how hands were settled are those of `other`.
    pub open spec fn same_results(&self, other: &Game) -> bool {
        &&& self.wins == other.wins
        &&& self.losses == other.losses
        &&& self.pushes == other.pushes
        &&& self.blackjacks == other.blackjacks
        &&& self.amount_won == other.amount_won
        &&& self.amount_lost == other.amount_lost
    }

    /// The plays tallied are those of `other` with one more of `play`, which
    /// is a hit, a double, a split, a stand or a surrender.
    pub open spec fn one_more_play(&self, other: &Game, play: Decision) -> bool {
        &&& self.hits == other.hits + if play == Decision::Hit {
            1int
        } else {
            0int
        }
        &&& self.doubles == other.doubles + if play == Decision::Double {
            1int
        } else {
            0int
        }
        &&& self.splits == other.splits + if play == Decision::Split {
            1int
        } else {
            0int
        }
        &&& self.stands == other.stands + if play == Decision::Stand {
            1int
        } else {
            0int
        }
        &&& self.surrenders == other.surrenders + if play == Decision::Surrender {
            1int
        } else {
            0int
        }
    }

    /// The round is that of `before` but for the shoe and the hands: the
    /// rules, the dealer's cards and the mark of split aces are the same.
    pub open spec fn same_table(&self, before: &Game) -> bool {
        &&& self.current_round.rules == before.current_round.rules
        &&& self.current_round.dealer == before.current_round.dealer
        &&& self.current_round.has_split_aces == before.current_round.has_split_aces
    }

    /// Every hand of `before` but hand `i` is still as it was.
    pub open spec fn other_hands_kept(&self, before: &Game, i: int) -> bool {
        forall|j: int|
            0 <= j < before.hands().len() && j != i ==> #[trigger] self.hands()[j]
                == before.hands()[j]
    }

    /// `self` is `before` after a hit on hand `i`: the hand has the top card
    /// of the shoe, the card is counted, one more hit is tallied, and
    /// nothing else has changed.
    pub open spec fn hit_made(&self, before: &Game, i: int) -> bool {
        let card = before.current_round.shoe@.last();
        &&& self.same_session(before)
        &&& self.same_results(before)
        &&& self.one_more_play(before, Decision::Hit)
        &&& self.bankroll == before.bankroll
        &&& self.count == before.count.spec_record(card.spec_hilo(), 1)
        &&& self.same_table(before)
        &&& self.current_round.shoe@ == before.current_round.shoe@.drop_last()
        &&& self.hands().len() == before.hands().len()
        &&& self.other_hands_kept(before, i)
        &&& drew_card(before.hands()[i], card, before.hands()[i].bet as int, self.hands()[i])
    }

    /// `self` is `before` after a double on hand `i`: the bet of the hand is
    /// doubled and the added bet taken from the bankroll, the hand has the
    /// top card of the shoe, the card is counted, one more double is
    /// tallied, and nothing else has changed.
    pub open spec fn double_made(&self, before: &Game, i: int) -> bool {
        let card = before.current_round.shoe@.last();
        &&& self.same_session(before)
        &&& self.same_results(before)
        &&& self.one_more_play(before, Decision::Double)
        &&& self.bankroll == before.bankroll - before.hands()[i].bet
        &&& self.count == before.count.spec_record(card.spec_hilo(), 1)
        &&& self.same_table(before)
        &&& self.current_round.shoe@ == before.current_round.shoe@.drop_last()
        &&& self.hands().len() == before.hands().len()
        &&& self.other_hands_kept(before, i)
        &&& drew_card(before.hands()[i], card, before.hands()[i].bet * 2, self.hands()[i])
    }

    /// `self` is `before` after a split of hand `i`: the hand and a new last
    /// hand are the two halves, each with a card from the shoe, the bet of
    /// the new hand is taken from the bankroll, both cards are counted, a
    /// split of aces is remembered, one more split is tallied, and nothing
    /// else has changed.
    pub open spec fn split_made(&self, before: &Game, i: int) -> bool {
        let shoe = before.current_round.shoe@;
        &&& self.same_session(before)
        &&& self.same_results(before)
        &&& self.one_more_play(before, Decision::Split)
        &&& self.bankroll == before.bankroll - before.hands()[i].bet
        &&& self.count == before.count.spec_record(hilo_total(dealt(shoe, 2)), 2)
        &&& self.current_round.rules == before.current_round.rules
        &&& self.current_round.dealer == before.current_round.dealer
        &&& self.current_round.has_split_aces == (before.current_round.has_split_aces
            || before.hands()[i].cards@[0].spec_rank() == Rank::Ace)
        &&& self.current_round.shoe@ == shoe.take(shoe.len() - 2)
        &&& self.hands().len() == before.hands().len() + 1
        &&& self.other_hands_kept(before, i)
        &&& split_pair(before.hands()[i], shoe, self.hands()[i], self.hands().last())
    }

    /// `self` is `before` after a stand: one more stand is tallied, and
    /// nothing else has changed.
    pub open spec fn stand_made(&self, before: &Game) -> bool {
        &&& self.same_session(before)
        &&& self.same_results(before)
        &&& self.one_more_play(before, Decision::Stand)
        &&& self.bankroll == before.bankroll
        &&& self.count == before.count
        &&& self.current_round == before.current_round
    }

    /// `self` is `before` after the surrender: half the bet of the first
    /// hand is back in the bankroll, one more surrender is tallied, and
    /// nothing else has changed.
    pub open spec fn surrender_made(&self, before: &Game) -> bool {
        &&& self.same_session(before)
        &&& self.same_results(before)
        &&& self.one_more_play(before, Decision::Surrender)
        &&& self.bankroll == before.bankroll + before.hands()[0].bet / 2
        &&& self.count == before.count
        &&& self.current_round == before.current_round
    }

    /// `self` is `before` with a new shuffled shoe of the decks the rules
    /// name and the count cleared; nothing else has changed.
    pub open spec fn reshuffled(&self, before: &Game) -> bool {
        &&& self.same_session(before)
        &&& self.same_plays(before)
        &&& self.same_results(before)
        &&& self.bankroll == before.bankroll
        &&& self.count == before.count.spec_reset()
        &&& self.current_round.shoe@.to_multiset() == crate::cardutils::fresh_shoe(
            before.rules.decks_in_shoe as nat,
        ).to_multiset()
        &&& self.same_table(before)
        &&& self.current_round.hands == before.current_round.hands
    }

    /// `self` is `before` with every hand settled against the dealer; the
    /// round, the count and the tallies of plays have not changed.
    pub open spec fn settle_made(&self, before: &Game, surrendered: bool) -> bool {
        &&& self.same_session(before)
        &&& self.same_plays(before)
        &&& self.count == before.count
        &&& self.current_round == before.current_round
        &&& settled(before, self, before.hands(), before.current_round.dealer@, surrendered)
    }

    /// Splits hand `hand_index`, counts the two cards dealt, and takes the
    /// bet of the new hand from the bankroll.
    pub fn split(&mut self, hand_index: usize)
        requires
            hand_index < old(self).hands().len(),
            old(self).hands()[hand_index as int].cards@.len() > 0,
            old(self).current_round.shoe@.len() >= 2,
            old(self).current_round.shoe@[old(self).current_round.shoe@.len() - 1].wf(),
            old(self).current_round.shoe@[old(self).current_round.shoe@.len() - 2].wf(),
            old(self).splits < usize::MAX,
            old(self).count.has_room(2),
            old(self).bankroll >= old(self).hands()[hand_index as int].bet,
        ensures
            final(self).split_made(old(self), hand_index as int),
            old(self).current_round.shoe.wf() ==> final(self).current_round.shoe.wf(),
    {
        proof {
            lemma_raw_total_bounds(dealt(old(self).current_round.shoe@, 2));
        }
        self.splits += 1;
        let hilo = self.current_round.split(hand_index);
        self.count.record(hilo, 2);
        self.bankroll -= hands_get(&self.current_round.hands, hand_index).bet;
    }

    /// Doubles hand `hand_index`: the bet doubles, the hand gets one card,
    /// which is counted, and the added bet leaves the bankroll.
    pub fn double(&mut self, hand_index: usize)
        requires
            hand_index < old(self).hands().len(),
            old(self).hands()[hand_index as int].bet * 2 <= usize::MAX,
            old(self).current_round.shoe@.len() > 0,
            old(self).current_round.shoe@.last().wf(),
            old(self).doubles < usize::MAX,
            old(self).count.has_room(1),
            old(self).bankroll >= old(self).hands()[hand_index as int].bet,
        ensures
            final(self).double_made(old(self), hand_index as int),
            old(self).current_round.shoe.wf() ==> final(self).current_round.shoe.wf(),
    {
        self.doubles += 1;
        let hilo = self.current_round.double(hand_index);
        self.count.update(hilo);
        self.bankroll -= hands_get(&self.current_round.hands, hand_index).bet / 2;
    }

    /// Deals one card to hand `hand_index` and counts it.
    pub fn hit(&mut self, hand_index: usize)
        requires
            hand_index < old(self).hands().len(),
            old(self).current_round.shoe@.len() > 0,
            old(self).current_round.shoe@.last().wf(),
            old(self).hits < usize::MAX,
            old(self).count.has_room(1),
        ensures
            final(self).hit_made(old(self), hand_index as int),
            old(self).current_round.shoe.wf() ==> final(self).current_round.shoe.wf(),
    {
        self.hits += 1;
        let hilo = self.current_round.hit(hand_index);
        self.count.update(hilo);
    }

    /// Surrenders the round: half the bet of the first hand comes back to
    /// the bankroll.
    pub fn surrender(&mut self)
        requires
            old(self).hands().len() > 0,
            old(self).surrenders < usize::MAX,
            old(self).bankroll + old(self).hands()[0].bet / 2 <= usize::MAX,
        ensures
            final(self).surrender_made(old(self)),
    {
        self.surrenders += 1;
        self.bankroll += hands_get(&self.current_round.hands, 0).bet / 2;
    }

    pub fn stand(&mut self)
        requires
            old(self).stands < usize::MAX,
        ensures
            final(self).stand_made(old(self)),
    {
        self.stands += 1;
    }

    /// The shoe is shuffled anew once the cards left are down to the
    /// penetration of the rules.
    pub fn should_reshuffle(&mut self) -> (due: bool)
        ensures
            *final(self) == *old(self),
            due == (old(self).current_round.shoe@.len() <= old(self).rules.deck_penetration),
    {
        let max_penetration = self.rules.deck_penetration;
        let cards_left = self.current_round.shoe.cards_left();

        cards_left <= max_penetration
    }

    /// A new shuffled shoe of as many decks as the rules say, and the count
    /// back at zero with nothing seen, whatever it was.
    pub fn reshuffle(&mut self)
        requires
            old(self).rules.decks_in_shoe > 0,
        ensures
            final(self).reshuffled(old(self)),
            final(self).count.running_count == 0,
            final(self).count.cards_seen == 0,
            final(self).current_round.shoe@.len() == 52 * old(self).rules.decks_in_shoe,
            final(self).current_round.shoe.wf(),
    {
        self.current_round.shoe = Shoe::new(self.rules.decks_in_shoe);
        self.count.reset();
    }

    pub fn is_bust(&mut self, hand_index: usize) -> (bust: bool)
        requires
            hand_index < old(self).hands().len(),
            raw_total(old(self).hands()[hand_index as int].cards@) <= u8::MAX,
        ensures
            *final(self) == *old(self),
            bust == (hand_total(old(self).hands()[hand_index as int].cards@) > 21),
    {
        hands_get(&self.current_round.hands, hand_index).cards.is_bust()
    }

    /// The hand beats the dealer: its total is higher, or the dealer is bust.
    pub fn is_winner(&mut self, hand_index: usize) -> (winner: bool)
        requires
            hand_index < old(self).hands().len(),
            raw_total(old(self).hands()[hand_index as int].cards@) <= u8::MAX,
            raw_total(old(self).current_round.dealer@) <= u8::MAX,
        ensures
            *final(self) == *old(self),
            winner == (hand_total(old(self).hands()[hand_index as int].cards@) > hand_total(
                old(self).current_round.dealer@,
            ) || hand_total(old(self).current_round.dealer@) > 21),
    {
        let dealer_value = self.current_round.dealer.num_value();
        let player_value = hands_get(&self.current_round.hands, hand_index).cards.num_value();
        (player_value > dealer_value) || (dealer_value > 21)
    }

    /// The hand is level with a dealer who is not bust.
    pub fn is_push(&mut self, hand_index: usize) -> (level: bool)
        requires
            hand_index < old(self).hands().len(),
            raw_total(old(self).hands()[hand_index as int].cards@) <= u8::MAX,
            raw_total(old(self).current_round.dealer@) <= u8::MAX,
        ensures
            *final(self) == *old(self),
            level == (hand_total(old(self).hands()[hand_index as int].cards@) == hand_total(
                old(self).current_round.dealer@,
            ) && hand_total(old(self).current_round.dealer@) <= 21),
    {
        let dealer_value = self.current_round.dealer.num_value();
        let player_value = hands_get(&self.current_round.hands, hand_index).cards.num_value();
        (dealer_value == player_value) && !(dealer_value > 21)
    }

    pub fn is_blackjack(&mut self, hand_index: usize) -> (blackjack: bool)
        requires
            hand_index < old(self).hands().len(),
            raw_total(old(self).hands()[hand_index as int].cards@) <= u8::MAX,
        ensures
            *final(self) == *old(self),
            blackjack == old(self).hands()[hand_index as int].spec_is_blackjack(),
    {
        hands_get(&self.current_round.hands, hand_index).is_blackjack()
    }

    /// Pays a winning hand: the bet is won and comes back doubled; a
    /// blackjack wins and brings back half the bet more.
    pub fn award_winnings(&mut self, hand_index: usize)
        requires
            hand_index < old(self).hands().len(),
            raw_total(old(self).hands()[hand_index as int].cards@) <= u8::MAX,
            old(self).wins < usize::MAX,
            ({
                let hand = old(self).hands()[hand_index as int];
                let bonus = if hand.spec_is_blackjack() {
                    hand.bet / 2
                } else {
                    0
                };
                &&& old(self).amount_won + hand.bet + bonus <= usize::MAX
                &&& old(self).bankroll + hand.bet * 2 + bonus <= usize::MAX
                &&& hand.spec_is_blackjack() ==> old(self).blackjacks < usize::MAX
            }),
        ensures
            final(self).same_session(old(self)),
            final(self).same_plays(old(self)),
            final(self).count == old(self).count,
            final(self).current_round == old(self).current_round,
            final(self).losses == old(self).losses,
            final(self).pushes == old(self).pushes,
            final(self).amount_lost == old(self).amount_lost,
            final(self).wins == old(self).wins + 1,
            ({
                let hand = old(self).hands()[hand_index as int];
                let bonus = if hand.spec_is_blackjack() {
                    hand.bet / 2
                } else {
                    0
                };
                &&& final(self).amount_won == old(self).amount_won + hand.bet + bonus
                &&& final(self).bankroll == old(self).bankroll + hand.bet * 2 + bonus
                &&& final(self).blackjacks == old(self).blackjacks + if hand.spec_is_blackjack() {
                    1int
                } else {
                    0int
                }
            }),
    {
        let is_blackjack = self.is_blackjack(hand_index);
        let bet = hands_get(&self.current_round.hands, hand_index).bet;
        self.wins += 1;
        self.amount_won += bet;
        self.bankroll += bet * 2;
        if is_blackjack {
            self.blackjacks += 1;
            self.amount_won += bet / 2;
            self.bankroll += bet / 2;
        }
    }

    /// Books a lost hand: its bet is lost.
    pub fn loss(&mut self, hand_index: usize)
        requires
            hand_index < old(self).hands().len(),
            old(self).losses < usize::MAX,
            old(self).amount_lost + old(self).hands()[hand_index as int].bet <= usize::MAX,
        ensures
            final(self).same_session(old(self)),
            final(self).same_plays(old(self)),
            final(self).count == old(self).count,
            final(self).current_round == old(self).current_round,
            final(self).bankroll == old(self).bankroll,
            final(self).wins == old(self).wins,
            final(self).pushes == old(self).pushes,
            final(self).blackjacks == old(self).blackjacks,
            final(self).amount_won == old(self).amount_won,
            final(self).losses == old(self).losses + 1,
            final(self).amount_lost == old(self).amount_lost + old(self).hands()[hand_index as int].bet,
    {
        self.losses += 1;
        self.amount_lost += hands_get(&self.current_round.hands, hand_index).bet;
    }

    /// Books a surrendered hand: half its bet is lost.
    pub fn surrendered(&mut self, hand_index: usize)
        requires
            hand_index < old(self).hands().len(),
            old(self).losses < usize::MAX,
            old(self).amount_lost + old(self).hands()[hand_index as int].bet / 2 <= usize::MAX,
        ensures
            final(self).same_session(old(self)),
            final(self).same_plays(old(self)),
            final(self).count == old(self).count,
            final(self).current_round == old(self).current_round,
            final(self).bankroll == old(self).bankroll,
            final(self).wins == old(self).wins,
            final(self).pushes == old(self).pushes,
            final(self).blackjacks == old(self).blackjacks,
            final(self).amount_won == old(self).amount_won,
            final(self).losses == old(self).losses + 1,
            final(self).amount_lost == old(self).amount_lost + old(self).hands()[hand_index as int].bet
                / 2,
    {
        self.losses += 1;
        self.amount_lost += hands_get(&self.current_round.hands, hand_index).bet / 2;
    }

    /// Books a pushed hand: its bet comes back.
    pub fn push(&mut self, hand_index: usize)
        requires
            hand_index < old(self).hands().len(),
            old(self).pushes < usize::MAX,
            old(self).bankroll + old(self).hands()[hand_index as int].bet <= usize::MAX,
        ensures
            final(self).same_session(old(self)),
            final(self).same_plays(old(self)),
            final(self).count == old(self).count,
            final(self).current_round == old(self).current_round,
            final(self).wins == old(self).wins,
            final(self).losses == old(self).losses,
            final(self).blackjacks == old(self).blackjacks,
            final(self).amount_won == old(self).amount_won,
            final(self).amount_lost == old(self).amount_lost,
            final(self).pushes == old(self).pushes + 1,
            final(self).bankroll == old(self).bankroll + old(self).hands()[hand_index as int].bet,
    {
        let bet = hands_get(&self.current_round.hands, hand_index).bet;
        self.pushes += 1;
        self.bankroll += bet;
    }
}

/// A bust hand is a loss whatever the dealer holds, a bust dealer included:
/// the bet is lost and nothing comes back.
pub proof fn lemma_bust_is_loss(hand: Hand, dealer: Seq<Card>)
    requires
        hand_total(hand.cards@) > 21,
    ensures
        outcome_of(hand, dealer, false) == Outcome::Loss,
        lost_of(hand, dealer, false) == hand.bet,
        won_of(hand, dealer, false) == 0,
        returned_of(hand, dealer, false) == 0,
{
}

/// What a hand adds to the amount won: its bet if it wins, and half the bet
/// more if it is a blackjack.
pub open spec fn won_of(hand: Hand, dealer: Seq<Card>, surrendered: bool) -> int {
    match outcome_of(hand, dealer, surrendered) {
        Outcome::Win => hand.bet as int,
        Outcome::Blackjack => hand.bet + hand.bet / 2,
        _ => 0,
    }
}

/// What a hand adds to the amount lost: its bet if it loses, half of it if
/// the round was surrendered.
pub open spec fn lost_of(hand: Hand, dealer: Seq<Card>, surrendered: bool) -> int {
    match outcome_of(hand, dealer, surrendered) {
        Outcome::Loss => hand.bet as int,
        Outcome::Surrendered => (hand.bet / 2) as int,
        _ => 0,
    }
}

/// What a hand brings back to the bankroll when it is settled: its bet on a
/// push, twice the bet on a win, and half the bet more on a blackjack.
pub open spec fn returned_of(hand: Hand, dealer: Seq<Card>, surrendered: bool) -> int {
    match outcome_of(hand, dealer, surrendered) {
        Outcome::Push => hand.bet as int,
        Outcome::Win => hand.bet * 2,
        Outcome::Blackjack => hand.bet * 2 + hand.bet / 2,
        _ => 0,
    }
}

/// One for a hand that is booked as a win, nothing otherwise.
pub open spec fn wins_of(hand: Hand, dealer: Seq<Card>, surrendered: bool) -> int {
    match outcome_of(hand, dealer, surrendered) {
        Outcome::Win | Outcome::Blackjack => 1,
        _ => 0,
    }
}

/// One for a hand that is booked as a loss, nothing otherwise. A surrendered
/// hand is booked as a loss.
pub open spec fn losses_of(hand: Hand, dealer: Seq<Card>, surrendered: bool) -> int {
    match outcome_of(hand, dealer, surrendered) {
        Outcome::Loss | Outcome::Surrendered => 1,
        _ => 0,
    }
}

/// One for a hand that is booked as a push, nothing otherwise.
pub open spec fn pushes_of(hand: Hand, dealer: Seq<Card>, surrendered: bool) -> int {
    match outcome_of(hand, dealer, surrendered) {
        Outcome::Push => 1,
        _ => 0,
    }
}

/// One for a hand that is booked as a blackjack, nothing otherwise.
pub open spec fn blackjacks_of(hand: Hand, dealer: Seq<Card>, surrendered: bool) -> int {
    match outcome_of(hand, dealer, surrendered) {
        Outcome::Blackjack => 1,
        _ => 0,
    }
}

/// The tallies of results and the bankroll of `after` are those of `before`
/// with every one of `hands` settled against `dealer`.
pub open spec fn settled(
    before: &Game,
    after: &Game,
    hands: Seq<Hand>,
    dealer: Seq<Card>,
    surrendered: bool,
) -> bool {
    &&& after.wins == before.wins + sum_hands(
        hands,
        |hand: Hand| wins_of(hand, dealer, surrendered),
    )
    &&& after.losses == before.losses + sum_hands(
        hands,
        |hand: Hand| losses_of(hand, dealer, surrendered),
    )
    &&& after.pushes == before.pushes + sum_hands(
        hands,
        |hand: Hand| pushes_of(hand, dealer, surrendered),
    )
    &&& after.blackjacks == before.blackjacks + sum_hands(
        hands,
        |hand: Hand| blackjacks_of(hand, dealer, surrendered),
    )
    &&& after.amount_won == before.amount_won + sum_hands(
        hands,
        |hand: Hand| won_of(hand, dealer, surrendered),
    )
    &&& after.amount_lost == before.amount_lost + sum_hands(
        hands,
        |hand: Hand| lost_of(hand, dealer, surrendered),
    )
    &&& after.bankroll == before.bankroll + sum_hands(
        hands,
        |hand: Hand| returned_of(hand, dealer, surrendered),
    )
}

/// Settling `hands` against `dealer` overflows no tally of `game`.
pub open spec fn settle_fits(game: &Game, hands: Seq<Hand>, dealer: Seq<Card>, surrendered: bool) -> bool {
    &&& game.wins + sum_hands(hands, |hand: Hand| wins_of(hand, dealer, surrendered))
        <= usize::MAX
    &&& game.losses + sum_hands(hands, |hand: Hand| losses_of(hand, dealer, surrendered))
        <= usize::MAX
    &&& game.pushes + sum_hands(hands, |hand: Hand| pushes_of(hand, dealer, surrendered))
        <= usize::MAX
    &&& game.blackjacks + sum_hands(hands, |hand: Hand| blackjacks_of(hand, dealer, surrendered))
        <= usize::MAX
    &&& game.amount_won + sum_hands(hands, |hand: Hand| won_of(hand, dealer, surrendered))
        <= usize::MAX
    &&& game.amount_lost + sum_hands(hands, |hand: Hand| lost_of(hand, dealer, surrendered))
        <= usize::MAX
    &&& game.bankroll + sum_hands(hands, |hand: Hand| returned_of(hand, dealer, surrendered))
        <= usize::MAX
}

/// Where settling all of `hands` overflows nothing, settling the first
/// `j + 1` of them overflows nothing either.
proof fn lemma_settle_fits_step(
    before: &Game,
    hands: Seq<Hand>,
    dealer: Seq<Card>,
    surrendered: bool,
    j: int,
)
    requires
        0 <= j < hands.len(),
        settle_fits(before, hands, dealer, surrendered),
    ensures
        settle_fits(before, hands.take(j + 1), dealer, surrendered),
{
    lemma_sum_prefix(hands, |hand: Hand| wins_of(hand, dealer, surrendered), j + 1);
    lemma_sum_prefix(hands, |hand: Hand| losses_of(hand, dealer, surrendered), j + 1);
    lemma_sum_prefix(hands, |hand: Hand| pushes_of(hand, dealer, surrendered), j + 1);
    lemma_sum_prefix(hands, |hand: Hand| blackjacks_of(hand, dealer, surrendered), j + 1);
    lemma_sum_prefix(hands, |hand: Hand| won_of(hand, dealer, surrendered), j + 1);
    lemma_sum_prefix(hands, |hand: Hand| lost_of(hand, dealer, surrendered), j + 1);
    lemma_sum_prefix(hands, |hand: Hand| returned_of(hand, dealer, surrendered), j + 1);
}

impl Game {
    /// Books hand `hand_index` by its outcome against the dealer: a loss of
    /// half the bet where the round was surrendered, else a loss for a bust
    /// hand, a push for a hand level with the dealer, a win for a hand that
    /// beats the dealer, and a loss for any other.
    pub fn settle_hand(&mut self, hand_index: usize, surrendered: bool)
        requires
            hand_index < old(self).hands().len(),
            raw_total(old(self).hands()[hand_index as int].cards@) <= u8::MAX,
            raw_total(old(self).current_round.dealer@) <= u8::MAX,
            settle_fits(
                old(self),
                seq![old(self).hands()[hand_index as int]],
                old(self).current_round.dealer@,
                surrendered,
            ),
        ensures
            final(self).same_session(old(self)),
            final(self).same_plays(old(self)),
            final(self).count == old(self).count,
            final(self).current_round == old(self).current_round,
            settled(
                old(self),
                final(self),
                seq![old(self).hands()[hand_index as int]],
                old(self).current_round.dealer@,
                surrendered,
            ),
    {
        let ghost hand = self.hands()[hand_index as int];
        let ghost dealer = self.current_round.dealer@;
        proof {
            lemma_sum_one(hand, |hand: Hand| wins_of(hand, dealer, surrendered));
            lemma_sum_one(hand, |hand: Hand| losses_of(hand, dealer, surrendered));
            lemma_sum_one(hand, |hand: Hand| pushes_of(hand, dealer, surrendered));
            lemma_sum_one(hand, |hand: Hand| blackjacks_of(hand, dealer, surrendered));
            lemma_sum_one(hand, |hand: Hand| won_of(hand, dealer, surrendered));
            lemma_sum_one(hand, |hand: Hand| lost_of(hand, dealer, surrendered));
            lemma_sum_one(hand, |hand: Hand| returned_of(hand, dealer, surrendered));
        }
        if surrendered {
            self.surrendered(hand_index);
        } else if self.is_bust(hand_index) {
            self.loss(hand_index);
        } else if self.is_push(hand_index) {
            self.push(hand_index);
        } else if self.is_winner(hand_index) {
            self.award_winnings(hand_index);
        } else {
            self.loss(hand_index);
        }
    }

    /// Settles every hand of the round against the dealer's final hand.
    pub fn settle(&mut self, surrendered: bool)
        requires
            forall|j: int|
                0 <= j < old(self).hands().len() ==> raw_total(
                    (#[trigger] old(self).hands()[j]).cards@,
                ) <= u8::MAX,
            raw_total(old(self).current_round.dealer@) <= u8::MAX,
            settle_fits(
                old(self),
                old(self).hands(),
                old(self).current_round.dealer@,
                surrendered,
            ),
        ensures
            final(self).settle_made(old(self), surrendered),
    {
        let ghost hands = self.hands();
        let ghost dealer = self.current_round.dealer@;
        let n = hands_len(&self.current_round.hands);
        let mut hand_index: usize = 0;
        proof {
            assert(hands.take(0) == Seq::<Hand>::empty());
        }
        while hand_index < n
            invariant
                hand_index <= n,
                n == hands.len(),
                hands == old(self).hands(),
                dealer == old(self).current_round.dealer@,
                self.same_session(old(self)),
                self.same_plays(old(self)),
                self.count == old(self).count,
                self.current_round == old(self).current_round,
                forall|j: int| 0 <= j < hands.len() ==> raw_total((#[trigger] hands[j]).cards@) <= u8::MAX,
                raw_total(dealer) <= u8::MAX,
                settle_fits(old(self), hands, dealer, surrendered),
                settled(old(self), self, hands.take(hand_index as int), dealer, surrendered),
            decreases n - hand_index,
        {
            let ghost mid = *self;
            proof {
                let hand = hands[hand_index as int];
                lemma_settle_fits_step(old(self), hands, dealer, surrendered, hand_index as int);
                lemma_sum_take(hands, |hand: Hand| wins_of(hand, dealer, surrendered), hand_index as int);
                lemma_sum_take(hands, |hand: Hand| losses_of(hand, dealer, surrendered), hand_index as int);
                lemma_sum_take(hands, |hand: Hand| pushes_of(hand, dealer, surrendered), hand_index as int);
                lemma_sum_take(hands, |hand: Hand| blackjacks_of(hand, dealer, surrendered), hand_index as int);
                lemma_sum_take(hands, |hand: Hand| won_of(hand, dealer, surrendered), hand_index as int);
                lemma_sum_take(hands, |hand: Hand| lost_of(hand, dealer, surrendered), hand_index as int);
                lemma_sum_take(hands, |hand: Hand| returned_of(hand, dealer, surrendered), hand_index as int);
                lemma_sum_one(hand, |hand: Hand| wins_of(hand, dealer, surrendered));
                lemma_sum_one(hand, |hand: Hand| losses_of(hand, dealer, surrendered));
                lemma_sum_one(hand, |hand: Hand| pushes_of(hand, dealer, surrendered));
                lemma_sum_one(hand, |hand: Hand| blackjacks_of(hand, dealer, surrendered));
                lemma_sum_one(hand, |hand: Hand| won_of(hand, dealer, surrendered));
                lemma_sum_one(hand, |hand: Hand| lost_of(hand, dealer, surrendered));
                lemma_sum_one(hand, |hand: Hand| returned_of(hand, dealer, surrendered));
            }
            self.settle_hand(hand_index, surrendered);
            hand_index += 1;
        }
        proof {
            assert(hands.take(n as int) == hands);
        }
    }
}

impl Game {
    /// A new session: the rules, the bankroll and the rounds to play as
    /// given, a fresh count, every tally at zero, a full shuffled shoe, and a
    /// first hand for the player and the dealer, dealt from a shoe of their
    /// own.
    pub fn new(rules: GameRules, bankroll: usize, rounds_to_play: usize) -> (game: Game)
        requires
            rules.decks_in_shoe > 0,
        ensures
            game.rounds_left == rounds_to_play,
            game.rules == rules,
            game.bankroll == bankroll,
            game.count == (Count { running_count: 0, cards_seen: 0, std_bet: 100 }),
            game.wins == 0 && game.losses == 0 && game.pushes == 0 && game.blackjacks == 0,
            game.hits == 0 && game.doubles == 0 && game.splits == 0 && game.stands == 0
                && game.surrenders == 0,
            game.amount_bet == 0 && game.amount_won == 0 && game.amount_lost == 0,
            game.current_round.rules == rules,
            !game.current_round.has_split_aces,
            game.current_round.shoe@.to_multiset() == crate::cardutils::fresh_shoe(
                rules.decks_in_shoe as nat,
            ).to_multiset(),
            game.current_round.shoe@.len() == 52 * rules.decks_in_shoe,
            game.current_round.shoe.wf(),
            game.hands().len() == 1,
            game.hands()[0].bet == 100,
            game.hands()[0].split_from is None,
            game.hands()[0].cards@.len() == 2,
            cards_wf(game.hands()[0].cards@),
            game.current_round.dealer@.len() == 2,
            cards_wf(game.current_round.dealer@),
    {
        let mut shoe = Shoe::new(rules.decks_in_shoe);
        let count = Count::new();
        let (hand, _) = Hand::new(count.std_bet, &mut shoe);
        let (dealer, _) = HandCards::from(&mut shoe);
        let mut hands = hands_new();
        hands_push(&mut hands, hand);
        Game {
            rounds_left: rounds_to_play,
            rules,
            count,
            wins: 0,
            blackjacks: 0,
            current_round: Round {
                shoe: Shoe::new(rules.decks_in_shoe),
                rules,
                hands,
                dealer,
                has_split_aces: false,
            },
            losses: 0,
            pushes: 0,
            surrenders: 0,
            amount_bet: 0,
            amount_lost: 0,
            amount_won: 0,
            doubles: 0,
            hits: 0,
            stands: 0,
            splits: 0,
            bankroll,
        }
    }
}

impl HandVec {
    /// The hands of `hands`, in their order.
    pub fn from_vec(hands: Vec<Hand>) -> (held: HandVec)
        ensures
            hand_items(held) == hands@,
    {
        let mut rest = hands;
        let mut held = hands_new();
        while rest.len() > 0
            invariant
                hand_items(held) + rest@ == hands@,
            decreases rest.len(),
        {
            let ghost before = rest@;
            let hand = rest.remove(0);
            hands_push(&mut held, hand);
            assert(hand_items(held) + rest@ == hands@) by {
                assert(before == seq![hand] + rest@);
            }
        }
        assert(hand_items(held) + rest@ == hand_items(held));
        held
    }

    pub fn len(&self) -> (n: usize)
        ensures
            n == hand_items(*self).len(),
    {
        hands_len(self)
    }

    /// The hand at position `i`, which must be in range.
    pub fn get(&self, i: usize) -> (hand: &Hand)
        requires
            i < hand_items(*self).len(),
        ensures
            *hand == hand_items(*self)[i as int],
    {
        hands_get(self, i)
    }
}

} // verus!
