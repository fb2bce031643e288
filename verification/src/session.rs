//! The round driver: a round is dealt, the player's hands are played by the
//! table, the dealer plays, every hand is settled, and the shoe is shuffled
//! anew when it runs low; a session is round after round.

use crate::basicstrategy::{
    can_decide, has_table, lemma_move_fits, spec_make_move, BasicStrategyLUT, Decision,
};
use crate::cardutils::{
    cards_wf, dealer_must_hit, dealt, hilo_total, lemma_dealer_stands_within,
    lemma_raw_total_bounds, lemma_raw_total_push, raw_total, Card, HandCards,
};
use crate::gamelogic::{
    blackjacks_of, losses_of, lost_of, pushes_of, returned_of, settle_fits, settled, wins_of,
    won_of, Game, Hand,
};
use crate::storage::{cards_get, hands_len, hands_new, hands_push};
use crate::tally::{
    bet_fn, bets_total, cards_fn, cards_total, lemma_sum_add, lemma_sum_bounds, lemma_sum_one,
    lemma_sum_push, lemma_sum_update, sum_hands,
};
use vstd::prelude::*;

verus! {

/// A hand as it sits at the table during a round: two to nine valid cards,
/// and a bet of once or twice the standard bet.
spec fn seated(hand: Hand, std_bet: int) -> bool {
    &&& cards_wf(hand.cards@)
    &&& 2 <= hand.cards@.len() <= 9
    &&& (hand.bet == std_bet || hand.bet == 2 * std_bet)
}

/// The slack of hand `i`: how many cards it can still take before it holds
/// nine.
spec fn slack(hands: Seq<Hand>, i: int) -> int {
    if 0 <= i < hands.len() {
        9 - hands[i].cards@.len()
    } else {
        0
    }
}

/// One move: hand `i` of `before` is played as the table says for it, and
/// `after` is what the move leaves. A hit and a split leave the same hand to
/// play, `next` being `i`; a stand, a double and the surrender go on to the
/// next hand; `surrendered` says whether the move was the surrender.
pub open spec fn moved(before: &Game, i: int, after: &Game, next: int, surrendered: bool) -> bool {
    &&& 0 <= i < before.hands().len()
    &&& match spec_make_move(before, i) {
        Decision::Hit => after.hit_made(before, i) && next == i && !surrendered,
        Decision::Stand => after.stand_made(before) && next == i + 1 && !surrendered,
        Decision::Double => after.double_made(before, i) && next == i + 1 && !surrendered,
        Decision::Split => after.split_made(before, i) && next == i && !surrendered,
        Decision::Surrender => after.surrender_made(before) && next == i + 1 && surrendered,
        _ => false,
    }
}

/// `moves` moves lead from `start`, dealt and with its first hand to play,
/// to `after` with hand `next` to play.
pub open spec fn hands_run(
    start: &Game,
    after: &Game,
    next: int,
    surrendered: bool,
    moves: nat,
) -> bool
    decreases moves,
{
    if moves == 0 {
        *after == *start && next == 0 && !surrendered
    } else {
        exists|mid: Game, i: int|
            hands_run(start, &mid, i, false, (moves - 1) as nat) && #[trigger] moved(
                &mid,
                i,
                after,
                next,
                surrendered,
            )
    }
}

/// The player's hands of `start` are played out in `after`: some number of
/// moves, each the move of the table, lead from the first hand of `start` to
/// the point in `after` where no hand is left to play.
pub open spec fn hands_played(start: &Game, after: &Game, surrendered: bool) -> bool {
    exists|moves: nat| #[trigger]
        hands_run(start, after, after.hands().len() as int, surrendered, moves)
}

/// The stages of one round from `before` to `after`: the round is dealt,
/// the player's hands are played, the dealer plays, every hand is settled,
/// and the shoe is shuffled anew if the cards left are down to the
/// penetration of the rules.
pub open spec fn round_trace(
    before: &Game,
    dealt_in: &Game,
    played: &Game,
    turned: &Game,
    booked: &Game,
    after: &Game,
    surrendered: bool,
) -> bool {
    &&& dealt_in.dealt_in(before)
    &&& hands_played(dealt_in, played, surrendered)
    &&& turned.dealer_played(played)
    &&& booked.settle_made(turned, surrendered)
    &&& if booked.current_round.shoe@.len() <= booked.rules.deck_penetration {
        after.reshuffled(booked)
    } else {
        *after == *booked
    }
}

/// `after` is `before` with one round played.
pub open spec fn round_run(before: &Game, after: &Game) -> bool {
    exists|dealt_in: Game, played: Game, turned: Game, booked: Game, surrendered: bool|
        round_trace(before, &dealt_in, &played, &turned, &booked, after, surrendered)
}

/// `after` is `before` with one round of the session played: a round is
/// left and the bankroll is over eight standard bets; `played` is the round
/// played; and the round is taken off the rounds left unless it left the
/// bankroll at or under eight standard bets.
pub open spec fn round_counted(before: &Game, played: &Game, after: &Game) -> bool {
    &&& before.rounds_left > 0
    &&& before.bankroll > 8 * before.count.std_bet
    &&& round_run(before, played)
    &&& if played.bankroll <= 8 * played.count.std_bet {
        *after == *played
    } else {
        *after == (Game { rounds_left: (played.rounds_left - 1) as usize, ..*played })
    }
}

/// `rounds` rounds of the session lead from `first` to `last`.
pub open spec fn session_run(first: &Game, last: &Game, rounds: nat) -> bool
    decreases rounds,
{
    if rounds == 0 {
        *last == *first
    } else {
        exists|mid: Game, played: Game|
            session_run(first, &mid, (rounds - 1) as nat) && #[trigger] round_counted(
                &mid,
                &played,
                last,
            )
    }
}

/// Once a split has been made, surrender is closed for the rest of the
/// round: no move in a split round is the surrender, and every move leaves
/// the round split.
pub proof fn lemma_split_closes_surrender(
    before: &Game,
    i: int,
    after: &Game,
    next: int,
    surrendered: bool,
)
    requires
        can_decide(&before.current_round, i),
        moved(before, i, after, next, surrendered),
        before.current_round.splits() > 0,
    ensures
        !before.current_round.spec_can_surrender(),
        !surrendered,
        after.current_round.splits() > 0,
        !after.current_round.spec_can_surrender(),
{
    lemma_move_fits(before, i);
}

/// One move more: a run of moves and the move that follows are a run of one
/// move more.
proof fn lemma_run_step(
    start: &Game,
    mid: &Game,
    i: int,
    after: &Game,
    next: int,
    surrendered: bool,
    moves: nat,
)
    requires
        hands_run(start, mid, i, false, moves),
        moved(mid, i, after, next, surrendered),
    ensures
        hands_run(start, after, next, surrendered, moves + 1),
{
    assert(hands_run(start, &*mid, i, false, ((moves + 1) - 1) as nat) && moved(
        &*mid,
        i,
        after,
        next,
        surrendered,
    ));
}

/// One round more: a run of rounds and the round that follows are a run of
/// one round more.
proof fn lemma_session_step(
    first: &Game,
    mid: &Game,
    played: &Game,
    last: &Game,
    rounds: nat,
)
    requires
        session_run(first, mid, rounds),
        round_counted(mid, played, last),
    ensures
        session_run(first, last, rounds + 1),
{
    assert(session_run(first, &*mid, ((rounds + 1) - 1) as nat));
}

impl Game {
    /// The tallies have room for `rounds` more rounds: a round adds at most
    /// 36 to any tally of plays, 4 to any tally of results, and at most 20
    /// standard bets to any amount.
    pub open spec fn room_for(&self, rounds: int) -> bool {
        let money = self.count.std_bet * rounds;
        &&& self.hits + 36 * rounds <= usize::MAX
        &&& self.doubles + 4 * rounds <= usize::MAX
        &&& self.splits + 4 * rounds <= usize::MAX
        &&& self.stands + 4 * rounds <= usize::MAX
        &&& self.surrenders + 4 * rounds <= usize::MAX
        &&& self.wins + 4 * rounds <= usize::MAX
        &&& self.losses + 4 * rounds <= usize::MAX
        &&& self.pushes + 4 * rounds <= usize::MAX
        &&& self.blackjacks + 4 * rounds <= usize::MAX
        &&& self.amount_won + 20 * money <= usize::MAX
        &&& self.amount_lost + 20 * money <= usize::MAX
        &&& self.bankroll + 20 * money <= usize::MAX
    }

    /// A round can be played: the shoe holds at least 45 valid cards, which
    /// no round outruns, the count has room for them, the bankroll covers
    /// the eight standard bets a round can take, and the tallies have room.
    spec fn round_ready(&self) -> bool {
        &&& self.rules.decks_in_shoe > 0
        &&& self.current_round.shoe.wf()
        &&& self.current_round.shoe@.len() >= 45
        &&& self.count.has_room(self.current_round.shoe@.len() as int)
        &&& 8 * self.count.std_bet <= usize::MAX
        &&& self.bankroll >= 8 * self.count.std_bet
        &&& self.room_for(1)
    }

    /// The round has just been dealt from the shoe of `before`: the first
    /// two cards to the player's only hand, the next two to the dealer, the
    /// standard bet taken from the bankroll, the player's cards and the
    /// dealer's first card counted.
    pub open spec fn dealt_in(&self, before: &Game) -> bool {
        let shoe0 = before.current_round.shoe@;
        &&& self.same_session(before)
        &&& self.same_plays(before)
        &&& self.same_results(before)
        &&& self.bankroll == before.bankroll - before.count.std_bet
        &&& self.hands().len() == 1
        &&& self.hands()[0].cards@ == dealt(shoe0, 2)
        &&& self.hands()[0].bet == before.count.std_bet
        &&& self.hands()[0].split_from is None
        &&& self.current_round.dealer@ == dealt(shoe0.take(shoe0.len() - 2), 2)
        &&& self.current_round.shoe@ == shoe0.take(shoe0.len() - 4)
        &&& self.current_round.shoe.wf()
        &&& !self.current_round.has_split_aces
        &&& self.current_round.rules == before.current_round.rules
        &&& self.count == before.count.spec_record(
            hilo_total(dealt(shoe0, 2)) + shoe0[shoe0.len() - 3].spec_hilo(),
            3,
        )
    }

    /// What holds while the player's hands are played, `start` being the
    /// round as it was dealt: there are one to four hands, each seated, those
    /// not yet played at the standard bet; the cards in the hands and in the
    /// shoe are as many as at the start; every finished hand ended in a
    /// stand, a double or the surrender; every hand but the first was made
    /// by a split; every card beyond the first two of a hand came by a hit
    /// or a double; and the bets on the table are what left the bankroll.
    spec fn playing(&self, start: &Game, hand_index: int, surrendered: bool) -> bool {
        let hands = self.hands();
        let std_bet = self.count.std_bet as int;
        let shoe = self.current_round.shoe@;
        &&& self.same_session(start)
        &&& self.same_results(start)
        &&& 1 <= hands.len() <= 4
        &&& 0 <= hand_index <= hands.len()
        &&& forall|j: int| 0 <= j < hands.len() ==> seated(#[trigger] hands[j], std_bet)
        &&& forall|j: int| hand_index <= j < hands.len() ==> (#[trigger] hands[j]).bet == std_bet
        &&& self.current_round.dealer == start.current_round.dealer
        &&& self.current_round.dealer@.len() == 2
        &&& cards_wf(self.current_round.dealer@)
        &&& self.current_round.shoe.wf()
        &&& shoe.len() + cards_total(hands) == start.current_round.shoe@.len() + 2
        &&& start.current_round.shoe@.len() >= 41
        &&& self.count.has_room(shoe.len() as int + 1)
        &&& self.count.cards_seen + shoe.len() == start.count.cards_seen
            + start.current_round.shoe@.len()
        &&& 8 * std_bet <= usize::MAX
        &&& start.bankroll >= 7 * std_bet
        &&& start.hits + 36 <= usize::MAX
        &&& start.doubles + 4 <= usize::MAX
        &&& start.splits + 4 <= usize::MAX
        &&& start.stands + 4 <= usize::MAX
        &&& start.surrenders + 4 <= usize::MAX
        &&& start.bankroll + 21 * std_bet <= usize::MAX
        &&& self.stands >= start.stands
        &&& self.doubles >= start.doubles
        &&& self.hits >= start.hits
        &&& self.stands + self.doubles + self.surrenders == start.stands + start.doubles
            + start.surrenders + hand_index
        &&& self.splits == start.splits + hands.len() - 1
        &&& self.hits + self.doubles + 2 * hands.len() == start.hits + start.doubles + cards_total(
            hands,
        )
        &&& self.surrenders == start.surrenders + if surrendered {
            1int
        } else {
            0int
        }
        &&& surrendered ==> hands.len() == 1 && hand_index == 1 && hands[0].bet == std_bet
        &&& self.bankroll + bets_total(hands) == start.bankroll + std_bet + if surrendered {
            std_bet / 2
        } else {
            0
        }
    }

    /// Starts a round: takes the standard bet, deals two cards to a new hand
    /// of the player and two to the dealer, and counts the player's cards
    /// and the dealer's first card. The dealer's second card is counted when
    /// the dealer plays.
    fn new_round(&mut self)
        requires
            old(self).current_round.shoe.wf(),
            old(self).current_round.shoe@.len() >= 4,
            old(self).count.has_room(3),
            old(self).bankroll >= old(self).count.std_bet,
        ensures
            final(self).dealt_in(old(self)),
    {
        let ghost shoe0 = self.current_round.shoe@;
        proof {
            lemma_raw_total_bounds(dealt(shoe0, 2));
        }
        self.bankroll -= self.count.std_bet;
        let (hand, hi_lo_value) = Hand::new(self.count.std_bet, &mut self.current_round.shoe);
        self.count.record(hi_lo_value, 2);
        let mut hands = hands_new();
        hands_push(&mut hands, hand);
        self.current_round.hands = hands;
        let (dealer, _) = HandCards::from(&mut self.current_round.shoe);
        self.count.update(dealer.first_card().hilo_value());
        self.current_round.dealer = dealer;
        self.current_round.has_split_aces = false;
        proof {
            assert(self.current_round.shoe@ == shoe0.take(shoe0.len() - 4));
        }
    }

    /// Plays the player's hands in turn, each by the moves of the table,
    /// until every hand has stood, doubled, or the round is surrendered.
    /// Says whether the round was surrendered.
    fn play_hands(&mut self, lut: &BasicStrategyLUT) -> (surrendered: bool)
        requires
            old(self).playing(old(self), 0, false),
        ensures
            hands_played(old(self), final(self), surrendered),
            final(self).playing(old(self), final(self).hands().len() as int, surrendered),
    {
        let mut hand_index: usize = 0;
        let mut surrendered = false;
        let ghost mut moves: nat = 0;
        while hand_index < hands_len(&self.current_round.hands)
            invariant
                self.playing(old(self), hand_index as int, surrendered),
                hands_run(old(self), self, hand_index as int, surrendered, moves),
            decreases
                    4 - self.hands().len(),
                    self.hands().len() - hand_index,
                    slack(self.hands(), hand_index as int),
        {
            let ghost before = *self;
            let ghost at = hand_index as int;
            proof {
                lemma_playing_bounds(&before, old(self), at, surrendered);
                lemma_move_fits(&before, at);
            }
            let play = lut.make_move(self, hand_index);
            match play {
                Decision::Hit => {
                    self.hit(hand_index);
                    proof {
                        lemma_after_hit(&before, self, old(self), at);
                    }
                },
                Decision::Stand => {
                    self.stand();
                    hand_index += 1;
                },
                Decision::Double => {
                    self.double(hand_index);
                    proof {
                        lemma_after_double(&before, self, old(self), at);
                    }
                    hand_index += 1;
                },
                Decision::Split => {
                    self.split(hand_index);
                    proof {
                        lemma_after_split(&before, self, old(self), at);
                    }
                },
                Decision::Surrender => {
                    self.surrender();
                    hand_index += 1;
                    surrendered = true;
                },
                _ => {
                    vstd::pervasive::unreached::<()>();
                },
            }
            proof {
                lemma_run_step(old(self), &before, at, self, hand_index as int, surrendered, moves);
                moves = moves + 1;
            }
        }
        surrendered
    }
}

/// What [`Game::playing`] gives before a move on hand `i`: the hand can be
/// looked up, the shoe has the cards a move may take, the count has room for
/// them, the bankroll covers another bet, and no tally is at its limit.
proof fn lemma_playing_bounds(game: &Game, start: &Game, i: int, surrendered: bool)
    requires
        game.playing(start, i, surrendered),
        i < game.hands().len(),
    ensures
        !surrendered,
        can_decide(&game.current_round, i),
        game.current_round.shoe@.len() >= 7,
        game.current_round.shoe@[game.current_round.shoe@.len() - 1].wf(),
        game.current_round.shoe@[game.current_round.shoe@.len() - 2].wf(),
        game.count.has_room(2),
        game.hands()[i].bet == game.count.std_bet,
        game.hands()[i].bet * 2 <= usize::MAX,
        game.bankroll >= game.hands()[i].bet,
        game.bankroll + game.hands()[0].bet / 2 <= usize::MAX,
        game.hits < usize::MAX,
        game.doubles < usize::MAX,
        game.stands < usize::MAX,
        game.surrenders < usize::MAX,
        game.splits < usize::MAX,
        cards_total(game.hands()) <= 36,
{
    let hands = game.hands();
    let std_bet = game.count.std_bet as int;
    lemma_raw_total_bounds(hands[i].cards@);
    assert(seated(hands[i], std_bet));
    assert(seated(hands[0], std_bet));
    assert forall|j: int| 0 <= j < hands.len() implies 2 <= cards_fn()(#[trigger] hands[j])
        <= 9 by {
        assert(seated(hands[j], std_bet));
    }
    lemma_sum_bounds(hands, cards_fn(), 2, 9);
    assert(game.current_round.dealer@[0].wf());
    // The bets: every hand but this one is at most doubled.
    let doubled = Hand { bet: (2 * std_bet) as usize, ..hands[i] };
    let raised = hands.update(i, doubled);
    assert forall|j: int| 0 <= j < raised.len() implies std_bet <= bet_fn()(#[trigger] raised[j])
        <= 2 * std_bet by {
        if j != i {
            assert(seated(hands[j], std_bet));
        }
    }
    lemma_sum_bounds(raised, bet_fn(), std_bet, 2 * std_bet);
    lemma_sum_update(hands, raised, bet_fn(), i);
    assert((2 * std_bet) * raised.len() <= 8 * std_bet) by (nonlinear_arith)
        requires
            raised.len() <= 4,
            std_bet >= 0,
    ;
}

/// A hit on hand `i` keeps [`Game::playing`] and uses up one card of the
/// hand's slack.
proof fn lemma_after_hit(before: &Game, after: &Game, start: &Game, i: int)
    requires
        before.playing(start, i, false),
        0 <= i < before.hands().len(),
        before.hands()[i].cards@.len() <= 8,
        before.current_round.shoe@.len() > 0,
        after.hit_made(before, i),
        after.current_round.shoe.wf(),
    ensures
        after.playing(start, i, false),
        slack(after.hands(), i) < slack(before.hands(), i),
{
    let a = before.hands();
    let b = after.hands();
    let std_bet = before.count.std_bet as int;
    let card = before.current_round.shoe@.last();
    assert(card.wf());
    assert(seated(a[i], std_bet));
    lemma_raw_total_push(a[i].cards@, card);
    assert forall|j: int| 0 <= j < b.len() implies seated(#[trigger] b[j], std_bet) by {
        if j != i {
            assert(seated(a[j], std_bet));
        }
    }
    assert forall|j: int| i <= j < b.len() implies (#[trigger] b[j]).bet == std_bet by {
        assert(a[j].bet == std_bet);
    }
    lemma_sum_update(a, b, cards_fn(), i);
    lemma_sum_update(a, b, bet_fn(), i);
}

/// A double on hand `i` keeps [`Game::playing`] for the next hand.
proof fn lemma_after_double(before: &Game, after: &Game, start: &Game, i: int)
    requires
        before.playing(start, i, false),
        0 <= i < before.hands().len(),
        before.current_round.spec_can_double(i),
        before.current_round.shoe@.len() > 0,
        after.double_made(before, i),
        after.current_round.shoe.wf(),
    ensures
        after.playing(start, i + 1, false),
{
    let a = before.hands();
    let b = after.hands();
    let std_bet = before.count.std_bet as int;
    let card = before.current_round.shoe@.last();
    assert(card.wf());
    assert(seated(a[i], std_bet));
    assert(a[i].bet == std_bet);
    lemma_raw_total_push(a[i].cards@, card);
    assert forall|j: int| 0 <= j < b.len() implies seated(#[trigger] b[j], std_bet) by {
        if j != i {
            assert(seated(a[j], std_bet));
        }
    }
    assert forall|j: int| i + 1 <= j < b.len() implies (#[trigger] b[j]).bet == std_bet by {
        assert(a[j].bet == std_bet);
    }
    lemma_sum_update(a, b, cards_fn(), i);
    lemma_sum_update(a, b, bet_fn(), i);
}

/// A split of hand `i` keeps [`Game::playing`] for the same hand and adds a
/// hand.
proof fn lemma_after_split(before: &Game, after: &Game, start: &Game, i: int)
    requires
        before.playing(start, i, false),
        0 <= i < before.hands().len(),
        before.current_round.spec_can_split(i),
        before.current_round.shoe@.len() >= 2,
        after.split_made(before, i),
        after.current_round.shoe.wf(),
    ensures
        after.playing(start, i, false),
{
    let a = before.hands();
    let b = after.hands();
    let kept = b.drop_last();
    let made = b.last();
    let std_bet = before.count.std_bet as int;
    let shoe = before.current_round.shoe@;
    assert(shoe[shoe.len() - 1].wf());
    assert(shoe[shoe.len() - 2].wf());
    assert(seated(a[i], std_bet));
    assert(a[i].bet == std_bet);
    assert(a[i].cards@[0].wf());
    assert(a[i].cards@[1].wf());
    assert forall|j: int| 0 <= j < b.len() implies seated(#[trigger] b[j], std_bet) by {
        if j != i && j < a.len() {
            assert(seated(a[j], std_bet));
        }
    }
    assert forall|j: int| i <= j < b.len() implies (#[trigger] b[j]).bet == std_bet by {
        if j < a.len() {
            assert(a[j].bet == std_bet);
        }
    }
    assert(kept.push(made) == b);
    lemma_sum_push(kept, made, cards_fn());
    lemma_sum_push(kept, made, bet_fn());
    assert forall|j: int| 0 <= j < a.len() && j != i implies cards_fn()(#[trigger] kept[j])
        == cards_fn()(a[j]) by {
        assert(b[j] == a[j]);
    }
    assert forall|j: int| 0 <= j < a.len() && j != i implies bet_fn()(#[trigger] kept[j])
        == bet_fn()(a[j]) by {
        assert(b[j] == a[j]);
    }
    lemma_sum_update(a, kept, cards_fn(), i);
    lemma_sum_update(a, kept, bet_fn(), i);
    lemma_raw_total_bounds(dealt(shoe, 2));
}

impl Game {
    /// `self` is `before` after the dealer's turn: the dealer has drawn from
    /// the top of the shoe for as long as the dealer had to and no longer;
    /// the dealer's second card and the cards drawn are counted; the hands,
    /// the bankroll and the tallies have not changed.
    pub open spec fn dealer_played(&self, before: &Game) -> bool {
        let dealer0 = before.current_round.dealer@;
        let shoe0 = before.current_round.shoe@;
        let drawn = self.current_round.dealer@.len() - dealer0.len();
        &&& self.same_session(before)
        &&& self.same_plays(before)
        &&& self.same_results(before)
        &&& self.bankroll == before.bankroll
        &&& self.current_round.hands == before.current_round.hands
        &&& self.current_round.rules == before.current_round.rules
        &&& self.current_round.has_split_aces == before.current_round.has_split_aces
        &&& 0 <= drawn <= shoe0.len()
        &&& self.current_round.dealer@ == dealer0 + dealt(shoe0, drawn)
        &&& self.current_round.shoe@ == shoe0.take(shoe0.len() - drawn)
        &&& !dealer_must_hit(self.current_round.dealer@, before.rules.hit_soft_17)
        &&& forall|j: int|
            0 <= j < drawn ==> dealer_must_hit(
                #[trigger] (dealer0 + dealt(shoe0, j)),
                before.rules.hit_soft_17,
            )
        &&& self.count == before.count.spec_record(
            dealer0[1].spec_hilo() + hilo_total(dealt(shoe0, drawn)),
            drawn + 1,
        )
    }

    /// What a played round comes to: the shoe and the count are fit for the
    /// next round; no tally has gone down or moved by more than a round can
    /// move it; there are as many results as plays that ended a hand, one
    /// more than splits; and the bankroll has moved by what was won less
    /// what was lost, less the odd unit of a surrendered odd bet.
    spec fn round_balanced(&self, before: &Game) -> bool {
        let std_bet = self.count.std_bet as int;
        &&& self.same_session(before)
        &&& self.current_round.shoe.wf()
        &&& self.count.has_room(self.current_round.shoe@.len() as int)
        &&& self.rules.deck_penetration >= 44 ==> self.current_round.shoe@.len() >= 45
        &&& self.hits >= before.hits
        &&& self.doubles >= before.doubles
        &&& self.splits >= before.splits
        &&& self.stands >= before.stands
        &&& before.surrenders <= self.surrenders <= before.surrenders + 1
        &&& self.wins >= before.wins
        &&& self.losses >= before.losses
        &&& self.pushes >= before.pushes
        &&& self.blackjacks >= before.blackjacks
        &&& self.amount_won >= before.amount_won
        &&& self.amount_lost >= before.amount_lost
        &&& self.hits <= before.hits + 36
        &&& self.doubles <= before.doubles + 4
        &&& self.splits <= before.splits + 4
        &&& self.stands <= before.stands + 4
        &&& self.wins <= before.wins + 4
        &&& self.losses <= before.losses + 4
        &&& self.pushes <= before.pushes + 4
        &&& self.blackjacks <= before.blackjacks + 4
        &&& self.amount_won <= before.amount_won + 20 * std_bet
        &&& self.amount_lost <= before.amount_lost + 20 * std_bet
        &&& self.bankroll <= before.bankroll + 20 * std_bet
        &&& (self.wins - before.wins) + (self.losses - before.losses) + (self.pushes
            - before.pushes) == (self.stands - before.stands) + (self.doubles - before.doubles) + (
        self.surrenders - before.surrenders)
        &&& (self.wins - before.wins) + (self.losses - before.losses) + (self.pushes
            - before.pushes) == 1 + (self.splits - before.splits)
        &&& self.bankroll - before.bankroll == (self.amount_won - before.amount_won) - (
        self.amount_lost - before.amount_lost) - (std_bet % 2) * (self.surrenders
            - before.surrenders)
    }

    /// The dealer's turn: the dealer's second card is counted, the dealer
    /// draws to a stand, and the cards drawn are counted.
    fn dealer_turn(&mut self)
        requires
            old(self).current_round.dealer@.len() == 2,
            cards_wf(old(self).current_round.dealer@),
            old(self).current_round.shoe.wf(),
            old(self).current_round.shoe@.len() >= 7,
            old(self).count.has_room(old(self).current_round.shoe@.len() as int + 1),
        ensures
            final(self).dealer_played(old(self)),
            2 <= final(self).current_round.dealer@.len() <= 9,
            final(self).current_round.shoe.wf(),
            cards_wf(final(self).current_round.dealer@),
            raw_total(final(self).current_round.dealer@) <= u8::MAX,
            final(self).count.has_room(final(self).current_round.shoe@.len() as int),
    {
        let ghost dealer0 = self.current_round.dealer@;
        let ghost shoe0 = self.current_round.shoe@;
        proof {
            lemma_dealer_stands_within(dealer0, shoe0, self.rules.hit_soft_17);
            lemma_raw_total_bounds(dealer0);
            assert(dealer0[1].wf());
        }
        let hole = cards_get(&self.current_round.dealer.cards, 1);
        self.count.update(hole.hilo_value());
        let held = self.current_round.dealer.len();
        let hilo = self.current_round.dealer.dealer_play(
            &mut self.current_round.shoe,
            self.rules.hit_soft_17,
        );
        let drawn = self.current_round.dealer.len() - held;
        proof {
            let k = drawn as int;
            lemma_raw_total_bounds(dealt(shoe0, k));
            lemma_dealer_cards(dealer0, shoe0, self.rules.hit_soft_17, k);
        }
        self.count.record(hilo, drawn);
    }

    /// Plays one round: deals, plays the player's hands by the table, plays
    /// the dealer, settles every hand, and shuffles a new shoe when the
    /// cards left are down to the penetration of the rules.
    fn play_round(&mut self, lut: &BasicStrategyLUT)
        requires
            old(self).round_ready(),
        ensures
            round_run(old(self), final(self)),
            final(self).round_balanced(old(self)),
    {
        self.new_round();
        let ghost start = *self;
        proof {
            lemma_dealt_in_playing(old(self), &start);
        }
        let surrendered = self.play_hands(lut);
        let ghost played = *self;
        proof {
            lemma_played_bounds(self, &start, surrendered);
        }
        self.dealer_turn();
        let ghost turned = *self;
        proof {
            lemma_settle_bounds(
                &turned,
                turned.hands(),
                turned.current_round.dealer@,
                surrendered,
                turned.count.std_bet as int,
            );
        }
        self.settle(surrendered);
        let ghost booked = *self;
        proof {
            lemma_round_balance(
                &turned,
                self,
                turned.hands(),
                turned.current_round.dealer@,
                surrendered,
                turned.count.std_bet as int,
            );
            let odd = self.count.std_bet % 2;
            let given_up = self.surrenders - old(self).surrenders;
            assert(odd * given_up == if surrendered {
                odd as int
            } else {
                0
            }) by (nonlinear_arith)
                requires
                    given_up == if surrendered {
                        1int
                    } else {
                        0int
                    },
            ;
        }
        if self.should_reshuffle() {
            self.reshuffle();
        }
        proof {
            assert(round_trace(old(self), &start, &played, &turned, &booked, self, surrendered));
        }
    }
}

/// The cards the dealer ends with are valid and at most nine: a dealer who
/// has to draw holds at most eight.
proof fn lemma_dealer_cards(hand: Seq<Card>, shoe: Seq<Card>, hit_soft_17: bool, k: int)
    requires
        cards_wf(hand),
        cards_wf(shoe),
        0 <= k <= shoe.len(),
        hand.len() + shoe.len() >= 9,
        forall|j: int|
            0 <= j < k ==> dealer_must_hit(#[trigger] (hand + dealt(shoe, j)), hit_soft_17),
    ensures
        cards_wf(hand + dealt(shoe, k)),
        k == 0 || (hand + dealt(shoe, k)).len() <= 9,
{
    let full = hand + dealt(shoe, k);
    assert forall|i: int| 0 <= i < full.len() implies (#[trigger] full[i]).wf() by {
        if i < hand.len() {
            assert(hand[i].wf());
        } else {
            assert(shoe[shoe.len() - 1 - (i - hand.len())].wf());
        }
    }
    if k > 0 {
        let prev = hand + dealt(shoe, k - 1);
        assert(dealer_must_hit(prev, hit_soft_17));
        assert forall|i: int| 0 <= i < prev.len() implies (#[trigger] prev[i]).wf() by {
            if i < hand.len() {
                assert(hand[i].wf());
            } else {
                assert(shoe[shoe.len() - 1 - (i - hand.len())].wf());
            }
        }
        let rest = shoe.take(shoe.len() - (k - 1));
        assert forall|i: int| 0 <= i < rest.len() implies (#[trigger] rest[i]).wf() by {
            assert(shoe[i].wf());
        }
        lemma_dealer_stands_within(prev, rest, hit_soft_17);
    }
}

/// A round that has just been dealt is in play at its first hand.
proof fn lemma_dealt_in_playing(before: &Game, start: &Game)
    requires
        before.round_ready(),
        start.dealt_in(before),
    ensures
        start.playing(start, 0, false),
{
    let shoe0 = before.current_round.shoe@;
    let hands = start.hands();
    let std_bet = before.count.std_bet as int;
    let player = dealt(shoe0, 2);
    let dealer = dealt(shoe0.take(shoe0.len() - 2), 2);
    assert(shoe0[shoe0.len() - 1].wf());
    assert(shoe0[shoe0.len() - 2].wf());
    assert(shoe0[shoe0.len() - 3].wf());
    assert(shoe0[shoe0.len() - 4].wf());
    assert(cards_wf(player));
    assert(cards_wf(dealer));
    assert(seated(hands[0], std_bet));
    assert(hands == seq![hands[0]]);
    lemma_sum_one(hands[0], cards_fn());
    lemma_sum_one(hands[0], bet_fn());
    lemma_raw_total_bounds(player);
    assert(before.count.std_bet * 1 == std_bet) by (nonlinear_arith)
        requires
            before.count.std_bet == std_bet,
    ;
}

/// When every hand is played the shoe still holds the cards the dealer may
/// need, and the count has room for them.
proof fn lemma_played_bounds(game: &Game, start: &Game, surrendered: bool)
    requires
        game.playing(start, game.hands().len() as int, surrendered),
    ensures
        game.current_round.shoe@.len() >= 7,
        cards_total(game.hands()) <= 36,
        game.count.std_bet <= bets_total(game.hands()) <= 8 * game.count.std_bet,
        game.bankroll + 20 * game.count.std_bet <= usize::MAX,
        surrendered ==> game.hands()[0].bet == game.count.std_bet && bets_total(game.hands())
            == game.count.std_bet,
{
    let hands = game.hands();
    let std_bet = game.count.std_bet as int;
    assert forall|j: int| 0 <= j < hands.len() implies 2 <= cards_fn()(#[trigger] hands[j]) <= 9
        && std_bet <= bet_fn()(hands[j]) <= 2 * std_bet by {
        assert(seated(hands[j], std_bet));
    }
    lemma_sum_bounds(hands, cards_fn(), 2, 9);
    lemma_sum_bounds(hands, bet_fn(), std_bet, 2 * std_bet);
    assert(std_bet <= std_bet * hands.len() && (2 * std_bet) * hands.len() <= 8 * std_bet)
        by (nonlinear_arith)
        requires
            1 <= hands.len() <= 4,
            std_bet >= 0,
    ;
    if surrendered {
        assert(hands == seq![hands[0]]);
        lemma_sum_one(hands[0], bet_fn());
        assert(seated(hands[0], std_bet));
    }
}

/// The amounts that settling seated hands can add: nothing negative, at most
/// one result and three bets' worth per hand.
proof fn lemma_settle_sums(hands: Seq<Hand>, dealer: Seq<Card>, surrendered: bool, std_bet: int)
    requires
        hands.len() <= 4,
        std_bet >= 0,
        forall|j: int| 0 <= j < hands.len() ==> seated(#[trigger] hands[j], std_bet),
    ensures
        0 <= sum_hands(hands, |hand: Hand| wins_of(hand, dealer, surrendered)) <= 4,
        0 <= sum_hands(hands, |hand: Hand| losses_of(hand, dealer, surrendered)) <= 4,
        0 <= sum_hands(hands, |hand: Hand| pushes_of(hand, dealer, surrendered)) <= 4,
        0 <= sum_hands(hands, |hand: Hand| blackjacks_of(hand, dealer, surrendered)) <= 4,
        0 <= sum_hands(hands, |hand: Hand| won_of(hand, dealer, surrendered)) <= 12 * std_bet,
        0 <= sum_hands(hands, |hand: Hand| lost_of(hand, dealer, surrendered)) <= 8 * std_bet,
        0 <= sum_hands(hands, |hand: Hand| returned_of(hand, dealer, surrendered)) <= 20
            * std_bet,
        std_bet * hands.len() <= bets_total(hands) <= 8 * std_bet,
        sum_hands(hands, |hand: Hand| wins_of(hand, dealer, surrendered)) + sum_hands(
            hands,
            |hand: Hand| losses_of(hand, dealer, surrendered),
        ) + sum_hands(hands, |hand: Hand| pushes_of(hand, dealer, surrendered)) == hands.len(),
        !surrendered ==> sum_hands(hands, |hand: Hand| returned_of(hand, dealer, surrendered))
            + sum_hands(hands, |hand: Hand| lost_of(hand, dealer, surrendered)) == sum_hands(
            hands,
            |hand: Hand| won_of(hand, dealer, surrendered),
        ) + bets_total(hands),
{
    let n = hands.len() as int;
    let wins = |hand: Hand| wins_of(hand, dealer, surrendered);
    let losses = |hand: Hand| losses_of(hand, dealer, surrendered);
    let pushes = |hand: Hand| pushes_of(hand, dealer, surrendered);
    let blackjacks = |hand: Hand| blackjacks_of(hand, dealer, surrendered);
    let won = |hand: Hand| won_of(hand, dealer, surrendered);
    let lost = |hand: Hand| lost_of(hand, dealer, surrendered);
    let returned = |hand: Hand| returned_of(hand, dealer, surrendered);
    assert forall|j: int| 0 <= j < hands.len() implies {
        let hand = #[trigger] hands[j];
        &&& 0 <= wins(hand) <= 1
        &&& 0 <= losses(hand) <= 1
        &&& 0 <= pushes(hand) <= 1
        &&& 0 <= blackjacks(hand) <= 1
        &&& 0 <= won(hand) <= 3 * std_bet
        &&& 0 <= lost(hand) <= 2 * std_bet
        &&& 0 <= returned(hand) <= 5 * std_bet
        &&& std_bet <= bet_fn()(hand) <= 2 * std_bet
    } by {
        assert(seated(hands[j], std_bet));
    }
    lemma_sum_bounds(hands, wins, 0, 1);
    lemma_sum_bounds(hands, losses, 0, 1);
    lemma_sum_bounds(hands, pushes, 0, 1);
    lemma_sum_bounds(hands, blackjacks, 0, 1);
    lemma_sum_bounds(hands, won, 0, 3 * std_bet);
    lemma_sum_bounds(hands, lost, 0, 2 * std_bet);
    lemma_sum_bounds(hands, returned, 0, 5 * std_bet);
    lemma_sum_bounds(hands, bet_fn(), std_bet, 2 * std_bet);
    assert((3 * std_bet) * n <= 12 * std_bet && (2 * std_bet) * n <= 8 * std_bet && (5 * std_bet)
        * n <= 20 * std_bet && 0 * n == 0) by (nonlinear_arith)
        requires
            0 <= n <= 4,
            std_bet >= 0,
    ;
    // Every hand has exactly one result.
    let decided = |hand: Hand| wins(hand) + losses(hand);
    let one = |hand: Hand| 1int;
    lemma_sum_add(hands, decided, wins, losses);
    assert forall|j: int| 0 <= j < hands.len() implies one(#[trigger] hands[j]) == decided(
        hands[j],
    ) + pushes(hands[j]) by {}
    lemma_sum_add(hands, one, decided, pushes);
    lemma_sum_bounds(hands, one, 1, 1);
    // What comes back and what is lost is what was won and what was bet.
    if !surrendered {
        let back = |hand: Hand| returned(hand) + lost(hand);
        lemma_sum_add(hands, back, returned, lost);
        assert forall|j: int| 0 <= j < hands.len() implies back(#[trigger] hands[j]) == won(
            hands[j],
        ) + bet_fn()(hands[j]) by {}
        lemma_sum_add(hands, back, won, bet_fn());
    }
}

/// Settling the hands of a round overflows nothing where the tallies had
/// room for the round.
proof fn lemma_settle_bounds(
    game: &Game,
    hands: Seq<Hand>,
    dealer: Seq<Card>,
    surrendered: bool,
    std_bet: int,
)
    requires
        hands.len() <= 4,
        std_bet >= 0,
        forall|j: int| 0 <= j < hands.len() ==> seated(#[trigger] hands[j], std_bet),
        game.wins + 4 <= usize::MAX,
        game.losses + 4 <= usize::MAX,
        game.pushes + 4 <= usize::MAX,
        game.blackjacks + 4 <= usize::MAX,
        game.amount_won + 20 * std_bet <= usize::MAX,
        game.amount_lost + 20 * std_bet <= usize::MAX,
        game.bankroll + 20 * std_bet <= usize::MAX,
    ensures
        settle_fits(game, hands, dealer, surrendered),
        forall|j: int| 0 <= j < hands.len() ==> raw_total((#[trigger] hands[j]).cards@) <= u8::MAX,
{
    lemma_settle_sums(hands, dealer, surrendered, std_bet);
    assert forall|j: int| 0 <= j < hands.len() implies raw_total((#[trigger] hands[j]).cards@)
        <= u8::MAX by {
        assert(seated(hands[j], std_bet));
        lemma_raw_total_bounds(hands[j].cards@);
    }
}

/// The balance of a settled round, from the state the settling started in.
proof fn lemma_round_balance(
    staked: &Game,
    after: &Game,
    hands: Seq<Hand>,
    dealer: Seq<Card>,
    surrendered: bool,
    std_bet: int,
)
    requires
        1 <= hands.len() <= 4,
        std_bet >= 0,
        forall|j: int| 0 <= j < hands.len() ==> seated(#[trigger] hands[j], std_bet),
        surrendered ==> hands.len() == 1 && hands[0].bet == std_bet,
        settled(staked, after, hands, dealer, surrendered),
    ensures
        after.wins >= staked.wins,
        after.losses >= staked.losses,
        after.pushes >= staked.pushes,
        after.blackjacks >= staked.blackjacks,
        after.amount_won >= staked.amount_won,
        after.amount_lost >= staked.amount_lost,
        after.wins <= staked.wins + 4,
        after.losses <= staked.losses + 4,
        after.pushes <= staked.pushes + 4,
        after.blackjacks <= staked.blackjacks + 4,
        after.amount_won <= staked.amount_won + 12 * std_bet,
        after.amount_lost <= staked.amount_lost + 8 * std_bet,
        (after.wins - staked.wins) + (after.losses - staked.losses) + (after.pushes
            - staked.pushes) == hands.len(),
        after.bankroll - (after.amount_won - staked.amount_won) + (after.amount_lost
            - staked.amount_lost) == staked.bankroll + if surrendered {
            std_bet / 2
        } else {
            bets_total(hands)
        },
{
    lemma_settle_sums(hands, dealer, surrendered, std_bet);
    if surrendered {
        assert(hands == seq![hands[0]]);
        lemma_sum_one(hands[0], |hand: Hand| won_of(hand, dealer, surrendered));
        lemma_sum_one(hands[0], |hand: Hand| lost_of(hand, dealer, surrendered));
        lemma_sum_one(hands[0], |hand: Hand| returned_of(hand, dealer, surrendered));
    }
}

impl Game {
    /// The session can be played to its end: the rules have a strategy
    /// table, the penetration is at least 44, so that every round starts
    /// with the 45 cards no round outruns, the shoe holds that many valid
    /// cards, and the count and the tallies have room for the rounds left.
    pub open spec fn can_play(&self) -> bool {
        &&& has_table(self.rules)
        &&& self.rules.deck_penetration >= 44
        &&& self.current_round.shoe.wf()
        &&& self.current_round.shoe@.len() >= 45
        &&& self.count.has_room(self.current_round.shoe@.len() as int)
        &&& 8 * self.count.std_bet <= usize::MAX
        &&& self.room_for(self.rounds_left as int)
    }

    /// The number of hands settled since `before`.
    pub open spec fn settled_since(&self, before: &Game) -> int {
        (self.wins - before.wins) + (self.losses - before.losses) + (self.pushes - before.pushes)
    }

    /// The number of rounds played since `before`: every round settles its
    /// first hand and one hand more for each split.
    pub open spec fn rounds_since(&self, before: &Game) -> int {
        self.settled_since(before) - (self.splits - before.splits)
    }

    /// What any number of rounds played since `before` leave true: the
    /// rules and the standard bet are the same; no tally has gone down;
    /// every hand that ended in a stand, a double or a surrender has been
    /// settled as a win, a loss or a push, and no other; and the bankroll
    /// has moved by what was won less what was lost, less one unit for
    /// every surrender of an odd bet.
    pub open spec fn in_balance(&self, before: &Game) -> bool {
        &&& self.rules == before.rules
        &&& self.count.std_bet == before.count.std_bet
        &&& self.amount_bet == before.amount_bet
        &&& self.hits >= before.hits
        &&& self.doubles >= before.doubles
        &&& self.splits >= before.splits
        &&& self.stands >= before.stands
        &&& self.surrenders >= before.surrenders
        &&& self.wins >= before.wins
        &&& self.losses >= before.losses
        &&& self.pushes >= before.pushes
        &&& self.blackjacks >= before.blackjacks
        &&& self.amount_won >= before.amount_won
        &&& self.amount_lost >= before.amount_lost
        &&& self.settled_since(before) == (self.stands - before.stands) + (self.doubles
            - before.doubles) + (self.surrenders - before.surrenders)
        &&& self.bankroll - before.bankroll == (self.amount_won - before.amount_won) - (
        self.amount_lost - before.amount_lost) - (self.count.std_bet % 2) * (self.surrenders
            - before.surrenders)
    }

    /// Plays the session: round after round until no round is left, or
    /// until the bankroll is at or under eight standard bets, with which no
    /// round is started. A round after which the bankroll is that low is
    /// the last, and is not taken off the rounds left.
    pub fn play(self) -> (done: Game)
        requires
            self.can_play(),
        ensures
            exists|rounds: nat| #[trigger] session_run(&self, &done, rounds),
            done.rounds_left == 0 || done.bankroll <= 8 * done.count.std_bet,
            done.in_balance(&self),
            done.rounds_left <= self.rounds_left,
            done.rounds_left == 0 ==> done.rounds_since(&self) == self.rounds_left,
            done.rounds_left > 0 ==> done.rounds_since(&self) == if self.bankroll <= 8
                * self.count.std_bet {
                0
            } else {
                self.rounds_left - done.rounds_left + 1
            },
    {
        let mut game = self;
        if game.rounds_left > 0 && game.bankroll <= game.count.std_bet * 8 {
            proof {
                lemma_balance_none(&game);
                assert(session_run(&self, &game, 0));
            }
            return game;
        }
        let lut = BasicStrategyLUT::calculate_cache(&game);
        let ghost mut rounds: nat = 0;
        proof {
            lemma_balance_none(&game);
        }
        while game.rounds_left > 0
            invariant
                has_table(game.rules),
                game.rules.deck_penetration >= 44,
                game.current_round.shoe.wf(),
                game.current_round.shoe@.len() >= 45,
                game.count.has_room(game.current_round.shoe@.len() as int),
                8 * game.count.std_bet <= usize::MAX,
                game.room_for(game.rounds_left as int),
                game.rounds_left > 0 ==> game.bankroll > 8 * game.count.std_bet,
                self.bankroll > 8 * self.count.std_bet || self.rounds_left == 0,
                game.in_balance(&self),
                game.rounds_left <= self.rounds_left,
                game.rounds_since(&self) == self.rounds_left - game.rounds_left,
                session_run(&self, &game, rounds),
            decreases game.rounds_left,
        {
            let ghost before = game;
            proof {
                lemma_room_for_one(&before);
            }
            game.play_round(&lut);
            let ghost played = game;
            proof {
                lemma_balance_round(&self, &before, &game);
            }
            if game.bankroll <= game.count.std_bet * 8 {
                proof {
                    lemma_session_step(&self, &before, &played, &game, rounds);
                }
                return game;
            }
            game.rounds_left -= 1;
            proof {
                lemma_session_step(&self, &before, &played, &game, rounds);
                rounds = rounds + 1;
            }
        }
        game
    }
}

/// Nothing played leaves the session in balance with itself.
proof fn lemma_balance_none(game: &Game)
    ensures
        game.in_balance(game),
        game.rounds_since(game) == 0,
{
    assert((game.count.std_bet % 2) * (game.surrenders - game.surrenders) == 0)
        by (nonlinear_arith);
}

/// Room for the rounds left is room for the next round.
proof fn lemma_room_for_one(game: &Game)
    requires
        game.rounds_left > 0,
        game.room_for(game.rounds_left as int),
    ensures
        game.room_for(1),
{
    let std_bet = game.count.std_bet as int;
    let rounds = game.rounds_left as int;
    assert(std_bet * 1 <= std_bet * rounds) by (nonlinear_arith)
        requires
            rounds >= 1,
            std_bet >= 0,
    ;
}

/// One round more keeps the balance since `first`, counts as one round, and
/// leaves room for one round fewer.
proof fn lemma_balance_round(first: &Game, before: &Game, after: &Game)
    requires
        before.in_balance(first),
        before.rounds_left > 0,
        before.room_for(before.rounds_left as int),
        after.round_balanced(before),
    ensures
        after.in_balance(first),
        after.rounds_since(first) == before.rounds_since(first) + 1,
        after.rounds_left == before.rounds_left,
        (Game { rounds_left: (after.rounds_left - 1) as usize, ..*after }).room_for(
            after.rounds_left - 1,
        ),
{
    let std_bet = before.count.std_bet as int;
    let odd = std_bet % 2;
    let rounds = before.rounds_left as int;
    assert(std_bet * (rounds - 1) == std_bet * rounds - std_bet) by (nonlinear_arith);
    assert(odd * (after.surrenders - first.surrenders) == odd * (before.surrenders
        - first.surrenders) + odd * (after.surrenders - before.surrenders)) by (nonlinear_arith);
}

} // verus!
