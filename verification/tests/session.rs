use blackjack_sim::basicstrategy::Surrender;
use blackjack_sim::cardutils::{Card, HandCards, Rank, Shoe, Suit};
use blackjack_sim::gamelogic::{Count, Game, GameRules, Hand, Round};
use blackjack_sim::storage::HandVec;

fn number(n: u8, suit: Suit) -> Card {
    Card::new(Rank::Number(n), suit)
}

fn ace(suit: Suit) -> Card {
    Card::new(Rank::Ace, suit)
}

fn king(suit: Suit) -> Card {
    Card::new(Rank::King, suit)
}

fn cards_of(cards: &[Card]) -> HandCards {
    let mut held = HandCards::new();
    for card in cards {
        held.push(*card);
    }
    held
}

fn rules(surrender: Option<Surrender>) -> GameRules {
    GameRules::new(6, 47, false, true, surrender, false, false, false)
}

/// A shoe that deals `top` in the order given, over `filler` fives.
fn stacked(top: &[Card], filler: usize) -> Shoe {
    let mut cards = vec![number(5, Suit::Hearts); filler];
    for card in top.iter().rev() {
        cards.push(*card);
    }
    Shoe::from_cards(cards)
}

fn session(rules: GameRules, bankroll: usize, rounds: usize, shoe: Shoe) -> Game {
    let mut game = Game::new(rules, bankroll, rounds);
    game.current_round.shoe = shoe;
    game
}

fn table(hands: Vec<Hand>, dealer: &[Card], shoe: Shoe) -> Game {
    Game {
        rounds_left: 0,
        rules: rules(None),
        count: Count::new(),
        wins: 0,
        losses: 0,
        pushes: 0,
        hits: 0,
        doubles: 0,
        splits: 0,
        stands: 0,
        surrenders: 0,
        blackjacks: 0,
        amount_bet: 0,
        amount_won: 0,
        amount_lost: 0,
        current_round: Round {
            rules: rules(None),
            shoe,
            has_split_aces: false,
            hands: HandVec::from_vec(hands),
            dealer: cards_of(dealer),
        },
        bankroll: 1_000,
    }
}

fn hand(cards: &[Card], bet: usize, split_from: Option<Rank>) -> Hand {
    Hand { split_from, bet, cards: cards_of(cards) }
}

#[test]
fn new_game_starts_with_a_full_shoe_and_empty_tallies() {
    let game = Game::new(rules(None), 5_000, 12);
    assert_eq!(game.rounds_left, 12);
    assert_eq!(game.bankroll, 5_000);
    assert_eq!(game.rules.decks_in_shoe, 6);
    assert_eq!(game.current_round.rules.deck_penetration, 47);
    assert_eq!(game.count.running_count, 0);
    assert_eq!(game.count.cards_seen, 0);
    assert_eq!(game.count.std_bet, 100);
    assert_eq!(
        (game.wins, game.losses, game.pushes, game.blackjacks, game.surrenders),
        (0, 0, 0, 0, 0)
    );
    assert_eq!((game.hits, game.doubles, game.splits, game.stands), (0, 0, 0, 0));
    assert_eq!((game.amount_bet, game.amount_won, game.amount_lost), (0, 0, 0));
    assert_eq!(game.current_round.shoe.cards_left(), 312);
    assert_eq!(game.current_round.hands.len(), 1);
    assert_eq!(game.current_round.hands.get(0).cards.len(), 2);
    assert_eq!(game.current_round.hands.get(0).bet, 100);
    assert_eq!(game.current_round.hands.get(0).split_from, None);
    assert_eq!(game.current_round.dealer.len(), 2);
    assert!(!game.current_round.has_split_aces);
}

#[test]
fn a_bust_on_the_only_hand_is_one_loss_of_the_bet() {
    // Player 10, 6 against a dealer 10: hit, and the king busts the hand.
    let shoe = stacked(
        &[
            number(10, Suit::Spades),
            number(6, Suit::Hearts),
            number(10, Suit::Clubs),
            number(7, Suit::Clubs),
            king(Suit::Diamonds),
        ],
        100,
    );
    let done = session(rules(None), 10_000, 1, shoe).play();
    assert_eq!(done.rounds_left, 0);
    assert_eq!(done.losses, 1);
    assert_eq!(done.wins, 0);
    assert_eq!(done.pushes, 0);
    assert_eq!(done.blackjacks, 0);
    assert_eq!(done.hits, 1);
    assert_eq!(done.stands, 1);
    assert_eq!((done.doubles, done.splits, done.surrenders), (0, 0, 0));
    assert_eq!(done.amount_lost, 100);
    assert_eq!(done.amount_won, 0);
    assert_eq!(done.amount_bet, 0);
    assert_eq!(done.bankroll, 9_900);
    assert_eq!(done.current_round.hands.len(), 1);
    assert_eq!(done.current_round.hands.get(0).cards.num_value(), 26);
    assert_eq!(done.current_round.dealer.len(), 2);
    assert_eq!(done.current_round.shoe.cards_left(), 100);
    // Ten, six, ten, seven and king were seen.
    assert_eq!(done.count.cards_seen, 5);
    assert_eq!(done.count.running_count, -2);
}

#[test]
fn the_shoe_is_shuffled_anew_at_the_penetration() {
    let shoe = stacked(
        &[
            number(10, Suit::Spades),
            number(6, Suit::Hearts),
            number(10, Suit::Clubs),
            number(7, Suit::Clubs),
            king(Suit::Diamonds),
        ],
        45,
    );
    let done = session(rules(None), 10_000, 1, shoe).play();
    assert_eq!(done.losses, 1);
    assert_eq!(done.bankroll, 9_900);
    assert_eq!(done.current_round.shoe.cards_left(), 312);
    assert_eq!(done.count.cards_seen, 0);
    assert_eq!(done.count.running_count, 0);
}

#[test]
fn a_blackjack_pays_three_to_two() {
    let shoe = stacked(
        &[ace(Suit::Spades), king(Suit::Hearts), number(10, Suit::Clubs), number(9, Suit::Clubs)],
        100,
    );
    let done = session(rules(None), 10_000, 1, shoe).play();
    assert_eq!((done.wins, done.blackjacks, done.losses, done.pushes), (1, 1, 0, 0));
    assert_eq!(done.stands, 1);
    assert_eq!(done.amount_won, 150);
    assert_eq!(done.bankroll, 10_150);
}

#[test]
fn a_level_hand_is_a_push() {
    let shoe = stacked(
        &[number(10, Suit::Spades), number(9, Suit::Hearts), number(10, Suit::Clubs), number(9, Suit::Clubs)],
        100,
    );
    let done = session(rules(None), 10_000, 1, shoe).play();
    assert_eq!((done.wins, done.losses, done.pushes), (0, 0, 1));
    assert_eq!((done.amount_won, done.amount_lost), (0, 0));
    assert_eq!(done.bankroll, 10_000);
}

#[test]
fn a_double_wins_twice_the_bet() {
    // Eleven against a six: double, draw a ten; the dealer busts.
    let shoe = stacked(
        &[
            number(5, Suit::Spades),
            number(6, Suit::Hearts),
            number(6, Suit::Clubs),
            number(10, Suit::Clubs),
            king(Suit::Diamonds),
            number(9, Suit::Diamonds),
        ],
        100,
    );
    let done = session(rules(None), 10_000, 1, shoe).play();
    assert_eq!((done.doubles, done.hits, done.stands), (1, 0, 0));
    assert_eq!((done.wins, done.losses, done.pushes), (1, 0, 0));
    assert_eq!(done.current_round.hands.get(0).bet, 200);
    assert_eq!(done.current_round.dealer.num_value(), 25);
    assert_eq!(done.amount_won, 200);
    assert_eq!(done.bankroll, 10_200);
    assert_eq!(done.count.cards_seen, 6);
    assert_eq!(done.count.running_count, 1);
}

#[test]
fn a_split_plays_two_hands() {
    // Eights against a six: split; 8+3 doubles to 21, 8+10 stands on 18.
    // The dealer turns 6 + 10 and draws a five: 21.
    let shoe = stacked(
        &[
            number(8, Suit::Spades),
            number(8, Suit::Hearts),
            number(6, Suit::Clubs),
            number(10, Suit::Clubs),
            number(10, Suit::Diamonds),
            number(3, Suit::Diamonds),
            king(Suit::Spades),
            number(5, Suit::Spades),
        ],
        100,
    );
    let done = session(rules(None), 10_000, 1, shoe).play();
    assert_eq!((done.splits, done.doubles, done.stands, done.hits), (1, 1, 1, 0));
    assert_eq!(done.current_round.hands.len(), 2);
    assert_eq!(done.current_round.hands.get(0).cards.num_value(), 21);
    assert_eq!(done.current_round.hands.get(0).bet, 200);
    assert_eq!(done.current_round.hands.get(1).cards.num_value(), 18);
    assert_eq!(done.current_round.dealer.num_value(), 21);
    assert_eq!((done.wins, done.pushes, done.losses), (0, 1, 1));
    assert_eq!(done.amount_lost, 100);
    assert_eq!(done.bankroll, 9_900);
    assert_eq!(done.count.cards_seen, 8);
}

#[test]
fn a_surrender_loses_half_the_bet() {
    let shoe = stacked(
        &[number(10, Suit::Spades), number(6, Suit::Hearts), number(10, Suit::Clubs), number(7, Suit::Clubs)],
        100,
    );
    let done = session(rules(Some(Surrender::Late)), 10_000, 1, shoe).play();
    assert_eq!(done.surrenders, 1);
    assert_eq!((done.hits, done.stands, done.doubles), (0, 0, 0));
    assert_eq!((done.wins, done.losses, done.pushes), (0, 1, 0));
    assert_eq!(done.amount_lost, 50);
    assert_eq!(done.bankroll, 9_950);
}

#[test]
fn no_round_is_played_on_a_bankroll_of_eight_bets() {
    let game = Game::new(rules(None), 800, 5);
    let done = game.play();
    assert_eq!(done.rounds_left, 5);
    assert_eq!(done.bankroll, 800);
    assert_eq!(done.wins + done.losses + done.pushes, 0);
    assert_eq!(done.current_round.shoe.cards_left(), 312);
}

#[test]
fn no_round_is_played_when_none_is_left() {
    let done = Game::new(rules(None), 10_000, 0).play();
    assert_eq!(done.rounds_left, 0);
    assert_eq!(done.bankroll, 10_000);
    assert_eq!(done.wins + done.losses + done.pushes, 0);
}

#[test]
fn the_session_stops_at_the_bankroll_floor() {
    // One lost round takes the bankroll from 900 to 800.
    let shoe = stacked(
        &[
            number(10, Suit::Spades),
            number(6, Suit::Hearts),
            number(10, Suit::Clubs),
            number(7, Suit::Clubs),
            king(Suit::Diamonds),
        ],
        100,
    );
    let done = session(rules(None), 900, 10, shoe).play();
    assert_eq!(done.bankroll, 800);
    assert_eq!(done.losses, 1);
    assert_eq!(done.rounds_left, 10);
}

#[test]
fn a_long_session_stays_in_balance() {
    let rounds = 3_000usize;
    let start = 1_000_000usize;
    let done = Game::new(rules(Some(Surrender::Late)), start, rounds).play();
    assert_eq!(done.rounds_left, 0);
    let settled = done.wins + done.losses + done.pushes;
    assert_eq!(settled, done.stands + done.doubles + done.surrenders);
    assert_eq!(settled, rounds + done.splits);
    assert!(done.blackjacks <= done.wins);
    assert_eq!(
        done.bankroll as i128 - start as i128,
        done.amount_won as i128 - done.amount_lost as i128
    );
    assert_eq!(done.amount_bet, 0);
    assert!(done.current_round.shoe.cards_left() > 47);
    assert_eq!(done.count.cards_seen + done.current_round.shoe.cards_left(), 312);
}

#[test]
fn game_moves_book_their_tallies() {
    let mut game = table(
        vec![
            hand(&[number(8, Suit::Hearts), number(8, Suit::Spades)], 100, None),
            hand(&[number(5, Suit::Hearts), number(6, Suit::Spades)], 100, None),
        ],
        &[number(10, Suit::Clubs), number(7, Suit::Clubs)],
        stacked(&[number(2, Suit::Clubs), king(Suit::Clubs), number(9, Suit::Clubs), number(4, Suit::Clubs)], 10),
    );
    game.hit(0);
    assert_eq!((game.hits, game.count.cards_seen, game.count.running_count), (1, 1, 1));
    assert_eq!(game.current_round.hands.get(0).cards.num_value(), 18);
    assert_eq!(game.bankroll, 1_000);

    game.double(1);
    assert_eq!((game.doubles, game.count.cards_seen, game.count.running_count), (1, 2, 0));
    assert_eq!(game.current_round.hands.get(1).bet, 200);
    assert_eq!(game.current_round.hands.get(1).cards.num_value(), 21);
    assert_eq!(game.bankroll, 900);

    game.stand();
    assert_eq!(game.stands, 1);
    assert_eq!(game.bankroll, 900);

    game.surrender();
    assert_eq!(game.surrenders, 1);
    assert_eq!(game.bankroll, 950);
}

#[test]
fn game_split_takes_a_bet_and_counts_two_cards() {
    let mut game = table(
        vec![hand(&[number(8, Suit::Hearts), number(8, Suit::Spades)], 100, None)],
        &[number(10, Suit::Clubs), number(7, Suit::Clubs)],
        stacked(&[number(2, Suit::Clubs), king(Suit::Clubs)], 10),
    );
    game.split(0);
    assert_eq!(game.splits, 1);
    assert_eq!(game.bankroll, 900);
    assert_eq!(game.count.cards_seen, 2);
    assert_eq!(game.count.running_count, 0);
    assert_eq!(game.current_round.hands.len(), 2);
    assert_eq!(game.current_round.hands.get(0).cards.num_value(), 18);
    assert_eq!(game.current_round.hands.get(1).cards.num_value(), 10);
    assert_eq!(game.current_round.shoe.cards_left(), 10);
}

#[test]
fn reshuffle_clears_the_count_whatever_it_was() {
    let mut game = Game::new(rules(None), 1_000, 1);
    game.count.running_count = -17;
    game.count.cards_seen = 230;
    game.current_round.shoe = stacked(&[], 3);
    assert!(game.should_reshuffle());
    game.reshuffle();
    assert_eq!(game.count.running_count, 0);
    assert_eq!(game.count.cards_seen, 0);
    assert_eq!(game.count.std_bet, 100);
    assert_eq!(game.current_round.shoe.cards_left(), 312);
    assert!(!game.should_reshuffle());
    game.reshuffle();
    assert_eq!(game.count.running_count, 0);
    assert_eq!(game.count.cards_seen, 0);
}

#[test]
fn reshuffle_is_due_at_the_penetration_and_under() {
    let mut game = Game::new(rules(None), 1_000, 1);
    game.current_round.shoe = stacked(&[], 48);
    assert!(!game.should_reshuffle());
    game.current_round.shoe = stacked(&[], 47);
    assert!(game.should_reshuffle());
    game.current_round.shoe = stacked(&[], 0);
    assert!(game.should_reshuffle());
}

#[test]
fn outcomes_against_the_dealer() {
    let mut game = table(
        vec![
            hand(&[number(10, Suit::Hearts), number(9, Suit::Spades)], 100, None),
            hand(&[number(10, Suit::Hearts), number(8, Suit::Spades)], 100, None),
            hand(&[number(10, Suit::Hearts), number(7, Suit::Spades)], 100, None),
            hand(&[number(10, Suit::Hearts), number(7, Suit::Spades), king(Suit::Hearts)], 100, None),
        ],
        &[number(10, Suit::Clubs), number(8, Suit::Clubs)],
        stacked(&[], 10),
    );
    assert!(game.is_winner(0) && !game.is_push(0) && !game.is_bust(0));
    assert!(!game.is_winner(1) && game.is_push(1) && !game.is_bust(1));
    assert!(!game.is_winner(2) && !game.is_push(2) && !game.is_bust(2));
    assert!(game.is_winner(3) && !game.is_push(3) && game.is_bust(3));
    assert!(!game.is_blackjack(0));
}

#[test]
fn a_bust_dealer_loses_to_every_hand_that_is_not_bust() {
    let mut game = table(
        vec![
            hand(&[number(10, Suit::Hearts), number(2, Suit::Spades)], 100, None),
            hand(&[number(10, Suit::Hearts), number(6, Suit::Spades), number(6, Suit::Hearts)], 100, None),
        ],
        &[number(10, Suit::Clubs), number(6, Suit::Clubs), number(6, Suit::Diamonds)],
        stacked(&[], 10),
    );
    assert!(game.is_winner(0));
    assert!(!game.is_push(1));
    game.settle(false);
    assert_eq!((game.wins, game.losses, game.pushes), (1, 1, 0));
    assert_eq!((game.amount_won, game.amount_lost), (100, 100));
    assert_eq!(game.bankroll, 1_200);
}

#[test]
fn settling_books_each_hand_by_its_outcome() {
    let mut game = table(
        vec![
            hand(&[ace(Suit::Hearts), king(Suit::Spades)], 100, None),
            hand(&[ace(Suit::Hearts), king(Suit::Spades)], 100, Some(Rank::Ace)),
            hand(&[number(10, Suit::Hearts), number(8, Suit::Spades)], 200, None),
            hand(&[number(10, Suit::Hearts), number(7, Suit::Spades)], 300, None),
        ],
        &[number(10, Suit::Clubs), number(8, Suit::Clubs)],
        stacked(&[], 10),
    );
    game.settle_hand(0, false);
    assert_eq!((game.wins, game.blackjacks, game.amount_won, game.bankroll), (1, 1, 150, 1_250));
    game.settle_hand(1, false);
    assert_eq!((game.wins, game.blackjacks, game.amount_won, game.bankroll), (2, 1, 250, 1_450));
    game.settle_hand(2, false);
    assert_eq!((game.pushes, game.amount_won, game.amount_lost, game.bankroll), (1, 250, 0, 1_650));
    game.settle_hand(3, false);
    assert_eq!((game.losses, game.amount_lost, game.bankroll), (1, 300, 1_650));
    game.settle_hand(3, true);
    assert_eq!((game.losses, game.amount_lost, game.bankroll), (2, 450, 1_650));
}

#[test]
fn bookings_move_only_their_own_tallies() {
    let mut game = table(
        vec![hand(&[ace(Suit::Hearts), king(Suit::Spades)], 101, None)],
        &[number(10, Suit::Clubs), number(8, Suit::Clubs)],
        stacked(&[], 10),
    );
    game.award_winnings(0);
    assert_eq!((game.wins, game.blackjacks, game.amount_won, game.bankroll), (1, 1, 151, 1_252));
    game.loss(0);
    assert_eq!((game.losses, game.amount_lost, game.bankroll), (1, 101, 1_252));
    game.surrendered(0);
    assert_eq!((game.losses, game.amount_lost, game.bankroll), (2, 151, 1_252));
    game.push(0);
    assert_eq!((game.pushes, game.bankroll), (1, 1_353));
    assert_eq!((game.wins, game.amount_won), (1, 151));
}
