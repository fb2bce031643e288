use blackjack_sim::basicstrategy::{BasicStrategyLUT, Decision, Surrender};
use blackjack_sim::cardutils::{Card, HandCards, Rank, Shoe, Suit};
use blackjack_sim::gamelogic::{Count, Game, GameRules, Hand, Round};
use blackjack_sim::storage::HandVec;

fn number(n: u8, suit: Suit) -> Card {
    Card::new(Rank::Number(n), suit)
}

fn ace(suit: Suit) -> Card {
    Card::new(Rank::Ace, suit)
}

fn cards_of(cards: &[Card]) -> HandCards {
    let mut held = HandCards::new();
    for card in cards {
        held.push(*card);
    }
    held
}

fn hand_of(cards: &[Card], split_from: Option<Rank>) -> Hand {
    Hand { split_from, bet: 100, cards: cards_of(cards) }
}

fn rules(surrender: Option<Surrender>) -> GameRules {
    GameRules::new(6, 47, false, true, surrender, false, false, false)
}

fn game_of(rules: GameRules, hands: Vec<Hand>, up_card: Card) -> Game {
    Game {
        rounds_left: 0,
        rules,
        count: Count::new(),
        wins: 0,
        losses: 0,
        pushes: 0,
        hits: 0,
        doubles: 0,
        splits: 0,
        stands: 0,
        surrenders: 0,
        blackjacks: 0,
        amount_bet: 0,
        amount_won: 0,
        amount_lost: 0,
        current_round: Round {
            rules,
            shoe: Shoe::new(6),
            has_split_aces: false,
            hands: HandVec::from_vec(hands),
            dealer: cards_of(&[up_card, number(8, Suit::Diamonds)]),
        },
        bankroll: 100,
    }
}

fn eights() -> Hand {
    hand_of(&[number(8, Suit::Hearts), number(8, Suit::Diamonds)], None)
}

fn decide(game: &Game, hand_index: usize) -> Decision {
    BasicStrategyLUT::calculate_cache(game).make_move(game, hand_index)
}

fn look_up(game: &Game, hand_index: usize) -> Decision {
    BasicStrategyLUT::calculate_cache(game).raw_move(game, hand_index)
}

#[test]
fn basic_strategy() {
    let rules = GameRules {
        double_after_split: true,
        resplit_aces: false,
        double_split_aces: false,
        surrender: None,
        hit_soft_17: false,
        decks_in_shoe: 6,
        deck_penetration: 47,
        hit_split_aces: false,
    };
    let game = Game {
        rounds_left: 0,
        rules,
        count: Count::new(),
        wins: 0,
        blackjacks: 0,
        losses: 0,
        pushes: 0,
        surrenders: 0,
        hits: 0,
        doubles: 0,
        splits: 0,
        stands: 0,
        amount_bet: 0,
        amount_lost: 0,
        amount_won: 0,
        current_round: Round {
            rules,
            hands: HandVec::from_vec(vec![
                Hand {
                    bet: 0,
                    split_from: None,
                    cards: cards_of(&[
                        Card::new(Rank::Number(9), Suit::Hearts),
                        Card::new(Rank::Number(7), Suit::Diamonds),
                    ]),
                },
                Hand {
                    bet: 0,
                    split_from: None,
                    cards: cards_of(&[
                        Card::new(Rank::Number(9), Suit::Hearts),
                        Card::new(Rank::Number(7), Suit::Diamonds),
                    ]),
                },
                Hand {
                    bet: 0,
                    split_from: None,
                    cards: cards_of(&[
                        Card::new(Rank::Number(8), Suit::Hearts),
                        Card::new(Rank::Number(8), Suit::Diamonds),
                    ]),
                },
            ]),
            dealer: cards_of(&[
                Card::new(Rank::Number(10), Suit::Hearts),
                Card::new(Rank::Number(8), Suit::Diamonds),
            ]),
            has_split_aces: false,
            shoe: Shoe::new(6),
        },
        bankroll: 100,
    };
    assert!(BasicStrategyLUT::calculate_cache(&game).raw_move(&game, 2) == Decision::Split);
}

#[test]
fn eights_against_a_ten_are_split() {
    let game = game_of(rules(None), vec![eights()], number(10, Suit::Hearts));
    assert!(game.current_round.can_split(0));
    assert_eq!(look_up(&game, 0), Decision::Split);
    assert_eq!(decide(&game, 0), Decision::Split);
    // A face card as the dealer's card reads as a ten.
    let game = game_of(rules(None), vec![eights()], Card::new(Rank::Queen, Suit::Hearts));
    assert_eq!(decide(&game, 0), Decision::Split);
}

#[test]
fn eights_against_an_ace_are_surrendered_where_surrender_is_on() {
    let game = game_of(rules(Some(Surrender::Late)), vec![eights()], ace(Suit::Spades));
    assert_eq!(look_up(&game, 0), Decision::SurrenderOrSplit);
    assert_eq!(decide(&game, 0), Decision::Surrender);
    let game = game_of(rules(None), vec![eights()], ace(Suit::Spades));
    assert_eq!(look_up(&game, 0), Decision::SurrenderOrSplit);
    assert_eq!(decide(&game, 0), Decision::Split);
}

#[test]
fn eights_after_three_splits_are_played_as_hard_16() {
    for surrender in [None, Some(Surrender::Late)] {
        let hands = vec![eights(), eights(), eights(), eights()];
        let game = game_of(rules(surrender), hands, ace(Suit::Spades));
        assert!(!game.current_round.can_split(0));
        assert!(!game.current_round.can_surrender());
        assert_eq!(look_up(&game, 0), Decision::SurrenderOrHit);
        assert_eq!(decide(&game, 0), Decision::Hit);
    }
}

#[test]
fn hard_totals_follow_the_table() {
    let up = |n: u8| number(n, Suit::Clubs);
    let hard = |a: u8, b: u8| hand_of(&[number(a, Suit::Hearts), number(b, Suit::Spades)], None);
    assert_eq!(decide(&game_of(rules(None), vec![hard(2, 3)], up(6)), 0), Decision::Hit);
    assert_eq!(decide(&game_of(rules(None), vec![hard(4, 5)], up(2)), 0), Decision::Hit);
    assert_eq!(decide(&game_of(rules(None), vec![hard(4, 5)], up(3)), 0), Decision::Double);
    assert_eq!(decide(&game_of(rules(None), vec![hard(4, 6)], up(9)), 0), Decision::Double);
    assert_eq!(decide(&game_of(rules(None), vec![hard(4, 6)], up(10)), 0), Decision::Hit);
    assert_eq!(decide(&game_of(rules(None), vec![hard(5, 6)], ace(Suit::Clubs)), 0), Decision::Double);
    assert_eq!(decide(&game_of(rules(None), vec![hard(10, 2)], up(3)), 0), Decision::Hit);
    assert_eq!(decide(&game_of(rules(None), vec![hard(10, 2)], up(4)), 0), Decision::Stand);
    assert_eq!(decide(&game_of(rules(None), vec![hard(10, 3)], up(6)), 0), Decision::Stand);
    assert_eq!(decide(&game_of(rules(None), vec![hard(10, 3)], up(7)), 0), Decision::Hit);
    assert_eq!(decide(&game_of(rules(None), vec![hard(10, 7)], ace(Suit::Clubs)), 0), Decision::Stand);
    assert_eq!(decide(&game_of(rules(None), vec![hard(10, 9)], up(10)), 0), Decision::Stand);
}

#[test]
fn surrender_entries_fall_back_without_surrender() {
    let hard = |a: u8, b: u8| hand_of(&[number(a, Suit::Hearts), number(b, Suit::Spades)], None);
    let late = rules(Some(Surrender::Late));
    let up10 = number(10, Suit::Clubs);
    assert_eq!(look_up(&game_of(late, vec![hard(10, 6)], up10), 0), Decision::SurrenderOrHit);
    assert_eq!(decide(&game_of(late, vec![hard(10, 6)], up10), 0), Decision::Surrender);
    assert_eq!(decide(&game_of(rules(None), vec![hard(10, 6)], up10), 0), Decision::Hit);
    assert_eq!(decide(&game_of(late, vec![hard(10, 5)], up10), 0), Decision::Surrender);
    assert_eq!(decide(&game_of(late, vec![hard(10, 5)], number(9, Suit::Clubs)), 0), Decision::Hit);
    assert_eq!(look_up(&game_of(late, vec![hard(10, 7)], ace(Suit::Clubs)), 0), Decision::SurrenderOrStand);
    assert_eq!(decide(&game_of(late, vec![hard(10, 7)], ace(Suit::Clubs)), 0), Decision::Surrender);
    assert_eq!(decide(&game_of(rules(None), vec![hard(10, 7)], ace(Suit::Clubs)), 0), Decision::Stand);
    // Three cards: surrender is no longer open.
    let three = hand_of(&[number(10, Suit::Hearts), number(2, Suit::Spades), number(4, Suit::Spades)], None);
    assert_eq!(decide(&game_of(late, vec![three], up10), 0), Decision::Hit);
}

#[test]
fn a_bust_hand_stands() {
    let bust = hand_of(&[number(10, Suit::Hearts), number(6, Suit::Spades), Card::new(Rank::King, Suit::Clubs)], None);
    assert_eq!(decide(&game_of(rules(None), vec![bust], number(10, Suit::Clubs)), 0), Decision::Stand);
}

#[test]
fn soft_totals_follow_the_table() {
    let up = |n: u8| number(n, Suit::Clubs);
    let soft = |n: u8| hand_of(&[ace(Suit::Hearts), number(n, Suit::Spades)], None);
    assert_eq!(decide(&game_of(rules(None), vec![soft(2)], up(4)), 0), Decision::Hit);
    assert_eq!(decide(&game_of(rules(None), vec![soft(2)], up(5)), 0), Decision::Double);
    assert_eq!(decide(&game_of(rules(None), vec![soft(6)], up(3)), 0), Decision::Double);
    assert_eq!(decide(&game_of(rules(None), vec![soft(6)], up(2)), 0), Decision::Hit);
    assert_eq!(look_up(&game_of(rules(None), vec![soft(7)], up(2)), 0), Decision::DoubleOrStand);
    assert_eq!(decide(&game_of(rules(None), vec![soft(7)], up(2)), 0), Decision::Double);
    assert_eq!(decide(&game_of(rules(None), vec![soft(7)], up(7)), 0), Decision::Stand);
    assert_eq!(decide(&game_of(rules(None), vec![soft(7)], up(9)), 0), Decision::Hit);
    assert_eq!(decide(&game_of(rules(None), vec![soft(8)], up(6)), 0), Decision::Double);
    assert_eq!(decide(&game_of(rules(None), vec![soft(9)], up(6)), 0), Decision::Stand);
    assert_eq!(decide(&game_of(rules(None), vec![soft(10)], up(6)), 0), Decision::Stand);
    // With three cards the double is off: soft 18 stands, soft 17 hits.
    let soft18 = hand_of(&[ace(Suit::Hearts), number(3, Suit::Spades), number(4, Suit::Spades)], None);
    assert_eq!(decide(&game_of(rules(None), vec![soft18], up(3)), 0), Decision::Stand);
    let soft17 = hand_of(&[ace(Suit::Hearts), number(3, Suit::Spades), number(3, Suit::Clubs)], None);
    assert_eq!(decide(&game_of(rules(None), vec![soft17], up(3)), 0), Decision::Hit);
}

#[test]
fn pairs_follow_the_table() {
    let up = |n: u8| number(n, Suit::Clubs);
    let pair = |n: u8| hand_of(&[number(n, Suit::Hearts), number(n, Suit::Spades)], None);
    let mut no_das = rules(None);
    no_das.double_after_split = false;
    assert_eq!(look_up(&game_of(rules(None), vec![pair(2)], up(2)), 0), Decision::SplitIfDASOrHit);
    assert_eq!(decide(&game_of(rules(None), vec![pair(2)], up(2)), 0), Decision::Split);
    assert_eq!(decide(&game_of(no_das, vec![pair(2)], up(2)), 0), Decision::Hit);
    assert_eq!(decide(&game_of(rules(None), vec![pair(2)], up(8)), 0), Decision::Hit);
    assert_eq!(decide(&game_of(rules(None), vec![pair(7)], up(7)), 0), Decision::Split);
    assert_eq!(decide(&game_of(rules(None), vec![pair(7)], up(8)), 0), Decision::Hit);
    assert_eq!(decide(&game_of(rules(None), vec![pair(10)], up(6)), 0), Decision::Stand);
    let kings = hand_of(&[Card::new(Rank::King, Suit::Hearts), Card::new(Rank::King, Suit::Spades)], None);
    assert_eq!(decide(&game_of(rules(None), vec![kings], up(6)), 0), Decision::Stand);
    let aces = hand_of(&[ace(Suit::Hearts), ace(Suit::Spades)], None);
    assert_eq!(decide(&game_of(rules(None), vec![aces], ace(Suit::Clubs)), 0), Decision::Split);
}

#[test]
fn split_aces_that_draw_an_ace_are_played_as_hard_12() {
    let pair = || hand_of(&[ace(Suit::Hearts), ace(Suit::Spades)], Some(Rank::Ace));
    let mut game = game_of(rules(None), vec![pair(), pair()], number(6, Suit::Clubs));
    game.current_round.has_split_aces = true;
    assert!(!game.current_round.can_split(0));
    assert_eq!(look_up(&game, 0), Decision::Stand);
    assert_eq!(decide(&game, 0), Decision::Stand);
    let game2 = {
        let mut g = game_of(rules(None), vec![pair(), pair()], number(7, Suit::Clubs));
        g.current_round.has_split_aces = true;
        g
    };
    // The table says hit, the rules bar a hit on split aces: stand.
    assert_eq!(look_up(&game2, 0), Decision::Hit);
    assert_eq!(decide(&game2, 0), Decision::Stand);
}

#[test]
fn resolve_brings_every_entry_under_the_rules() {
    let r = BasicStrategyLUT::resolve;
    assert_eq!(r(Decision::Hit, false, true, false, false), Decision::Hit);
    assert_eq!(r(Decision::Hit, true, false, true, true), Decision::Stand);
    assert_eq!(r(Decision::Stand, true, true, true, true), Decision::Stand);
    assert_eq!(r(Decision::Double, true, false, false, false), Decision::Double);
    assert_eq!(r(Decision::Double, false, false, true, true), Decision::Hit);
    assert_eq!(r(Decision::DoubleOrStand, true, true, true, true), Decision::Double);
    assert_eq!(r(Decision::DoubleOrStand, false, true, true, true), Decision::Stand);
    assert_eq!(r(Decision::Split, false, false, false, false), Decision::Split);
    assert_eq!(r(Decision::SplitIfDASOrHit, false, false, false, true), Decision::Split);
    assert_eq!(r(Decision::SplitIfDASOrHit, true, true, true, false), Decision::Hit);
    assert_eq!(r(Decision::SurrenderOrHit, false, false, true, false), Decision::Surrender);
    assert_eq!(r(Decision::SurrenderOrHit, true, true, false, true), Decision::Hit);
    assert_eq!(r(Decision::SurrenderOrStand, false, false, true, false), Decision::Surrender);
    assert_eq!(r(Decision::SurrenderOrStand, true, true, false, true), Decision::Stand);
    assert_eq!(r(Decision::SurrenderOrSplit, false, false, true, false), Decision::Surrender);
    assert_eq!(r(Decision::SurrenderOrSplit, true, true, false, true), Decision::Split);
}
