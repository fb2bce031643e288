use blackjack_sim::cardutils::{Card, HandCards, Rank, Shoe, Suit, ValueType};
use rand::Rng;

fn number(n: u8, suit: Suit) -> Card {
    Card::new(Rank::Number(n), suit)
}

fn hand_of(cards: &[Card]) -> HandCards {
    let mut hand = HandCards::new();
    for card in cards {
        hand.push(*card);
    }
    hand
}

#[test]
fn card_value() {
    let card = Card::new(Rank::Ace, Suit::Spades);
    assert_eq!(card.value(), 11);

    let card = Card::new(Rank::Number(2), Suit::Spades);
    assert_eq!(card.value(), 2);

    let card = Card::new(Rank::Number(3), Suit::Spades);
    assert_eq!(card.value(), 3);

    let card = Card::new(Rank::Number(4), Suit::Spades);
    assert_eq!(card.value(), 4);

    let card = Card::new(Rank::Number(5), Suit::Spades);
    assert_eq!(card.value(), 5);

    let card = Card::new(Rank::Number(6), Suit::Spades);
    assert_eq!(card.value(), 6);

    let card = Card::new(Rank::Number(7), Suit::Spades);
    assert_eq!(card.value(), 7);

    let card = Card::new(Rank::Number(8), Suit::Spades);
    assert_eq!(card.value(), 8);

    let card = Card::new(Rank::Number(9), Suit::Spades);
    assert_eq!(card.value(), 9);

    let card = Card::new(Rank::Number(10), Suit::Spades);
    assert_eq!(card.value(), 10);

    let card = Card::new(Rank::Jack, Suit::Spades);
    assert_eq!(card.value(), 10);

    let card = Card::new(Rank::Queen, Suit::Spades);
    assert_eq!(card.value(), 10);

    let card = Card::new(Rank::King, Suit::Spades);
    assert_eq!(card.value(), 10);

    let card = Card::new(Rank::Ace, Suit::Clubs);
    assert_eq!(card.value(), 11);

    let card = Card::new(Rank::Number(2), Suit::Clubs);
    assert_eq!(card.value(), 2);

    let card = Card::new(Rank::Number(3), Suit::Clubs);
    assert_eq!(card.value(), 3);

    let card = Card::new(Rank::Number(4), Suit::Clubs);
    assert_eq!(card.value(), 4);

    let card = Card::new(Rank::Number(5), Suit::Clubs);
    assert_eq!(card.value(), 5);

    let card = Card::new(Rank::Number(6), Suit::Clubs);
    assert_eq!(card.value(), 6);

    let card = Card::new(Rank::Number(7), Suit::Clubs);
    assert_eq!(card.value(), 7);

    let card = Card::new(Rank::Number(8), Suit::Clubs);
    assert_eq!(card.value(), 8);

    let card = Card::new(Rank::Number(9), Suit::Clubs);
    assert_eq!(card.value(), 9);

    let card = Card::new(Rank::Number(10), Suit::Clubs);
    assert_eq!(card.value(), 10);

    let card = Card::new(Rank::Jack, Suit::Clubs);
    assert_eq!(card.value(), 10);

    let card = Card::new(Rank::Queen, Suit::Clubs);
    assert_eq!(card.value(), 10);

    let card = Card::new(Rank::King, Suit::Clubs);
    assert_eq!(card.value(), 10);

    let card = Card::new(Rank::Ace, Suit::Hearts);
    assert_eq!(card.value(), 11);

    let card = Card::new(Rank::Number(2), Suit::Hearts);
    assert_eq!(card.value(), 2);

    let card = Card::new(Rank::Number(3), Suit::Hearts);
    assert_eq!(card.value(), 3);

    let card = Card::new(Rank::Number(4), Suit::Hearts);
    assert_eq!(card.value(), 4);

    let card = Card::new(Rank::Number(5), Suit::Hearts);
    assert_eq!(card.value(), 5);

    let card = Card::new(Rank::Number(6), Suit::Hearts);
    assert_eq!(card.value(), 6);

    let card = Card::new(Rank::Number(7), Suit::Hearts);
    assert_eq!(card.value(), 7);

    let card = Card::new(Rank::Number(8), Suit::Hearts);
    assert_eq!(card.value(), 8);

    let card = Card::new(Rank::Number(9), Suit::Hearts);
    assert_eq!(card.value(), 9);

    let card = Card::new(Rank::Number(10), Suit::Hearts);
    assert_eq!(card.value(), 10);

    let card = Card::new(Rank::Jack, Suit::Hearts);
    assert_eq!(card.value(), 10);

    let card = Card::new(Rank::Queen, Suit::Hearts);
    assert_eq!(card.value(), 10);

    let card = Card::new(Rank::King, Suit::Hearts);
    assert_eq!(card.value(), 10);

    let card = Card::new(Rank::Ace, Suit::Diamonds);
    assert_eq!(card.value(), 11);

    let card = Card::new(Rank::Number(2), Suit::Diamonds);
    assert_eq!(card.value(), 2);

    let card = Card::new(Rank::Number(3), Suit::Diamonds);
    assert_eq!(card.value(), 3);

    let card = Card::new(Rank::Number(4), Suit::Diamonds);
    assert_eq!(card.value(), 4);

    let card = Card::new(Rank::Number(5), Suit::Diamonds);
    assert_eq!(card.value(), 5);

    let card = Card::new(Rank::Number(6), Suit::Diamonds);
    assert_eq!(card.value(), 6);

    let card = Card::new(Rank::Number(7), Suit::Diamonds);
    assert_eq!(card.value(), 7);

    let card = Card::new(Rank::Number(8), Suit::Diamonds);
    assert_eq!(card.value(), 8);

    let card = Card::new(Rank::Number(9), Suit::Diamonds);
    assert_eq!(card.value(), 9);

    let card = Card::new(Rank::Number(10), Suit::Diamonds);
    assert_eq!(card.value(), 10);

    let card = Card::new(Rank::Jack, Suit::Diamonds);
    assert_eq!(card.value(), 10);

    let card = Card::new(Rank::Queen, Suit::Diamonds);
    assert_eq!(card.value(), 10);

    let card = Card::new(Rank::King, Suit::Diamonds);
    assert_eq!(card.value(), 10);
}

#[test]
fn shoe_creation() {
    const DECK_SIZE: usize = 52;
    let mut rng = rand::thread_rng();

    for _ in 0..5 {
        let num = rng.gen_range(1..=10) as usize;
        let shoe = Shoe::new(num as u8);
        assert_eq!(shoe.cards_left(), DECK_SIZE * num);
    }
}

#[test]
fn rank_value_follows_the_table() {
    assert_eq!(Rank::Ace.value(), 11);
    for n in 2..=10u8 {
        assert_eq!(Rank::Number(n).value(), n);
    }
    assert_eq!(Rank::Jack.value(), 10);
    assert_eq!(Rank::Queen.value(), 10);
    assert_eq!(Rank::King.value(), 10);
}

#[test]
fn hilo_value_of_every_rank() {
    for n in 2..=6u8 {
        assert_eq!(number(n, Suit::Hearts).hilo_value(), 1);
    }
    for n in 7..=9u8 {
        assert_eq!(number(n, Suit::Clubs).hilo_value(), 0);
    }
    assert_eq!(number(10, Suit::Spades).hilo_value(), -1);
    assert_eq!(Card::new(Rank::Jack, Suit::Spades).hilo_value(), -1);
    assert_eq!(Card::new(Rank::Queen, Suit::Spades).hilo_value(), -1);
    assert_eq!(Card::new(Rank::King, Suit::Spades).hilo_value(), -1);
    assert_eq!(Card::new(Rank::Ace, Suit::Diamonds).hilo_value(), -1);
}

#[test]
fn get_rank_returns_the_rank_given() {
    assert_eq!(Card::new(Rank::Queen, Suit::Hearts).get_rank(), Rank::Queen);
    assert_eq!(number(7, Suit::Clubs).get_rank(), Rank::Number(7));
    assert_ne!(number(7, Suit::Clubs).get_rank(), Rank::Number(8));
}

#[test]
fn rank_and_suit_from_index() {
    assert_eq!(Rank::from_index(0), Rank::Ace);
    assert_eq!(Rank::from_index(1), Rank::Number(2));
    assert_eq!(Rank::from_index(9), Rank::Number(10));
    assert_eq!(Rank::from_index(10), Rank::Jack);
    assert_eq!(Rank::from_index(11), Rank::Queen);
    assert_eq!(Rank::from_index(12), Rank::King);
    assert_eq!(Suit::from_index(0), Suit::Spades);
    assert_eq!(Suit::from_index(1), Suit::Clubs);
    assert_eq!(Suit::from_index(2), Suit::Hearts);
    assert_eq!(Suit::from_index(3), Suit::Diamonds);
}

#[test]
fn card_from_indices_builds_the_card() {
    assert_eq!(Card::from_indices(0, 0), Card::new(Rank::Ace, Suit::Spades));
    assert_eq!(Card::from_indices(5, 2), number(6, Suit::Hearts));
    assert_eq!(Card::from_indices(12, 3), Card::new(Rank::King, Suit::Diamonds));
}

#[test]
fn random_card_is_always_valid() {
    let mut seen_number = false;
    let mut seen_other = false;
    for _ in 0..2000 {
        let card = Card::rand();
        match card.get_rank() {
            Rank::Number(n) => {
                assert!((2..=10).contains(&n));
                seen_number = true;
            }
            _ => seen_other = true,
        }
        let hilo = card.hilo_value();
        assert!((-1..=1).contains(&hilo));
        assert!((2..=11).contains(&card.value()));
    }
    assert!(seen_number && seen_other);
}

#[test]
fn shoe_loses_one_card_per_deal_until_empty() {
    for decks in 1..=3u8 {
        let mut shoe = Shoe::new(decks);
        let total = 52 * decks as usize;
        assert_eq!(shoe.cards_left(), total);
        for dealt in 1..=total {
            shoe.deal();
            assert_eq!(shoe.cards_left(), total - dealt);
        }
        assert_eq!(shoe.cards_left(), 0);
    }
}

#[test]
fn shoe_holds_every_card_of_its_decks() {
    let decks = 2usize;
    let mut shoe = Shoe::new(decks as u8);
    let mut cards = Vec::new();
    while shoe.cards_left() > 0 {
        cards.push(shoe.deal());
    }
    for suit in [Suit::Spades, Suit::Clubs, Suit::Hearts, Suit::Diamonds] {
        for k in 0..13u8 {
            let wanted = Card::new(Rank::from_index(k), suit);
            assert_eq!(cards.iter().filter(|c| **c == wanted).count(), decks);
        }
    }
    let total: usize = cards.iter().map(|c| c.value() as usize).sum();
    assert_eq!(total, decks * 4 * (11 + 2 + 3 + 4 + 5 + 6 + 7 + 8 + 9 + 10 + 10 + 10 + 10));
}

#[test]
fn shoe_from_cards_deals_the_last_card_first() {
    let mut shoe = Shoe::from_cards(vec![
        number(2, Suit::Hearts),
        number(3, Suit::Hearts),
        Card::new(Rank::King, Suit::Clubs),
    ]);
    assert_eq!(shoe.cards_left(), 3);
    assert_eq!(shoe.deal(), Card::new(Rank::King, Suit::Clubs));
    assert_eq!(shoe.deal(), number(3, Suit::Hearts));
    assert_eq!(shoe.deal(), number(2, Suit::Hearts));
    assert_eq!(shoe.cards_left(), 0);
}

#[test]
fn ace_six_is_soft_17_and_with_a_king_hard_17() {
    let mut hand = hand_of(&[Card::new(Rank::Ace, Suit::Spades), number(6, Suit::Hearts)]);
    assert_eq!(hand.num_value(), 17);
    assert_eq!(hand.value_type(), ValueType::Soft);
    assert_eq!(hand.value(), (17, ValueType::Soft));
    assert!(!hand.is_bust());

    hand.push(Card::new(Rank::King, Suit::Clubs));
    assert_eq!(hand.raw_value(), 27);
    assert_eq!(hand.num_value(), 17);
    assert_eq!(hand.value_type(), ValueType::Hard);
    assert_eq!(hand.value(), (17, ValueType::Hard));
    assert!(!hand.is_bust());
}

#[test]
fn only_one_ace_is_ever_counted_low() {
    let pair = hand_of(&[Card::new(Rank::Ace, Suit::Spades), Card::new(Rank::Ace, Suit::Hearts)]);
    assert_eq!(pair.raw_value(), 22);
    assert_eq!(pair.num_value(), 12);
    assert_eq!(pair.value_type(), ValueType::Hard);

    let three = hand_of(&[
        Card::new(Rank::Ace, Suit::Spades),
        Card::new(Rank::Ace, Suit::Hearts),
        Card::new(Rank::Ace, Suit::Clubs),
    ]);
    assert_eq!(three.num_value(), 23);
    assert!(three.is_bust());
}

#[test]
fn hand_without_an_ace_is_hard_and_busts_over_21() {
    let mut hand = hand_of(&[number(10, Suit::Spades), number(9, Suit::Hearts)]);
    assert!(!hand.has_ace());
    assert_eq!(hand.value(), (19, ValueType::Hard));
    assert!(!hand.is_bust());
    hand.push(number(2, Suit::Clubs));
    assert_eq!(hand.num_value(), 21);
    assert!(!hand.is_bust());
    hand.push(number(2, Suit::Diamonds));
    assert_eq!(hand.num_value(), 23);
    assert!(hand.is_bust());
}

#[test]
fn empty_hand_counts_nothing() {
    let hand = HandCards::new();
    assert_eq!(hand.len(), 0);
    assert_eq!(hand.raw_value(), 0);
    assert_eq!(hand.num_value(), 0);
    assert!(!hand.has_ace());
    assert!(!hand.is_pair());
    assert_eq!(hand.value_type(), ValueType::Hard);
    let other = HandCards::default();
    assert_eq!(other.len(), 0);
}

#[test]
fn has_ace_finds_an_ace_anywhere() {
    let hand = hand_of(&[number(5, Suit::Spades), number(3, Suit::Hearts), Card::new(Rank::Ace, Suit::Clubs)]);
    assert!(hand.has_ace());
    assert_eq!(hand.value(), (19, ValueType::Soft));
}

#[test]
fn pair_is_two_cards_of_one_rank_whatever_the_suit() {
    assert!(hand_of(&[number(9, Suit::Spades), number(9, Suit::Hearts)]).is_pair());
    assert!(hand_of(&[number(9, Suit::Clubs), number(9, Suit::Clubs)]).is_pair());
    assert!(!hand_of(&[number(9, Suit::Spades), number(8, Suit::Spades)]).is_pair());
    assert!(!hand_of(&[number(10, Suit::Spades), Card::new(Rank::King, Suit::Spades)]).is_pair());
    assert!(!hand_of(&[number(9, Suit::Spades)]).is_pair());
    assert!(!hand_of(&[number(9, Suit::Spades), number(9, Suit::Hearts), number(9, Suit::Clubs)]).is_pair());
}

#[test]
fn push_pop_and_first_card() {
    let mut hand = HandCards::new();
    hand.push(number(4, Suit::Spades));
    hand.push(Card::new(Rank::Jack, Suit::Hearts));
    assert_eq!(hand.len(), 2);
    assert_eq!(hand.first_card(), number(4, Suit::Spades));
    assert_eq!(hand.cards.get(1), Card::new(Rank::Jack, Suit::Hearts));
    assert_eq!(hand.cards.len(), 2);
    assert_eq!(hand.pop(), Card::new(Rank::Jack, Suit::Hearts));
    assert_eq!(hand.len(), 1);
    assert_eq!(hand.first_card(), number(4, Suit::Spades));
    assert_eq!(hand.pop(), number(4, Suit::Spades));
    assert_eq!(hand.len(), 0);
}

#[test]
fn hand_from_shoe_takes_two_cards_and_counts_them() {
    let mut shoe = Shoe::from_cards(vec![
        number(2, Suit::Hearts),
        Card::new(Rank::King, Suit::Clubs),
        number(5, Suit::Spades),
        number(6, Suit::Spades),
    ]);
    let (hand, hilo) = HandCards::from(&mut shoe);
    assert_eq!(hand.len(), 2);
    assert_eq!(hand.first_card(), number(6, Suit::Spades));
    assert_eq!(hand.cards.get(1), number(5, Suit::Spades));
    assert_eq!(hilo, 2);
    assert_eq!(shoe.cards_left(), 2);
    let (next, hilo) = HandCards::from(&mut shoe);
    assert_eq!(next.first_card(), Card::new(Rank::King, Suit::Clubs));
    assert_eq!(hilo, 0);
    assert_eq!(shoe.cards_left(), 0);
}

#[test]
fn hit_draws_the_top_card_and_returns_its_count() {
    let mut shoe = Shoe::from_cards(vec![number(8, Suit::Hearts), Card::new(Rank::Ace, Suit::Clubs), number(3, Suit::Spades)]);
    let mut hand = hand_of(&[number(10, Suit::Spades), number(2, Suit::Hearts)]);
    assert_eq!(hand.hit(&mut shoe), 1);
    assert_eq!(hand.len(), 3);
    assert_eq!(hand.cards.get(2), number(3, Suit::Spades));
    assert_eq!(hand.hit(&mut shoe), -1);
    assert_eq!(hand.hit(&mut shoe), 0);
    assert_eq!(hand.len(), 5);
    assert_eq!(shoe.cards_left(), 0);
    assert_eq!(hand.num_value(), 24);
}

#[test]
fn dealer_stands_on_soft_17_where_the_rules_say_so() {
    let mut shoe = Shoe::from_cards(vec![number(4, Suit::Hearts), number(2, Suit::Clubs)]);
    let mut dealer = hand_of(&[Card::new(Rank::Ace, Suit::Spades), number(6, Suit::Hearts)]);
    let hilo = dealer.dealer_play(&mut shoe, false);
    assert_eq!(hilo, 0);
    assert_eq!(dealer.len(), 2);
    assert_eq!(shoe.cards_left(), 2);
    assert_eq!(dealer.value(), (17, ValueType::Soft));
}

#[test]
fn dealer_hits_soft_17_where_the_rules_say_so() {
    let mut shoe = Shoe::from_cards(vec![number(4, Suit::Hearts), number(2, Suit::Clubs)]);
    let mut dealer = hand_of(&[Card::new(Rank::Ace, Suit::Spades), number(6, Suit::Hearts)]);
    let hilo = dealer.dealer_play(&mut shoe, true);
    assert_eq!(hilo, 1);
    assert_eq!(dealer.len(), 3);
    assert_eq!(shoe.cards_left(), 1);
    assert_eq!(dealer.value(), (19, ValueType::Soft));
}

#[test]
fn dealer_stands_on_hard_17_under_either_rule() {
    for hit_soft_17 in [false, true] {
        let mut shoe = Shoe::from_cards(vec![number(4, Suit::Hearts)]);
        let mut dealer = hand_of(&[
            Card::new(Rank::Ace, Suit::Spades),
            number(6, Suit::Hearts),
            Card::new(Rank::King, Suit::Hearts),
        ]);
        assert_eq!(dealer.dealer_play(&mut shoe, hit_soft_17), 0);
        assert_eq!(dealer.len(), 3);
        assert_eq!(shoe.cards_left(), 1);
    }
}

#[test]
fn dealer_draws_until_17_and_counts_only_the_cards_drawn() {
    // The shoe deals 2, 3, 5, then a queen that stays.
    let mut shoe = Shoe::from_cards(vec![
        Card::new(Rank::Queen, Suit::Clubs),
        number(5, Suit::Hearts),
        number(3, Suit::Clubs),
        number(2, Suit::Clubs),
    ]);
    let mut dealer = hand_of(&[number(4, Suit::Spades), number(3, Suit::Hearts)]);
    let hilo = dealer.dealer_play(&mut shoe, false);
    assert_eq!(dealer.len(), 5);
    assert_eq!(dealer.num_value(), 17);
    assert_eq!(hilo, 3);
    assert_eq!(shoe.cards_left(), 1);
}

#[test]
fn dealer_can_bust() {
    let mut shoe = Shoe::from_cards(vec![Card::new(Rank::King, Suit::Clubs)]);
    let mut dealer = hand_of(&[number(10, Suit::Spades), number(6, Suit::Hearts)]);
    let hilo = dealer.dealer_play(&mut shoe, false);
    assert_eq!(hilo, -1);
    assert!(dealer.is_bust());
    assert_eq!(dealer.num_value(), 26);
}

#[test]
fn a_new_shoe_is_shuffled() {
    let mut packed = Vec::new();
    for _ in 0..6 {
        for s in 0..4u8 {
            for k in 0..13u8 {
                packed.push(Card::from_indices(k, s));
            }
        }
    }
    let mut first = Shoe::new(6);
    let mut second = Shoe::new(6);
    let mut from_first = Vec::new();
    let mut from_second = Vec::new();
    while first.cards_left() > 0 {
        from_first.push(first.deal());
        from_second.push(second.deal());
    }
    from_first.reverse();
    from_second.reverse();
    assert_eq!(from_first.len(), packed.len());
    assert_ne!(from_first, packed);
    assert_ne!(from_second, packed);
    assert_ne!(from_first, from_second);
}

#[test]
fn random_cards_cover_the_deck() {
    let mut seen: Vec<Card> = Vec::new();
    for _ in 0..5000 {
        let card = Card::rand();
        if !seen.contains(&card) {
            seen.push(card);
        }
    }
    assert!(seen.len() > 40);
    assert!(seen.len() <= 52);
    for card in &seen {
        let rank = card.get_rank();
        let fits = (0..13u8).any(|k| Rank::from_index(k) == rank);
        assert!(fits);
    }
}

#[test]
fn a_dealer_who_stands_needs_no_card() {
    let mut shoe = Shoe::from_cards(Vec::new());
    let mut dealer = hand_of(&[number(10, Suit::Spades), number(8, Suit::Hearts)]);
    assert_eq!(dealer.dealer_play(&mut shoe, false), 0);
    assert_eq!(dealer.len(), 2);
    assert_eq!(shoe.cards_left(), 0);
}
