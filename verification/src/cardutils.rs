//! Cards, the shoe they are dealt from, and the cards of one hand with the
//! values blackjack gives them.

use crate::storage::{
    card_items, cards_get, cards_len, cards_new, cards_pop, cards_push, cards_shuffle,
    random_below, CardVec,
};
use vstd::prelude::*;

verus! {

#[derive(Debug, Clone, Copy, PartialEq, Eq, Structural)]
pub enum Suit {
    Spades,
    Clubs,
    Hearts,
    Diamonds,
}

#[derive(Debug, Clone, Copy, PartialEq, Eq, Structural)]
pub enum Rank {
    Ace,
    Number(u8),
    Jack,
    Queen,
    King,
}

#[derive(Debug, Clone, Copy, PartialEq, Eq, Structural)]
pub enum ValueType {
    Hard,
    Soft,
}

#[derive(Debug, Clone, Copy, PartialEq, Eq, Structural)]
pub struct Card {
    rank: Rank,
    suit: Suit,
}

/// The rank at position `k` of a suit, counted from the ace: ace, two to ten,
/// jack, queen, king.
pub open spec fn rank_at(k: int) -> Rank {
    if k == 0 {
        Rank::Ace
    } else if k <= 9 {
        Rank::Number((k + 1) as u8)
    } else if k == 10 {
        Rank::Jack
    } else if k == 11 {
        Rank::Queen
    } else {
        Rank::King
    }
}

/// The suit at position `k`: spades, clubs, hearts, diamonds.
pub open spec fn suit_at(k: int) -> Suit {
    if k == 0 {
        Suit::Spades
    } else if k == 1 {
        Suit::Clubs
    } else if k == 2 {
        Suit::Hearts
    } else {
        Suit::Diamonds
    }
}

impl Suit {
    /// The suit at position `k` of the four.
    pub fn from_index(k: u8) -> (suit: Suit)
        requires
            k < 4,
        ensures
            suit == suit_at(k as int),
    {
        if k == 0 {
            Suit::Spades
        } else if k == 1 {
            Suit::Clubs
        } else if k == 2 {
            Suit::Hearts
        } else {
            Suit::Diamonds
        }
    }
}

impl Rank {
    /// A number card shows two to ten; every other rank is always valid.
    pub open spec fn wf(self) -> bool {
        self matches Rank::Number(n) ==> 2 <= n <= 10
    }

    /// What the rank counts towards a hand: eleven for an ace, ten for a
    /// face card, the number shown otherwise.
    pub open spec fn spec_value(self) -> int {
        match self {
            Rank::Ace => 11,
            Rank::Number(n) => n as int,
            Rank::Jack | Rank::Queen | Rank::King => 10,
        }
    }

    /// The Hi-Lo count of the rank: plus one for two to six, nothing for
    /// seven to nine, minus one for tens, face cards and aces.
    pub open spec fn spec_hilo(self) -> int {
        match self {
            Rank::Number(n) => if 2 <= n <= 6 {
                1
            } else if 7 <= n <= 9 {
                0
            } else {
                -1
            },
            _ => -1,
        }
    }

    pub fn value(&self) -> (v: u8)
        ensures
            v == self.spec_value(),
    {
        match self {
            Rank::Ace => 11,
            Rank::Number(n) => *n,
            Rank::Jack | Rank::Queen | Rank::King => 10,
        }
    }

    /// The rank at position `k` of a suit.
    pub fn from_index(k: u8) -> (rank: Rank)
        requires
            k < 13,
        ensures
            rank == rank_at(k as int),
            rank.wf(),
    {
        if k == 0 {
            Rank::Ace
        } else if k <= 9 {
            Rank::Number(k + 1)
        } else if k == 10 {
            Rank::Jack
        } else if k == 11 {
            Rank::Queen
        } else {
            Rank::King
        }
    }
}

impl Card {
    pub closed spec fn spec_rank(self) -> Rank {
        self.rank
    }

    pub closed spec fn spec_suit(self) -> Suit {
        self.suit
    }

    /// A card is valid when its rank is.
    pub open spec fn wf(self) -> bool {
        self.spec_rank().wf()
    }

    pub open spec fn spec_value(self) -> int {
        self.spec_rank().spec_value()
    }

    pub open spec fn spec_hilo(self) -> int {
        self.spec_rank().spec_hilo()
    }

    pub fn new(rank: Rank, suit: Suit) -> (card: Card)
        ensures
            card.spec_rank() == rank,
            card.spec_suit() == suit,
    {
        Card { rank, suit }
    }

    /// Ace is 11, a number card its number, jack, queen and king 10.
    pub fn value(&self) -> (v: u8)
        ensures
            v == self.spec_value(),
            self.spec_rank() == Rank::Ace ==> v == 11,
            self.spec_rank() matches Rank::Number(n) ==> v == n,
            self.spec_rank() == Rank::Jack || self.spec_rank() == Rank::Queen || self.spec_rank()
                == Rank::King ==> v == 10,
    {
        self.rank.value()
    }

    /// The card that the two draws `rank_num` (of 13) and `suit_num` (of 4)
    /// stand for.
    pub fn from_indices(rank_num: u8, suit_num: u8) -> (card: Card)
        requires
            rank_num < 13,
            suit_num < 4,
        ensures
            card.spec_rank() == rank_at(rank_num as int),
            card.spec_suit() == suit_at(suit_num as int),
            card.wf(),
    {
        Card::new(Rank::from_index(rank_num), Suit::from_index(suit_num))
    }

    /// A card drawn at random: one of the thirteen ranks and one of the four
    /// suits. Which one is up to the random source; it is always a valid card.
    pub fn rand() -> (card: Card)
        ensures
            card.wf(),
            exists|r: int, s: int|
                0 <= r < 13 && 0 <= s < 4 && card.spec_rank() == rank_at(r) && card.spec_suit()
                    == suit_at(s),
    {
        let rank_num: u8 = random_below(13);
        let suit_num: u8 = random_below(4);
        Card::from_indices(rank_num, suit_num)
    }

    pub fn get_rank(&self) -> (rank: Rank)
        ensures
            rank == self.spec_rank(),
    {
        self.rank
    }

    /// The Hi-Lo count of the card. Only a valid card has one.
    pub fn hilo_value(&self) -> (h: isize)
        requires
            self.wf(),
        ensures
            h == self.spec_hilo(),
            -1 <= h <= 1,
    {
        match self.rank {
            Rank::Number(n) => {
                if n <= 6 {
                    1
                } else if n <= 9 {
                    0
                } else {
                    -1
                }
            },
            Rank::Jack | Rank::Queen | Rank::King | Rank::Ace => -1,
        }
    }
}

/// Two cards of the same rank and suit are the same card.
pub proof fn lemma_card_eq(a: Card, b: Card)
    requires
        a.spec_rank() == b.spec_rank(),
        a.spec_suit() == b.spec_suit(),
    ensures
        a == b,
{
}

/// Every card of the sequence is valid.
pub open spec fn cards_wf(s: Seq<Card>) -> bool {
    forall|i: int| 0 <= i < s.len() ==> (#[trigger] s[i]).wf()
}

/// The sum of the card values, every ace counted as eleven.
pub open spec fn raw_total(s: Seq<Card>) -> int
    decreases s.len(),
{
    if s.len() == 0 {
        0
    } else {
        raw_total(s.drop_last()) + s.last().spec_value()
    }
}

/// The sum of the Hi-Lo counts of the cards.
pub open spec fn hilo_total(s: Seq<Card>) -> int
    decreases s.len(),
{
    if s.len() == 0 {
        0
    } else {
        hilo_total(s.drop_last()) + s.last().spec_hilo()
    }
}

/// Some card of the sequence is an ace.
pub open spec fn contains_ace(s: Seq<Card>) -> bool {
    exists|i: int| 0 <= i < s.len() && (#[trigger] s[i]).spec_rank() == Rank::Ace
}

/// The blackjack total of a hand: the raw sum, less ten, once, when the hand
/// holds an ace and the raw sum is over 21.
pub open spec fn hand_total(s: Seq<Card>) -> int {
    if contains_ace(s) && raw_total(s) > 21 {
        raw_total(s) - 10
    } else {
        raw_total(s)
    }
}

/// A hand is soft when it holds an ace and its raw sum is at most 21.
pub open spec fn hand_kind(s: Seq<Card>) -> ValueType {
    if contains_ace(s) && raw_total(s) <= 21 {
        ValueType::Soft
    } else {
        ValueType::Hard
    }
}

/// Exactly two cards, of the same rank.
pub open spec fn is_pair_of(s: Seq<Card>) -> bool {
    s.len() == 2 && s[0].spec_rank() == s[1].spec_rank()
}

/// The top `k` cards of a shoe in the order they are dealt: the last card
/// first.
pub open spec fn dealt(shoe: Seq<Card>, k: int) -> Seq<Card> {
    Seq::new(k as nat, |i: int| shoe[shoe.len() - 1 - i])
}

/// One full deck in its packed order: spades, clubs, hearts, diamonds, each
/// from the ace up to the king.
pub closed spec fn fresh_deck() -> Seq<Card> {
    Seq::new(52, |i: int| Card { rank: rank_at(i % 13), suit: suit_at(i / 13) })
}

/// `k` full decks one after another.
pub open spec fn fresh_shoe(k: nat) -> Seq<Card>
    decreases k,
{
    if k == 0 {
        Seq::empty()
    } else {
        fresh_shoe((k - 1) as nat) + fresh_deck()
    }
}

/// A full deck has 52 cards; card `i` has rank `i % 13` of suit `i / 13`.
pub proof fn lemma_fresh_deck(i: int)
    requires
        0 <= i < 52,
    ensures
        fresh_deck().len() == 52,
        fresh_deck()[i].spec_rank() == rank_at(i % 13),
        fresh_deck()[i].spec_suit() == suit_at(i / 13),
        fresh_deck()[i].wf(),
{
}

/// `k` full decks hold `52 * k` cards, all of them valid.
pub proof fn lemma_fresh_shoe(k: nat)
    ensures
        fresh_shoe(k).len() == 52 * k,
        cards_wf(fresh_shoe(k)),
    decreases k,
{
    if k > 0 {
        lemma_fresh_shoe((k - 1) as nat);
        let prev = fresh_shoe((k - 1) as nat);
        assert forall|i: int| 0 <= i < fresh_shoe(k).len() implies (#[trigger] fresh_shoe(
            k,
        )[i]).wf() by {
            if i >= prev.len() {
                lemma_fresh_deck(i - prev.len());
            }
        }
    }
}

/// A rearrangement of valid cards holds as many cards, all of them valid.
pub proof fn lemma_rearranged(before: Seq<Card>, after: Seq<Card>)
    requires
        after.to_multiset() == before.to_multiset(),
    ensures
        after.len() == before.len(),
        cards_wf(before) ==> cards_wf(after),
{
    broadcast use vstd::seq_lib::group_to_multiset_ensures;

    before.to_multiset_ensures();
    after.to_multiset_ensures();
    if cards_wf(before) {
        assert forall|i: int| 0 <= i < after.len() implies (#[trigger] after[i]).wf() by {
            assert(after.contains(after[i]));
            assert(before.to_multiset().count(after[i]) > 0);
            assert(before.contains(after[i]));
        }
    }
}

/// What is left of a shoe after `n` deals.
pub open spec fn after_deals(shoe: Seq<Card>, n: nat) -> Seq<Card>
    decreases n,
{
    if n == 0 {
        shoe
    } else {
        after_deals(shoe, (n - 1) as nat).drop_last()
    }
}

/// A shoe of `k` decks holds `52 * k` cards, has one card fewer after every
/// deal, and is empty after `52 * k` deals and not before.
pub proof fn lemma_shoe_drains(k: nat, shoe: Seq<Card>, n: nat)
    requires
        shoe.to_multiset() == fresh_shoe(k).to_multiset(),
        n <= 52 * k,
    ensures
        shoe.len() == 52 * k,
        after_deals(shoe, n).len() == 52 * k - n,
        after_deals(shoe, n).len() == 0 <==> n == 52 * k,
    decreases n,
{
    lemma_fresh_shoe(k);
    lemma_rearranged(fresh_shoe(k), shoe);
    if n > 0 {
        lemma_shoe_drains(k, shoe, (n - 1) as nat);
    }
}

/// A dealer on soft 17 stands where the rules have the dealer stand on it,
/// and must draw where they have the dealer hit it; on a hard 17 the dealer
/// stands under either rule.
pub proof fn lemma_dealer_on_17(hand: Seq<Card>)
    requires
        hand_total(hand) == 17,
    ensures
        !dealer_must_hit(hand, false),
        dealer_must_hit(hand, true) <==> hand_kind(hand) == ValueType::Soft,
{
}

/// The cards still to be dealt. The last card of the view is dealt next.
#[derive(Debug)]
pub struct Shoe {
    cards: CardVec,
}

impl View for Shoe {
    type V = Seq<Card>;

    closed spec fn view(&self) -> Seq<Card> {
        card_items(self.cards)
    }
}

impl Shoe {
    /// Every card in the shoe is valid.
    pub open spec fn wf(&self) -> bool {
        cards_wf(self@)
    }

    /// `num_decks` full decks, shuffled: the shoe holds exactly the cards of
    /// that many decks, in an order that is up to the random source.
    pub fn new(num_decks: u8) -> (shoe: Shoe)
        requires
            num_decks > 0,
        ensures
            shoe@.to_multiset() == fresh_shoe(num_decks as nat).to_multiset(),
            shoe@.len() == 52 * num_decks,
            shoe.wf(),
    {
        let mut cards = cards_new();
        let mut i: u8 = 0;
        while i < num_decks
            invariant
                i <= num_decks,
                card_items(cards) == fresh_shoe(i as nat),
            decreases num_decks - i,
        {
            Self::push_fresh_deck(&mut cards);
            i += 1;
        }
        let ghost packed = card_items(cards);
        cards_shuffle(&mut cards);
        proof {
            lemma_fresh_shoe(num_decks as nat);
            lemma_rearranged(packed, card_items(cards));
        }
        Shoe { cards }
    }

    /// A shoe holding exactly `cards`, unshuffled: the last of them is dealt
    /// first.
    pub fn from_cards(cards: Vec<Card>) -> (shoe: Shoe)
        ensures
            shoe@ == cards@,
    {
        Shoe { cards: CardVec::from_vec(cards) }
    }

    /// Takes the next card off the shoe. The shoe must not be empty.
    pub fn deal(&mut self) -> (card: Card)
        requires
            old(self)@.len() > 0,
        ensures
            card == old(self)@.last(),
            final(self)@ == old(self)@.drop_last(),
            final(self)@.len() == old(self)@.len() - 1,
            old(self).wf() ==> card.wf() && final(self).wf(),
    {
        cards_pop(&mut self.cards).unwrap()
    }

    pub fn cards_left(&self) -> (n: usize)
        ensures
            n == self@.len(),
    {
        cards_len(&self.cards)
    }

    /// Appends one full deck in its packed order.
    fn push_fresh_deck(cards: &mut CardVec)
        ensures
            card_items(*final(cards)) == card_items(*old(cards)) + fresh_deck(),
    {
        let mut i: u8 = 0;
        while i < 52
            invariant
                i <= 52,
                card_items(*cards) == card_items(*old(cards)) + fresh_deck().take(i as int),
            decreases 52 - i,
        {
            let card = Card::new(Rank::from_index(i % 13), Suit::from_index(i / 13));
            cards_push(cards, card);
            assert(card == fresh_deck()[i as int]);
            assert((card_items(*old(cards)) + fresh_deck().take(i as int)).push(card) == card_items(
                *old(cards),
            ) + fresh_deck().take(i + 1));
            i += 1;
        }
        assert(fresh_deck().take(52) == fresh_deck());
    }
}

/// Adding a card adds its value to the raw sum.
pub proof fn lemma_raw_total_push(s: Seq<Card>, card: Card)
    ensures
        raw_total(s.push(card)) == raw_total(s) + card.spec_value(),
        hilo_total(s.push(card)) == hilo_total(s) + card.spec_hilo(),
        contains_ace(s.push(card)) <==> contains_ace(s) || card.spec_rank() == Rank::Ace,
        cards_wf(s) && card.wf() ==> cards_wf(s.push(card)),
{
    let t = s.push(card);
    assert(t.drop_last() == s);
    if contains_ace(s) {
        let i = choose|i: int| 0 <= i < s.len() && (#[trigger] s[i]).spec_rank() == Rank::Ace;
        assert(t[i].spec_rank() == Rank::Ace);
    }
    if card.spec_rank() == Rank::Ace {
        assert(t[s.len() as int].spec_rank() == Rank::Ace);
    }
    if contains_ace(t) {
        let i = choose|i: int| 0 <= i < t.len() && (#[trigger] t[i]).spec_rank() == Rank::Ace;
        if i < s.len() {
            assert(s[i].spec_rank() == Rank::Ace);
        }
    }
}

/// The raw sum of the first `i` cards is at most the raw sum of all.
proof fn lemma_raw_total_prefix(s: Seq<Card>, i: int)
    requires
        0 <= i <= s.len(),
    ensures
        0 <= raw_total(s.take(i)) <= raw_total(s),
    decreases s.len() - i,
{
    if i == s.len() {
        assert(s.take(i) == s);
        lemma_raw_total_bounds(s);
    } else {
        lemma_raw_total_prefix(s, i + 1);
        assert(s.take(i + 1).drop_last() == s.take(i));
        lemma_raw_total_bounds(s.take(i));
    }
}

/// Every card counts at least nothing, a valid card between 2 and 11, and an
/// ace 11: the bounds that follow for the raw sum and the Hi-Lo sum.
pub proof fn lemma_raw_total_bounds(s: Seq<Card>)
    ensures
        0 <= raw_total(s),
        cards_wf(s) ==> 2 * s.len() <= raw_total(s) <= 11 * s.len(),
        cards_wf(s) && contains_ace(s) ==> 2 * s.len() + 9 <= raw_total(s),
        -s.len() <= hilo_total(s) <= s.len(),
    decreases s.len(),
{
    if s.len() > 0 {
        let init = s.drop_last();
        lemma_raw_total_bounds(init);
        assert(init.push(s.last()) == s);
        lemma_raw_total_push(init, s.last());
        if cards_wf(s) {
            assert(s[s.len() - 1].wf());
            assert forall|i: int| 0 <= i < init.len() implies (#[trigger] init[i]).wf() by {
                assert(s[i].wf());
            }
        }
    } else {
        assert(!contains_ace(s));
    }
}

/// Dealing one card more: the cards dealt so far, then the next from the top.
proof fn lemma_dealt_step(shoe: Seq<Card>, k: int)
    requires
        0 <= k < shoe.len(),
    ensures
        dealt(shoe, k + 1) == dealt(shoe, k).push(shoe[shoe.len() - 1 - k]),
        shoe.take(shoe.len() - k).last() == shoe[shoe.len() - 1 - k],
        shoe.take(shoe.len() - k).drop_last() == shoe.take(shoe.len() - k - 1),
{
}

/// Dealing nothing leaves the hand and the shoe as they are.
proof fn lemma_dealt_none(hand: Seq<Card>, shoe: Seq<Card>)
    ensures
        dealt(shoe, 0) == Seq::<Card>::empty(),
        hand + dealt(shoe, 0) == hand,
        shoe.take(shoe.len() as int) == shoe,
        hilo_total(dealt(shoe, 0)) == 0,
{
}

/// The dealer draws on any total under 17, and on a soft 17 where the table
/// has the dealer hit it.
pub open spec fn dealer_must_hit(hand: Seq<Card>, hit_soft_17: bool) -> bool {
    hand_total(hand) < 17 || (hit_soft_17 && hand_total(hand) == 17 && hand_kind(hand)
        == ValueType::Soft)
}

/// The dealer, drawing from the top of `shoe`, comes to a stand before the
/// shoe runs out.
pub open spec fn dealer_stands_within(hand: Seq<Card>, shoe: Seq<Card>, hit_soft_17: bool) -> bool {
    exists|k: int|
        0 <= k <= shoe.len() && !dealer_must_hit(#[trigger] (hand + dealt(shoe, k)), hit_soft_17)
}

/// A dealer who has to draw holds at most eight valid cards, so nine cards
/// between hand and shoe are always enough to come to a stand.
pub proof fn lemma_dealer_stands_within(hand: Seq<Card>, shoe: Seq<Card>, hit_soft_17: bool)
    requires
        cards_wf(hand),
        cards_wf(shoe),
        hand.len() + shoe.len() >= 9,
    ensures
        dealer_stands_within(hand, shoe, hit_soft_17),
        dealer_must_hit(hand, hit_soft_17) ==> hand.len() <= 8,
    decreases shoe.len(),
{
    lemma_raw_total_bounds(hand);
    lemma_dealt_none(hand, shoe);
    if !dealer_must_hit(hand, hit_soft_17) {
    } else {
        let top = shoe.last();
        let next = hand.push(top);
        let rest = shoe.drop_last();
        assert(top.wf());
        lemma_raw_total_push(hand, top);
        assert forall|i: int| 0 <= i < rest.len() implies (#[trigger] rest[i]).wf() by {
            assert(shoe[i].wf());
        }
        lemma_dealer_stands_within(next, rest, hit_soft_17);
        let k = choose|k: int|
            0 <= k <= rest.len() && !dealer_must_hit(
                #[trigger] (next + dealt(rest, k)),
                hit_soft_17,
            );
        assert(next + dealt(rest, k) == hand + dealt(shoe, k + 1));
    }
}

/// The cards of one hand, in the order they came.
#[derive(Debug)]
pub struct HandCards {
    pub cards: CardVec,
}

impl View for HandCards {
    type V = Seq<Card>;

    open spec fn view(&self) -> Seq<Card> {
        card_items(self.cards)
    }
}

impl HandCards {
    /// Every card is valid and the raw sum fits the byte it is counted in.
    pub open spec fn wf(&self) -> bool {
        cards_wf(self@) && raw_total(self@) <= u8::MAX
    }

    pub fn new() -> (hand: HandCards)
        ensures
            hand@ == Seq::<Card>::empty(),
    {
        HandCards { cards: cards_new() }
    }

    /// Deals a hand of two cards off the shoe and returns it with the Hi-Lo
    /// count of the two.
    pub fn from(shoe: &mut Shoe) -> (dealt_hand: (HandCards, isize))
        requires
            old(shoe)@.len() >= 2,
            old(shoe)@[old(shoe)@.len() - 1].wf(),
            old(shoe)@[old(shoe)@.len() - 2].wf(),
        ensures
            dealt_hand.0@ == dealt(old(shoe)@, 2),
            dealt_hand.1 == hilo_total(dealt_hand.0@),
            final(shoe)@ == old(shoe)@.take(old(shoe)@.len() - 2),
            old(shoe).wf() ==> final(shoe).wf() && cards_wf(dealt_hand.0@),
    {
        let first = shoe.deal();
        let second = shoe.deal();
        let mut cards = cards_new();
        cards_push(&mut cards, first);
        cards_push(&mut cards, second);
        proof {
            let s = Seq::<Card>::empty().push(first);
            lemma_raw_total_push(Seq::<Card>::empty(), first);
            lemma_raw_total_push(s, second);
            assert(card_items(cards) == dealt(old(shoe)@, 2));
            assert(shoe@ == old(shoe)@.take(old(shoe)@.len() - 2));
        }
        (HandCards { cards }, first.hilo_value() + second.hilo_value())
    }

    pub fn len(&self) -> (n: usize)
        ensures
            n == self@.len(),
    {
        cards_len(&self.cards)
    }

    /// Draws one card off the shoe and returns its Hi-Lo count.
    pub fn hit(&mut self, shoe: &mut Shoe) -> (hilo: isize)
        requires
            old(shoe)@.len() > 0,
            old(shoe)@.last().wf(),
        ensures
            final(self)@ == old(self)@.push(old(shoe)@.last()),
            final(shoe)@ == old(shoe)@.drop_last(),
            hilo == old(shoe)@.last().spec_hilo(),
            old(shoe).wf() ==> final(shoe).wf(),
    {
        let card = shoe.deal();
        cards_push(&mut self.cards, card);
        card.hilo_value()
    }

    pub fn push(&mut self, card: Card)
        ensures
            final(self)@ == old(self)@.push(card),
    {
        cards_push(&mut self.cards, card);
    }

    /// The total of the hand and whether it is soft or hard.
    pub fn value(&self) -> (v: (u8, ValueType))
        requires
            raw_total(self@) <= u8::MAX,
        ensures
            v.0 == hand_total(self@),
            v.1 == hand_kind(self@),
    {
        (self.num_value(), self.value_type())
    }

    pub fn first_card(&self) -> (card: Card)
        requires
            self@.len() > 0,
        ensures
            card == self@[0],
    {
        cards_get(&self.cards, 0)
    }

    /// Soft when the hand holds an ace and its raw sum is at most 21.
    pub fn value_type(&self) -> (kind: ValueType)
        requires
            raw_total(self@) <= u8::MAX,
        ensures
            kind == hand_kind(self@),
    {
        if !self.has_ace() || self.raw_value() > 21 {
            ValueType::Hard
        } else {
            ValueType::Soft
        }
    }

    pub fn is_pair(&self) -> (pair: bool)
        ensures
            pair == is_pair_of(self@),
    {
        cards_len(&self.cards) == 2 && cards_get(&self.cards, 0).get_rank() == cards_get(
            &self.cards,
            1,
        ).get_rank()
    }

    pub fn is_bust(&self) -> (bust: bool)
        requires
            raw_total(self@) <= u8::MAX,
        ensures
            bust == (hand_total(self@) > 21),
    {
        self.num_value() > 21
    }

    pub fn has_ace(&self) -> (found: bool)
        ensures
            found == contains_ace(self@),
    {
        let n = cards_len(&self.cards);
        let mut i: usize = 0;
        while i < n
            invariant
                i <= n,
                n == self@.len(),
                forall|j: int| 0 <= j < i ==> (#[trigger] self@[j]).spec_rank() != Rank::Ace,
            decreases n - i,
        {
            if cards_get(&self.cards, i).get_rank() == Rank::Ace {
                assert(self@[i as int].spec_rank() == Rank::Ace);
                return true;
            }
            i += 1;
        }
        false
    }

    /// The sum of the card values, every ace counted as eleven.
    pub fn raw_value(&self) -> (sum: u8)
        requires
            raw_total(self@) <= u8::MAX,
        ensures
            sum == raw_total(self@),
    {
        let n = cards_len(&self.cards);
        let mut value: u8 = 0;
        let mut i: usize = 0;
        while i < n
            invariant
                i <= n,
                n == self@.len(),
                value == raw_total(self@.take(i as int)),
                raw_total(self@) <= u8::MAX,
            decreases n - i,
        {
            let card = cards_get(&self.cards, i);
            proof {
                lemma_raw_total_prefix(self@, i + 1);
                assert(self@.take(i + 1).drop_last() == self@.take(i as int));
            }
            value += card.value();
            i += 1;
        }
        assert(self@.take(n as int) == self@);
        value
    }

    /// The blackjack total: the raw sum, less ten, once, when the hand holds
    /// an ace and the raw sum is over 21.
    pub fn num_value(&self) -> (total: u8)
        requires
            raw_total(self@) <= u8::MAX,
        ensures
            total == hand_total(self@),
    {
        let mut value = self.raw_value();
        if self.has_ace() && value > 21 {
            value -= 10;
        }
        value
    }

    /// Takes the last card off the hand. The hand must not be empty.
    pub fn pop(&mut self) -> (card: Card)
        requires
            old(self)@.len() > 0,
        ensures
            card == old(self)@.last(),
            final(self)@ == old(self)@.drop_last(),
    {
        cards_pop(&mut self.cards).unwrap()
    }

    /// Plays the dealer's hand: draws from the shoe while the dealer must,
    /// and stops at the first stand. Returns the Hi-Lo count of the cards
    /// drawn here; the two cards the hand started with are not in it.
    pub fn dealer_play(&mut self, shoe: &mut Shoe, hit_soft_17: bool) -> (hilo: isize)
        requires
            raw_total(old(self)@) <= u8::MAX,
            old(shoe).wf(),
            dealer_stands_within(old(self)@, old(shoe)@, hit_soft_17),
        ensures
            old(self)@.len() <= final(self)@.len() <= old(self)@.len() + old(shoe)@.len(),
            final(self)@ == old(self)@ + dealt(
                old(shoe)@,
                final(self)@.len() - old(self)@.len(),
            ),
            final(shoe)@ == old(shoe)@.take(
                old(shoe)@.len() - (final(self)@.len() - old(self)@.len()),
            ),
            !dealer_must_hit(final(self)@, hit_soft_17),
            forall|j: int|
                0 <= j < final(self)@.len() - old(self)@.len() ==> dealer_must_hit(
                    #[trigger] (old(self)@ + dealt(old(shoe)@, j)),
                    hit_soft_17,
                ),
            hilo == hilo_total(dealt(old(shoe)@, final(self)@.len() - old(self)@.len())),
            final(shoe).wf(),
            raw_total(final(self)@) <= u8::MAX,
    {
        if hit_soft_17 {
            self.dealer_play_h17(shoe)
        } else {
            self.dealer_play_s17(shoe)
        }
    }

    fn dealer_play_s17(&mut self, shoe: &mut Shoe) -> (hilo: isize)
        requires
            raw_total(old(self)@) <= u8::MAX,
            old(shoe).wf(),
            dealer_stands_within(old(self)@, old(shoe)@, false),
        ensures
            old(self)@.len() <= final(self)@.len() <= old(self)@.len() + old(shoe)@.len(),
            final(self)@ == old(self)@ + dealt(
                old(shoe)@,
                final(self)@.len() - old(self)@.len(),
            ),
            final(shoe)@ == old(shoe)@.take(
                old(shoe)@.len() - (final(self)@.len() - old(self)@.len()),
            ),
            !dealer_must_hit(final(self)@, false),
            forall|j: int|
                0 <= j < final(self)@.len() - old(self)@.len() ==> dealer_must_hit(
                    #[trigger] (old(self)@ + dealt(old(shoe)@, j)),
                    false,
                ),
            hilo == hilo_total(dealt(old(shoe)@, final(self)@.len() - old(self)@.len())),
            final(shoe).wf(),
            raw_total(final(self)@) <= u8::MAX,
    {
        let mut hilo_value: isize = 0;
        let ghost mut drawn: int = 0;
        proof {
            lemma_dealt_none(old(self)@, old(shoe)@);
            lemma_raw_total_bounds(old(self)@);
        }
        while self.num_value() < 17
            invariant
                dealer_stands_within(old(self)@, old(shoe)@, false),
                dealer_drawing(old(self)@, old(shoe)@, false, drawn, self@, shoe@, hilo_value as int),
            decreases shoe@.len(),
        {
            proof {
                lemma_dealer_step(old(self)@, old(shoe)@, false, drawn, hilo_value as int);
            }
            hilo_value += self.hit(shoe);
            proof {
                drawn = drawn + 1;
            }
        }
        hilo_value
    }

    fn dealer_play_h17(&mut self, shoe: &mut Shoe) -> (hilo: isize)
        requires
            raw_total(old(self)@) <= u8::MAX,
            old(shoe).wf(),
            dealer_stands_within(old(self)@, old(shoe)@, true),
        ensures
            old(self)@.len() <= final(self)@.len() <= old(self)@.len() + old(shoe)@.len(),
            final(self)@ == old(self)@ + dealt(
                old(shoe)@,
                final(self)@.len() - old(self)@.len(),
            ),
            final(shoe)@ == old(shoe)@.take(
                old(shoe)@.len() - (final(self)@.len() - old(self)@.len()),
            ),
            !dealer_must_hit(final(self)@, true),
            forall|j: int|
                0 <= j < final(self)@.len() - old(self)@.len() ==> dealer_must_hit(
                    #[trigger] (old(self)@ + dealt(old(shoe)@, j)),
                    true,
                ),
            hilo == hilo_total(dealt(old(shoe)@, final(self)@.len() - old(self)@.len())),
            final(shoe).wf(),
            raw_total(final(self)@) <= u8::MAX,
    {
        let mut hilo_value: isize = 0;
        let ghost mut drawn: int = 0;
        proof {
            lemma_dealt_none(old(self)@, old(shoe)@);
            lemma_raw_total_bounds(old(self)@);
        }
        loop
            invariant
                dealer_stands_within(old(self)@, old(shoe)@, true),
                dealer_drawing(old(self)@, old(shoe)@, true, drawn, self@, shoe@, hilo_value as int),
            ensures
                !dealer_must_hit(self@, true),
            decreases shoe@.len(),
        {
            let value = self.num_value();
            if value < 17 || (value == 17 && self.value_type() == ValueType::Soft) {
                proof {
                    lemma_dealer_step(old(self)@, old(shoe)@, true, drawn, hilo_value as int);
                }
                hilo_value += self.hit(shoe);
                proof {
                    drawn = drawn + 1;
                }
            } else {
                break ;
            }
        }
        hilo_value
    }
}

/// What holds while the dealer draws: after `drawn` cards the hand is the
/// first hand and those cards, the shoe is what remains, the dealer had to
/// draw each time so far, and `hilo` is the count of the cards drawn.
pub open spec fn dealer_drawing(
    hand0: Seq<Card>,
    shoe0: Seq<Card>,
    hit_soft_17: bool,
    drawn: int,
    hand: Seq<Card>,
    shoe: Seq<Card>,
    hilo: int,
) -> bool {
    &&& 0 <= drawn <= shoe0.len()
    &&& cards_wf(shoe0)
    &&& hand == hand0 + dealt(shoe0, drawn)
    &&& shoe == shoe0.take(shoe0.len() - drawn)
    &&& hilo == hilo_total(dealt(shoe0, drawn))
    &&& raw_total(hand) <= u8::MAX
    &&& 2 * drawn <= raw_total(hand)
    &&& forall|j: int|
        0 <= j < drawn ==> dealer_must_hit(#[trigger] (hand0 + dealt(shoe0, j)), hit_soft_17)
}

/// One more draw keeps [`dealer_drawing`]: where the dealer must draw, a
/// card is left on the shoe, it is valid, and neither sum overflows.
proof fn lemma_dealer_step(
    hand0: Seq<Card>,
    shoe0: Seq<Card>,
    hit_soft_17: bool,
    drawn: int,
    hilo: int,
)
    requires
        dealer_stands_within(hand0, shoe0, hit_soft_17),
        dealer_drawing(
            hand0,
            shoe0,
            hit_soft_17,
            drawn,
            hand0 + dealt(shoe0, drawn),
            shoe0.take(shoe0.len() - drawn),
            hilo,
        ),
        dealer_must_hit(hand0 + dealt(shoe0, drawn), hit_soft_17),
    ensures
        drawn < shoe0.len(),
        drawn <= 13,
        -13 <= hilo <= 13,
        shoe0.take(shoe0.len() - drawn).last().wf(),
        cards_wf(shoe0.take(shoe0.len() - drawn)),
        dealer_drawing(
            hand0,
            shoe0,
            hit_soft_17,
            drawn + 1,
            (hand0 + dealt(shoe0, drawn)).push(shoe0.take(shoe0.len() - drawn).last()),
            shoe0.take(shoe0.len() - drawn).drop_last(),
            hilo + shoe0.take(shoe0.len() - drawn).last().spec_hilo(),
        ),
{
    let k = choose|k: int|
        0 <= k <= shoe0.len() && !dealer_must_hit(
            #[trigger] (hand0 + dealt(shoe0, k)),
            hit_soft_17,
        );
    if k < drawn {
        assert(dealer_must_hit(hand0 + dealt(shoe0, k), hit_soft_17));
    }
    assert(drawn < shoe0.len());
    lemma_dealt_step(shoe0, drawn);
    let hand = hand0 + dealt(shoe0, drawn);
    let top = shoe0[shoe0.len() - 1 - drawn];
    assert(top.wf());
    lemma_raw_total_push(hand, top);
    lemma_raw_total_push(dealt(shoe0, drawn), top);
    lemma_raw_total_bounds(dealt(shoe0, drawn));
    assert(hand.push(top) == hand0 + dealt(shoe0, drawn + 1));
    assert forall|j: int| 0 <= j < drawn + 1 implies dealer_must_hit(
        #[trigger] (hand0 + dealt(shoe0, j)),
        hit_soft_17,
    ) by {}
}

impl Default for HandCards {
    fn default() -> (hand: Self)
        ensures
            hand@ == Seq::<Card>::empty(),
    {
        Self::new()
    }
}

impl CardVec {
    /// The cards of `cards`, in their order.
    pub fn from_vec(cards: Vec<Card>) -> (held: CardVec)
        ensures
            card_items(held) == cards@,
    {
        let mut held = cards_new();
        let mut i: usize = 0;
        while i < cards.len()
            invariant
                i <= cards.len(),
                card_items(held) == cards@.take(i as int),
            decreases cards.len() - i,
        {
            cards_push(&mut held, cards[i]);
            assert(cards@.take(i as int).push(cards@[i as int]) == cards@.take(i + 1));
            i += 1;
        }
        assert(cards@.take(cards.len() as int) == cards@);
        held
    }

    pub fn len(&self) -> (n: usize)
        ensures
            n == card_items(*self).len(),
    {
        cards_len(self)
    }

    /// The card at position `i`, which must be in range.
    pub fn get(&self, i: usize) -> (card: Card)
        requires
            i < card_items(*self).len(),
        ensures
            card == card_items(*self)[i as int],
    {
        cards_get(self, i)
    }
}

} // verus!
