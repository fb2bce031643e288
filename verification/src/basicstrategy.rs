//! The basic strategy table and the decision it gives for a hand.

use crate::cardutils::{hand_kind, hand_total, lemma_raw_total_bounds, Card, Rank, ValueType};
use crate::gamelogic::{Game, GameRules, Round};
use crate::storage::hands_get;
use vstd::prelude::*;

verus! {

/// What the table says for a hand. The first five are moves; the others are
/// a move with the move to fall back on where the rules do not allow it.
#[derive(Debug, Clone, Copy, PartialEq, Eq, Structural)]
pub enum Decision {
    Hit,
    Stand,
    Double,
    Surrender,
    Split,
    DoubleOrStand,
    SplitIfDASOrHit,
    SurrenderOrHit,
    SurrenderOrStand,
    SurrenderOrSplit,
}

/// Which of the three tables a hand is looked up in.
#[derive(Debug, Clone, Copy, PartialEq, Eq, Structural)]
pub enum LutType {
    Soft,
    Hard,
    Pair,
}

#[derive(Debug, Clone, Copy, PartialEq, Eq, Structural)]
pub enum Surrender {
    Late,
    Early,
}

/// The table for hard totals: one row for each total from 4 to 17 and one for
/// 18 and over; in each row one entry for each dealer card from the two to the
/// ten and then the ace.
pub open spec fn hard_rows() -> Seq<Seq<Decision>> {
    let h = Decision::Hit;
    let s = Decision::Stand;
    let d = Decision::Double;
    let rh = Decision::SurrenderOrHit;
    let rs = Decision::SurrenderOrStand;
    seq![
        seq![h, h, h, h, h, h, h, h, h, h],  // 4
        seq![h, h, h, h, h, h, h, h, h, h],  // 5
        seq![h, h, h, h, h, h, h, h, h, h],  // 6
        seq![h, h, h, h, h, h, h, h, h, h],  // 7
        seq![h, h, h, h, h, h, h, h, h, h],  // 8
        seq![h, d, d, d, d, h, h, h, h, h],  // 9
        seq![d, d, d, d, d, d, d, d, h, h],  // 10
        seq![d, d, d, d, d, d, d, d, d, d],  // 11
        seq![h, h, s, s, s, h, h, h, h, h],  // 12
        seq![s, s, s, s, s, h, h, h, h, h],  // 13
        seq![s, s, s, s, s, h, h, h, h, h],  // 14
        seq![s, s, s, s, s, h, h, h, rh, rh],  // 15
        seq![s, s, s, s, s, h, h, rh, rh, rh],  // 16
        seq![s, s, s, s, s, s, s, s, s, rs],  // 17
        seq![s, s, s, s, s, s, s, s, s, s],  // 18 and over
    ]
}

/// The table for soft totals: one row for each total from 12 to 19 and one for
/// 20 and over.
pub open spec fn soft_rows() -> Seq<Seq<Decision>> {
    let h = Decision::Hit;
    let s = Decision::Stand;
    let d = Decision::Double;
    let ds = Decision::DoubleOrStand;
    seq![
        seq![h, h, h, h, d, h, h, h, h, h],  // 12
        seq![h, h, h, d, d, h, h, h, h, h],  // 13
        seq![h, h, h, d, d, h, h, h, h, h],  // 14
        seq![h, h, d, d, d, h, h, h, h, h],  // 15
        seq![h, h, d, d, d, h, h, h, h, h],  // 16
        seq![h, d, d, d, d, h, h, h, h, h],  // 17
        seq![ds, ds, ds, ds, ds, s, s, h, h, h],  // 18
        seq![s, s, s, s, ds, s, s, s, s, s],  // 19
        seq![s, s, s, s, s, s, s, s, s, s],  // 20 and over
    ]
}

/// The table for pairs that may be split: one row for each rank from the twos
/// to the nines, one for tens and face cards, and one for aces.
pub open spec fn pair_rows() -> Seq<Seq<Decision>> {
    let h = Decision::Hit;
    let s = Decision::Stand;
    let d = Decision::Double;
    let p = Decision::Split;
    let ph = Decision::SplitIfDASOrHit;
    let rp = Decision::SurrenderOrSplit;
    seq![
        seq![ph, ph, p, p, p, p, h, h, h, h],  // twos
        seq![ph, ph, p, p, p, p, h, h, h, h],  // threes
        seq![h, h, h, ph, ph, h, h, h, h, h],  // fours
        seq![ph, p, p, p, p, h, h, h, h, h],  // fives
        seq![d, d, d, d, d, d, d, d, h, h],  // sixes
        seq![p, p, p, p, p, p, h, h, h, h],  // sevens
        seq![p, p, p, p, p, p, p, p, p, rp],  // eights
        seq![p, p, p, p, p, p, p, p, p, rp],  // nines
        seq![s, s, s, s, s, s, s, s, s, s],  // tens and faces
        seq![p, p, p, p, p, p, p, p, p, p],  // aces
    ]
}

/// The entry of the table of kind `kind` in row `row` for dealer column `col`.
pub open spec fn table_entry(kind: LutType, row: int, col: int) -> Decision {
    match kind {
        LutType::Hard => hard_rows()[row][col],
        LutType::Soft => soft_rows()[row][col],
        LutType::Pair => pair_rows()[row][col],
    }
}

/// The number of rows of each table.
pub open spec fn table_rows(kind: LutType) -> int {
    match kind {
        LutType::Hard => 15,
        LutType::Soft => 9,
        LutType::Pair => 10,
    }
}

/// The rule sets a table exists for: four to eight decks, dealer standing on
/// soft 17.
pub open spec fn has_table(rules: GameRules) -> bool {
    !rules.hit_soft_17 && 4 <= rules.decks_in_shoe <= 8
}

/// A hand that may be split is looked up as a pair, any other hand by
/// whether it is soft or hard.
pub open spec fn lut_type_of(round: &Round, i: int) -> LutType {
    if round.spec_can_split(i) {
        LutType::Pair
    } else {
        match hand_kind(round.hands_view()[i].cards@) {
            ValueType::Hard => LutType::Hard,
            ValueType::Soft => LutType::Soft,
        }
    }
}

/// The row of a hard total: 4 to 18 in rows 0 to 14, anything over in row 14.
pub open spec fn hard_row(total: int) -> int {
    if total <= 18 {
        total - 4
    } else {
        14
    }
}

/// The row of a soft total: 12 to 20 in rows 0 to 8, anything over in row 8.
pub open spec fn soft_row(total: int) -> int {
    if total <= 20 {
        total - 12
    } else {
        8
    }
}

/// The row of a pair: twos to tens in rows 0 to 8, face cards with the tens,
/// aces in row 9.
pub open spec fn pair_row(rank: Rank) -> int {
    match rank {
        Rank::Number(n) => n - 2,
        Rank::Jack | Rank::Queen | Rank::King => 8,
        Rank::Ace => 9,
    }
}

/// The column of the dealer's card: two to ten in columns 0 to 8, face cards
/// with the ten, the ace in column 9.
pub open spec fn dealer_col(up_card: Card) -> int {
    up_card.spec_value() - 2
}

/// The row in which hand `i` is looked up.
pub open spec fn player_row(round: &Round, i: int) -> int {
    let cards = round.hands_view()[i].cards@;
    match lut_type_of(round, i) {
        LutType::Hard => hard_row(hand_total(cards)),
        LutType::Soft => soft_row(hand_total(cards)),
        LutType::Pair => pair_row(cards[0].spec_rank()),
    }
}

/// What the table says for hand `i` against the dealer's first card.
pub open spec fn spec_raw_move(round: &Round, i: int) -> Decision {
    table_entry(lut_type_of(round, i), player_row(round, i), dealer_col(round.dealer@[0]))
}

/// The move a table entry comes to under the rules: a double that is not
/// allowed becomes a hit, or a stand where the entry says so; a hit that is
/// not allowed becomes a stand; a split that depends on doubling after a
/// split becomes a hit without it; a surrender that is not allowed becomes
/// the move the entry names beside it.
pub open spec fn spec_resolve(
    raw: Decision,
    can_double: bool,
    can_hit: bool,
    can_surrender: bool,
    double_after_split: bool,
) -> Decision {
    match raw {
        Decision::Hit => if can_hit {
            Decision::Hit
        } else {
            Decision::Stand
        },
        Decision::Stand => Decision::Stand,
        Decision::Double => if can_double {
            Decision::Double
        } else {
            Decision::Hit
        },
        Decision::DoubleOrStand => if can_double {
            Decision::Double
        } else {
            Decision::Stand
        },
        Decision::Split => Decision::Split,
        Decision::SplitIfDASOrHit => if double_after_split {
            Decision::Split
        } else {
            Decision::Hit
        },
        Decision::SurrenderOrHit => if can_surrender {
            Decision::Surrender
        } else {
            Decision::Hit
        },
        Decision::SurrenderOrStand => if can_surrender {
            Decision::Surrender
        } else {
            Decision::Stand
        },
        Decision::SurrenderOrSplit => if can_surrender {
            Decision::Surrender
        } else {
            Decision::Split
        },
        Decision::Surrender => Decision::Surrender,
    }
}

/// The move for hand `i`: the table entry, brought under the rules of the
/// round as it stands.
pub open spec fn spec_make_move(game: &Game, i: int) -> Decision {
    spec_resolve(
        spec_raw_move(&game.current_round, i),
        game.current_round.spec_can_double(i),
        game.current_round.spec_can_hit(i),
        game.current_round.spec_can_surrender(),
        game.rules.double_after_split,
    )
}

/// Hand `i` can be looked up: it is a hand in play, and the dealer shows a
/// valid card.
pub open spec fn can_decide(round: &Round, i: int) -> bool {
    &&& 0 <= i < round.hands_view().len()
    &&& round.hands_view()[i].wf()
    &&& round.dealer@.len() > 0
    &&& round.dealer@[0].wf()
}

/// The three tables of one rule set.
#[derive(Debug)]
pub struct BasicStrategyLUT {
    hard: [[Decision; 10]; 15],
    soft: [[Decision; 10]; 9],
    pair: [[Decision; 10]; 10],
}

impl BasicStrategyLUT {
    /// Every table held is the table for four to eight decks with the dealer
    /// standing on soft 17: no other is filled in.
    #[verifier::type_invariant]
    spec fn holds_table(self) -> bool {
        &&& forall|r: int, c: int|
            0 <= r < 15 && 0 <= c < 10 ==> #[trigger] self.hard@[r]@[c] == hard_rows()[r][c]
        &&& forall|r: int, c: int|
            0 <= r < 9 && 0 <= c < 10 ==> #[trigger] self.soft@[r]@[c] == soft_rows()[r][c]
        &&& forall|r: int, c: int|
            0 <= r < 10 && 0 <= c < 10 ==> #[trigger] self.pair@[r]@[c] == pair_rows()[r][c]
    }

    /// The entry the table holds for a hand of kind `kind` in row `row`
    /// against the dealer's column `col`.
    pub closed spec fn entry(&self, kind: LutType, row: int, col: int) -> Decision {
        match kind {
            LutType::Hard => self.hard@[row]@[col],
            LutType::Soft => self.soft@[row]@[col],
            LutType::Pair => self.pair@[row]@[col],
        }
    }

    /// The table for four to eight decks where the dealer stands on soft 17.
    fn four_eight_deck_s17() -> (lut: BasicStrategyLUT)
        ensures
            forall|kind: LutType, row: int, col: int|
                0 <= row < table_rows(kind) && 0 <= col < 10 ==> #[trigger] lut.entry(
                    kind,
                    row,
                    col,
                ) == table_entry(kind, row, col),
    {
        let h = Decision::Hit;
        let s = Decision::Stand;
        let d = Decision::Double;
        let p = Decision::Split;
        let ds = Decision::DoubleOrStand;
        let ph = Decision::SplitIfDASOrHit;
        let rh = Decision::SurrenderOrHit;
        let rs = Decision::SurrenderOrStand;
        let rp = Decision::SurrenderOrSplit;
        BasicStrategyLUT {
            hard: [
                [h, h, h, h, h, h, h, h, h, h],  // 4
                [h, h, h, h, h, h, h, h, h, h],  // 5
                [h, h, h, h, h, h, h, h, h, h],  // 6
                [h, h, h, h, h, h, h, h, h, h],  // 7
                [h, h, h, h, h, h, h, h, h, h],  // 8
                [h, d, d, d, d, h, h, h, h, h],  // 9
                [d, d, d, d, d, d, d, d, h, h],  // 10
                [d, d, d, d, d, d, d, d, d, d],  // 11
                [h, h, s, s, s, h, h, h, h, h],  // 12
                [s, s, s, s, s, h, h, h, h, h],  // 13
                [s, s, s, s, s, h, h, h, h, h],  // 14
                [s, s, s, s, s, h, h, h, rh, rh],  // 15
                [s, s, s, s, s, h, h, rh, rh, rh],  // 16
                [s, s, s, s, s, s, s, s, s, rs],  // 17
                [s, s, s, s, s, s, s, s, s, s],  // 18 and over
            ],
            soft: [
                [h, h, h, h, d, h, h, h, h, h],  // 12
                [h, h, h, d, d, h, h, h, h, h],  // 13
                [h, h, h, d, d, h, h, h, h, h],  // 14
                [h, h, d, d, d, h, h, h, h, h],  // 15
                [h, h, d, d, d, h, h, h, h, h],  // 16
                [h, d, d, d, d, h, h, h, h, h],  // 17
                [ds, ds, ds, ds, ds, s, s, h, h, h],  // 18
                [s, s, s, s, ds, s, s, s, s, s],  // 19
                [s, s, s, s, s, s, s, s, s, s],  // 20 and over
            ],
            pair: [
                [ph, ph, p, p, p, p, h, h, h, h],  // twos
                [ph, ph, p, p, p, p, h, h, h, h],  // threes
                [h, h, h, ph, ph, h, h, h, h, h],  // fours
                [ph, p, p, p, p, h, h, h, h, h],  // fives
                [d, d, d, d, d, d, d, d, h, h],  // sixes
                [p, p, p, p, p, p, h, h, h, h],  // sevens
                [p, p, p, p, p, p, p, p, p, rp],  // eights
                [p, p, p, p, p, p, p, p, p, rp],  // nines
                [s, s, s, s, s, s, s, s, s, s],  // tens and faces
                [p, p, p, p, p, p, p, p, p, p],  // aces
            ],
        }
    }

    /// The move for a hand: what the table says, brought under the rules.
    pub fn make_move(&self, game: &Game, hand_index: usize) -> (decision: Decision)
        requires
            can_decide(&game.current_round, hand_index as int),
        ensures
            decision == spec_make_move(game, hand_index as int),
            decision == Decision::Hit || decision == Decision::Stand || decision
                == Decision::Double || decision == Decision::Split || decision
                == Decision::Surrender,
    {
        let raw_move = self.raw_move(game, hand_index);
        let can_double = game.current_round.can_double(hand_index);
        let can_hit = game.current_round.can_hit(hand_index);
        let can_surrender = game.current_round.can_surrender();
        let double_after_split = game.rules.double_after_split;
        Self::resolve(raw_move, can_double, can_hit, can_surrender, double_after_split)
    }

    /// Brings a table entry under the rules. The table never holds a bare
    /// surrender, so none is taken.
    pub fn resolve(
        raw_move: Decision,
        can_double: bool,
        can_hit: bool,
        can_surrender: bool,
        double_after_split: bool,
    ) -> (decision: Decision)
        requires
            raw_move != Decision::Surrender,
        ensures
            decision == spec_resolve(
                raw_move,
                can_double,
                can_hit,
                can_surrender,
                double_after_split,
            ),
            decision == Decision::Hit || decision == Decision::Stand || decision
                == Decision::Double || decision == Decision::Split || decision
                == Decision::Surrender,
    {
        match raw_move {
            Decision::Hit => {
                if can_hit {
                    Decision::Hit
                } else {
                    Decision::Stand
                }
            },
            Decision::Stand => Decision::Stand,
            Decision::Double => {
                if can_double {
                    Decision::Double
                } else {
                    Decision::Hit
                }
            },
            Decision::DoubleOrStand => {
                if can_double {
                    Decision::Double
                } else {
                    Decision::Stand
                }
            },
            Decision::Split => Decision::Split,
            Decision::SplitIfDASOrHit => {
                if double_after_split {
                    Decision::Split
                } else {
                    Decision::Hit
                }
            },
            Decision::SurrenderOrHit => {
                if can_surrender {
                    Decision::Surrender
                } else {
                    Decision::Hit
                }
            },
            Decision::SurrenderOrStand => {
                if can_surrender {
                    Decision::Surrender
                } else {
                    Decision::Stand
                }
            },
            Decision::SurrenderOrSplit => {
                if can_surrender {
                    Decision::Surrender
                } else {
                    Decision::Split
                }
            },
            Decision::Surrender => Decision::Surrender,
        }
    }

    /// Picks the table for the rules of the session. Only sessions with four
    /// to eight decks and a dealer who stands on soft 17 have one.
    pub fn calculate_cache(game: &Game) -> (lut: BasicStrategyLUT)
        requires
            has_table(game.rules),
        ensures
            forall|kind: LutType, row: int, col: int|
                0 <= row < table_rows(kind) && 0 <= col < 10 ==> #[trigger] lut.entry(
                    kind,
                    row,
                    col,
                ) == table_entry(kind, row, col),
    {
        Self::which_lut(game)
    }

    /// What the table says for a hand, before the rules are applied.
    pub fn raw_move(&self, game: &Game, hand_index: usize) -> (decision: Decision)
        requires
            can_decide(&game.current_round, hand_index as int),
        ensures
            decision == spec_raw_move(&game.current_round, hand_index as int),
            decision == self.entry(
                lut_type_of(&game.current_round, hand_index as int),
                player_row(&game.current_round, hand_index as int),
                dealer_col(game.current_round.dealer@[0]),
            ),
            decision != Decision::Surrender,
    {
        let lut_type = Self::type_of_lut(game, hand_index);
        let (player_index, dealer_index) = Self::get_indices(game, lut_type, hand_index);
        proof {
            use_type_invariant(self);
            lemma_no_bare_surrender(lut_type, player_index as int, dealer_index as int);
        }
        match lut_type {
            LutType::Hard => self.hard[player_index][dealer_index],
            LutType::Soft => self.soft[player_index][dealer_index],
            LutType::Pair => self.pair[player_index][dealer_index],
        }
    }

    fn get_indices(game: &Game, lut_type: LutType, hand_index: usize) -> (indices: (usize, usize))
        requires
            can_decide(&game.current_round, hand_index as int),
            lut_type == lut_type_of(&game.current_round, hand_index as int),
        ensures
            indices.0 == player_row(&game.current_round, hand_index as int),
            indices.1 == dealer_col(game.current_round.dealer@[0]),
            indices.0 < table_rows(lut_type),
            indices.1 < 10,
    {
        proof {
            lemma_raw_total_bounds(game.current_round.hands_view()[hand_index as int].cards@);
        }
        match lut_type {
            LutType::Hard => Self::get_hard_indices(game, hand_index),
            LutType::Soft => Self::get_soft_indices(game, hand_index),
            LutType::Pair => Self::get_pair_indices(game, hand_index),
        }
    }

    fn get_pair_indices(game: &Game, hand_index: usize) -> (indices: (usize, usize))
        requires
            can_decide(&game.current_round, hand_index as int),
        ensures
            indices.0 == pair_row(game.current_round.hands_view()[hand_index as int].cards@[0].spec_rank()),
            indices.1 == dealer_col(game.current_round.dealer@[0]),
            indices.0 < 10,
            indices.1 < 10,
    {
        let pair_of = hands_get(&game.current_round.hands, hand_index).cards.first_card().get_rank();
        let dealer_index = Self::dealer_index(game);
        let player_index: usize = match pair_of {
            Rank::Number(n) => (n - 2) as usize,
            Rank::Jack => 8,
            Rank::Queen => 8,
            Rank::King => 8,
            Rank::Ace => 9,
        };
        (player_index, dealer_index)
    }

    fn get_hard_indices(game: &Game, hand_index: usize) -> (indices: (usize, usize))
        requires
            can_decide(&game.current_round, hand_index as int),
            hand_total(game.current_round.hands_view()[hand_index as int].cards@) >= 4,
        ensures
            indices.0 == hard_row(hand_total(game.current_round.hands_view()[hand_index as int].cards@)),
            indices.1 == dealer_col(game.current_round.dealer@[0]),
            indices.0 < 15,
            indices.1 < 10,
    {
        let value = hands_get(&game.current_round.hands, hand_index).cards.num_value();
        let dealer_index = Self::dealer_index(game);
        let player_index: usize = if value <= 18 {
            (value - 4) as usize
        } else {
            14
        };
        (player_index, dealer_index)
    }

    fn get_soft_indices(game: &Game, hand_index: usize) -> (indices: (usize, usize))
        requires
            can_decide(&game.current_round, hand_index as int),
            hand_total(game.current_round.hands_view()[hand_index as int].cards@) >= 12,
        ensures
            indices.0 == soft_row(hand_total(game.current_round.hands_view()[hand_index as int].cards@)),
            indices.1 == dealer_col(game.current_round.dealer@[0]),
            indices.0 < 9,
            indices.1 < 10,
    {
        let value = hands_get(&game.current_round.hands, hand_index).cards.num_value();
        let dealer_index = Self::dealer_index(game);
        let player_index: usize = if value <= 20 {
            (value - 12) as usize
        } else {
            8
        };
        (player_index, dealer_index)
    }

    fn dealer_index(game: &Game) -> (col: usize)
        requires
            game.current_round.dealer@.len() > 0,
            game.current_round.dealer@[0].wf(),
        ensures
            col == dealer_col(game.current_round.dealer@[0]),
            col < 10,
    {
        let dealer_card = game.current_round.dealer.first_card();
        (dealer_card.value() - 2) as usize
    }

    fn type_of_lut(game: &Game, hand_index: usize) -> (lut_type: LutType)
        requires
            can_decide(&game.current_round, hand_index as int),
        ensures
            lut_type == lut_type_of(&game.current_round, hand_index as int),
    {
        let can_split = game.current_round.can_split(hand_index);
        let value_type = hands_get(&game.current_round.hands, hand_index).cards.value_type();
        if can_split {
            return LutType::Pair;
        }
        match value_type {
            ValueType::Hard => LutType::Hard,
            ValueType::Soft => LutType::Soft,
        }
    }

    fn which_lut(game: &Game) -> (lut: BasicStrategyLUT)
        requires
            has_table(game.rules),
        ensures
            forall|kind: LutType, row: int, col: int|
                0 <= row < table_rows(kind) && 0 <= col < 10 ==> #[trigger] lut.entry(
                    kind,
                    row,
                    col,
                ) == table_entry(kind, row, col),
    {
        Self::four_eight_deck_s17()
    }
}

/// No entry of any table is a bare surrender.
pub proof fn lemma_no_bare_surrender(kind: LutType, row: int, col: int)
    requires
        0 <= row < table_rows(kind),
        0 <= col < 10,
    ensures
        table_entry(kind, row, col) != Decision::Surrender,
{
}

/// The split entries stand in the pair table alone, and no hand of 17 or
/// more, or soft 19 or more, is told to take a card it did not ask to double.
pub proof fn lemma_table_shape(kind: LutType, row: int, col: int)
    requires
        0 <= row < table_rows(kind),
        0 <= col < 10,
    ensures
        kind != LutType::Pair ==> table_entry(kind, row, col) != Decision::Split && table_entry(
            kind,
            row,
            col,
        ) != Decision::SplitIfDASOrHit && table_entry(kind, row, col)
            != Decision::SurrenderOrSplit,
        (kind == LutType::Hard && row >= 13) || (kind == LutType::Soft && row >= 7)
            ==> table_entry(kind, row, col) == Decision::Stand || table_entry(kind, row, col)
            == Decision::SurrenderOrStand || table_entry(kind, row, col)
            == Decision::DoubleOrStand,
{
}

/// What a move says of the hand it is for: a split is only ever chosen for a
/// hand that may be split, a double for one that may be doubled, a surrender
/// where it is open; and a hand that is hit holds at most eight cards, for
/// nothing of hard 17 or soft 19 and over takes a card.
pub proof fn lemma_move_fits(game: &Game, i: int)
    requires
        can_decide(&game.current_round, i),
    ensures
        spec_make_move(game, i) == Decision::Split ==> game.current_round.spec_can_split(i),
        spec_make_move(game, i) == Decision::Double ==> game.current_round.spec_can_double(i),
        spec_make_move(game, i) == Decision::Surrender ==> game.current_round.spec_can_surrender(),
        spec_make_move(game, i) == Decision::Hit ==> game.current_round.hands_view()[i].cards@.len()
            <= 8,
        spec_make_move(game, i) == Decision::Hit || spec_make_move(game, i) == Decision::Stand
            || spec_make_move(game, i) == Decision::Double || spec_make_move(game, i)
            == Decision::Split || spec_make_move(game, i) == Decision::Surrender,
{
    let round = &game.current_round;
    let cards = round.hands_view()[i].cards@;
    let kind = lut_type_of(round, i);
    let row = player_row(round, i);
    let col = dealer_col(round.dealer@[0]);
    lemma_raw_total_bounds(cards);
    lemma_table_shape(kind, row, col);
    lemma_no_bare_surrender(kind, row, col);
}

} // verus!
