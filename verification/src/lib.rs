//! A blackjack simulator: a shoe of cards, hands and their values, the
//! legality of each player action under a configurable rule set, a basic
//! strategy table, and the round driver that settles every hand.

pub mod basicstrategy;
pub mod cardutils;
pub mod gamelogic;
pub mod session;
pub mod storage;
pub mod tally;
