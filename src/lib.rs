//! Scoring of a single game of ten-pin bowling.
//!
//! A game is ten frames plus up to two fill balls owed by a strike or spare
//! in the tenth frame. Rolls are fed in one at a time; once the game is
//! complete its score can be read.

mod frame;
mod game;

pub use frame::Frame;
pub use game::BowlingGame;
pub use game::{bonus_owed, fill_accepts, first_open, first_open_from, game_over, roll_result, valid_view};
pub use game::{balls_from, frame_score, score_through, total};
pub use game::{lemma_rejects_too_many_pins, lemma_roll_keeps_closed_frames, lemma_roll_stays_valid};
pub use game::lemma_strike_frame_closed;

use vstd::prelude::*;

verus! {

/// Why a roll was refused.
#[derive(Debug, PartialEq, Eq, Clone, Copy)]
pub enum Error {
    /// The pin count exceeds what is standing (or exceeds ten).
    NotEnoughPinsLeft,
    /// Every frame and every owed fill ball has been rolled.
    GameComplete,
}

} // verus!
