use vstd::prelude::*;

use crate::Error;

verus! {

/// One of the ten frames of a game: no roll yet, one roll, or two rolls.
///
/// A strike is `OneRoll(10)`; it is complete after its one roll and has no
/// slot for a second ball.
#[derive(Debug, PartialEq, Eq, Clone, Copy)]
pub enum Frame {
    Unfilled,
    OneRoll(u8),
    TwoRolls(u8, u8),
}

impl Frame {
    /// Pin counts are at most ten, and a frame's two rolls never exceed ten
    /// together; a frame holding two rolls did not open with a strike.
    pub open spec fn wf(self) -> bool {
        match self {
            Frame::Unfilled => true,
            Frame::OneRoll(p) => p <= 10,
            Frame::TwoRolls(a, b) => a < 10 && a + b <= 10,
        }
    }

    /// The rolls recorded in this frame, in order.
    pub open spec fn rolls(self) -> Seq<u8> {
        match self {
            Frame::Unfilled => seq![],
            Frame::OneRoll(p) => seq![p],
            Frame::TwoRolls(a, b) => seq![a, b],
        }
    }

    pub open spec fn spec_pins(self) -> nat {
        match self {
            Frame::Unfilled => 0,
            Frame::OneRoll(p) => p as nat,
            Frame::TwoRolls(a, b) => (a + b) as nat,
        }
    }

    /// The first roll, or zero when there is none.
    pub open spec fn spec_first(self) -> nat {
        match self {
            Frame::Unfilled => 0,
            Frame::OneRoll(p) => p as nat,
            Frame::TwoRolls(a, _) => a as nat,
        }
    }

    pub open spec fn spec_is_strike(self) -> bool {
        self == Frame::OneRoll(10)
    }

    pub open spec fn spec_is_spare(self) -> bool {
        &&& self is TwoRolls
        &&& self.spec_pins() == 10
        &&& !self.spec_is_strike()
    }

    pub open spec fn spec_is_complete(self) -> bool {
        self.spec_is_strike() || self is TwoRolls
    }

    /// Whether an incomplete frame takes a roll of `pins` (at most ten).
    pub open spec fn accepts(self, pins: u8) -> bool {
        match self {
            Frame::OneRoll(p) => p + pins <= 10,
            _ => true,
        }
    }

    /// The frame after an accepted roll of `pins`.
    pub open spec fn after(self, pins: u8) -> Frame {
        match self {
            Frame::Unfilled => Frame::OneRoll(pins),
            Frame::OneRoll(p) => Frame::TwoRolls(p, pins),
            Frame::TwoRolls(_, _) => self,
        }
    }

    pub fn new() -> (f: Frame)
        ensures
            f == Frame::Unfilled,
    {
        Frame::Unfilled
    }

    /// Records a roll in the first empty slot of an incomplete frame.
    pub fn record_roll(&mut self, pins: u8) -> (r: Result<(), Error>)
        requires
            old(self).wf(),
            !old(self).spec_is_complete(),
            pins <= 10,
        ensures
            final(self).wf(),
            old(self).accepts(pins) ==> r is Ok && *final(self) == old(self).after(pins),
            !old(self).accepts(pins) ==> r == Err::<(), Error>(Error::NotEnoughPinsLeft)
                && *final(self) == *old(self),
    {
        match *self {
            Frame::Unfilled => {
                *self = Frame::OneRoll(pins);
                Ok(())
            },
            Frame::OneRoll(p) => {
                if p + pins > 10 {
                    Err(Error::NotEnoughPinsLeft)
                } else {
                    *self = Frame::TwoRolls(p, pins);
                    Ok(())
                }
            },
            Frame::TwoRolls(_, _) => Ok(()),
        }
    }

    pub fn pins(&self) -> (r: u8)
        requires
            self.wf(),
        ensures
            r == self.spec_pins(),
    {
        match *self {
            Frame::Unfilled => 0,
            Frame::OneRoll(p) => p,
            Frame::TwoRolls(a, b) => a + b,
        }
    }

    /// The first roll, or zero when there is none.
    pub fn first_roll(&self) -> (r: u8)
        ensures
            r == self.spec_first(),
    {
        match *self {
            Frame::Unfilled => 0,
            Frame::OneRoll(p) => p,
            Frame::TwoRolls(a, _) => a,
        }
    }

    pub fn is_strike(&self) -> (r: bool)
        ensures
            r == self.spec_is_strike(),
    {
        match *self {
            Frame::OneRoll(p) => p == 10,
            _ => false,
        }
    }

    pub fn is_spare(&self) -> (r: bool)
        requires
            self.wf(),
        ensures
            r == self.spec_is_spare(),
    {
        match *self {
            Frame::TwoRolls(a, b) => a + b == 10,
            _ => false,
        }
    }

    pub fn is_complete(&self) -> (r: bool)
        ensures
            r == self.spec_is_complete(),
    {
        match *self {
            Frame::Unfilled => false,
            Frame::OneRoll(p) => p == 10,
            Frame::TwoRolls(_, _) => true,
        }
    }
}

} // verus!
