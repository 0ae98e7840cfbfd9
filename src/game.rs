use vstd::prelude::*;

use crate::Error;
use crate::frame::Frame;

verus! {

/// Index of the first incomplete frame at or after `i`, or `frames.len()`
/// when every such frame is complete.
pub open spec fn first_open_from(frames: Seq<Frame>, i: int) -> int
    decreases frames.len() - i,
{
    if i >= frames.len() {
        frames.len() as int
    } else if !frames[i].spec_is_complete() {
        i
    } else {
        first_open_from(frames, i + 1)
    }
}

/// Index of the frame the next roll goes to; ten once every frame is complete.
pub open spec fn first_open(frames: Seq<Frame>) -> int {
    first_open_from(frames, 0)
}

/// Fill balls owed by the tenth frame: two after a strike, one after a spare.
pub open spec fn bonus_owed(frames: Seq<Frame>) -> nat {
    if frames[9].spec_is_strike() {
        2
    } else if frames[9].spec_is_spare() {
        1
    } else {
        0
    }
}

/// All ten frames are complete and every owed fill ball has been rolled.
pub open spec fn game_over(frames: Seq<Frame>, fills: Seq<u8>) -> bool {
    first_open(frames) >= 10 && fills.len() == bonus_owed(frames)
}

/// Whether a fill ball of `pins` is taken: one is still owed, and a second
/// fill ball after a first one below ten leaves at most ten pins in the pair.
pub open spec fn fill_accepts(frames: Seq<Frame>, fills: Seq<u8>, pins: u8) -> bool {
    &&& fills.len() < bonus_owed(frames)
    &&& (fills.len() == 1 && fills[0] < 10 ==> fills[0] + pins <= 10)
}

/// The frames and fill balls after a roll of `pins`, or the error it meets.
pub open spec fn roll_result(frames: Seq<Frame>, fills: Seq<u8>, pins: u8) -> Result<
    (Seq<Frame>, Seq<u8>),
    Error,
> {
    let k = first_open(frames);
    if pins > 10 {
        Err(Error::NotEnoughPinsLeft)
    } else if game_over(frames, fills) {
        Err(Error::GameComplete)
    } else if k < 10 {
        if frames[k].accepts(pins) {
            Ok((frames.update(k, frames[k].after(pins)), fills))
        } else {
            Err(Error::NotEnoughPinsLeft)
        }
    } else if fill_accepts(frames, fills, pins) {
        Ok((frames, fills.push(pins)))
    } else {
        Err(Error::NotEnoughPinsLeft)
    }
}

/// The states a game can reach: ten well-formed frames filled in order,
/// and fill balls only once the tenth frame is complete and only as owed.
pub open spec fn valid_view(frames: Seq<Frame>, fills: Seq<u8>) -> bool {
    let k = first_open(frames);
    &&& frames.len() == 10
    &&& forall|i: int| 0 <= i < 10 ==> #[trigger] frames[i].wf()
    &&& forall|i: int| k < i < 10 ==> #[trigger] frames[i] == Frame::Unfilled
    &&& fills.len() <= bonus_owed(frames)
    &&& fills.len() > 0 ==> k == 10
    &&& forall|i: int| 0 <= i < fills.len() ==> #[trigger] fills[i] <= 10
    &&& (fills.len() == 2 && fills[0] < 10 ==> fills[0] + fills[1] <= 10)
}

/// Every ball rolled from frame `i` on, fill balls last.
pub open spec fn balls_from(frames: Seq<Frame>, fills: Seq<u8>, i: int) -> Seq<u8>
    decreases frames.len() - i,
{
    if i >= frames.len() {
        fills
    } else {
        frames[i].rolls() + balls_from(frames, fills, i + 1)
    }
}

/// Points of frame `i`: its pins, plus the next two balls after a strike,
/// or the next ball after a spare.
pub open spec fn frame_score(frames: Seq<Frame>, fills: Seq<u8>, i: int) -> int {
    let next = balls_from(frames, fills, i + 1);
    frames[i].spec_pins() + if frames[i].spec_is_strike() {
        next[0] + next[1]
    } else if frames[i].spec_is_spare() {
        next[0] as int
    } else {
        0
    }
}

/// Points of the first `n` frames.
pub open spec fn score_through(frames: Seq<Frame>, fills: Seq<u8>, n: nat) -> int
    decreases n,
{
    if n == 0 {
        0
    } else {
        score_through(frames, fills, (n - 1) as nat) + frame_score(frames, fills, n - 1)
    }
}

/// Points of the whole game.
pub open spec fn total(frames: Seq<Frame>, fills: Seq<u8>) -> int {
    score_through(frames, fills, 10)
}

proof fn lemma_first_open_from(frames: Seq<Frame>, i: int)
    requires
        0 <= i <= frames.len(),
    ensures
        i <= first_open_from(frames, i) <= frames.len(),
        forall|j: int| i <= j < first_open_from(frames, i) ==> #[trigger] frames[j].spec_is_complete(),
        first_open_from(frames, i) < frames.len() ==> !frames[first_open_from(frames, i)].spec_is_complete(),
    decreases frames.len() - i,
{
    if i < frames.len() && frames[i].spec_is_complete() {
        lemma_first_open_from(frames, i + 1);
    }
}

/// What the first open frame is: every frame before it is complete, and it
/// is not.
proof fn lemma_first_open(frames: Seq<Frame>)
    ensures
        0 <= first_open(frames) <= frames.len(),
        forall|j: int| 0 <= j < first_open(frames) ==> #[trigger] frames[j].spec_is_complete(),
        first_open(frames) < frames.len() ==> !frames[first_open(frames)].spec_is_complete(),
{
    lemma_first_open_from(frames, 0);
}

/// The first open frame is pinned down by the frames before it being
/// complete and itself (if any) not.
proof fn lemma_first_open_is(frames: Seq<Frame>, k: int)
    requires
        0 <= k <= frames.len(),
        forall|j: int| 0 <= j < k ==> #[trigger] frames[j].spec_is_complete(),
        k < frames.len() ==> !frames[k].spec_is_complete(),
    ensures
        first_open(frames) == k,
{
    lemma_first_open(frames);
    let f = first_open(frames);
    if f < k {
        assert(frames[f].spec_is_complete());
    } else if f > k {
        assert(frames[k].spec_is_complete());
    }
}

/// Any roll that is accepted leads from a reachable state to a reachable
/// state.
pub proof fn lemma_roll_stays_valid(frames: Seq<Frame>, fills: Seq<u8>, pins: u8)
    requires
        valid_view(frames, fills),
        roll_result(frames, fills, pins) is Ok,
    ensures
        valid_view(roll_result(frames, fills, pins)->Ok_0.0, roll_result(frames, fills, pins)->Ok_0.1),
{
    lemma_first_open(frames);
    let k = first_open(frames);
    if k < 10 {
        let nf = frames.update(k, frames[k].after(pins));
        if nf[k].spec_is_complete() {
            lemma_first_open_is(nf, k + 1);
        } else {
            lemma_first_open_is(nf, k);
        }
    }
}

/// The balls after frame `i` of a complete game begin with the next
/// frame's rolls; after the tenth frame they are the fill balls.
proof fn lemma_balls_after(frames: Seq<Frame>, fills: Seq<u8>, i: int)
    requires
        frames.len() == 10,
        0 <= i < 10,
    ensures
        i < 9 ==> balls_from(frames, fills, i + 1) == frames[i + 1].rolls() + balls_from(frames, fills, i + 2),
        i < 8 ==> balls_from(frames, fills, i + 2) == frames[i + 2].rolls() + balls_from(frames, fills, i + 3),
        i == 8 ==> balls_from(frames, fills, i + 2) == fills,
        i == 9 ==> balls_from(frames, fills, i + 1) == fills,
{
    if i < 8 {
        assert(balls_from(frames, fills, i + 2) == frames[i + 2].rolls() + balls_from(frames, fills, i + 3));
    }
}

/// The points of frame `i` of a complete game, by the lookahead over the
/// frames that follow it: a strike adds the next frame's pins, and when
/// that is a strike too the first ball after it; a spare adds the next
/// frame's first ball. The tenth frame takes its bonus from the fill balls.
proof fn lemma_frame_score_lookahead(frames: Seq<Frame>, fills: Seq<u8>, i: int)
    requires
        valid_view(frames, fills),
        game_over(frames, fills),
        0 <= i < 10,
    ensures
        frame_score(frames, fills, i) <= 30,
        !frames[i].spec_is_strike() && !frames[i].spec_is_spare() ==> frame_score(frames, fills, i)
            == frames[i].spec_pins(),
        i < 9 && frames[i].spec_is_spare() ==> frame_score(frames, fills, i) == 10 + frames[i + 1].spec_first(),
        i < 8 && frames[i].spec_is_strike() ==> frame_score(frames, fills, i) == 10 + frames[i + 1].spec_pins()
            + if frames[i + 1].spec_is_strike() { frames[i + 2].spec_first() } else { 0 },
        i == 8 && frames[i].spec_is_strike() ==> frame_score(frames, fills, i) == 10 + frames[9].spec_pins()
            + if frames[9].spec_is_strike() { fills[0] as nat } else { 0 },
        i == 9 && frames[i].spec_is_spare() ==> frame_score(frames, fills, i) == 10 + fills[0],
        i == 9 && frames[i].spec_is_strike() ==> frame_score(frames, fills, i) == 10 + fills[0] + fills[1],
{
    lemma_first_open(frames);
    lemma_balls_after(frames, fills, i);
    let next = balls_from(frames, fills, i + 1);
    let f = frames[i];
    assert(f.wf() && f.spec_is_complete());
    if i < 9 {
        let n = frames[i + 1];
        assert(n.wf() && n.spec_is_complete());
        let rest = balls_from(frames, fills, i + 2);
        if n.spec_is_strike() {
            assert(next[0] == 10);
            if i < 8 {
                let m = frames[i + 2];
                assert(m.wf() && m.spec_is_complete());
                assert(rest[0] == m.spec_first());
            }
            assert(next[1] == rest[0]);
        } else {
            assert(next[0] == n.rolls()[0]);
            assert(next[1] == n.rolls()[1]);
        }
    }
}

/// A roll of more than ten pins is refused as too many pins, whatever the
/// state of the game, and changes nothing.
pub proof fn lemma_rejects_too_many_pins(frames: Seq<Frame>, fills: Seq<u8>, pins: u8)
    requires
        pins > 10,
    ensures
        roll_result(frames, fills, pins) == Err::<(Seq<Frame>, Seq<u8>), Error>(Error::NotEnoughPinsLeft),
{
}

/// A frame that holds a strike is complete, with that one ball as its only
/// roll: it has no slot for a second ball.
pub proof fn lemma_strike_frame_closed(f: Frame)
    requires
        f.wf(),
        f.spec_is_strike(),
    ensures
        f.spec_is_complete(),
        f.rolls() == seq![10u8],
{
}

/// No accepted roll changes a complete frame; in particular no second ball
/// ever enters a frame that holds a strike.
pub proof fn lemma_roll_keeps_closed_frames(frames: Seq<Frame>, fills: Seq<u8>, pins: u8, i: int)
    requires
        valid_view(frames, fills),
        0 <= i < 10,
        frames[i].spec_is_complete(),
        roll_result(frames, fills, pins) is Ok,
    ensures
        roll_result(frames, fills, pins)->Ok_0.0[i] == frames[i],
{
    lemma_first_open(frames);
}

/// A game in progress: ten frames, filled in order, and the fill balls
/// rolled after the tenth frame.
pub struct BowlingGame {
    frames: Vec<Frame>,
    fills: Vec<u8>,
}

impl View for BowlingGame {
    type V = (Seq<Frame>, Seq<u8>);

    closed spec fn view(&self) -> (Seq<Frame>, Seq<u8>) {
        (self.frames@, self.fills@)
    }
}

impl BowlingGame {
    /// A reachable state of play.
    pub open spec fn valid(&self) -> bool {
        valid_view(self@.0, self@.1)
    }

    /// Whether all frames and owed fill balls have been rolled.
    pub open spec fn spec_complete(&self) -> bool {
        game_over(self@.0, self@.1)
    }

    /// A game with no roll yet.
    pub fn new() -> (g: BowlingGame)
        ensures
            g.valid(),
            g@.0 == Seq::new(10, |i: int| Frame::Unfilled),
            g@.1 == Seq::<u8>::empty(),
    {
        let mut frames: Vec<Frame> = Vec::new();
        let mut i: usize = 0;
        while i < 10
            invariant
                i <= 10,
                frames@ == Seq::new(i as nat, |j: int| Frame::Unfilled),
            decreases 10 - i,
        {
            frames.push(Frame::new());
            i = i + 1;
            assert(frames@ =~= Seq::new(i as nat, |j: int| Frame::Unfilled));
        }
        let g = BowlingGame { frames, fills: Vec::new() };
        proof {
            lemma_first_open_is(g@.0, 0);
        }
        g
    }

    /// Index of the first incomplete frame, or ten.
    fn open_frame(&self) -> (k: usize)
        requires
            self.valid(),
        ensures
            k == first_open(self@.0),
    {
        let mut i: usize = 0;
        while i < 10
            invariant
                i <= 10,
                self.frames@.len() == 10,
                first_open(self@.0) == first_open_from(self@.0, i as int),
            decreases 10 - i,
        {
            if !self.frames[i].is_complete() {
                return i;
            }
            i = i + 1;
        }
        i
    }

    /// Fill balls owed by the tenth frame: none, one after a spare, two
    /// after a strike.
    fn fills_owed(&self) -> (n: usize)
        requires
            self.valid(),
        ensures
            n == bonus_owed(self@.0),
    {
        let last = &self.frames[9];
        if last.is_strike() {
            2
        } else if last.is_spare() {
            1
        } else {
            0
        }
    }

    /// Whether all frames and owed fill balls have been rolled.
    pub fn is_complete(&self) -> (r: bool)
        requires
            self.valid(),
        ensures
            r == self.spec_complete(),
    {
        self.open_frame() >= 10 && self.fills.len() == self.fills_owed()
    }

    /// Rolls a ball that knocks down `pins` pins.
    ///
    /// The roll goes to the first incomplete frame, or becomes a fill ball
    /// once all ten frames are complete. A refused roll leaves the game as
    /// it was.
    pub fn roll(&mut self, pins: u8) -> (r: Result<(), Error>)
        requires
            old(self).valid(),
        ensures
            final(self).valid(),
            match roll_result(old(self)@.0, old(self)@.1, pins) {
                Ok(next) => r is Ok && final(self)@ == next,
                Err(e) => r == Err::<(), Error>(e) && final(self)@ == old(self)@,
            },
    {
        proof {
            lemma_first_open(self@.0);
        }
        if pins > 10 {
            return Err(Error::NotEnoughPinsLeft);
        }
        if self.is_complete() {
            return Err(Error::GameComplete);
        }
        proof {
            if roll_result(self@.0, self@.1, pins) is Ok {
                lemma_roll_stays_valid(self@.0, self@.1, pins);
            }
        }
        let k = self.open_frame();
        if k < 10 {
            let mut frame = self.frames[k];
            let r = frame.record_roll(pins);
            if r.is_ok() {
                self.frames.set(k, frame);
            }
            r
        } else {
            let owed = self.fills_owed();
            if self.fills.len() >= owed {
                return Err(Error::NotEnoughPinsLeft);
            }
            if self.fills.len() == 1 && self.fills[0] < 10 && self.fills[0] + pins > 10 {
                return Err(Error::NotEnoughPinsLeft);
            }
            self.fills.push(pins);
            Ok(())
        }
    }

    /// Points of frame `i` of a complete game: its pins, plus after a strike
    /// the next frame's pins (and, when that is a strike too, the first ball
    /// after it), or after a spare the next frame's first ball. The tenth
    /// frame takes its bonus from the fill balls.
    fn frame_points(&self, i: usize) -> (r: u16)
        requires
            self.valid(),
            self.spec_complete(),
            i < 10,
        ensures
            r == frame_score(self@.0, self@.1, i as int),
            r <= 30,
    {
        proof {
            lemma_first_open(self@.0);
            lemma_frame_score_lookahead(self@.0, self@.1, i as int);
        }
        let frame = &self.frames[i];
        let mut points: u16 = frame.pins() as u16;
        if i < 8 {
            let next = &self.frames[i + 1];
            if frame.is_strike() {
                points = points + next.pins() as u16;
                if next.is_strike() {
                    points = points + self.frames[i + 2].first_roll() as u16;
                }
            } else if frame.is_spare() {
                points = points + next.first_roll() as u16;
            }
        } else if i == 8 {
            let next = &self.frames[9];
            if frame.is_strike() {
                points = points + next.pins() as u16;
                if next.is_strike() {
                    points = points + self.fills[0] as u16;
                }
            } else if frame.is_spare() {
                points = points + next.first_roll() as u16;
            }
        } else {
            if frame.is_strike() {
                points = points + self.fills[0] as u16 + self.fills[1] as u16;
            } else if frame.is_spare() {
                points = points + self.fills[0] as u16;
            }
        }
        points
    }

    /// The final score, once the game is complete; `None` before that.
    /// Reading it changes nothing.
    pub fn score(&self) -> (r: Option<u16>)
        requires
            self.valid(),
        ensures
            !self.spec_complete() ==> r is None,
            self.spec_complete() ==> r is Some && r->0 == total(self@.0, self@.1),
    {
        if !self.is_complete() {
            return None;
        }
        let mut sum: u16 = 0;
        let mut i: usize = 0;
        while i < 10
            invariant
                self.valid(),
                self.spec_complete(),
                i <= 10,
                sum == score_through(self@.0, self@.1, i as nat),
                sum <= 30 * i,
            decreases 10 - i,
        {
            let p = self.frame_points(i);
            sum = sum + p;
            i = i + 1;
        }
        Some(sum)
    }
}

} // verus!
