use bowling::{BowlingGame, Error};

fn play(rolls: &[u8]) -> BowlingGame {
    let mut game = BowlingGame::new();
    for &pins in rolls {
        assert_eq!(game.roll(pins), Ok(()));
    }
    game
}

#[test]
fn too_many_pins_on_a_fresh_game() {
    let mut game = BowlingGame::new();
    assert_eq!(game.roll(11), Err(Error::NotEnoughPinsLeft));
    assert_eq!(game.roll(255), Err(Error::NotEnoughPinsLeft));
    // the refused rolls left the game empty: a full game still follows
    for _ in 0..20 {
        assert_eq!(game.roll(1), Ok(()));
    }
    assert_eq!(game.score(), Some(20));
}

#[test]
fn too_many_pins_after_the_game_is_over() {
    let mut game = play(&[0; 20]);
    assert_eq!(game.roll(11), Err(Error::NotEnoughPinsLeft));
    assert_eq!(game.roll(0), Err(Error::GameComplete));
    assert_eq!(game.score(), Some(0));
}

#[test]
fn too_many_pins_mid_frame_leaves_the_frame_open() {
    let mut game = BowlingGame::new();
    assert_eq!(game.roll(4), Ok(()));
    assert_eq!(game.roll(12), Err(Error::NotEnoughPinsLeft));
    assert_eq!(game.roll(7), Err(Error::NotEnoughPinsLeft));
    assert_eq!(game.roll(6), Ok(()));
    for _ in 0..18 {
        assert_eq!(game.roll(0), Ok(()));
    }
    assert_eq!(game.score(), Some(10));
}

#[test]
fn gutter_game_scores_zero() {
    let game = play(&[0; 20]);
    assert_eq!(game.score(), Some(0));
}

#[test]
fn all_spares_of_five_score_150() {
    let game = play(&[5; 21]);
    assert_eq!(game.score(), Some(150));
}

#[test]
fn perfect_game_scores_300() {
    let game = play(&[10; 12]);
    assert_eq!(game.score(), Some(300));
}

#[test]
fn strike_bonus_counts_only_the_next_two_balls() {
    let mut rolls = vec![10];
    for _ in 0..9 {
        rolls.push(3);
        rolls.push(4);
    }
    let game = play(&rolls);
    // 10 + 7 for the strike, then nine frames of 7
    assert_eq!(game.score(), Some(10 + 7 + 9 * 7));
}

#[test]
fn roll_after_open_tenth_frame_is_refused() {
    let mut rolls = vec![0; 18];
    rolls.push(3);
    rolls.push(4);
    let mut game = play(&rolls);
    assert_eq!(game.roll(2), Err(Error::GameComplete));
    assert_eq!(game.score(), Some(7));
}

#[test]
fn no_score_before_the_game_is_complete() {
    let mut game = BowlingGame::new();
    for _ in 0..19 {
        assert_eq!(game.score(), None);
        assert_eq!(game.roll(2), Ok(()));
    }
    assert_eq!(game.score(), None);
    assert_eq!(game.roll(2), Ok(()));
    assert_eq!(game.score(), Some(40));
    assert_eq!(game.score(), Some(40));
}

#[test]
fn no_score_while_fill_balls_are_owed() {
    let mut game = play(&[10; 10]);
    assert_eq!(game.score(), None);
    assert_eq!(game.roll(10), Ok(()));
    assert_eq!(game.score(), None);
    assert_eq!(game.roll(10), Ok(()));
    assert_eq!(game.score(), Some(300));
    assert_eq!(game.score(), Some(300));
}

#[test]
fn spare_bonus_is_the_next_ball() {
    let mut rolls = vec![6, 4, 3, 2];
    rolls.extend_from_slice(&[0; 16]);
    let game = play(&rolls);
    assert_eq!(game.score(), Some(10 + 3 + 5));
}

#[test]
fn consecutive_strikes_take_the_first_ball_two_frames_on() {
    let mut rolls = vec![10, 10, 4, 2];
    rolls.extend_from_slice(&[0; 14]);
    let game = play(&rolls);
    // 10 + 10 + 4, then 10 + 4 + 2, then 6
    assert_eq!(game.score(), Some(24 + 16 + 6));
}

#[test]
fn strike_is_a_whole_frame() {
    let mut game = BowlingGame::new();
    assert_eq!(game.roll(10), Ok(()));
    // this ball opens the second frame, it is not a second ball of the first
    assert_eq!(game.roll(7), Ok(()));
    assert_eq!(game.roll(4), Err(Error::NotEnoughPinsLeft));
    assert_eq!(game.roll(3), Ok(()));
    for _ in 0..16 {
        assert_eq!(game.roll(0), Ok(()));
    }
    assert_eq!(game.score(), Some(20 + 10));
}

#[test]
fn two_rolls_of_a_frame_cannot_exceed_ten() {
    let mut game = BowlingGame::new();
    assert_eq!(game.roll(5), Ok(()));
    assert_eq!(game.roll(6), Err(Error::NotEnoughPinsLeft));
}

#[test]
fn tenth_frame_spare_takes_one_fill_ball() {
    let mut rolls = vec![0; 18];
    rolls.push(7);
    rolls.push(3);
    let mut game = play(&rolls);
    assert_eq!(game.score(), None);
    assert_eq!(game.roll(10), Ok(()));
    assert_eq!(game.score(), Some(20));
    assert_eq!(game.roll(10), Err(Error::GameComplete));
}

#[test]
fn tenth_frame_strike_takes_two_fill_balls() {
    let mut rolls = vec![0; 18];
    rolls.push(10);
    let mut game = play(&rolls);
    assert_eq!(game.roll(10), Ok(()));
    assert_eq!(game.roll(6), Ok(()));
    assert_eq!(game.score(), Some(26));
    assert_eq!(game.roll(0), Err(Error::GameComplete));
}

#[test]
fn fill_balls_below_ten_cannot_exceed_ten_together() {
    let mut rolls = vec![0; 18];
    rolls.push(10);
    let mut game = play(&rolls);
    assert_eq!(game.roll(6), Ok(()));
    assert_eq!(game.roll(5), Err(Error::NotEnoughPinsLeft));
    assert_eq!(game.roll(10), Err(Error::NotEnoughPinsLeft));
    assert_eq!(game.roll(4), Ok(()));
    assert_eq!(game.score(), Some(20));
}

#[test]
fn ninth_frame_strike_looks_into_the_fill_balls() {
    let mut rolls = vec![0; 16];
    rolls.extend_from_slice(&[10, 10, 7, 2]);
    let game = play(&rolls);
    // ninth: 10 + 10 + 7; tenth: 10 + 7 + 2
    assert_eq!(game.score(), Some(27 + 19));
}

#[test]
fn ninth_frame_strike_before_open_tenth() {
    let mut rolls = vec![0; 16];
    rolls.extend_from_slice(&[10, 3, 5]);
    let game = play(&rolls);
    assert_eq!(game.score(), Some(18 + 8));
}
