use flappy_rust::game::{
    clamp_frame_index, count_newly_passed, frame_for_tick, FlapAction, Phase, Scoreboard,
    BIRD_FRAME_COUNT,
};
use flappy_rust::save::SaveData;

fn board_with_best(best: u32) -> Scoreboard {
    Scoreboard::new(SaveData { high_score: best })
}

fn playing_board(best: u32, score: u32) -> Scoreboard {
    let mut b = board_with_best(best);
    b.flap(false);
    let mut scored = vec![false; score as usize];
    let passed = vec![true; score as usize];
    b.award_passed_pipes(&mut scored, &passed);
    b
}

#[test]
fn new_board_is_ready() {
    let b = board_with_best(9);
    assert_eq!(b.phase(), Phase::Ready);
    assert_eq!(b.score(), 0);
    assert_eq!(b.high_score(), 9);
    assert_eq!(b.save_data(), SaveData { high_score: 9 });
}

#[test]
fn flap_during_cooldown_is_ignored() {
    let mut b = board_with_best(3);
    assert_eq!(b.flap(true), FlapAction::Ignored);
    assert_eq!(b.phase(), Phase::Ready);
    let mut b = playing_board(3, 2);
    assert_eq!(b.flap(true), FlapAction::Ignored);
    assert_eq!(b.phase(), Phase::Playing);
    assert_eq!(b.score(), 2);
}

#[test]
fn flap_starts_boosts_and_restarts() {
    let mut b = board_with_best(0);
    assert_eq!(b.flap(false), FlapAction::Start);
    assert_eq!(b.phase(), Phase::Playing);
    assert_eq!(b.flap(false), FlapAction::Boost);
    assert_eq!(b.phase(), Phase::Playing);
    let mut scored = vec![false, false];
    b.award_passed_pipes(&mut scored, &vec![true, true]);
    assert!(b.end_round());
    assert_eq!(b.phase(), Phase::GameOver);
    assert_eq!(b.flap(false), FlapAction::Restart);
    assert_eq!(b.phase(), Phase::Playing);
    assert_eq!(b.score(), 0);
    assert_eq!(b.high_score(), 2);
}

#[test]
fn reset_and_start_keep_best() {
    let mut b = playing_board(5, 7);
    b.reset_round();
    assert_eq!(b.phase(), Phase::Ready);
    assert_eq!(b.score(), 0);
    assert_eq!(b.high_score(), 5);
    b.start_playing();
    assert_eq!(b.phase(), Phase::Playing);
    assert_eq!(b.score(), 0);
}

#[test]
fn award_counts_each_pipe_once() {
    let mut b = playing_board(0, 0);
    let mut scored = vec![true, false, false, false];
    let passed = vec![true, true, false, true];
    assert_eq!(count_newly_passed(&scored, &passed), 2);
    b.award_passed_pipes(&mut scored, &passed);
    assert_eq!(scored, vec![true, true, false, true]);
    assert_eq!(b.score(), 2);
    assert_eq!(count_newly_passed(&scored, &passed), 0);
    b.award_passed_pipes(&mut scored, &passed);
    assert_eq!(b.score(), 2);
    assert_eq!(b.phase(), Phase::Playing);
}

#[test]
fn award_with_no_pipes() {
    let mut b = playing_board(0, 4);
    let mut scored: Vec<bool> = Vec::new();
    b.award_passed_pipes(&mut scored, &Vec::new());
    assert_eq!(b.score(), 4);
}

#[test]
fn end_round_saves_a_new_best() {
    let mut b = playing_board(3, 5);
    assert!(b.end_round());
    assert_eq!(b.phase(), Phase::GameOver);
    assert_eq!(b.score(), 5);
    assert_eq!(b.high_score(), 5);
    assert_eq!(b.save_data(), SaveData { high_score: 5 });
}

#[test]
fn end_round_keeps_a_better_best() {
    let mut b = playing_board(8, 5);
    assert!(!b.end_round());
    assert_eq!(b.phase(), Phase::GameOver);
    assert_eq!(b.high_score(), 8);
    assert_eq!(b.save_data(), SaveData { high_score: 8 });
}

#[test]
fn end_round_on_a_tie_does_not_save() {
    let mut b = playing_board(4, 4);
    assert!(!b.end_round());
    assert_eq!(b.high_score(), 4);
}

#[test]
fn update_playing_scores_then_crashes() {
    let mut b = playing_board(1, 1);
    let mut scored = vec![true, false];
    assert!(b.update_playing(&mut scored, &vec![true, true], true));
    assert_eq!(scored, vec![true, true]);
    assert_eq!(b.score(), 2);
    assert_eq!(b.high_score(), 2);
    assert_eq!(b.phase(), Phase::GameOver);
}

#[test]
fn update_playing_without_collision_keeps_running() {
    let mut b = playing_board(10, 1);
    let mut scored = vec![false, false];
    assert!(!b.update_playing(&mut scored, &vec![true, false], false));
    assert_eq!(b.score(), 2);
    assert_eq!(b.high_score(), 10);
    assert_eq!(b.phase(), Phase::Playing);
}

#[test]
fn frame_cycle_repeats() {
    assert_eq!(BIRD_FRAME_COUNT, 8);
    assert_eq!(frame_for_tick(0), 0);
    assert_eq!(frame_for_tick(7), 7);
    assert_eq!(frame_for_tick(8), 0);
    assert_eq!(frame_for_tick(21), 5);
}

#[test]
fn frame_index_is_clamped() {
    assert_eq!(clamp_frame_index(3, 8), 3);
    assert_eq!(clamp_frame_index(7, 8), 7);
    assert_eq!(clamp_frame_index(7, 5), 4);
    assert_eq!(clamp_frame_index(2, 0), 0);
    assert_eq!(clamp_frame_index(0, 1), 0);
}
