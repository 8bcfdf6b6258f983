use beam_search::beam_search::beam_search;
use beam_search::chokudai_search::{chokudai_search, chokudai_search_with_refcell};
use beam_search::state::{Pos, State};

fn points_grid() -> Vec<Vec<usize>> {
    vec![vec![4, 6, 1, 3], vec![0, 0, 2, 0], vec![7, 5, 6, 6]]
}

#[test]
fn test_depth_zero_returns_no_action() {
    let state = State::new(Pos::new(1, 1), points_grid());
    assert_eq!(beam_search(&state, 4, 0), None);
    assert_eq!(chokudai_search(&state, 4, 0, 3), None);
}

#[test]
fn test_preset_first_action_is_ignored() {
    // The engines seed their beams with the first action unset, so a value
    // a caller left in the field never reaches a result.
    let mut state = State::new(Pos::new(1, 1), points_grid());
    state.first_action = Some(7);
    assert_eq!(beam_search(&state, 1, 0), None);
    assert_eq!(chokudai_search(&state, 1, 0, 1), None);
    assert_eq!(beam_search(&state, 2, 4), Some(1));
    assert_eq!(chokudai_search(&state, 1, 2, 2), Some(1));
}

#[test]
fn test_width_zero_returns_no_action() {
    let state = State::new(Pos::new(1, 1), points_grid());
    assert_eq!(beam_search(&state, 0, 4), None);
}

#[test]
fn test_returned_action_is_legal() {
    // From the corner only right (0) and down (1) are legal.
    let state = State::new(Pos::new(0, 0), points_grid());
    let action = beam_search(&state, 3, 3).unwrap();
    assert!(state.legal_actions().contains(&action));
}

#[test]
fn test_search_is_deterministic() {
    for _ in 0..3 {
        let state = State::new(Pos::new(1, 1), points_grid());
        assert_eq!(beam_search(&state, 2, 4), Some(1));
        let state = State::new(Pos::new(1, 1), points_grid());
        assert_eq!(chokudai_search(&state, 1, 2, 2), Some(1));
    }
}

#[test]
fn test_refcell_variant_agrees() {
    let state = State::new(Pos::new(1, 1), points_grid());
    for depth in 1..5 {
        assert_eq!(
            chokudai_search(&state, 1, depth, 2),
            chokudai_search_with_refcell(&state, 1, depth, 2)
        );
    }
}

#[test]
fn test_new_consumes_starting_reward() {
    let state = State::new(Pos::new(0, 0), points_grid());
    assert_eq!(state.points[0][0], 0);
    assert_eq!(state.game_score, 0);
}

#[test]
fn test_reward_consumed_at_most_once() {
    let mut state = State::new(Pos::new(1, 1), points_grid());
    state.advance(0);
    assert_eq!(state.game_score, 2);
    state.advance(2);
    assert_eq!(state.game_score, 2);
    state.advance(0);
    assert_eq!(state.game_score, 2);
}

#[test]
fn test_is_done_after_turn_budget() {
    let mut state = State::new(Pos::new(1, 1), points_grid());
    assert!(!state.is_done());
    state.advance(0);
    state.advance(2);
    state.advance(0);
    assert!(!state.is_done());
    state.advance(2);
    assert!(state.is_done());
}

#[test]
fn test_evaluate_score_sets_rank_key() {
    let mut state = State::new(Pos::new(1, 1), points_grid());
    state.advance(1);
    assert_eq!(state.evaluated_score, 0);
    state.evaluate_score();
    assert_eq!(state.evaluated_score, 5);
    assert_eq!(state.game_score, 5);
}
