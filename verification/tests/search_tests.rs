use beam_search::beam_search::beam_search;
use beam_search::chokudai_search::chokudai_search;
use beam_search::state::{Pos, State};

fn points_grid() -> Vec<Vec<usize>> {
    vec![vec![4, 6, 1, 3], vec![0, 0, 2, 0], vec![7, 5, 6, 6]]
}

#[test]
fn beam_search_test_advance() {
    let character = Pos::new(1, 1);
    let points = points_grid();
    let mut maze_state = State::new(character, points);
    let action = 0;
    maze_state.advance(action);
    let action = 1;
    maze_state.advance(action);

    assert_eq!(maze_state.turn, 2);
    assert_eq!(maze_state.character.y, 2);
    assert_eq!(maze_state.character.x, 2);
    assert_eq!(maze_state.game_score, 8);
}

#[test]
fn beam_search_test_legal_actions() {
    let character = Pos::new(0, 0);
    let points = points_grid();
    let state = State::new(character, points);
    let legal_actions = state.legal_actions();
    let expect = vec![0, 1];
    assert_eq!(legal_actions, expect);

    let character = Pos::new(1, 1);
    let points = points_grid();
    let state = State::new(character, points);
    let legal_actions = state.legal_actions();
    let expect = vec![0, 1, 2, 3];
    assert_eq!(legal_actions, expect);
}

#[test]
fn beam_search_test_beam_search_w2_d4() {
    let character = Pos::new(1, 1);
    let points = points_grid();
    let state = State::new(character, points);
    let beam_width = 2;
    let beam_depth = 4;
    let action = beam_search(&state, beam_width, beam_depth);
    assert_eq!(action, Some(1));
}

#[test]
fn beam_search_test_beam_search_w4_d4() {
    let character = Pos::new(1, 1);
    let points = points_grid();
    let state = State::new(character, points);
    let beam_width = 4;
    let beam_depth = 4;
    let action = beam_search(&state, beam_width, beam_depth);
    assert_eq!(action, Some(0));
}

#[test]
fn beam_search_test_beam_search_w4_d1() {
    let character = Pos::new(1, 1);
    let points = points_grid();
    let state = State::new(character, points);
    let beam_width = 4;
    let beam_depth = 1;
    let action = beam_search(&state, beam_width, beam_depth);
    assert_eq!(action, Some(3));
}

#[test]
fn lib_test_advance() {
    let character = Pos::new(1, 1);
    let points = points_grid();
    let mut maze_state = State::new(character, points);
    let action = 0;
    maze_state.advance(action);
    let action = 1;
    maze_state.advance(action);

    assert_eq!(maze_state.turn, 2);
    assert_eq!(maze_state.character.y, 2);
    assert_eq!(maze_state.character.x, 2);
    assert_eq!(maze_state.game_score, 8);
}

#[test]
fn lib_test_legal_actions() {
    let character = Pos::new(0, 0);
    let points = points_grid();
    let state = State::new(character, points);
    let legal_actions = state.legal_actions();
    let expect = vec![0, 1];
    assert_eq!(legal_actions, expect);

    let character = Pos::new(1, 1);
    let points = points_grid();
    let state = State::new(character, points);
    let legal_actions = state.legal_actions();
    let expect = vec![0, 1, 2, 3];
    assert_eq!(legal_actions, expect);
}

#[test]
fn lib_test_beam_search_w2_d4() {
    let character = Pos::new(1, 1);
    let points = points_grid();
    let state = State::new(character, points);
    let beam_width = 2;
    let beam_depth = 4;
    let action = beam_search(&state, beam_width, beam_depth);
    assert_eq!(action, Some(1));
}

#[test]
fn lib_test_beam_search_w4_d4() {
    let character = Pos::new(1, 1);
    let points = points_grid();
    let state = State::new(character, points);
    let beam_width = 4;
    let beam_depth = 4;
    let action = beam_search(&state, beam_width, beam_depth);
    assert_eq!(action, Some(0));
}

#[test]
fn lib_test_beam_search_w4_d1() {
    let character = Pos::new(1, 1);
    let points = points_grid();
    let state = State::new(character, points);
    let beam_width = 4;
    let beam_depth = 1;
    let action = beam_search(&state, beam_width, beam_depth);
    assert_eq!(action, Some(3));
}

#[test]
fn state_test_advance() {
    let character = Pos::new(1, 1);
    let points = points_grid();
    let mut maze_state = State::new(character, points);
    let action = 0;
    maze_state.advance(action);
    let action = 1;
    maze_state.advance(action);

    assert_eq!(maze_state.turn, 2);
    assert_eq!(maze_state.character.y, 2);
    assert_eq!(maze_state.character.x, 2);
    assert_eq!(maze_state.game_score, 8);
}

#[test]
fn state_test_legal_actions() {
    let character = Pos::new(0, 0);
    let points = points_grid();
    let state = State::new(character, points);
    let legal_actions = state.legal_actions();
    let expect = vec![0, 1];
    assert_eq!(legal_actions, expect);

    let character = Pos::new(1, 1);
    let points = points_grid();
    let state = State::new(character, points);
    let legal_actions = state.legal_actions();
    let expect = vec![0, 1, 2, 3];
    assert_eq!(legal_actions, expect);
}

#[test]
fn test_beam_search_w1_d1_n4() {
    let character = Pos::new(1, 1);
    let points = points_grid();
    let state = State::new(character, points);
    let beam_width = 1;
    let beam_depth = 1;
    let beam_number = 4;
    let action = chokudai_search(&state, beam_width, beam_depth, beam_number);
    assert_eq!(action, Some(3));
}

#[test]
fn test_beam_search_w1_d2_n2() {
    let character = Pos::new(1, 1);
    let points = points_grid();
    let state = State::new(character, points);
    let beam_width = 1;
    let beam_depth = 2;
    let beam_number = 2;
    let action = chokudai_search(&state, beam_width, beam_depth, beam_number);
    assert_eq!(action, Some(1));
}

#[test]
fn test_beam_search_w1_d3_n2() {
    let character = Pos::new(1, 1);
    let points = points_grid();
    let state = State::new(character, points);
    let beam_width = 1;
    let beam_depth = 3;
    let beam_number = 2;
    let action = chokudai_search(&state, beam_width, beam_depth, beam_number);
    assert_eq!(action, Some(1));
}

#[test]
fn test_beam_search_w1_d4_n4() {
    let character = Pos::new(1, 1);
    let points = points_grid();
    let state = State::new(character, points);
    let beam_width = 1;
    let beam_depth = 4;
    let beam_number = 2;
    let action = chokudai_search(&state, beam_width, beam_depth, beam_number);
    assert_eq!(action, Some(1));
}
