use sweeper_3d::cell::Contains;
use sweeper_3d::game::{Command, Disclosure, GameResult, GameState, Rejection, Session};
use sweeper_3d::index::FieldIndex;
use sweeper_3d::minefield::Minefield;
use sweeper_3d::settings::{Density, FieldSettings, GameSettings, Safety};

fn session_with(size: [usize; 3], mines: &[(usize, usize, usize)]) -> Session {
    let mut field = Minefield::new(size, Density::zero(), Safety::Clear).unwrap();
    field.lay_mines(&mines.iter().map(|m| FieldIndex(*m)).collect());
    Session::with_field(field)
}

fn snapshot(session: &Session) -> (GameState, GameResult, Vec<Option<sweeper_3d::cell::Cell>>) {
    let field = session.minefield();
    (
        session.game_state(),
        session.game_result(),
        field.positions().into_iter().map(|p| field.get(p)).collect(),
    )
}

#[test]
fn a_field_without_mines_is_cleared_by_the_first_move() {
    let settings = FieldSettings { field_size: [3, 3, 3], mine_density: Density::zero() };
    let mut session = Session::new(&settings, &GameSettings { safety: Safety::Clear }).unwrap();
    assert_eq!(session.game_state(), GameState::Start);
    assert_eq!(session.game_result(), GameResult::Unfinished);
    let centre = FieldIndex((1, 1, 1));
    let list = session.open_cell(centre).unwrap();
    assert_eq!(list.len(), 28);
    assert_eq!(list[0], Disclosure::CellRevealed(centre, Contains::Empty { adjacent_mines: 0 }));
    assert_eq!(list[27], Disclosure::SessionEnded(GameResult::Victory));
    for p in session.minefield().positions() {
        assert!(session.minefield().get(p).unwrap().revealed);
        let shown = Disclosure::CellRevealed(p, Contains::Empty { adjacent_mines: 0 });
        assert_eq!(list.iter().filter(|d| **d == shown).count(), 1);
    }
    assert_eq!(session.game_state(), GameState::Ended);
    assert_eq!(session.game_result(), GameResult::Victory);
}

#[test]
fn a_session_needs_a_valid_field() {
    let game = GameSettings::default();
    let none = FieldSettings { field_size: [3, 0, 3], mine_density: Density::zero() };
    assert!(Session::new(&none, &game).is_none());
    assert!(Session::new(&FieldSettings::small(), &game).is_some());
    let session = Session::new(&FieldSettings::large(), &game).unwrap();
    assert_eq!(session.minefield().dimensions(), (10, 10, 10));
    assert_eq!(session.minefield().safety_policy(), Safety::Clear);
    assert!(!session.minefield().is_populated());
}

#[test]
fn the_first_move_starts_play() {
    let mut session = session_with([1, 1, 5], &[(0, 0, 2)]);
    assert_eq!(session.game_state(), GameState::Start);
    let list = session.open_cell(FieldIndex((0, 0, 0))).unwrap();
    assert_eq!(
        list,
        vec![
            Disclosure::CellRevealed(FieldIndex((0, 0, 0)), Contains::Empty { adjacent_mines: 0 }),
            Disclosure::CellRevealed(FieldIndex((0, 0, 1)), Contains::Empty { adjacent_mines: 1 }),
        ]
    );
    assert_eq!(session.game_state(), GameState::Playing);
    assert_eq!(session.game_result(), GameResult::Unfinished);
}

#[test]
fn opening_a_mine_ends_the_session_in_failure() {
    let mut session = session_with([1, 1, 5], &[(0, 0, 2)]);
    session.open_cell(FieldIndex((0, 0, 0))).unwrap();
    let list = session.open_cell(FieldIndex((0, 0, 2))).unwrap();
    assert_eq!(
        list,
        vec![
            Disclosure::CellRevealed(FieldIndex((0, 0, 2)), Contains::Mine),
            Disclosure::SessionEnded(GameResult::Failure),
        ]
    );
    assert_eq!(session.game_state(), GameState::Ended);
    assert_eq!(session.game_result(), GameResult::Failure);
}

#[test]
fn opening_a_mine_fails_whatever_else_is_covered() {
    let mut all_mines = session_with([1, 1, 1], &[(0, 0, 0)]);
    let list = all_mines.open_cell(FieldIndex((0, 0, 0))).unwrap();
    assert_eq!(list[1], Disclosure::SessionEnded(GameResult::Failure));
    assert_eq!(all_mines.game_result(), GameResult::Failure);
    let mut first = session_with([3, 3, 3], &[(1, 1, 1)]);
    first.open_cell(FieldIndex((1, 1, 1))).unwrap();
    assert_eq!(first.game_result(), GameResult::Failure);
}

#[test]
fn uncovering_the_last_safe_cell_ends_the_session_in_victory() {
    let mut session = session_with([1, 1, 5], &[(0, 0, 2)]);
    session.open_cell(FieldIndex((0, 0, 0))).unwrap();
    session.open_cell(FieldIndex((0, 0, 3))).unwrap();
    assert_eq!(session.game_state(), GameState::Playing);
    let list = session.open_cell(FieldIndex((0, 0, 4))).unwrap();
    assert_eq!(
        list,
        vec![
            Disclosure::CellRevealed(FieldIndex((0, 0, 4)), Contains::Empty { adjacent_mines: 0 }),
            Disclosure::SessionEnded(GameResult::Victory),
        ]
    );
    assert_eq!(session.game_state(), GameState::Ended);
    assert_eq!(session.game_result(), GameResult::Victory);
}

#[test]
fn an_open_command_off_the_grid_is_refused() {
    let mut session = session_with([2, 2, 2], &[(1, 1, 1)]);
    let before = snapshot(&session);
    assert_eq!(session.open_cell(FieldIndex((2, 0, 0))), Err(Rejection::OutOfBounds));
    assert_eq!(session.open_cell(FieldIndex((0, 0, 7))), Err(Rejection::OutOfBounds));
    assert_eq!(snapshot(&session), before);
}

#[test]
fn an_open_command_on_an_uncovered_cell_is_refused() {
    let mut session = session_with([1, 1, 5], &[(0, 0, 2)]);
    session.open_cell(FieldIndex((0, 0, 0))).unwrap();
    let before = snapshot(&session);
    assert_eq!(session.open_cell(FieldIndex((0, 0, 0))), Err(Rejection::AlreadyRevealed));
    assert_eq!(session.open_cell(FieldIndex((0, 0, 1))), Err(Rejection::AlreadyRevealed));
    assert_eq!(snapshot(&session), before);
}

#[test]
fn an_open_command_on_a_marked_cell_is_refused() {
    let mut session = session_with([1, 1, 5], &[(0, 0, 2)]);
    let p = FieldIndex((0, 0, 2));
    assert_eq!(session.toggle_mark(p), Ok(Disclosure::CellMarked(p, true)));
    let before = snapshot(&session);
    assert_eq!(session.open_cell(p), Err(Rejection::Marked));
    assert_eq!(snapshot(&session), before);
    assert_eq!(session.game_state(), GameState::Start);
    assert!(!session.minefield().get(p).unwrap().revealed);
    // once the mark is taken off the cell can be opened
    assert_eq!(session.toggle_mark(p), Ok(Disclosure::CellMarked(p, false)));
    assert!(session.open_cell(p).is_ok());
}

#[test]
fn a_mark_command_on_an_uncovered_cell_is_refused() {
    let mut session = session_with([1, 1, 5], &[(0, 0, 2)]);
    session.open_cell(FieldIndex((0, 0, 0))).unwrap();
    let before = snapshot(&session);
    assert_eq!(session.toggle_mark(FieldIndex((0, 0, 0))), Err(Rejection::AlreadyRevealed));
    assert_eq!(session.toggle_mark(FieldIndex((0, 0, 1))), Err(Rejection::AlreadyRevealed));
    assert_eq!(session.toggle_mark(FieldIndex((0, 1, 0))), Err(Rejection::OutOfBounds));
    assert_eq!(snapshot(&session), before);
}

#[test]
fn commands_after_the_end_are_refused() {
    let mut session = session_with([1, 1, 5], &[(0, 0, 2)]);
    session.open_cell(FieldIndex((0, 0, 2))).unwrap();
    let before = snapshot(&session);
    assert_eq!(session.open_cell(FieldIndex((0, 0, 0))), Err(Rejection::SessionOver));
    assert_eq!(session.toggle_mark(FieldIndex((0, 0, 0))), Err(Rejection::SessionOver));
    assert_eq!(session.open_cell(FieldIndex((9, 9, 9))), Err(Rejection::SessionOver));
    assert_eq!(session.apply(Command::OpenCell(FieldIndex((0, 0, 4)))), Err(Rejection::SessionOver));
    assert_eq!(snapshot(&session), before);
}

#[test]
fn a_mark_changes_nothing_but_the_mark() {
    let mut session = session_with([2, 2, 2], &[(1, 1, 1)]);
    let p = FieldIndex((0, 1, 0));
    let before = session.minefield().get(p).unwrap();
    assert_eq!(session.toggle_mark(p), Ok(Disclosure::CellMarked(p, true)));
    assert_eq!(session.minefield().get(p).unwrap(), sweeper_3d::cell::Cell { marked: true, ..before });
    assert_eq!(session.game_state(), GameState::Start);
    assert_eq!(session.game_result(), GameResult::Unfinished);
    assert!(!session.minefield().fully_revealed());
}

#[test]
fn apply_carries_out_either_command() {
    let mut session = session_with([1, 1, 5], &[(0, 0, 2)]);
    let p = FieldIndex((0, 0, 4));
    assert_eq!(session.apply(Command::ToggleMark(p)), Ok(vec![Disclosure::CellMarked(p, true)]));
    assert_eq!(session.apply(Command::OpenCell(p)), Err(Rejection::Marked));
    assert_eq!(session.apply(Command::ToggleMark(p)), Ok(vec![Disclosure::CellMarked(p, false)]));
    assert_eq!(
        session.apply(Command::OpenCell(p)),
        Ok(vec![Disclosure::CellRevealed(p, Contains::Empty { adjacent_mines: 0 }), Disclosure::CellRevealed(FieldIndex((0, 0, 3)), Contains::Empty { adjacent_mines: 1 })])
    );
    assert_eq!(session.apply(Command::ToggleMark(FieldIndex((0, 0, 9)))), Err(Rejection::OutOfBounds));
}

#[test]
fn the_round_is_shown_once_after_the_end() {
    let mut session = session_with([1, 1, 5], &[(0, 0, 1), (0, 0, 2)]);
    session.toggle_mark(FieldIndex((0, 0, 1))).unwrap();
    session.open_cell(FieldIndex((0, 0, 4))).unwrap();
    // nothing is shown while the session is on
    assert!(session.end_of_round().is_empty());
    assert!(!session.minefield().get(FieldIndex((0, 0, 0))).unwrap().revealed);
    session.open_cell(FieldIndex((0, 0, 2))).unwrap();
    assert_eq!(session.game_state(), GameState::Ended);
    let list = session.end_of_round();
    assert_eq!(list.len(), 2);
    assert!(list.contains(&Disclosure::EndOfRoundReveal(
        FieldIndex((0, 0, 0)),
        Contains::Empty { adjacent_mines: 1 },
        false
    )));
    assert!(list.contains(&Disclosure::EndOfRoundReveal(FieldIndex((0, 0, 1)), Contains::Mine, true)));
    assert!(session.end_of_round().is_empty());
    assert_eq!(session.game_state(), GameState::Ended);
    assert_eq!(session.game_result(), GameResult::Failure);
}

#[test]
fn the_first_move_is_safe_under_safe_and_clear() {
    for policy in [Safety::Safe, Safety::Clear] {
        for _ in 0..40 {
            let settings = FieldSettings { field_size: [3, 3, 3], mine_density: Density::new(4, 5).unwrap() };
            let mut session = Session::new(&settings, &GameSettings { safety: policy }).unwrap();
            let first = FieldIndex((2, 1, 0));
            let list = session.open_cell(first).unwrap();
            assert!(session.minefield().is_populated());
            assert_ne!(list[0], Disclosure::CellRevealed(first, Contains::Mine));
            assert_ne!(session.game_result(), GameResult::Failure);
            if policy == Safety::Clear {
                assert_eq!(list[0], Disclosure::CellRevealed(first, Contains::Empty { adjacent_mines: 0 }));
                assert!(list.len() >= 12);
            }
        }
    }
}

#[test]
fn the_first_move_may_fail_under_random() {
    let settings = FieldSettings { field_size: [2, 2, 2], mine_density: Density::new(1, 1).unwrap() };
    let mut session = Session::new(&settings, &GameSettings { safety: Safety::Random }).unwrap();
    let list = session.open_cell(FieldIndex((0, 0, 0))).unwrap();
    assert_eq!(
        list,
        vec![
            Disclosure::CellRevealed(FieldIndex((0, 0, 0)), Contains::Mine),
            Disclosure::SessionEnded(GameResult::Failure),
        ]
    );
}

#[test]
fn a_crowded_field_is_won_by_the_first_move() {
    let settings = FieldSettings { field_size: [3, 3, 3], mine_density: Density::new(1, 1).unwrap() };
    let mut session = Session::new(&settings, &GameSettings { safety: Safety::Safe }).unwrap();
    let first = FieldIndex((1, 1, 1));
    let list = session.open_cell(first).unwrap();
    assert_eq!(
        list,
        vec![
            Disclosure::CellRevealed(first, Contains::Empty { adjacent_mines: 26 }),
            Disclosure::SessionEnded(GameResult::Victory),
        ]
    );
}

#[test]
fn blocks_are_bound_to_cells() {
    let mut session = session_with([2, 2, 2], &[(1, 1, 1)]);
    assert!(session.bind_block(FieldIndex((0, 1, 1)), 42));
    assert!(!session.bind_block(FieldIndex((0, 1, 2)), 43));
    assert_eq!(session.minefield().get(FieldIndex((0, 1, 1))).unwrap().block, Some(42));
    assert_eq!(session.minefield().get(FieldIndex((0, 0, 0))).unwrap().block, None);
    assert_eq!(session.game_state(), GameState::Start);
}

#[test]
fn states_say_whether_moves_are_allowed() {
    assert!(GameState::Start.playable());
    assert!(GameState::Playing.playable());
    assert!(!GameState::Ended.playable());
    assert_eq!(GameState::default(), GameState::Ended);
    assert_eq!(GameResult::default(), GameResult::Unfinished);
}
