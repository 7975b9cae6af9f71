use quoridor_core::board_square::DirectionsSquare;
use quoridor_core::board_square::FieldIndexSquare;
use quoridor_core::player::TwoPlayerIndices;
use quoridor_core::player_data::PlayerDataTrait;
use quoridor_core::square_board::SquareBoard;

fn cell(column: usize, row: usize) -> FieldIndexSquare {
    FieldIndexSquare { column, row }
}

#[test]
fn fresh_board_has_one_straight_path_each() {
    let board = SquareBoard::new(5);
    let white = board.get_player_data(TwoPlayerIndices::White).get_shortest_paths();
    assert_eq!(white.len(), 1);
    assert_eq!(
        white[0],
        vec![
            (cell(2, 3), DirectionsSquare::Down),
            (cell(2, 2), DirectionsSquare::Down),
            (cell(2, 1), DirectionsSquare::Down),
            (cell(2, 0), DirectionsSquare::Down),
        ]
    );
    let black = board.get_player_data(TwoPlayerIndices::Black).get_shortest_paths();
    assert_eq!(black.len(), 1);
    assert_eq!(
        black[0],
        vec![
            (cell(2, 1), DirectionsSquare::Up),
            (cell(2, 2), DirectionsSquare::Up),
            (cell(2, 3), DirectionsSquare::Up),
            (cell(2, 4), DirectionsSquare::Up),
        ]
    );
}

#[test]
fn query_is_idempotent_without_mutation() {
    let board = SquareBoard::new(5);
    let first = board.compute_shortest_paths(TwoPlayerIndices::White);
    let second = board.compute_shortest_paths(TwoPlayerIndices::White);
    assert_eq!(first, second);
    let cached_one = board.get_player_data(TwoPlayerIndices::White).get_shortest_paths().clone();
    let cached_two = board.get_player_data(TwoPlayerIndices::White).get_shortest_paths().clone();
    assert_eq!(cached_one, cached_two);
    assert_eq!(&first, &cached_one);
}

#[test]
fn move_one_step_shortens_the_cache() {
    let mut board = SquareBoard::new(5);
    let error = board.move_player(TwoPlayerIndices::White, DirectionsSquare::Down);
    assert!(error.is_none());
    assert_eq!(
        board.get_current_field(TwoPlayerIndices::White),
        cell(2, 3)
    );
    let white = board.get_player_data(TwoPlayerIndices::White).get_shortest_paths();
    assert_eq!(white.len(), 1);
    assert_eq!(white[0].len(), 3);
    // The opponent's cache keeps its length-four path: their graph did not
    // change.
    let black = board.get_player_data(TwoPlayerIndices::Black).get_shortest_paths();
    assert_eq!(black.len(), 1);
    assert_eq!(black[0].len(), 4);
}

#[test]
fn moving_off_the_board_is_refused() {
    let mut board = SquareBoard::new(5);
    let error = board.move_player(TwoPlayerIndices::White, DirectionsSquare::Up);
    assert!(matches!(
        error,
        Some(quoridor_core::board_square::MoveError::BoardBoundary)
    ));
    assert_eq!(
        board.get_current_field(TwoPlayerIndices::White),
        cell(2, 4)
    );
}

#[test]
fn center_start_sees_every_shortest_route() {
    // From the middle of a three-by-three board every two-step descent is
    // found: straight down is one step, so the one-step path is alone.
    let mut board = SquareBoard::new(3);
    let error = board.move_player(TwoPlayerIndices::White, DirectionsSquare::Down);
    assert!(error.is_none());
    assert_eq!(
        board.get_current_field(TwoPlayerIndices::White),
        cell(1, 1)
    );
    let white = board.get_player_data(TwoPlayerIndices::White).get_shortest_paths();
    assert_eq!(white.len(), 1);
    assert_eq!(white[0], vec![(cell(1, 0), DirectionsSquare::Down)]);
}
