use quoridor_core::board_square::DirectionsSquare;
use quoridor_core::board_square::FieldIndexSquare;
use quoridor_core::board_square::WallCrossing;
use quoridor_core::board_square::WallDirections;
use quoridor_core::board_square::WallPlaced;
use quoridor_core::board_square::WallPlacmentError;
use quoridor_core::player::TwoPlayerIndices;
use quoridor_core::player_data::PlayerDataTrait;
use quoridor_core::square_board::SquareBoard;

fn cell(column: usize, row: usize) -> FieldIndexSquare {
    FieldIndexSquare { column, row }
}

/// Every wall segment and crossing of a five-by-five board, as plain
/// booleans, for exact before/after comparisons.
fn snapshot(board: &SquareBoard) -> (Vec<bool>, Vec<bool>) {
    let mut walls: Vec<bool> = Vec::new();
    // Vertical segments: column 0..4, row 0..5.
    for column in 0..4usize {
        for row in 0..5usize {
            walls.push(board.wall_lookup_unsafe(cell(column, row), true) == WallPlaced::IsWall);
        }
    }
    // Horizontal segments: column 0..5, row 0..4.
    for column in 0..5usize {
        for row in 0..4usize {
            walls.push(board.wall_lookup_unsafe(cell(column, row), false) == WallPlaced::IsWall);
        }
    }
    let mut crossings: Vec<bool> = Vec::new();
    for column in 0..4usize {
        for row in 0..4usize {
            crossings.push(
                board.croosing_lookup_unsafe(cell(column, row)) == WallCrossing::IsWallCrossing,
            );
        }
    }
    (walls, crossings)
}

#[test]
fn wall_below_white_reroutes_both_players() {
    let mut board = SquareBoard::new(5);
    // The unit below White's start: horizontal, lower-left (2, 3).
    let error = board.place_wall(
        TwoPlayerIndices::White,
        cell(2, 4),
        DirectionsSquare::Down,
        WallDirections::Left,
    );
    assert!(error.is_none());
    // Both segments and the crossing of the unit are set.
    assert_eq!(board.wall_lookup_unsafe(cell(2, 3), false), WallPlaced::IsWall);
    assert_eq!(board.wall_lookup_unsafe(cell(3, 3), false), WallPlaced::IsWall);
    assert_eq!(
        board.croosing_lookup_unsafe(cell(2, 3)),
        WallCrossing::IsWallCrossing
    );
    assert_eq!(
        board.croosing_lookup_unsafe(cell(1, 3)),
        WallCrossing::IsEmpty
    );
    // White detours one column to the left: one path, five steps.
    let white = board.get_player_data(TwoPlayerIndices::White).get_shortest_paths();
    assert_eq!(white.len(), 1);
    assert_eq!(white[0].len(), 5);
    // The wall blocks Black's straight route too; every reroute through
    // column one is minimal.  The list comes in discovery order: the later
    // the sidestep, the earlier the path.
    let black = board.get_player_data(TwoPlayerIndices::Black).get_shortest_paths();
    assert_eq!(black.len(), 4);
    for path in black.iter() {
        assert_eq!(path.len(), 5);
    }
    assert_eq!(
        black[0],
        vec![
            (cell(2, 1), DirectionsSquare::Up),
            (cell(2, 2), DirectionsSquare::Up),
            (cell(2, 3), DirectionsSquare::Up),
            (cell(1, 3), DirectionsSquare::Left),
            (cell(1, 4), DirectionsSquare::Up),
        ]
    );
    assert_eq!(
        black[3],
        vec![
            (cell(1, 0), DirectionsSquare::Left),
            (cell(1, 1), DirectionsSquare::Up),
            (cell(1, 2), DirectionsSquare::Up),
            (cell(1, 3), DirectionsSquare::Up),
            (cell(1, 4), DirectionsSquare::Up),
        ]
    );
    // The placing player paid one wall.
    assert_eq!(
        board.get_player_data(TwoPlayerIndices::White).get_wall_count(),
        4
    );
    assert_eq!(
        board.get_player_data(TwoPlayerIndices::Black).get_wall_count(),
        5
    );
}

#[test]
fn repeating_a_placement_fails_and_changes_nothing() {
    let mut board = SquareBoard::new(5);
    let first = board.place_wall(
        TwoPlayerIndices::White,
        cell(2, 4),
        DirectionsSquare::Down,
        WallDirections::Left,
    );
    assert!(first.is_none());
    let before = snapshot(&board);
    let again = board.place_wall(
        TwoPlayerIndices::White,
        cell(2, 4),
        DirectionsSquare::Down,
        WallDirections::Left,
    );
    assert!(matches!(again, Some(WallPlacmentError::WallAlreadyPlaced)));
    assert_eq!(snapshot(&board), before);
    assert_eq!(
        board.get_player_data(TwoPlayerIndices::White).get_wall_count(),
        4
    );
}

#[test]
fn blocking_placement_rolls_back_exactly() {
    let mut board = SquareBoard::new(5);
    // Three horizontal units leave only a dead-end pocket at column four.
    assert!(board
        .place_wall(
            TwoPlayerIndices::White,
            cell(0, 1),
            DirectionsSquare::Up,
            WallDirections::Right,
        )
        .is_none());
    assert!(board
        .place_wall(
            TwoPlayerIndices::White,
            cell(2, 1),
            DirectionsSquare::Up,
            WallDirections::Right,
        )
        .is_none());
    assert!(board
        .place_wall(
            TwoPlayerIndices::White,
            cell(3, 2),
            DirectionsSquare::Up,
            WallDirections::Right,
        )
        .is_none());
    let before = snapshot(&board);
    let white_paths_before = board
        .get_player_data(TwoPlayerIndices::White)
        .get_shortest_paths()
        .clone();
    // The vertical unit that would seal the pocket cuts row zero off.
    let blocked = board.place_wall(
        TwoPlayerIndices::White,
        cell(3, 1),
        DirectionsSquare::Right,
        WallDirections::Left,
    );
    assert!(matches!(blocked, Some(WallPlacmentError::PlayerBlocked)));
    assert_eq!(snapshot(&board), before);
    assert_eq!(
        board
            .get_player_data(TwoPlayerIndices::White)
            .get_shortest_paths(),
        &white_paths_before
    );
    assert_eq!(
        board.get_player_data(TwoPlayerIndices::White).get_wall_count(),
        2
    );
}

#[test]
fn zero_budget_refuses_any_placement() {
    let mut board = SquareBoard::new(5);
    let placements: [(FieldIndexSquare, DirectionsSquare, WallDirections); 5] = [
        (cell(0, 0), DirectionsSquare::Up, WallDirections::Right),
        (cell(2, 0), DirectionsSquare::Up, WallDirections::Right),
        (cell(0, 2), DirectionsSquare::Right, WallDirections::Left),
        (cell(2, 2), DirectionsSquare::Right, WallDirections::Left),
        (cell(3, 3), DirectionsSquare::Right, WallDirections::Left),
    ];
    for &(field, direction, side) in placements.iter() {
        assert!(board
            .place_wall(TwoPlayerIndices::White, field, direction, side)
            .is_none());
    }
    assert_eq!(
        board.get_player_data(TwoPlayerIndices::White).get_wall_count(),
        0
    );
    // Out of budget: any further attempt fails first on the budget,
    // whether or not the position would be legal.
    let legal_spot = board.place_wall(
        TwoPlayerIndices::White,
        cell(1, 3),
        DirectionsSquare::Up,
        WallDirections::Right,
    );
    assert!(matches!(legal_spot, Some(WallPlacmentError::NoMoreWalls)));
    let illegal_spot = board.place_wall(
        TwoPlayerIndices::White,
        cell(4, 4),
        DirectionsSquare::Up,
        WallDirections::Left,
    );
    assert!(matches!(illegal_spot, Some(WallPlacmentError::NoMoreWalls)));
    // The opponent's budget is untouched.
    let black_places = board.place_wall(
        TwoPlayerIndices::Black,
        cell(1, 3),
        DirectionsSquare::Up,
        WallDirections::Right,
    );
    assert!(black_places.is_none());
    assert_eq!(
        board.get_player_data(TwoPlayerIndices::Black).get_wall_count(),
        4
    );
}

#[test]
fn boundary_and_crossing_refusals() {
    let mut board = SquareBoard::new(5);
    let off_board = board.place_wall(
        TwoPlayerIndices::White,
        cell(0, 0),
        DirectionsSquare::Left,
        WallDirections::Left,
    );
    assert!(matches!(off_board, Some(WallPlacmentError::BoardBoundary)));
    let second_off = board.place_wall(
        TwoPlayerIndices::White,
        cell(0, 0),
        DirectionsSquare::Up,
        WallDirections::Left,
    );
    assert!(matches!(second_off, Some(WallPlacmentError::BoardBoundary)));
    // A horizontal unit at the crossing (1, 1), then a vertical one on the
    // same crossing.
    assert!(board
        .place_wall(
            TwoPlayerIndices::White,
            cell(1, 1),
            DirectionsSquare::Up,
            WallDirections::Right,
        )
        .is_none());
    let crossing = board.place_wall(
        TwoPlayerIndices::White,
        cell(1, 1),
        DirectionsSquare::Right,
        WallDirections::Left,
    );
    assert!(matches!(
        crossing,
        Some(WallPlacmentError::WallsAlreadyCrossing)
    ));
}

#[test]
fn wall_blocks_the_move_across_it() {
    let mut board = SquareBoard::new(5);
    assert!(board
        .place_wall(
            TwoPlayerIndices::White,
            cell(2, 4),
            DirectionsSquare::Down,
            WallDirections::Left,
        )
        .is_none());
    let blocked = board.move_player(TwoPlayerIndices::White, DirectionsSquare::Down);
    assert!(matches!(
        blocked,
        Some(quoridor_core::board_square::MoveError::Wall)
    ));
    assert_eq!(board.get_current_field(TwoPlayerIndices::White), cell(2, 4));
    // Stepping around the wall still works.
    assert!(board
        .move_player(TwoPlayerIndices::White, DirectionsSquare::Left)
        .is_none());
    assert_eq!(board.get_current_field(TwoPlayerIndices::White), cell(1, 4));
}
