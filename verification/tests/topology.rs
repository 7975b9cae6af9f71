use quoridor_core::board_square::DirectionsSquare;
use quoridor_core::board_square::DirectionsTrait;
use quoridor_core::board_square::FieldIndexSquare;
use quoridor_core::player::PlayerIndexTrait;
use quoridor_core::player::TwoPlayerIndices;
use quoridor_core::square_board::SquareBoard;

fn at_edge(size: usize, cell: FieldIndexSquare, direction: DirectionsSquare) -> bool {
    match direction {
        DirectionsSquare::Right => cell.column == size - 1,
        DirectionsSquare::Left => cell.column == 0,
        DirectionsSquare::Up => cell.row == size - 1,
        DirectionsSquare::Down => cell.row == 0,
    }
}

#[test]
fn neighbor_is_none_exactly_at_the_edge() {
    for &size in &[3usize, 4, 5, 9] {
        let board = SquareBoard::new(size);
        for column in 0..size {
            for row in 0..size {
                let cell = FieldIndexSquare { column, row };
                for &direction in &[
                    DirectionsSquare::Up,
                    DirectionsSquare::Down,
                    DirectionsSquare::Left,
                    DirectionsSquare::Right,
                ] {
                    let next = board.get_field_in_direction(cell, direction);
                    assert_eq!(next.is_none(), at_edge(size, cell, direction));
                    if let Some((neighbor, returned_direction)) = next {
                        assert_eq!(returned_direction, direction);
                        let expected = match direction {
                            DirectionsSquare::Up => FieldIndexSquare { column, row: row + 1 },
                            DirectionsSquare::Down => FieldIndexSquare { column, row: row - 1 },
                            DirectionsSquare::Left => FieldIndexSquare { column: column - 1, row },
                            DirectionsSquare::Right => FieldIndexSquare { column: column + 1, row },
                        };
                        assert_eq!(neighbor, expected);
                    }
                }
            }
        }
    }
}

#[test]
fn surrounding_fields_of_corner_and_center() {
    let board = SquareBoard::new(5);
    let corner = board.get_surrounding_fields(FieldIndexSquare { column: 0, row: 0 });
    assert_eq!(
        corner,
        vec![
            (FieldIndexSquare { column: 0, row: 1 }, DirectionsSquare::Up),
            (FieldIndexSquare { column: 1, row: 0 }, DirectionsSquare::Right),
        ]
    );
    let center = board.get_surrounding_fields(FieldIndexSquare { column: 2, row: 2 });
    assert_eq!(center.len(), 4);
    let open = board.get_surrounding_possible_fields(FieldIndexSquare { column: 2, row: 2 });
    assert_eq!(center, open);
}

#[test]
fn directions_array_is_stable() {
    let dirs = DirectionsSquare::get_directions_array();
    assert_eq!(
        dirs,
        vec![
            DirectionsSquare::Up,
            DirectionsSquare::Down,
            DirectionsSquare::Left,
            DirectionsSquare::Right,
        ]
    );
}

#[test]
fn player_index_round_trip() {
    assert_eq!(
        TwoPlayerIndices::White.next_player(),
        TwoPlayerIndices::Black
    );
    assert_eq!(
        TwoPlayerIndices::Black.next_player(),
        TwoPlayerIndices::White
    );
    assert_eq!(TwoPlayerIndices::White.to_string(), "WHITE");
    assert_eq!(TwoPlayerIndices::Black.to_string(), "BLACK");
    assert_eq!(TwoPlayerIndices::White.get_color_as_string(), "White");
    assert_eq!(TwoPlayerIndices::Black.get_color_as_string(), "Black");
    let players = TwoPlayerIndices::get_player_index_array();
    assert_eq!(
        players,
        vec![TwoPlayerIndices::White, TwoPlayerIndices::Black]
    );
}

#[test]
fn is_final_field_is_the_baseline() {
    let board = SquareBoard::new(5);
    for column in 0..5usize {
        assert!(board.is_final_field(
            FieldIndexSquare { column, row: 0 },
            TwoPlayerIndices::White
        ));
        assert!(board.is_final_field(
            FieldIndexSquare { column, row: 4 },
            TwoPlayerIndices::Black
        ));
        assert!(!board.is_final_field(
            FieldIndexSquare { column, row: 4 },
            TwoPlayerIndices::White
        ));
        assert!(!board.is_final_field(
            FieldIndexSquare { column, row: 0 },
            TwoPlayerIndices::Black
        ));
    }
}
