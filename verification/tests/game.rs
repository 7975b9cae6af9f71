use quoridor_core::board_square::FieldIndexSquare;
use quoridor_core::board_square::MoveError;
use quoridor_core::board_square::WallPlaced;
use quoridor_core::board_square::WallPlacmentError;
use quoridor_core::player::TwoPlayerIndices;
use quoridor_core::player_data::PlayerDataTrait;
use quoridor_core::GameData;

fn cell(column: usize, row: usize) -> FieldIndexSquare {
    FieldIndexSquare { column, row }
}

#[test]
fn fresh_game_state() {
    let game = GameData::new();
    assert_eq!(game.get_current_player(), TwoPlayerIndices::White);
    assert!(game.wall_index_selected.is_none());
    let log = game.get_logbook();
    assert_eq!(log.len(), 1);
    assert_eq!(log[0], "Game started");
    assert_eq!(
        game.board.get_current_field(TwoPlayerIndices::White),
        cell(2, 4)
    );
    assert_eq!(
        game.board.get_current_field(TwoPlayerIndices::Black),
        cell(2, 0)
    );
}

#[test]
fn move_by_field_passes_the_turn() {
    let mut game = GameData::new();
    let error = game.move_player_by_field(cell(2, 3));
    assert!(error.is_none());
    assert_eq!(game.get_current_player(), TwoPlayerIndices::Black);
    assert_eq!(
        game.board.get_current_field(TwoPlayerIndices::White),
        cell(2, 3)
    );
}

#[test]
fn move_by_field_rejects_distant_cells() {
    let mut game = GameData::new();
    let error = game.move_player_by_field(cell(0, 0));
    assert!(matches!(error, Some(MoveError::FieldsNotAdjacent)));
    assert_eq!(game.get_current_player(), TwoPlayerIndices::White);
    let same_cell = game.move_player_by_field(cell(2, 4));
    assert!(matches!(same_cell, Some(MoveError::FieldsNotAdjacent)));
}

#[test]
fn selecting_two_adjacent_edges_places_a_wall() {
    let mut game = GameData::new();
    let first = game.select_wall_index(2, 3, false);
    assert!(first.is_none());
    assert_eq!(game.wall_index_selected, Some((2, 3, false)));
    let second = game.select_wall_index(3, 3, false);
    assert!(second.is_none());
    assert!(game.wall_index_selected.is_none());
    assert_eq!(game.get_current_player(), TwoPlayerIndices::Black);
    assert_eq!(
        game.board.get_player_data(TwoPlayerIndices::White).get_wall_count(),
        4
    );
}

#[test]
fn mismatched_or_distant_selections_are_not_connected() {
    let mut game = GameData::new();
    assert!(game.select_wall_index(0, 0, true).is_none());
    let mismatch = game.select_wall_index(0, 1, false);
    assert!(matches!(mismatch, Some(WallPlacmentError::NotConnected)));
    assert_eq!(game.get_current_player(), TwoPlayerIndices::White);
    assert!(game.select_wall_index(0, 0, true).is_none());
    let distant = game.select_wall_index(2, 0, true);
    assert!(matches!(distant, Some(WallPlacmentError::NotConnected)));
}

#[test]
fn stacked_vertical_selections_place_a_vertical_wall() {
    let mut game = GameData::new();
    assert!(game.select_wall_index(1, 1, true).is_none());
    let second = game.select_wall_index(1, 2, true);
    assert!(second.is_none());
    assert_eq!(game.get_current_player(), TwoPlayerIndices::Black);
    assert_eq!(
        game.board.wall_lookup_unsafe(cell(1, 1), true),
        WallPlaced::IsWall
    );
    assert_eq!(
        game.board.wall_lookup_unsafe(cell(1, 2), true),
        WallPlaced::IsWall
    );
}

#[test]
fn logbook_appends_in_order() {
    let mut game = GameData::new();
    game.append_logbook("first line".to_string());
    game.append_logbook("second line".to_string());
    let log = game.get_logbook();
    assert_eq!(log.len(), 3);
    assert_eq!(log[1], "first line");
    assert_eq!(log[2], "second line");
}

#[test]
fn error_messages_are_stable() {
    assert_eq!(MoveError::BoardBoundary.to_string(), "board boundary reached");
    assert_eq!(MoveError::Wall.to_string(), "wall is blocking");
    assert_eq!(
        MoveError::FieldsNotAdjacent.to_string(),
        "fields are not adjacent"
    );
    assert_eq!(
        WallPlacmentError::BoardBoundary.to_string(),
        "BoardBoundary"
    );
    assert_eq!(
        WallPlacmentError::WallAlreadyPlaced.to_string(),
        "WallAlreadyPlaced"
    );
    assert_eq!(WallPlacmentError::NoMoreWalls.to_string(), "NoMoreWalls");
    assert_eq!(
        WallPlacmentError::PlayerBlocked.to_string(),
        "PlayerBlocked"
    );
    assert_eq!(
        WallPlacmentError::WallsAlreadyCrossing.to_string(),
        "WallsAlreadyCrossing"
    );
    assert_eq!(WallPlacmentError::NotConnected.to_string(), "NotConnected");
}
