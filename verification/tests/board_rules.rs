use amine::board::{Board, BoardConfig, Difficulty, GameStatus, RevealResult};
use amine::topology::Coord3D;

#[test]
fn test_first_click_safety_guarantee() {
    let config = BoardConfig::easy();
    let mut board = Board::new(config);
    let first_click_coord = Coord3D::new(4, 4, 1);

    let result = board.reveal_cell(first_click_coord, Some("test_user".into()), None);

    assert!(board.is_generated);
    assert_eq!(board.get_cell(first_click_coord).adjacent_mines, 0);
    assert!(!board.get_cell(first_click_coord).is_mine);

    for neighbor in board.dims.get_neighbors(first_click_coord) {
        assert!(
            !board.get_cell(neighbor).is_mine,
            "Neighbor {:?} was incorrectly placed with a mine!",
            neighbor
        );
    }

    match result {
        RevealResult::FirstClickGenerated { revealed } => {
            assert!(
                revealed.len() >= 27,
                "Expected >= 27 revealed cells, got {}",
                revealed.len()
            );
        }
        _ => panic!("Expected FirstClickGenerated result"),
    }
}

#[test]
fn test_custom_profile_density_validation() {
    assert!(BoardConfig::custom(10, 10, 3, 50).is_ok());
    assert!(BoardConfig::custom(10, 10, 3, 190).is_err());
    assert!(BoardConfig::custom(3, 3, 3, 1).is_err());
}

#[test]
fn presets_have_their_documented_sizes() {
    let e = BoardConfig::easy();
    assert_eq!((e.width, e.height, e.depth, e.mines), (9, 9, 3, 25));
    assert_eq!(e.difficulty, Difficulty::Easy);
    let m = BoardConfig::medium();
    assert_eq!((m.width, m.height, m.depth, m.mines), (16, 16, 4, 160));
    let x = BoardConfig::expert();
    assert_eq!((x.width, x.height, x.depth, x.mines), (30, 16, 6, 580));
    assert_eq!(e.total_cells(), 243);
    assert_eq!(e.dims().total_cells(), 243);
    assert_eq!(e.dimensions().width, 9);
}

#[test]
fn custom_errors_name_the_rule_broken() {
    assert_eq!(
        BoardConfig::custom(2, 9, 3, 5).unwrap_err(),
        "Dimensions must be within 4-60 x 4-40 x 1-16"
    );
    assert_eq!(
        BoardConfig::custom(61, 10, 3, 10).unwrap_err(),
        "Dimensions must be within 4-60 x 4-40 x 1-16"
    );
    assert_eq!(
        BoardConfig::custom(10, 41, 3, 10).unwrap_err(),
        "Dimensions must be within 4-60 x 4-40 x 1-16"
    );
    assert_eq!(
        BoardConfig::custom(10, 10, 17, 10).unwrap_err(),
        "Dimensions must be within 4-60 x 4-40 x 1-16"
    );
    assert_eq!(
        BoardConfig::custom(9, 9, 0, 5).unwrap_err(),
        "Dimensions must be within 4-60 x 4-40 x 1-16"
    );
    assert_eq!(
        BoardConfig::custom(9, 9, 3, 0).unwrap_err(),
        "Mine count must be greater than 0"
    );
    // 300 cells: at most 60% (180) and at least 27 cells free (273): 180.
    assert_eq!(
        BoardConfig::custom(10, 10, 3, 181).unwrap_err(),
        "Mine count exceeds maximum allowable limit (180)"
    );
    let ok = BoardConfig::custom(10, 10, 3, 180).unwrap();
    assert_eq!(ok.difficulty, Difficulty::Custom);
    assert_eq!(ok.mines, 180);
    // A single layer is a custom board too.
    let flat = BoardConfig::custom(9, 9, 1, 5).unwrap();
    assert_eq!((flat.width, flat.height, flat.depth, flat.mines), (9, 9, 1, 5));
    // The largest board.
    assert!(BoardConfig::custom(60, 40, 16, 5000).is_ok());
    // 27 cells at most 4 x 4 x 1 = 16: no room beside a first-click neighbourhood.
    assert_eq!(
        BoardConfig::custom(4, 4, 1, 1).unwrap_err(),
        "Mine count exceeds maximum allowable limit (0)"
    );
}

#[test]
fn config_hash_joins_the_four_numbers() {
    assert_eq!(BoardConfig::easy().config_hash(), "9-9-3-25");
    assert_eq!(BoardConfig::custom(12, 10, 4, 77).unwrap().config_hash(), "12-10-4-77");
}

#[test]
fn fresh_board_is_covered_and_waiting() {
    let board = Board::new(BoardConfig::easy());
    assert_eq!(board.cells.len(), 243);
    assert_eq!(board.status, GameStatus::Waiting);
    assert!(!board.is_generated);
    assert_eq!(board.revealed_count, 0);
    assert_eq!(board.flag_count, 0);
    for (i, c) in board.cells.iter().enumerate() {
        assert_eq!(c.coord, Coord3D::from_index(i, 9, 9));
        assert!(!c.is_mine && !c.is_revealed && !c.is_flagged);
    }
}

#[test]
fn seeded_generation_places_exact_mine_count_away_from_the_click() {
    let mut board = Board::new(BoardConfig::easy());
    let centre = Coord3D::new(4, 4, 1);
    board.generate_mines_with_seed(centre, Some(7));
    assert!(board.is_generated);
    assert_eq!(board.status, GameStatus::Playing);
    let mines = board.cells.iter().filter(|c| c.is_mine).count();
    assert_eq!(mines, 25);
    assert!(!board.get_cell(centre).is_mine);
    for n in board.dims.get_neighbors(centre) {
        assert!(!board.get_cell(n).is_mine);
    }
    // Every count is the number of mined neighbours.
    for c in &board.cells {
        let k = board.dims.get_neighbors(c.coord).iter().filter(|n| board.get_cell(**n).is_mine).count();
        assert_eq!(c.adjacent_mines as usize, k);
    }
    // The same seed gives the same layout.
    let mut again = Board::new(BoardConfig::easy());
    again.generate_mines_with_seed(centre, Some(7));
    let a: Vec<bool> = board.cells.iter().map(|c| c.is_mine).collect();
    let b: Vec<bool> = again.cells.iter().map(|c| c.is_mine).collect();
    assert_eq!(a, b);
}

#[test]
fn flags_toggle_and_block_reveals() {
    let mut board = Board::new(BoardConfig::easy());
    let c = Coord3D::new(0, 0, 0);
    assert!(board.toggle_flag(c));
    assert!(board.get_cell(c).is_flagged);
    assert_eq!(board.flag_count, 1);
    assert!(matches!(board.reveal_cell(c, None, None), RevealResult::Flagged));
    assert!(board.toggle_flag(c));
    assert!(!board.get_cell(c).is_flagged);
    assert_eq!(board.flag_count, 0);
    assert!(!board.toggle_flag(Coord3D::new(9, 0, 0)));
}

#[test]
fn reveal_outside_the_board_does_nothing() {
    let mut board = Board::new(BoardConfig::easy());
    assert!(matches!(board.reveal_cell(Coord3D::new(0, 0, 3), None, None), RevealResult::NoOp));
    assert!(!board.is_generated);
}

#[test]
fn hitting_a_mine_loses_and_shows_all_mines() {
    let mut board = Board::new(BoardConfig::easy());
    let centre = Coord3D::new(4, 4, 1);
    board.reveal_cell(centre, None, None);
    assert_eq!(board.status, GameStatus::Playing);
    assert!(matches!(board.reveal_cell(centre, None, None), RevealResult::AlreadyRevealed));
    let mine = board.cells.iter().find(|c| c.is_mine && !c.is_flagged).unwrap().coord;
    match board.reveal_cell(mine, Some("p".into()), None) {
        RevealResult::HitMine { hit_coord, all_mines, revealed_by } => {
            assert_eq!(hit_coord, mine);
            assert_eq!(all_mines.len(), 25);
            assert_eq!(revealed_by, Some("p".to_string()));
        }
        other => panic!("expected a mine, got {:?}", other),
    }
    assert!(board.is_lost());
    assert!(!board.is_won());
    assert!(board.cells.iter().filter(|c| c.is_mine).all(|c| c.is_revealed));
    // Nothing moves once the game is over.
    assert!(matches!(board.reveal_cell(Coord3D::new(0, 0, 0), None, None), RevealResult::NoOp));
    assert!(!board.toggle_flag(Coord3D::new(0, 0, 0)));
}

#[test]
fn revealing_every_safe_cell_wins() {
    let mut board = Board::new(BoardConfig::easy());
    board.reveal_cell(Coord3D::new(4, 4, 1), None, None);
    let safe: Vec<Coord3D> = board.cells.iter().filter(|c| !c.is_mine).map(|c| c.coord).collect();
    for c in safe {
        board.reveal_cell(c, None, None);
    }
    assert!(board.is_won());
    assert_eq!(board.revealed_count, 243 - 25);
    assert!(board.cells.iter().filter(|c| c.is_mine).all(|c| !c.is_revealed));
}

#[test]
fn chord_opens_the_unflagged_neighbours_of_a_satisfied_number() {
    let mut board = Board::new(BoardConfig::easy());
    board.generate_mines_with_seed(Coord3D::new(4, 4, 1), Some(11));
    board.reveal_cell(Coord3D::new(4, 4, 1), None, None);
    // Find an uncovered number, flag its mines, and chord it.
    let target = board
        .cells
        .iter()
        .find(|c| c.is_revealed && c.adjacent_mines > 0)
        .map(|c| c.coord)
        .unwrap();
    let mines: Vec<Coord3D> = board
        .dims
        .get_neighbors(target)
        .into_iter()
        .filter(|n| board.get_cell(*n).is_mine)
        .collect();
    // Without flags the chord does nothing.
    assert!(matches!(board.chord(target, None, None), RevealResult::NoOp));
    for m in &mines {
        board.toggle_flag(*m);
    }
    let before = board.revealed_count;
    match board.chord(target, None, None) {
        RevealResult::Success { revealed } => assert_eq!(board.revealed_count, before + revealed.len()),
        other => panic!("expected success, got {:?}", other),
    }
    for n in board.dims.get_neighbors(target) {
        let c = board.get_cell(n);
        assert!(c.is_revealed || c.is_flagged);
    }
}

#[test]
fn get_cell_mut_reaches_the_indexed_cell() {
    let mut board = Board::new(BoardConfig::easy());
    let c = Coord3D::new(2, 3, 1);
    board.get_cell_mut(c).player_color = Some("#fff".to_string());
    assert_eq!(board.cells[c.to_index(9, 9)].player_color, Some("#fff".to_string()));
}

#[test]
fn mines_go_on_the_first_places_of_the_order() {
    let mut cells = Board::new(BoardConfig::easy()).cells;
    amine::board::lay_mines(&mut cells, &vec![5, 3, 7], 2);
    assert!(cells[5].is_mine);
    assert!(cells[3].is_mine);
    assert!(!cells[7].is_mine);
    assert_eq!(cells.iter().filter(|c| c.is_mine).count(), 2);
}

#[test]
fn a_reveal_reports_the_clicked_cell_first() {
    let mut board = Board::new(BoardConfig::easy());
    let c = Coord3D::new(4, 4, 1);
    match board.reveal_cell(c, None, None) {
        RevealResult::FirstClickGenerated { revealed } => assert_eq!(revealed[0].coord, c),
        _ => panic!("Expected FirstClickGenerated result"),
    }
}

#[test]
fn consistency_check_accepts_played_boards_and_refuses_tampered_ones() {
    let mut board = Board::new(BoardConfig::easy());
    assert!(board.is_consistent());
    board.reveal_cell(Coord3D::new(4, 4, 1), None, None);
    assert!(board.is_consistent());
    let mut wrong_count = board.clone();
    wrong_count.revealed_count += 1;
    assert!(!wrong_count.is_consistent());
    let mut wrong_number = board.clone();
    let i = wrong_number.cells.iter().position(|c| !c.is_mine).unwrap();
    wrong_number.cells[i].adjacent_mines = 27;
    assert!(!wrong_number.is_consistent());
    let mut wrong_status = board.clone();
    wrong_status.status = GameStatus::Waiting;
    assert!(!wrong_status.is_consistent());
}
