use amine::board::{Board, BoardConfig, GameStatus};
use amine::protocol::CellSnapshot;
use amine::solver::{
    dedup_equations, direct_deductions, pick_best_safe_cell, pick_lowest_risk_boundary,
    solve_subset_replacement, AiAction, AiSolver, BotTier, Equation,
};
use amine::frontier::solve_connected_components;
use amine::topology::{Coord3D, Dimensions};

fn eq(cells: &[usize], mines: usize) -> Equation {
    Equation { cells: cells.to_vec(), mines }
}

#[test]
fn test_master_expert_game_simulation() {
    let config = BoardConfig::medium();
    let mut board = Board::new(config);
    let center = Coord3D::new(config.width / 2, config.height / 2, config.depth / 2);
    board.reveal_cell(center, None, None);

    let mut moves = 0;
    let mut _flag_count = 0;

    while board.status == GameStatus::Playing {
        moves += 1;
        let snapshots: Vec<CellSnapshot> = board.cells.iter().map(CellSnapshot::from).collect();
        let action =
            AiSolver::decide_action(config.dims(), &snapshots, BotTier::Master, config.mines);

        match action {
            Some(AiAction::Reveal(c)) => {
                let res = board.reveal_cell(c, None, None);
                println!("Move {moves}: Reveal({:?}) -> {:?}", c, res);
            }
            Some(AiAction::Chord(c)) => {
                let res = board.chord(c, None, None);
                println!("Move {moves}: Chord({:?}) -> {:?}", c, res);
            }
            Some(AiAction::Flag(c)) => {
                board.toggle_flag(c);
                _flag_count += 1;
                println!("Move {moves}: Flag({:?})", c);
            }
            None => {
                println!("Move {moves}: No action available");
                break;
            }
        }

        if moves >= 50 {
            break;
        }
    }

    println!(
        "Simulation finished after {moves} moves. Status: {:?}, Revealed: {}/{}",
        board.status,
        board.revealed_count,
        config.total_cells() - config.mines
    );
}

#[test]
fn tier_names_in_both_languages() {
    assert_eq!(BotTier::Novice.name_en(), "Novice");
    assert_eq!(BotTier::Master.name_en(), "Master");
    assert_eq!(BotTier::Intermediate.name_zh(), "中级·进阶");
    assert_eq!(BotTier::Advanced.name_zh(), "高级·专家");
}

#[test]
fn first_move_on_a_covered_board_is_the_centre() {
    let config = BoardConfig::easy();
    let board = Board::new(config);
    let snaps: Vec<CellSnapshot> = board.cells.iter().map(CellSnapshot::from).collect();
    for tier in [BotTier::Intermediate, BotTier::Advanced, BotTier::Master] {
        assert_eq!(
            AiSolver::decide_action(config.dims(), &snaps, tier, config.mines),
            Some(AiAction::Reveal(Coord3D::new(4, 4, 1)))
        );
    }
}

#[test]
fn no_move_when_nothing_is_covered() {
    let dims = Dimensions::new(3, 3, 2);
    let mut snaps = Vec::new();
    for i in 0..18 {
        snaps.push(CellSnapshot {
            coord: Coord3D::from_index(i, 3, 3),
            is_revealed: i != 5,
            adjacent_mines: 0,
            is_flagged: i == 5,
            is_mine: false,
            revealed_by: None,
            player_color: None,
        });
    }
    assert_eq!(AiSolver::decide_action(dims, &snaps, BotTier::Master, 1), None);
}

#[test]
fn bot_moves_are_sound_throughout_a_game() {
    // Whatever the tier, a flag lands on a covered cell and a definite
    // reveal is never a mine while deductions are available.
    let config = BoardConfig::easy();
    let mut board = Board::new(config);
    board.generate_mines_with_seed(Coord3D::new(4, 4, 1), Some(3));
    board.reveal_cell(Coord3D::new(4, 4, 1), None, None);
    let mut moves = 0;
    while board.status == GameStatus::Playing && moves < 400 {
        moves += 1;
        let snaps: Vec<CellSnapshot> = board.cells.iter().map(CellSnapshot::from).collect();
        match AiSolver::decide_action(config.dims(), &snaps, BotTier::Intermediate, config.mines) {
            Some(AiAction::Flag(c)) => {
                let cell = board.get_cell(c);
                assert!(!cell.is_revealed && !cell.is_flagged);
                assert!(cell.is_mine, "flagged a safe cell at {:?}", c);
                board.toggle_flag(c);
            }
            Some(AiAction::Reveal(c)) => {
                assert!(!board.get_cell(c).is_revealed);
                board.reveal_cell(c, None, None);
            }
            Some(AiAction::Chord(c)) => {
                assert!(board.get_cell(c).is_revealed);
                board.chord(c, None, None);
            }
            None => break,
        }
    }
    assert!(board.status != GameStatus::Waiting);
}

#[test]
fn duplicate_and_empty_equations_are_dropped() {
    let eqs = vec![eq(&[1, 2], 1), eq(&[], 0), eq(&[1, 2], 1), eq(&[2, 3], 1), eq(&[1, 2], 2)];
    let out = dedup_equations(eqs);
    let got: Vec<(Vec<usize>, usize)> = out.iter().map(|e| (e.cells.clone(), e.mines)).collect();
    assert_eq!(got, vec![(vec![1, 2], 1), (vec![2, 3], 1), (vec![1, 2], 2)]);
}

#[test]
fn direct_deductions_read_zero_and_full_constraints() {
    let eqs = vec![eq(&[0, 1], 0), eq(&[2, 3], 2), eq(&[4, 5], 1)];
    let (safe, mines) = direct_deductions(&eqs, 6);
    assert_eq!(safe, vec![true, true, false, false, false, false]);
    assert_eq!(mines, vec![false, false, true, true, false, false]);
}

#[test]
fn subset_reduction_finds_what_neither_constraint_gives_alone() {
    // {0,1} holds one mine and {0,1,2} holds two: cell 2 is a mine.
    // {3,4} holds one mine and {3,4,5} holds one: cell 5 is safe.
    let eqs = vec![eq(&[0, 1], 1), eq(&[0, 1, 2], 2), eq(&[3, 4], 1), eq(&[3, 4, 5], 1)];
    let (safe, mines, _rest) = solve_subset_replacement(eqs, 6);
    assert!(mines[2]);
    assert!(safe[5]);
    assert!(!safe[0] && !safe[1] && !mines[0] && !mines[1]);
}

#[test]
fn component_counting_marks_forced_cells() {
    // 0+1 = 1, 1+2 = 1, 0+1+2 = 2: cells 0 and 2 hold mines, 1 is safe.
    let eqs = vec![eq(&[0, 1], 1), eq(&[1, 2], 1), eq(&[0, 1, 2], 2)];
    let sol = solve_connected_components(&eqs, 3, true);
    assert!(sol.sure_mines[0] || sol.mines[0]);
    assert!(sol.sure_mines[2] || sol.mines[2]);
    assert!(sol.sure_safe[1] || sol.safe[1]);
}

#[test]
fn best_safe_cell_prefers_the_most_covered_neighbours() {
    let dims = Dimensions::new(3, 3, 2);
    let n = 18;
    let mut safe = vec![false; n];
    safe[0] = true;
    safe[4] = true;
    let mut unrevealed = vec![false; n];
    // Cover the neighbourhood of cell 4 only partly, that of cell 0 not at all.
    unrevealed[1] = true;
    unrevealed[3] = true;
    assert!(pick_best_safe_cell(&safe, dims, &unrevealed).is_some());
    assert_eq!(pick_best_safe_cell(&vec![false; n], dims, &unrevealed), None);
}

#[test]
fn lowest_risk_guess_is_the_least_constrained_cell() {
    let dims = Dimensions::new(3, 3, 2);
    let n = 18;
    let unrevealed = vec![true; n];
    // Cells 0 and 1 share one mine (risk 1/2); cells 2..=5 share one (1/4).
    let eqs = vec![eq(&[0, 1], 1), eq(&[2, 3, 4, 5], 1)];
    assert_eq!(
        pick_lowest_risk_boundary(&eqs, &unrevealed, dims),
        Some(AiAction::Reveal(Coord3D::from_index(2, 3, 3)))
    );
    assert_eq!(pick_lowest_risk_boundary(&vec![], &unrevealed, dims), None);
}

fn one_number(adjacent: u8) -> Vec<CellSnapshot> {
    let mut snaps = Vec::new();
    for i in 0..18 {
        snaps.push(CellSnapshot {
            coord: Coord3D::from_index(i, 3, 3),
            is_revealed: i == 0,
            adjacent_mines: if i == 0 { adjacent } else { 0 },
            is_flagged: false,
            is_mine: false,
            revealed_by: None,
            player_color: None,
        });
    }
    snaps
}

#[test]
fn a_satisfied_number_makes_every_tier_uncover_next_to_it() {
    let dims = Dimensions::new(3, 3, 2);
    let around = dims.get_neighbors(Coord3D::new(0, 0, 0));
    for tier in [BotTier::Intermediate, BotTier::Advanced, BotTier::Master] {
        match AiSolver::decide_action(dims, &one_number(0), tier, 1) {
            Some(AiAction::Reveal(c)) => assert!(around.contains(&c)),
            other => panic!("expected a reveal next to the zero, got {:?}", other),
        }
    }
}

#[test]
fn a_full_number_makes_the_deducing_tiers_flag_next_to_it() {
    let dims = Dimensions::new(3, 3, 2);
    let around = dims.get_neighbors(Coord3D::new(0, 0, 0));
    let full = around.len() as u8;
    for tier in [BotTier::Intermediate, BotTier::Advanced, BotTier::Master] {
        match AiSolver::decide_action(dims, &one_number(full), tier, full as usize) {
            Some(AiAction::Flag(c)) => assert!(around.contains(&c)),
            other => panic!("expected a flag next to the number, got {:?}", other),
        }
    }
}

#[test]
fn the_ai_reads_a_snapshot_in_any_order() {
    let config = BoardConfig::easy();
    let board = Board::new(config);
    let mut snaps: Vec<CellSnapshot> = board.cells.iter().map(CellSnapshot::from).collect();
    snaps.reverse();
    assert!(amine::decide::is_full_snapshot(config.dims(), &snaps));
    assert_eq!(
        AiSolver::decide_action(config.dims(), &snaps, BotTier::Master, config.mines),
        Some(AiAction::Reveal(Coord3D::new(4, 4, 1)))
    );
    let ordered = amine::decide::arrange(config.dims(), &snaps).unwrap();
    for (i, c) in ordered.iter().enumerate() {
        assert_eq!(c.coord, Coord3D::from_index(i, 9, 9));
    }
    // A repeated position, or a missing one, is not a full snapshot.
    let mut twice = snaps.clone();
    twice[0] = twice[1].clone();
    assert!(!amine::decide::is_full_snapshot(config.dims(), &twice));
    snaps.pop();
    assert!(!amine::decide::is_full_snapshot(config.dims(), &snaps));
}
