use amine::account::{authorized_user, token_from_header, best_times, difficulty_name, is_new_best, match_credits, registration_error, SessionTable};
use amine::board::{Board, BoardConfig, Difficulty, GameStatus};
use amine::bots::{bot_move, cell_slot, is_active, is_readable, observe, Heard};
use amine::lobby::RoomManager;
use amine::protocol::{CellSnapshot, ServerMessage};
use amine::room::Room;
use amine::session::{apply_move, coord_debug, mines_remaining, play_bot_game, MoveKind};
use amine::solver::BotTier;
use amine::topology::Coord3D;
use amine::view::render_visible_grid_json;

#[test]
fn grid_rows_show_the_visible_state() {
    let mut board = Board::new(BoardConfig::easy());
    let grid = render_visible_grid_json(&board, false);
    assert_eq!(grid.len(), 3);
    assert_eq!(grid[1].layer_z, 1);
    assert_eq!(grid[0].rows.len(), 9);
    assert_eq!(grid[0].rows[0], "?????????");
    board.toggle_flag(Coord3D::new(0, 0, 0));
    board.reveal_cell(Coord3D::new(4, 4, 1), None, None);
    let grid = render_visible_grid_json(&board, false);
    assert!(grid[0].rows[0].starts_with('F'));
    assert_eq!(grid[1].rows[4].chars().nth(4), Some('.'));
    let shown = render_visible_grid_json(&board, true);
    let stars: usize = shown.iter().flat_map(|s| s.rows.iter()).map(|r| r.matches('*').count()).sum();
    let covered_mines = board.cells.iter().filter(|c| c.is_mine && !c.is_flagged && !c.is_revealed).count();
    assert_eq!(stars, covered_mines);
    for slice in &grid {
        for (y, row) in slice.rows.iter().enumerate() {
            for (x, ch) in row.chars().enumerate() {
                let c = board.get_cell(Coord3D::new(x, y, slice.layer_z));
                if c.is_revealed && !c.is_mine && c.adjacent_mines > 0 && !c.is_flagged {
                    assert_eq!(ch, char::from_digit(c.adjacent_mines as u32, 10).unwrap_or('?'));
                }
            }
        }
    }
}

#[test]
fn registration_rules() {
    assert_eq!(
        registration_error("   ", "secret123").as_deref(),
        Some("Username cannot be empty and password must be at least 4 characters")
    );
    assert!(registration_error("alice", "abc").is_some());
    assert!(registration_error("alice", "abcd").is_none());
    // Length counts bytes: two two-byte characters make four.
    assert!(registration_error("alice", "éé").is_none());
    assert!(registration_error("alice", "é").is_some());
    assert!(registration_error("", "secret").is_some());
}

#[test]
fn personal_best_decisions() {
    assert!(is_new_best(None, 15000));
    assert!(!is_new_best(Some(15000), 18000));
    assert!(is_new_best(Some(15000), 12000));
    assert!(!is_new_best(Some(15000), 15000));
    assert_eq!(difficulty_name(Difficulty::Easy), "Easy");
    assert_eq!(difficulty_name(Difficulty::Custom), "Custom");
    let rows = vec![
        ("Easy".to_string(), 15000),
        ("Custom".to_string(), 100),
        ("Expert".to_string(), 90000),
        ("Easy".to_string(), 12000),
    ];
    assert_eq!(best_times(&rows), (Some(12000), None, Some(90000)));
}

#[test]
fn match_winner_is_credited_once() {
    let scores = vec![("u1".to_string(), 10), ("u2".to_string(), 30)];
    assert_eq!(match_credits(&scores, &Some("u2".to_string())), vec![false, true]);
    assert_eq!(match_credits(&scores, &None), vec![false, false]);
}

#[test]
fn sessions_map_tokens_to_accounts() {
    let mut t = SessionTable::new();
    assert_eq!(t.user_for("tok_x"), None);
    let a = t.open_session("user-a".to_string());
    let b = t.open_session("user-b".to_string());
    assert!(a.starts_with("tok_") && a.len() == 40);
    assert_ne!(a, b);
    assert_eq!(t.user_for(&a), Some("user-a".to_string()));
    assert_eq!(t.user_for(&b), Some("user-b".to_string()));
    t.insert(a.clone(), "user-c".to_string());
    assert_eq!(t.user_for(&a), Some("user-c".to_string()));
    assert_eq!(t.user_for(&b), Some("user-b".to_string()));
}

#[test]
fn moves_report_what_they_did() {
    let mut board = Board::new(BoardConfig::easy());
    let err = apply_move(&mut board, MoveKind::Reveal, Coord3D::new(9, 0, 0), Some(1)).unwrap_err();
    assert_eq!(err, "Coordinate (9,0,0) is outside dimensions 9x9x3");
    let o = apply_move(&mut board, MoveKind::Flag, Coord3D::new(0, 0, 0), None).unwrap();
    assert_eq!(o.label, "FLAG_SET");
    let o = apply_move(&mut board, MoveKind::Flag, Coord3D::new(0, 0, 0), None).unwrap();
    assert_eq!(o.label, "FLAG_REMOVED");
    let o = apply_move(&mut board, MoveKind::Reveal, Coord3D::new(4, 4, 1), Some(5)).unwrap();
    assert!(o.newly_revealed >= 27);
    assert!(!board.get_cell(Coord3D::new(4, 4, 1)).is_mine);
    for n in board.dims.get_neighbors(Coord3D::new(4, 4, 1)) {
        assert!(!board.get_cell(n).is_mine);
    }
    assert_eq!(o.label, format!("REVEALED_{}_CELLS", o.newly_revealed));
    assert_eq!(board.status, GameStatus::Playing);
    let o = apply_move(&mut board, MoveKind::Reveal, Coord3D::new(4, 4, 1), Some(5)).unwrap();
    assert_eq!(o.label, "ALREADY_REVEALED");
    let o = apply_move(&mut board, MoveKind::Flag, Coord3D::new(4, 4, 1), None).unwrap();
    assert_eq!(o.label, "FLAG_FAILED");
    let o = apply_move(&mut board, MoveKind::Chord, Coord3D::new(4, 4, 1), None).unwrap();
    assert_eq!(o.label, "CHORD_NO_OP");
    let mine = board.cells.iter().find(|c| c.is_mine).unwrap().coord;
    let o = apply_move(&mut board, MoveKind::Reveal, mine, None).unwrap();
    assert_eq!(o.label, format!("HIT_MINE_AT_Coord3D {{ x: {}, y: {}, z: {} }}", mine.x, mine.y, mine.z));
    assert_eq!(o.label, format!("HIT_MINE_AT_{:?}", mine));
    assert_eq!(coord_debug(Coord3D::new(1, 22, 3)), format!("{:?}", Coord3D::new(1, 22, 3)));
    assert_eq!(mines_remaining(&board), 25);
}

#[test]
fn seeded_reveals_repeat() {
    let mut a = Board::new(BoardConfig::easy());
    let mut b = Board::new(BoardConfig::easy());
    apply_move(&mut a, MoveKind::Reveal, Coord3D::new(1, 1, 0), Some(42)).unwrap();
    apply_move(&mut b, MoveKind::Reveal, Coord3D::new(1, 1, 0), Some(42)).unwrap();
    let ma: Vec<bool> = a.cells.iter().map(|c| c.is_mine).collect();
    let mb: Vec<bool> = b.cells.iter().map(|c| c.is_mine).collect();
    assert_eq!(ma, mb);
}

#[test]
fn bot_games_end_within_the_move_limit() {
    let (board, moves) = play_bot_game(BoardConfig::easy(), BotTier::Master, Some(100), 2000);
    assert!(moves <= 2000);
    assert!(board.is_generated);
    assert!(board.status != GameStatus::Waiting);
    let (_, few) = play_bot_game(BoardConfig::easy(), BotTier::Novice, Some(3), 2);
    assert!(few <= 2);
}

#[test]
fn cell_slots_follow_the_index_formula() {
    assert_eq!(cell_slot(Coord3D::new(3, 2, 1), 9, 9, 243), Some(3 + 18 + 81));
    assert_eq!(cell_slot(Coord3D::new(0, 0, 3), 9, 9, 243), None);
    assert_eq!(cell_slot(Coord3D::new(usize::MAX, usize::MAX, usize::MAX), usize::MAX, usize::MAX, 10), None);
}

fn started_room() -> Room {
    let mut r = Room::new("R1".to_string(), "n".to_string(), "h".to_string(), BoardConfig::easy());
    r.add_player("h", "Host", None);
    r.add_bot(BotTier::Master, None);
    r.start_game("h").unwrap();
    r
}

#[test]
fn bots_follow_the_room_messages() {
    let mut r = started_room();
    let bot_id = r.players.iter().find(|p| p.is_bot).unwrap().id.clone();
    let mut last = None;
    // Nothing is known before a full state arrives.
    let flag = ServerMessage::PlayerFlagToggled { coord: Coord3D::new(0, 0, 0), is_flagged: true, player_id: "h".into() };
    assert!(matches!(observe(&mut last, flag.clone(), &bot_id), Heard::Unchanged));
    assert!(last.is_none());
    assert!(matches!(observe(&mut last, ServerMessage::RoomState(r.snapshot()), &bot_id), Heard::Updated));
    assert!(matches!(observe(&mut last, flag, &bot_id), Heard::Updated));
    assert!(last.as_ref().unwrap().cells[0].is_flagged);
    let events = r.handle_reveal("h", Coord3D::new(4, 4, 1));
    for e in events {
        if let amine::room::RoomEvent::Broadcast(m) = e {
            observe(&mut last, m, &bot_id);
        }
    }
    let snap = last.clone().unwrap();
    assert!(snap.cells[Coord3D::new(4, 4, 1).to_index(9, 9)].is_revealed);
    assert!(is_active(&snap, &bot_id));
    assert!(!is_active(&snap, "nobody"));
    let dims = snap.config.dims();
    assert!(is_readable(dims, &snap.cells));
    let mut broken: Vec<CellSnapshot> = snap.cells.clone();
    broken.swap(0, 1);
    assert!(!is_readable(dims, &broken));
    assert!(bot_move(&snap, &bot_id, BotTier::Master).is_some());
    assert!(bot_move(&snap, "nobody", BotTier::Master).is_none());
    assert!(matches!(
        observe(&mut last, ServerMessage::GameStarted { config: BoardConfig::easy() }, &bot_id),
        Heard::Refresh
    ));
    observe(&mut last, ServerMessage::GameOver { winners: vec![], final_scores: vec![] }, &bot_id);
    assert_eq!(last.unwrap().status, GameStatus::Won);
}

#[test]
fn directory_opens_lists_and_closes_rooms() {
    let mut d = RoomManager::new();
    let a = d.create_room("first".into(), "h1".into(), BoardConfig::easy());
    let b = d.create_room("second".into(), "h2".into(), BoardConfig::medium());
    assert_eq!(a.len(), 6);
    assert_eq!(d.get_room(&a).unwrap().name, "first");
    assert!(d.get_room("nope!").is_none());
    let list = d.list_rooms();
    assert_eq!(list.len(), d.rooms.len());
    assert!(list.iter().any(|s| s.id == b && s.name == "second" && s.player_count == 0));
    let i = d.position(&a).unwrap();
    d.rooms[i].add_player("h1", "Host", None);
    d.clean_empty_rooms();
    assert_eq!(d.rooms.len(), 1);
    assert_eq!(d.rooms[0].id, a);
}

#[test]
fn authorization_headers_carry_tokens() {
    assert_eq!(token_from_header("Bearer abc "), "abc");
    assert_eq!(token_from_header("  tok_1\t"), "tok_1");
    assert_eq!(token_from_header("Bearer"), "Bearer");
    assert_eq!(token_from_header("bearer x"), "bearer x");
    assert_eq!(token_from_header("Bearer   "), "");
    let mut t = SessionTable::new();
    let tok = t.open_session("acct".to_string());
    assert_eq!(authorized_user(&t, None), Err((401, "Missing auth token".to_string())));
    assert_eq!(authorized_user(&t, Some("Bearer nope")), Err((401, "Invalid or expired session".to_string())));
    assert_eq!(authorized_user(&t, Some(&format!("Bearer {tok}"))), Ok("acct".to_string()));
    assert_eq!(authorized_user(&t, Some(&tok)), Ok("acct".to_string()));
}
