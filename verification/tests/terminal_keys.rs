use amine::board::{BoardConfig, Difficulty, GameStatus};
use amine::topology::Coord3D;
use amine::tui::{TuiAction, TuiKey, TuiMode, TuiState};

#[test]
fn terminal_starts_on_a_medium_board_at_its_centre() {
    let s = TuiState::new();
    assert_eq!(s.config.difficulty, Difficulty::Medium);
    assert_eq!(s.cursor, Coord3D::new(8, 8, 2));
    assert_eq!(s.layer, 2);
    assert_eq!(s.mode, TuiMode::SinglePlayer);
    assert_eq!(s.server_port, 3000);
}

#[test]
fn cursor_and_layer_stay_on_the_board() {
    let mut s = TuiState::new();
    for _ in 0..20 {
        s.tui_step(TuiKey::Left);
        s.tui_step(TuiKey::Up);
        s.tui_step(TuiKey::PageUp);
    }
    assert_eq!(s.cursor, Coord3D::new(0, 0, 0));
    assert_eq!(s.layer, 0);
    for _ in 0..20 {
        s.tui_step(TuiKey::Char('d'));
        s.tui_step(TuiKey::Char('s'));
        s.tui_step(TuiKey::Char(']'));
    }
    assert_eq!(s.cursor, Coord3D::new(15, 15, 3));
    assert_eq!(s.layer, 3);
}

#[test]
fn enter_reveals_then_chords_the_cell_under_the_cursor() {
    let mut s = TuiState::new();
    let c = s.cursor;
    assert_eq!(s.tui_step(TuiKey::Enter), TuiAction::Reveal(c));
    assert!(s.board.is_generated);
    assert!(s.board.get_cell(c).is_revealed);
    assert_eq!(s.tui_step(TuiKey::Char(' ')), TuiAction::Chord(c));
}

#[test]
fn moves_on_a_finished_game_change_nothing() {
    let mut s = TuiState::new();
    s.board.status = GameStatus::Lost;
    let before = s.board.revealed_count;
    assert_eq!(s.tui_step(TuiKey::Enter), TuiAction::Nothing);
    assert_eq!(s.tui_step(TuiKey::Char('f')), TuiAction::Nothing);
    assert_eq!(s.tui_step(TuiKey::Char('c')), TuiAction::Nothing);
    assert_eq!(s.board.revealed_count, before);
    assert_eq!(s.board.flag_count, 0);
    assert_eq!(s.status, "Game Over! Press [R] to start a new game.");
}

#[test]
fn flag_key_toggles_the_flag_under_the_cursor() {
    let mut s = TuiState::new();
    let c = s.cursor;
    assert_eq!(s.tui_step(TuiKey::Char('f')), TuiAction::Flag(c));
    assert!(s.board.get_cell(c).is_flagged);
    s.tui_step(TuiKey::Char('F'));
    assert!(!s.board.get_cell(c).is_flagged);
}

#[test]
fn custom_form_clamps_its_fields_to_the_documented_ranges() {
    let mut s = TuiState::new();
    s.tui_step(TuiKey::Char('4'));
    assert!(s.custom_open);
    for _ in 0..100 {
        s.tui_step(TuiKey::Right);
    }
    assert_eq!(s.custom_w, 60);
    s.tui_step(TuiKey::Down);
    for _ in 0..100 {
        s.tui_step(TuiKey::Left);
    }
    assert_eq!(s.custom_h, 4);
    s.tui_step(TuiKey::Down);
    for _ in 0..100 {
        s.tui_step(TuiKey::Char('+'));
    }
    assert_eq!(s.custom_d, 16);
    s.tui_step(TuiKey::Down);
    for _ in 0..2000 {
        s.tui_step(TuiKey::Char('='));
    }
    assert_eq!(s.custom_m, 5000);
    for _ in 0..2000 {
        s.tui_step(TuiKey::Char('-'));
    }
    assert_eq!(s.custom_m, 1);
}

#[test]
fn custom_form_starts_a_game_or_shows_the_refusal() {
    let mut s = TuiState::new();
    s.tui_step(TuiKey::Char('u'));
    // 16 x 16 x 4 with 160 mines is a valid custom board.
    assert_eq!(s.tui_step(TuiKey::Enter), TuiAction::NewGame);
    assert!(!s.custom_open);
    assert_eq!(s.config.difficulty, Difficulty::Custom);
    assert_eq!(s.layer, 2);
    assert_eq!(s.status, "Custom 3D Game ((16, 16, 4, 160)) Ready.");
    // Shrink to 4 x 4 x 1: no room for the first-click zone.
    s.tui_step(TuiKey::Char('u'));
    for _ in 0..100 {
        s.tui_step(TuiKey::Left);
    }
    s.tui_step(TuiKey::Down);
    for _ in 0..100 {
        s.tui_step(TuiKey::Left);
    }
    s.tui_step(TuiKey::Down);
    for _ in 0..100 {
        s.tui_step(TuiKey::Left);
    }
    assert_eq!(s.tui_step(TuiKey::Enter), TuiAction::Nothing);
    assert!(s.custom_open);
    assert_eq!(s.custom_error.as_deref(), Some("Mine count exceeds maximum allowable limit (0)"));
    s.tui_step(TuiKey::Esc);
    assert!(!s.custom_open);
    assert!(s.custom_error.is_none());
}

#[test]
fn presets_restart_and_keep_the_cursor_on_the_board() {
    let mut s = TuiState::new();
    for _ in 0..20 {
        s.tui_step(TuiKey::Right);
        s.tui_step(TuiKey::Down);
        s.tui_step(TuiKey::PageDown);
    }
    assert_eq!(s.tui_step(TuiKey::Char('1')), TuiAction::NewGame);
    assert_eq!(s.config, BoardConfig::easy());
    assert_eq!(s.cursor, Coord3D::new(8, 8, 2));
    assert_eq!(s.layer, 2);
    assert_eq!(s.status, "Switched to [1] Beginner (9x9x3, 25 mines).");
    assert_eq!(s.tui_step(TuiKey::Char('3')), TuiAction::NewGame);
    assert_eq!(s.config, BoardConfig::expert());
}

#[test]
fn help_screen_opens_and_any_key_closes_it() {
    let mut s = TuiState::new();
    s.tui_step(TuiKey::F1);
    assert!(s.show_help);
    assert_eq!(s.tui_step(TuiKey::Char('x')), TuiAction::Nothing);
    assert!(!s.show_help);
    s.tui_step(TuiKey::Char('h'));
    assert!(s.show_help);
}

#[test]
fn modes_cycle_and_the_host_key_runs_the_server() {
    let mut s = TuiState::new();
    s.tui_step(TuiKey::Char('m'));
    assert_eq!(s.mode, TuiMode::Multiplayer);
    assert_eq!(s.tui_step(TuiKey::Char('n')), TuiAction::Connect);
    s.connected = true;
    assert_eq!(s.tui_step(TuiKey::Char('p')), TuiAction::CreateRoom);
    s.in_room = true;
    assert_eq!(s.tui_step(TuiKey::Char('b')), TuiAction::AddBot);
    s.tui_step(TuiKey::Char('M'));
    assert_eq!(s.mode, TuiMode::HostServer);
    assert_eq!(s.tui_step(TuiKey::Char('h')), TuiAction::StartServer(3000));
    assert!(s.server_running);
    assert_eq!(s.status, "Local Server ONLINE -> 0.0.0.0:3000");
    assert_eq!(s.tui_step(TuiKey::Char('H')), TuiAction::StopServer);
    assert!(!s.server_running);
    s.tui_step(TuiKey::Char('m'));
    assert_eq!(s.mode, TuiMode::SinglePlayer);
    assert_eq!(s.tui_step(TuiKey::Char('q')), TuiAction::Quit);
}

#[test]
fn hint_puts_the_cursor_on_the_ai_move_and_b_plays_it() {
    let mut s = TuiState::new();
    s.tui_step(TuiKey::Left);
    s.tui_step(TuiKey::PageUp);
    // On an untouched board the AI opens the centre.
    assert_eq!(s.tui_step(TuiKey::Char('/')), TuiAction::Nothing);
    assert_eq!(s.cursor, Coord3D::new(8, 8, 2));
    assert_eq!(s.layer, 2);
    assert_eq!(s.hint.as_deref(), Some("REVEAL @ (8,8,2)"));
    match s.tui_step(TuiKey::Char('b')) {
        TuiAction::BotMove(_) => {}
        other => panic!("expected a bot move, got {:?}", other),
    }
    assert!(s.board.is_generated);
    assert!(s.board.revealed_count > 0);
}
