use amine::board::{BoardConfig, GameStatus};
use amine::protocol::ServerMessage;
use amine::lobby::RoomManager;
use amine::room::{player_color, Room, RoomEvent};
use amine::solver::BotTier;
use amine::topology::Coord3D;

fn room() -> Room {
    Room::new("ABC123".to_string(), "Test Room".to_string(), "h1".to_string(), BoardConfig::easy())
}

fn chat_texts(events: &[RoomEvent]) -> Vec<String> {
    events
        .iter()
        .filter_map(|e| match e {
            RoomEvent::Broadcast(ServerMessage::ChatMessage(c)) => Some(c.text.clone()),
            _ => None,
        })
        .collect()
}

#[test]
fn first_player_hosts_and_later_players_take_the_next_colour() {
    let mut r = room();
    let (info, events) = r.add_player("h1", "Host", None);
    assert!(info.is_host && info.is_ready);
    assert_eq!(info.color, player_color(0));
    assert_eq!(chat_texts(&events), vec!["Player [Host] joined the room.".to_string()]);
    assert!(matches!(events[1], RoomEvent::Broadcast(ServerMessage::RoomState(_))));
    let (info2, _) = r.add_player("p2", "Guest", Some("u2".to_string()));
    assert!(!info2.is_host && !info2.is_ready);
    assert_eq!(info2.color, player_color(1));
    assert_eq!(r.host_id, "h1");
    assert_eq!(r.players.len(), 2);
    assert_ne!(player_color(0), player_color(1));
    assert_eq!(player_color(8), player_color(0));
}

#[test]
fn only_the_host_starts_and_not_twice() {
    let mut r = room();
    r.add_player("h1", "Host", None);
    r.add_player("p2", "Guest", None);
    assert_eq!(r.start_game("p2").unwrap_err(), "Only the room host can start the game");
    let events = r.start_game("h1").unwrap();
    assert_eq!(events.len(), 3);
    assert!(matches!(events[0], RoomEvent::Broadcast(ServerMessage::GameStarted { .. })));
    assert_eq!(r.status, GameStatus::Playing);
    assert_eq!(r.start_game("h1").unwrap_err(), "Game is already in progress");
}

#[test]
fn reveals_score_points_and_mines_eliminate() {
    let mut r = room();
    r.add_player("h1", "Host", None);
    r.add_player("p2", "Guest", None);
    r.start_game("h1").unwrap();
    // The first click scores one point.
    let events = r.handle_reveal("h1", Coord3D::new(4, 4, 1));
    assert!(!events.is_empty());
    assert_eq!(r.players[0].score, 1);
    // Another player's reveal of an uncovered cell scores nothing.
    let before = r.players[1].score;
    r.handle_reveal("p2", Coord3D::new(4, 4, 1));
    assert_eq!(r.players[1].score, before);
    // A reveal of a covered safe cell scores the cells it uncovers.
    if let Some(c) = r.board.cells.iter().find(|c| !c.is_mine && !c.is_revealed).map(|c| c.coord) {
        let count = r.board.revealed_count;
        r.handle_reveal("p2", c);
        assert_eq!(r.players[1].score as usize, r.board.revealed_count - count);
    }
    // A mine eliminates.
    let mine = r.board.cells.iter().find(|c| c.is_mine).unwrap().coord;
    let events = r.handle_reveal("p2", mine);
    assert!(r.players[1].is_eliminated);
    assert!(chat_texts(&events).contains(&"Player [Guest] hit a mine and was eliminated!".to_string()));
    // An eliminated player can no longer play.
    let score = r.players[1].score;
    assert!(r.handle_reveal("p2", Coord3D::new(0, 0, 0)).is_empty());
    assert_eq!(r.players[1].score, score);
    // Nobody outside the room plays.
    assert!(r.handle_reveal("stranger", Coord3D::new(0, 0, 0)).is_empty());
}

#[test]
fn scores_never_exceed_uncovered_cells() {
    let mut r = room();
    r.add_player("h1", "Host", None);
    r.start_game("h1").unwrap();
    r.handle_reveal("h1", Coord3D::new(4, 4, 1));
    let safe: Vec<Coord3D> = r.board.cells.iter().filter(|c| !c.is_mine).map(|c| c.coord).collect();
    for c in safe {
        r.handle_reveal("h1", c);
        for p in &r.players {
            assert!(p.score as usize <= r.board.revealed_count);
        }
    }
    assert_eq!(r.board.status, GameStatus::Won);
    assert_eq!(r.status, GameStatus::Won);
    // At the end of a won game every mine carries a flag.
    assert!(r.board.cells.iter().filter(|c| c.is_mine).all(|c| c.is_flagged));
    assert_eq!(r.board.flag_count, 25);
}

#[test]
fn winning_the_board_ends_the_game_and_records_scores() {
    let mut r = room();
    r.add_player("h1", "Host", Some("user-1".to_string()));
    r.start_game("h1").unwrap();
    r.handle_reveal("h1", Coord3D::new(4, 4, 1));
    let safe: Vec<Coord3D> = r.board.cells.iter().filter(|c| !c.is_mine && !c.is_revealed).map(|c| c.coord).collect();
    let mut last = Vec::new();
    for c in safe {
        last.extend(r.handle_reveal("h1", c));
    }
    assert!(last.iter().any(|e| matches!(e, RoomEvent::Broadcast(ServerMessage::GameOver { .. }))));
    let recorded = last.iter().find_map(|e| match e {
        RoomEvent::RecordMatch { scores, winner_user_id } => Some((scores.clone(), winner_user_id.clone())),
        _ => None,
    });
    let (scores, winner) = recorded.expect("the match is recorded");
    assert_eq!(scores, vec![("user-1".to_string(), r.players[0].score)]);
    assert_eq!(winner, Some("user-1".to_string()));
}

#[test]
fn flags_are_broadcast_and_chat_skips_blank_lines() {
    let mut r = room();
    r.add_player("h1", "Host", None);
    r.start_game("h1").unwrap();
    r.handle_reveal("h1", Coord3D::new(4, 4, 1));
    let covered = r.board.cells.iter().find(|c| !c.is_revealed).unwrap().coord;
    let events = r.handle_toggle_flag("h1", covered);
    assert!(events.iter().any(|e| matches!(e,
        RoomEvent::Broadcast(ServerMessage::PlayerFlagToggled { coord, is_flagged: true, .. }) if *coord == covered)));
    assert!(r.handle_chat("h1", "   ").is_empty());
    assert!(r.handle_chat("nobody", "hi").is_empty());
    let said = r.handle_chat("h1", "hello there");
    assert_eq!(chat_texts(&said), vec!["hello there".to_string()]);
}

#[test]
fn bots_join_ready_and_leave_with_their_worker() {
    let mut r = room();
    r.add_player("h1", "Host", None);
    let (bot_id, events) = r.add_bot(BotTier::Master, Some(500));
    assert!(bot_id.starts_with("bot_"));
    assert_eq!(bot_id.len(), 12);
    assert_eq!(r.bot_speed_ms, 500);
    assert!(events.iter().any(|e| matches!(e, RoomEvent::StartBot { tier: BotTier::Master, .. })));
    let bot = r.players.iter().find(|p| p.id == bot_id).unwrap();
    assert!(bot.is_bot && bot.is_ready);
    let events = r.remove_bot(&bot_id);
    assert!(matches!(&events[0], RoomEvent::StopBot { bot_id: b } if *b == bot_id));
    assert!(r.players.iter().all(|p| p.id != bot_id));
    r.update_bot_speed(900);
    assert_eq!(r.bot_speed_ms, 900);
}

#[test]
fn bot_speed_stays_between_200_ms_and_20_s() {
    let mut r = room();
    r.update_bot_speed(0);
    assert_eq!(r.bot_speed_ms, 200);
    r.update_bot_speed(20_000);
    assert_eq!(r.bot_speed_ms, 20_000);
    r.update_bot_speed(50_000);
    assert_eq!(r.bot_speed_ms, 20_000);
    r.add_bot(BotTier::Novice, Some(10));
    assert_eq!(r.bot_speed_ms, 200);
}

#[test]
fn host_passes_to_the_first_human_left() {
    let mut r = room();
    r.add_player("h1", "Host", None);
    r.add_bot(BotTier::Novice, None);
    r.add_player("p2", "Guest", None);
    r.remove_player("h1");
    assert_eq!(r.host_id, "p2");
    assert!(r.players.iter().find(|p| p.id == "p2").unwrap().is_host);
    assert!(r.remove_player("ghost").is_empty());
}

#[test]
fn ready_flags_and_summary() {
    let mut r = room();
    r.add_player("h1", "Host", None);
    r.add_player("p2", "Guest", None);
    r.set_ready("p2", true);
    assert!(r.players[1].is_ready);
    let s = r.summary();
    assert_eq!(s.id, "ABC123");
    assert_eq!(s.name, "Test Room");
    assert_eq!(s.host_name, "Host");
    assert_eq!(s.player_count, 2);
    let snap = r.snapshot();
    assert_eq!(snap.players.len(), 2);
    assert_eq!(snap.cells.len(), 243);
    assert_eq!(snap.total_non_mines, 243 - 25);
}

#[test]
fn room_codes_use_the_unambiguous_alphabet() {
    for _ in 0..50 {
        let code = RoomManager::generate_room_code();
        assert_eq!(code.chars().count(), 6);
        assert!(code.chars().all(|c| "ABCDEFGHJKLMNPQRSTUVWXYZ23456789".contains(c)));
    }
}
