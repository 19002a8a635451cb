use amine::board::{BoardConfig, GameStatus};
use amine::client_view::{rankings, ClientView};
use amine::protocol::{PlayerInfo, ScoreDelta, ServerMessage};
use amine::room::{Room, RoomEvent};
use amine::topology::Coord3D;

fn player(id: &str, name: &str, score: u32) -> PlayerInfo {
    PlayerInfo {
        id: id.into(),
        username: name.into(),
        color: "#fff".into(),
        score,
        is_eliminated: false,
        is_host: false,
        is_ready: false,
        is_spectator: false,
        is_bot: false,
        bot_tier: None,
    }
}

#[test]
fn rankings_sort_by_score_and_keep_ties_in_order() {
    let ps = vec![player("a", "A", 3), player("b", "B", 7), player("c", "C", 3), player("d", "D", 9)];
    let r = rankings(&ps);
    let names: Vec<&str> = r.iter().map(|p| p.username.as_str()).collect();
    assert_eq!(names, vec!["D", "B", "A", "C"]);
    let ranks: Vec<usize> = r.iter().map(|p| p.rank).collect();
    assert_eq!(ranks, vec![1, 2, 3, 4]);
}

fn feed(view: &mut ClientView, events: Vec<RoomEvent>) {
    for e in events {
        if let RoomEvent::Broadcast(m) = e {
            view.apply_server_message(m);
        }
    }
}

#[test]
fn a_client_follows_a_whole_game() {
    let mut room = Room::new("R".into(), "n".into(), "h".into(), BoardConfig::easy());
    let mut view = ClientView::new();
    let (_, ev) = room.add_player("h", "Host", None);
    feed(&mut view, ev);
    assert_eq!(view.chat.len(), 1);
    assert_eq!(view.room.as_ref().unwrap().players.len(), 1);
    feed(&mut view, room.start_game("h").unwrap());
    assert!(view.game_over.is_none());
    assert_eq!(view.room.as_ref().unwrap().status, GameStatus::Playing);
    feed(&mut view, room.handle_reveal("h", Coord3D::new(4, 4, 1)));
    let seen = view.room.as_ref().unwrap();
    assert_eq!(seen.players[0].score, room.players[0].score);
    for (c, s) in room.board.cells.iter().zip(seen.cells.iter()) {
        assert_eq!(c.is_revealed, s.is_revealed);
    }
    // Playing on to the end.
    let safe: Vec<Coord3D> = room.board.cells.iter().filter(|c| !c.is_mine && !c.is_revealed).map(|c| c.coord).collect();
    for c in safe {
        let ev = room.handle_reveal("h", c);
        feed(&mut view, ev);
    }
    let d = view.game_over.clone().expect("a summary");
    assert!(d.is_board_cleared);
    assert!(!d.is_all_eliminated);
    assert_eq!(d.winners, vec!["Host".to_string()]);
    assert_eq!(d.player_rankings[0].rank, 1);
    assert_eq!(view.room.as_ref().unwrap().status, GameStatus::Won);
}

#[test]
fn messages_without_a_room_only_touch_the_chat() {
    let mut view = ClientView::new();
    view.apply_server_message(ServerMessage::PlayerFlagToggled { coord: Coord3D::new(0, 0, 0), is_flagged: true, player_id: "x".into() });
    view.apply_server_message(ServerMessage::GameOver { winners: vec![], final_scores: vec![ScoreDelta { player_id: "x".into(), points: 1, total_score: 1 }] });
    assert!(view.room.is_none());
    assert!(view.game_over.is_none());
    view.apply_server_message(ServerMessage::Pong);
    assert!(view.chat.is_empty());
}
