use amine::account::SessionTable;
use amine::board::{BoardConfig, GameStatus};
use amine::dispatch::{config_usable, disconnect, handle_client_message, Connection, Outgoing};
use amine::lobby::RoomManager;
use amine::protocol::{ClientMessage, ServerMessage};
use amine::solver::BotTier;
use amine::topology::Coord3D;

fn conn(id: &str) -> Connection {
    Connection { session_id: id.to_string(), room_id: None }
}

fn error_of(out: &[Outgoing]) -> Option<String> {
    out.iter().find_map(|o| match o {
        Outgoing::Reply(ServerMessage::Error { message }) => Some(message.clone()),
        _ => None,
    })
}

#[test]
fn ping_is_answered() {
    let mut dir = RoomManager::new();
    let sessions = SessionTable::new();
    let mut c = conn("s1");
    let out = handle_client_message(&mut dir, &sessions, &mut c, ClientMessage::Ping);
    assert!(matches!(out.as_slice(), [Outgoing::Reply(ServerMessage::Pong)]));
}

#[test]
fn create_join_play_and_leave() {
    let mut dir = RoomManager::new();
    let mut sessions = SessionTable::new();
    let token = sessions.open_session("account-7".to_string());
    let mut host = conn("s1");
    let out = handle_client_message(
        &mut dir,
        &sessions,
        &mut host,
        ClientMessage::CreateRoom {
            name: "Test Room".into(),
            config: BoardConfig::easy(),
            username: "Host".into(),
            token: Some(token),
        },
    );
    assert_eq!(out.len(), 4);
    assert!(matches!(out[0], Outgoing::Unsubscribe));
    let code = host.room_id.clone().unwrap();
    assert!(matches!(&out[2], Outgoing::Subscribe(c) if *c == code));
    assert!(matches!(&out[3], Outgoing::Reply(ServerMessage::RoomState(s)) if s.room_id == code));
    let room = dir.get_room(&code).unwrap();
    assert_eq!(room.host_id, "s1");
    assert_eq!(room.players[0].user_id, Some("account-7".to_string()));

    let mut guest = conn("s2");
    let out = handle_client_message(
        &mut dir,
        &sessions,
        &mut guest,
        ClientMessage::JoinRoom { room_id: "NOPE00".into(), username: "Guest".into(), token: None },
    );
    assert_eq!(error_of(&out).as_deref(), Some("Room not found"));
    assert!(guest.room_id.is_none());
    handle_client_message(
        &mut dir,
        &sessions,
        &mut guest,
        ClientMessage::JoinRoom { room_id: code.clone(), username: "Guest".into(), token: None },
    );
    assert_eq!(guest.room_id.as_deref(), Some(code.as_str()));
    assert_eq!(dir.get_room(&code).unwrap().players.len(), 2);

    // Only the host manages bots or starts the game.
    let out = handle_client_message(&mut dir, &sessions, &mut guest, ClientMessage::AddBot { tier: BotTier::Novice, speed_ms: None });
    assert!(out.is_empty());
    let out = handle_client_message(&mut dir, &sessions, &mut guest, ClientMessage::StartGame);
    assert_eq!(error_of(&out).as_deref(), Some("Only the room host can start the game"));
    handle_client_message(&mut dir, &sessions, &mut host, ClientMessage::AddBot { tier: BotTier::Novice, speed_ms: Some(700) });
    assert_eq!(dir.get_room(&code).unwrap().players.len(), 3);
    assert_eq!(dir.get_room(&code).unwrap().bot_speed_ms, 700);
    handle_client_message(&mut dir, &sessions, &mut host, ClientMessage::StartGame);
    assert_eq!(dir.get_room(&code).unwrap().status, GameStatus::Playing);
    let out = handle_client_message(&mut dir, &sessions, &mut guest, ClientMessage::RevealCell { coord: Coord3D::new(4, 4, 1) });
    assert_eq!(out.len(), 1);
    assert_eq!(dir.get_room(&code).unwrap().players[1].score, 1);
    // A flag far outside the grid is passed over.
    let out = handle_client_message(&mut dir, &sessions, &mut guest, ClientMessage::ToggleFlag { coord: Coord3D::new(0, 0, 99) });
    assert!(out.is_empty());

    // Everyone leaves: the room closes.
    handle_client_message(&mut dir, &sessions, &mut guest, ClientMessage::LeaveRoom);
    assert!(guest.room_id.is_none());
    assert_eq!(dir.get_room(&code).unwrap().host_id, "s1");
    let out = disconnect(&mut dir, &sessions, &mut host);
    assert!(matches!(out[0], Outgoing::Unsubscribe));
    // The bot stays, so the room does too until it is removed.
    assert!(dir.get_room(&code).is_some());
}

#[test]
fn messages_outside_a_room_do_nothing() {
    let mut dir = RoomManager::new();
    let sessions = SessionTable::new();
    let mut c = conn("s9");
    let out = handle_client_message(&mut dir, &sessions, &mut c, ClientMessage::SendChat { text: "hi".into() });
    assert!(out.is_empty());
    assert!(dir.rooms.is_empty());
}

#[test]
fn unusable_configurations_are_refused() {
    let mut bad = BoardConfig::easy();
    bad.mines = 10_000;
    assert!(!config_usable(&bad));
    assert!(config_usable(&BoardConfig::expert()));
    let mut dir = RoomManager::new();
    let sessions = SessionTable::new();
    let mut c = conn("s1");
    let out = handle_client_message(
        &mut dir,
        &sessions,
        &mut c,
        ClientMessage::CreateRoom { name: "x".into(), config: bad, username: "u".into(), token: None },
    );
    assert_eq!(error_of(&out).as_deref(), Some("Invalid board configuration"));
    assert!(dir.rooms.is_empty());
}
