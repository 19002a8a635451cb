//! What the server does with each message of a connected client: which room
//! it acts on, who may do what, and what goes back out. The connection's
//! sockets and broadcast channels carry the results.
use vstd::prelude::*;
use crate::account::SessionTable;
use crate::board::{Board, BoardConfig, RevealResult, reveal_done, chord_done};
use crate::bots::cell_slot;
use crate::lobby::{RoomManager, occupied, occupied_rooms};
use crate::protocol::{ClientMessage, ServerMessage};
use crate::room::{Room, RoomEvent, RoomPlayer, player_index, joined_as, placed, palette_color, info_of, scored, is_space, left_as, bot_delay, turn_settled};
use crate::board::GameStatus;
use crate::protocol::RoomSnapshot;
use crate::text::{owned, str_eq};

verus! {

/// Something the connection must do.
pub enum Outgoing {
    /// Send this message to this client only.
    Reply(ServerMessage),
    /// Carry out the events of the room with code `room_id`.
    RoomEvents { room_id: String, events: Vec<RoomEvent> },
    /// Forward the broadcasts of this room to the client from now on.
    Subscribe(String),
    /// Stop forwarding broadcasts to the client.
    Unsubscribe,
}

/// A connected client: its session id and the room it is in.
pub struct Connection {
    pub session_id: String,
    pub room_id: Option<String>,
}

/// A configuration a room can be opened with: sizes that fit and a mine
/// count within the board.
pub open spec fn usable_config(c: BoardConfig) -> bool {
    &&& c.spec_dims().fits_usize()
    &&& c.spec_dims().fits_i32()
    &&& c.mines <= c.spec_dims().total()
    &&& c.spec_dims().total() <= u32::MAX
}

pub fn config_usable(c: &BoardConfig) -> (b: bool)
    ensures
        b == usable_config(*c),
{
    if c.width > 0x7fff_ffff || c.height > 0x7fff_ffff || c.depth > 0x7fff_ffff {
        return false;
    }
    let area = match c.width.checked_mul(c.height) {
        Some(a) => a,
        None => {
            return false;
        }
    };
    let total = match area.checked_mul(c.depth) {
        Some(t) => t,
        None => {
            proof {
                assert(c.width * c.height * c.depth == area * c.depth);
            }
            return false;
        }
    };
    total <= 0xffff_ffff && c.mines <= total
}

/// The room a connection is in, if it still exists.
pub open spec fn room_of(dir: RoomManager, conn: Connection) -> Option<int> {
    match conn.room_id {
        Some(code) => dir.index_of(code@),
        None => None,
    }
}

/// The client is the host of the room it is in.
pub open spec fn hosts(dir: RoomManager, conn: Connection) -> bool {
    room_of(dir, conn) matches Some(k) && dir.rooms@[k].host_id@ == conn.session_id@
}

/// Where the room under `code` stands, with what `index_of` says of it.
fn locate(dir: &RoomManager, code: &str) -> (r: Option<usize>)
    requires
        dir.wf(),
    ensures
        r is None <==> dir.index_of(code@) is None,
        r matches Some(i) ==> dir.index_of(code@) == Some(i as int) && i < dir.rooms@.len(),
{
    let r = dir.position(code);
    proof {
        if let Some(i) = r {
            let j = choose|j: int| 0 <= j < dir.rooms@.len() && (#[trigger] dir.rooms@[j]).id@ == code@;
            if j != i as int {
                if j < i as int {
                    assert(dir.rooms@[j].id@ != dir.rooms@[i as int].id@);
                } else {
                    assert(dir.rooms@[i as int].id@ != dir.rooms@[j].id@);
                }
            }
        }
    }
    r
}

/// The account a login token stands for.
fn account_of(sessions: &SessionTable, token: &Option<String>) -> (r: Option<String>)
    requires
        sessions.wf(),
    ensures
        token is None ==> r is None,
        token matches Some(t) ==> (r is None <==> !sessions.knows(t@)),
        token matches Some(t) ==> (r matches Some(u) ==> sessions.holds(t@, u@)),
{
    match token {
        Some(t) => sessions.user_for(t.as_str()),
        None => None,
    }
}

/// Only the rooms at `k` may have changed, each keeping its code.
pub open spec fn only_room_changed(before: RoomManager, after: RoomManager, k: int) -> bool {
    &&& after.rooms@.len() == before.rooms@.len()
    &&& forall|j: int| 0 <= j < before.rooms@.len() && j != k ==> #[trigger] after.rooms@[j] == before.rooms@[j]
    &&& after.rooms@[k].id == before.rooms@[k].id
}

/// The directory `dir` with the room at `k` replaced by `room`, which keeps
/// its code and invariant.
proof fn lemma_replace_room(before: RoomManager, after: RoomManager, k: int)
    requires
        before.wf(),
        0 <= k < before.rooms@.len(),
        only_room_changed(before, after, k),
        after.rooms@[k].wf(),
    ensures
        after.wf(),
        forall|c: Seq<char>| #[trigger] after.index_of(c) == before.index_of(c),
{
    assert forall|a: int, b: int| 0 <= a < b < after.rooms@.len() implies (#[trigger] after.rooms@[a]).id@ != (#[trigger] after.rooms@[b]).id@ by {
        assert(after.rooms@[a].id == before.rooms@[a].id);
        assert(after.rooms@[b].id == before.rooms@[b].id);
    }
    assert forall|i: int| 0 <= i < after.rooms@.len() implies (#[trigger] after.rooms@[i]).wf() by {
        if i != k {
            assert(after.rooms@[i] == before.rooms@[i]);
        }
    }
    assert forall|c: Seq<char>| #[trigger] after.index_of(c) == before.index_of(c) by {
        assert forall|i: int| 0 <= i < after.rooms@.len() implies ((#[trigger] after.rooms@[i]).id@ == c <==> before.rooms@[i].id@ == c) by {
            assert(after.rooms@[i].id == before.rooms@[i].id);
        }
        if exists|i: int| 0 <= i < after.rooms@.len() && (#[trigger] after.rooms@[i]).id@ == c {
            let i = choose|i: int| 0 <= i < after.rooms@.len() && (#[trigger] after.rooms@[i]).id@ == c;
            assert(before.rooms@[i].id@ == c);
            let j = choose|j: int| 0 <= j < before.rooms@.len() && (#[trigger] before.rooms@[j]).id@ == c;
            assert(after.rooms@[j].id@ == c);
            if i != j {
                if i < j {
                    assert(after.rooms@[i].id@ != after.rooms@[j].id@);
                } else {
                    assert(after.rooms@[j].id@ != after.rooms@[i].id@);
                }
            }
        } else {
            assert forall|j: int| 0 <= j < before.rooms@.len() implies (#[trigger] before.rooms@[j]).id@ != c by {
                assert(after.rooms@[j].id == before.rooms@[j].id);
            }
        }
    }
}

/// The client `conn` joins the room at `k` under its name (and account, if
/// any): the room's events and its new state.
fn enter_room(dir: &mut RoomManager, k: usize, conn: &Connection, username: &str, user_id: Option<String>) -> (r: (Vec<RoomEvent>, RoomSnapshot))
    requires
        old(dir).wf(),
        k < old(dir).rooms@.len(),
    ensures
        final(dir).wf(),
        only_room_changed(*old(dir), *final(dir), k as int),
        forall|c: Seq<char>| #[trigger] final(dir).index_of(c) == old(dir).index_of(c),
        player_index(final(dir).rooms@[k as int].players@, conn.session_id@) is Some,
        final(dir).rooms@[k as int].config == old(dir).rooms@[k as int].config,
        old(dir).rooms@[k as int].players@.len() == 0 ==> final(dir).rooms@[k as int].host_id@ == conn.session_id@,
        r.1.room_id == old(dir).rooms@[k as int].id,
{
    let ghost d0 = *dir;
    let mut room = dir.rooms.remove(k);
    proof {
        assert(d0.rooms@[k as int].wf());
    }
    let (_info, events) = room.add_player(conn.session_id.as_str(), username, user_id);
    proof {
        let p = choose|p: RoomPlayer| {
            &&& joined_as(p, conn.session_id@, username@, user_id, palette_color((d0.rooms@[k as int].players@.len() % 8) as nat), d0.rooms@[k as int].players@.len() == 0, d0.rooms@[k as int].status == GameStatus::Playing)
            &&& placed(d0.rooms@[k as int].players@, room.players@, p)
            &&& _info == info_of(p)
        };
        let before = d0.rooms@[k as int].players@;
        match player_index(before, p.id@) {
            Some(j) => {
                assert(room.players@[j].id@ == conn.session_id@);
            }
            None => {
                assert(room.players@[before.len() as int].id@ == conn.session_id@);
            }
        }
    }
    let state = room.snapshot();
    dir.rooms.insert(k, room);
    proof {
        assert(dir.rooms@ =~= d0.rooms@.update(k as int, dir.rooms@[k as int]));
        lemma_replace_room(d0, *dir, k as int);
    }
    (events, state)
}

/// What a message other than ping, create, join or leave does, sent by the
/// client with session `sid`: the room goes from `before` to `after`, the
/// room's events are `events`, and the replies to the client go from `rep0`
/// to `rep1`.
pub open spec fn acted_in_room(before: Room, after: Room, sid: Seq<char>, msg: ClientMessage, events: Seq<RoomEvent>, rep0: Seq<Outgoing>, rep1: Seq<Outgoing>) -> bool {
    &&& ((msg is AddBot || msg is RemoveBot || msg is UpdateBotSpeed) && before.host_id@ != sid ==> events.len() == 0 && after == before)
    &&& (!(msg is StartGame) ==> rep1 == rep0)
    &&& (msg is Ping || msg is CreateRoom || msg is JoinRoom || msg is LeaveRoom ==> events.len() == 0 && after == before)
    &&& (msg matches ClientMessage::SetReady { ready } ==> {
        &&& after.board == before.board
        &&& after.status == before.status
        &&& player_index(before.players@, sid) is None ==> events.len() == 0 && after.players@ == before.players@
        &&& player_index(before.players@, sid) matches Some(k) ==>
            after.players@ == before.players@.update(k, RoomPlayer { is_ready: ready, ..before.players@[k] }) && events.len() == 1
    })
    &&& (msg is StartGame ==> ({
        let host = before.host_id@ == sid;
        let playing = before.status == GameStatus::Playing;
        &&& host && !playing ==> {
            &&& after.status == GameStatus::Playing
            &&& after.board.cells@ == Board::fresh_cells(before.config)
            &&& events.len() == 3
            &&& rep1 == rep0
        }
        &&& !(host && !playing) ==> {
            &&& events.len() == 0
            &&& after == before
            &&& rep1.len() == rep0.len() + 1
            &&& rep1.drop_last() == rep0
            &&& rep1.last() matches Outgoing::Reply(ServerMessage::Error { message })
                && message@ == if !host { "Only the room host can start the game"@ } else { "Game is already in progress"@ }
        }
    }))
    &&& (msg matches ClientMessage::RevealCell { coord } ==> {
        &&& !before.can_play(sid) ==> events.len() == 0 && after == before
        &&& before.can_play(sid) ==> (player_index(before.players@, sid) matches Some(k) && {
            let first_click = !before.board.is_generated && before.board.dims.valid(coord) && !before.board.at(coord).is_flagged;
            let gained = after.board.revealed_count - before.board.revealed_count;
            let hit = before.board.status != GameStatus::Lost && after.board.status == GameStatus::Lost;
            &&& after.board.revealed_count >= before.board.revealed_count
            &&& scored(before.players@, after.players@, k, if first_click { 1 } else { gained }, hit)
            &&& exists|res: RevealResult, b1: Board, pid: String, color: String| {
                &&& pid@ == sid
                &&& color@ == before.players@[k].color@
                &&& #[trigger] reveal_done(before.board, b1, coord, Some(pid), Some(color), res)
                &&& turn_settled(b1, before.players@, after, sid, res, events)
            }
        })
    })
    &&& (msg matches ClientMessage::ChordCell { coord } ==> {
        &&& !before.can_play(sid) ==> events.len() == 0 && after == before
        &&& before.can_play(sid) ==> (player_index(before.players@, sid) matches Some(k) && {
            let gained = after.board.revealed_count - before.board.revealed_count;
            let hit = before.board.status != GameStatus::Lost && after.board.status == GameStatus::Lost;
            &&& after.board.revealed_count >= before.board.revealed_count
            &&& scored(before.players@, after.players@, k, if hit { 0 } else { gained }, hit)
            &&& exists|res: RevealResult, b1: Board, pid: String, color: String| {
                &&& pid@ == sid
                &&& color@ == before.players@[k].color@
                &&& #[trigger] chord_done(before.board, b1, coord, Some(pid), Some(color), res)
                &&& turn_settled(b1, before.players@, after, sid, res, events)
            }
        })
    })
    &&& (msg matches ClientMessage::ToggleFlag { coord } ==> ({
        let inside = coord.index(before.board.dims.width as int, before.board.dims.height as int) < before.board.cells@.len();
        let active = before.can_play(sid);
        let ok = !before.board.is_over() && before.board.dims.valid(coord) && !before.board.at(coord).is_revealed;
        &&& !(inside && active && ok) ==> events.len() == 0 && after == before
        &&& inside && active && ok ==> {
            &&& after.players@ == before.players@
            &&& after.board.cells@ == before.board.cells@.update(before.board.idx(coord),
                crate::board::Cell { is_flagged: !before.board.at(coord).is_flagged, ..before.board.at(coord) })
            &&& events.len() == 1
            &&& events[0] matches RoomEvent::Broadcast(ServerMessage::PlayerFlagToggled { coord: c, is_flagged, player_id })
                && c == coord && is_flagged == !before.board.at(coord).is_flagged && player_id@ == sid
        }
    }))
    &&& (msg matches ClientMessage::SendChat { text } ==> {
        &&& after == before
        &&& (player_index(before.players@, sid) is None || forall|i: int| 0 <= i < text@.len() ==> is_space(#[trigger] text@[i])) ==> events.len() == 0
        &&& player_index(before.players@, sid) matches Some(k) ==> !(forall|i: int| 0 <= i < text@.len() ==> is_space(#[trigger] text@[i])) ==> {
            &&& events.len() == 1
            &&& events[0] matches RoomEvent::Broadcast(ServerMessage::ChatMessage(c))
                && (c.player_id matches Some(pid) && pid@ == sid) && c.text@ == text@ && c.username == before.players@[k].username
        }
    })
    &&& (msg matches ClientMessage::AddBot { tier, speed_ms } ==> before.host_id@ == sid ==> {
        &&& after.bot_speed_ms == match speed_ms { Some(v) => bot_delay(v), None => before.bot_speed_ms }
        &&& after.board == before.board
        &&& exists|p: RoomPlayer| p.is_bot && p.bot_tier == Some(tier) && placed(before.players@, after.players@, p)
        &&& events.len() == 3
        &&& events[0] matches RoomEvent::StartBot { tier: t, .. } && t == tier
    })
    &&& (msg matches ClientMessage::RemoveBot { bot_id } ==> before.host_id@ == sid ==>
        left_as(before, after, bot_id@, events) && after.board == before.board)
    &&& (msg matches ClientMessage::UpdateBotSpeed { speed_ms } ==> before.host_id@ == sid ==> {
        &&& after.bot_speed_ms == bot_delay(speed_ms)
        &&& after.players@ == before.players@
        &&& after.board == before.board
        &&& events.len() == 1
    })
}

/// What a message other than ping, create, join or leave does in the room
/// at `k`, by the client `conn`.
fn act_in_room(room: &mut Room, conn: &Connection, msg: ClientMessage, replies: &mut Vec<Outgoing>) -> (events: Vec<RoomEvent>)
    requires
        old(room).wf(),
    ensures
        final(room).wf(),
        final(room).id == old(room).id,
        acted_in_room(*old(room), *final(room), conn.session_id@, msg, events@, old(replies)@, final(replies)@),
{
    let sid = conn.session_id.as_str();
    let is_host = str_eq(room.host_id.as_str(), sid);
    match msg {
        ClientMessage::SetReady { ready } => room.set_ready(sid, ready),
        ClientMessage::StartGame => match room.start_game(sid) {
            Ok(ev) => ev,
            Err(e) => {
                replies.push(Outgoing::Reply(ServerMessage::Error { message: e }));
                proof {
                    assert(replies@.drop_last() =~= old(replies)@);
                }
                Vec::new()
            }
        },
        ClientMessage::RevealCell { coord } => room.handle_reveal(sid, coord),
        ClientMessage::ChordCell { coord } => room.handle_chord(sid, coord),
        ClientMessage::ToggleFlag { coord } => {
            match cell_slot(coord, room.board.dims.width, room.board.dims.height, room.board.cells.len()) {
                Some(_) => room.handle_toggle_flag(sid, coord),
                None => Vec::new(),
            }
        }
        ClientMessage::SendChat { text } => room.handle_chat(sid, text.as_str()),
        ClientMessage::AddBot { tier, speed_ms } => {
            if !is_host {
                return Vec::new();
            }
            let (_bot, ev) = room.add_bot(tier, speed_ms);
            ev
        }
        ClientMessage::RemoveBot { bot_id } => {
            if !is_host {
                return Vec::new();
            }
            room.remove_bot(bot_id.as_str())
        }
        ClientMessage::UpdateBotSpeed { speed_ms } => {
            if !is_host {
                return Vec::new();
            }
            room.update_bot_speed(speed_ms)
        }
        _ => Vec::new(),
    }
}

/// Acts on one message of the client `conn`.
///
/// A ping is answered. Creating a room (with a usable configuration) opens
/// it with the client as host and first player; joining an existing room
/// adds the client; either way the room's events go out, the client follows
/// the room's broadcasts and gets its state, and the client's room is that
/// one. Joining an unknown room is answered with an error. A leave takes the
/// client out of its room and closes the rooms left empty. Every other
/// message acts on the client's room, if it has one: only the host adds or
/// removes bots or changes their speed, and a refused start is answered
/// with the reason.
pub fn handle_client_message(dir: &mut RoomManager, sessions: &SessionTable, conn: &mut Connection, msg: ClientMessage) -> (r: Vec<Outgoing>)
    requires
        old(dir).wf(),
        sessions.wf(),
    ensures
        final(dir).wf(),
        final(conn).session_id == old(conn).session_id,
        msg is Ping ==> r@.len() == 1 && (r@[0] matches Outgoing::Reply(ServerMessage::Pong)) && *final(dir) == *old(dir) && *final(conn) == *old(conn),
        msg matches ClientMessage::JoinRoom { room_id, .. } ==> old(dir).index_of(room_id@) is None ==> {
            &&& r@.len() == 1
            &&& r@[0] matches Outgoing::Reply(ServerMessage::Error { message }) && message@ == "Room not found"@
            &&& *final(dir) == *old(dir)
            &&& *final(conn) == *old(conn)
        },
        msg matches ClientMessage::JoinRoom { room_id, .. } ==> (old(dir).index_of(room_id@) matches Some(k) ==> {
            &&& final(conn).room_id matches Some(c) && c@ == room_id@
            &&& only_room_changed(*old(dir), *final(dir), k)
            &&& player_index(final(dir).rooms@[k].players@, old(conn).session_id@) is Some
            &&& r@.len() == 4
            &&& r@[0] is Unsubscribe
            &&& r@[2] matches Outgoing::Subscribe(c) && c@ == room_id@
            &&& r@[3] matches Outgoing::Reply(ServerMessage::RoomState(s)) && s.room_id@ == room_id@
        }),
        msg matches ClientMessage::CreateRoom { config, .. } ==> !usable_config(config) ==> *final(dir) == *old(dir) && *final(conn) == *old(conn) && r@.len() == 1,
        msg matches ClientMessage::CreateRoom { config, .. } ==> usable_config(config) ==> {
            &&& final(conn).room_id matches Some(c) && (final(dir).index_of(c@) matches Some(k) && {
                &&& final(dir).rooms@[k].host_id@ == old(conn).session_id@
                &&& final(dir).rooms@[k].config == config
                &&& player_index(final(dir).rooms@[k].players@, old(conn).session_id@) is Some
            })
            &&& r@.len() == 4
            &&& r@[0] is Unsubscribe
            &&& r@[2] is Subscribe
        },
        (msg is AddBot || msg is RemoveBot || msg is UpdateBotSpeed) && !hosts(*old(dir), *old(conn)) ==> r@.len() == 0 && *final(dir) == *old(dir),
        msg is LeaveRoom ==> final(conn).room_id is None && r@.len() >= 1 && r@[0] is Unsubscribe,
        msg is LeaveRoom ==> (room_of(*old(dir), *old(conn)) matches Some(k) ==> {
            &&& r@.len() == 2
            &&& r@[1] matches Outgoing::RoomEvents { room_id, events } && room_id@ == old(dir).rooms@[k].id@
                && exists|room: Room| #[trigger] left_as(old(dir).rooms@[k], room, old(conn).session_id@, events@)
                    && room.id == old(dir).rooms@[k].id && final(dir).rooms@ == occupied_rooms(old(dir).rooms@.update(k, room))
        }),
        msg is LeaveRoom ==> room_of(*old(dir), *old(conn)) is None ==> r@.len() == 1 && final(dir).rooms@ == occupied_rooms(old(dir).rooms@),
        msg is LeaveRoom ==> forall|i: int| 0 <= i < final(dir).rooms@.len() ==> occupied(#[trigger] final(dir).rooms@[i]),
        !(msg is Ping || msg is JoinRoom || msg is CreateRoom || msg is LeaveRoom) && room_of(*old(dir), *old(conn)) is None ==> r@.len() == 0 && *final(dir) == *old(dir) && *final(conn) == *old(conn),
        !(msg is Ping || msg is JoinRoom || msg is CreateRoom || msg is LeaveRoom) ==> final(conn).room_id == old(conn).room_id,
        !(msg is JoinRoom || msg is CreateRoom || msg is LeaveRoom) ==> (room_of(*old(dir), *old(conn)) matches Some(k) ==> only_room_changed(*old(dir), *final(dir), k)),
        !(msg is Ping || msg is JoinRoom || msg is CreateRoom || msg is LeaveRoom) ==> (room_of(*old(dir), *old(conn)) matches Some(k) ==>
            exists|evs: Seq<RoomEvent>, rep: Seq<Outgoing>| {
                &&& #[trigger] acted_in_room(old(dir).rooms@[k], final(dir).rooms@[k], old(conn).session_id@, msg, evs, Seq::empty(), rep)
                &&& r@.len() == rep.len() + if evs.len() > 0 { 1int } else { 0 }
                &&& r@.subrange(0, rep.len() as int) == rep
                &&& evs.len() > 0 ==> (r@.last() matches Outgoing::RoomEvents { room_id, events } && room_id@ == old(dir).rooms@[k].id@ && events@ == evs)
            }),
{
    let mut out: Vec<Outgoing> = Vec::new();
    match msg {
        ClientMessage::Ping => {
            out.push(Outgoing::Reply(ServerMessage::Pong));
            out
        }
        ClientMessage::CreateRoom { name, config, username, token } => {
            if !config_usable(&config) {
                out.push(Outgoing::Reply(ServerMessage::Error { message: owned("Invalid board configuration") }));
                return out;
            }
            let user_id = account_of(sessions, &token);
            let code = dir.create_room(name, conn.session_id.clone(), config);
            let k = match locate(dir, code.as_str()) {
                Some(k) => k,
                None => {
                    return out;
                }
            };
            let (events, state) = enter_room(dir, k, conn, username.as_str(), user_id);
            conn.room_id = Some(code.clone());
            out.push(Outgoing::Unsubscribe);
            out.push(Outgoing::RoomEvents { room_id: code.clone(), events });
            out.push(Outgoing::Subscribe(code));
            out.push(Outgoing::Reply(ServerMessage::RoomState(state)));
            out
        }
        ClientMessage::JoinRoom { room_id, username, token } => {
            let k = match locate(dir, room_id.as_str()) {
                Some(k) => k,
                None => {
                    out.push(Outgoing::Reply(ServerMessage::Error { message: owned("Room not found") }));
                    return out;
                }
            };
            let user_id = account_of(sessions, &token);
            let (events, state) = enter_room(dir, k, conn, username.as_str(), user_id);
            proof {
                assert(dir.rooms@[k as int].id == old(dir).rooms@[k as int].id);
            }
            conn.room_id = Some(room_id.clone());
            out.push(Outgoing::Unsubscribe);
            out.push(Outgoing::RoomEvents { room_id: room_id.clone(), events });
            out.push(Outgoing::Subscribe(room_id));
            out.push(Outgoing::Reply(ServerMessage::RoomState(state)));
            out
        }
        ClientMessage::LeaveRoom => {
            out.push(Outgoing::Unsubscribe);
            let left = conn.room_id.take();
            if let Some(code) = left {
                if let Some(k) = locate(dir, code.as_str()) {
                    let ghost d0 = *dir;
                    let mut room = dir.rooms.remove(k);
                    proof {
                        assert(d0.rooms@[k as int].wf());
                    }
                    let events = room.remove_player(conn.session_id.as_str());
                    let ghost left = room;
                    dir.rooms.insert(k, room);
                    proof {
                        assert(dir.rooms@ =~= d0.rooms@.update(k as int, dir.rooms@[k as int]));
                        lemma_replace_room(d0, *dir, k as int);
                        assert(left_as(d0.rooms@[k as int], left, conn.session_id@, events@));
                    }
                    proof {
                        assert(d0.rooms@[k as int].id@ == code@);
                        assert(left.id == d0.rooms@[k as int].id);
                        assert(dir.rooms@ =~= d0.rooms@.update(k as int, left));
                    }
                    out.push(Outgoing::RoomEvents { room_id: code, events });
                    proof {
                        assert(out@[1] matches Outgoing::RoomEvents { room_id, events } && room_id@ == d0.rooms@[k as int].id@
                            && left_as(d0.rooms@[k as int], left, conn.session_id@, events@));
                    }
                }
            }
            dir.clean_empty_rooms();
            out
        }
        other => {
            let code = match &conn.room_id {
                Some(c) => c.clone(),
                None => {
                    return out;
                }
            };
            let k = match locate(dir, code.as_str()) {
                Some(k) => k,
                None => {
                    return out;
                }
            };
            let needs_host = match &other {
                ClientMessage::AddBot { .. } | ClientMessage::RemoveBot { .. } | ClientMessage::UpdateBotSpeed { .. } => true,
                _ => false,
            };
            if needs_host && !str_eq(dir.rooms[k].host_id.as_str(), conn.session_id.as_str()) {
                proof {
                    let rm = dir.rooms@[k as int];
                    assert(acted_in_room(rm, rm, conn.session_id@, other, Seq::empty(), Seq::empty(), out@));
                }
                return out;
            }
            let ghost d0 = *dir;
            let mut room = dir.rooms.remove(k);
            proof {
                assert(d0.rooms@[k as int].wf());
            }
            let ghost rep0 = out@;
            let events = act_in_room(&mut room, conn, other, &mut out);
            let ghost evs = events@;
            let ghost rep = out@;
            dir.rooms.insert(k, room);
            proof {
                assert(dir.rooms@ =~= d0.rooms@.update(k as int, dir.rooms@[k as int]));
                lemma_replace_room(d0, *dir, k as int);
                assert(rep0 =~= Seq::<Outgoing>::empty());
                assert(acted_in_room(d0.rooms@[k as int], dir.rooms@[k as int], conn.session_id@, other, evs, Seq::empty(), rep));
            }
            if events.len() > 0 {
                out.push(Outgoing::RoomEvents { room_id: code, events });
            }
            proof {
                assert(out@.subrange(0, rep.len() as int) =~= rep);
            }
            out
        }
    }
}

/// A client that disconnects leaves its room as if it had asked to.
pub fn disconnect(dir: &mut RoomManager, sessions: &SessionTable, conn: &mut Connection) -> (r: Vec<Outgoing>)
    requires
        old(dir).wf(),
        sessions.wf(),
    ensures
        final(dir).wf(),
        final(conn).room_id is None,
        forall|i: int| 0 <= i < final(dir).rooms@.len() ==> occupied(#[trigger] final(dir).rooms@[i]),
        room_of(*old(dir), *old(conn)) matches Some(k) ==> {
            &&& r@.len() == 2
            &&& r@[0] is Unsubscribe
            &&& r@[1] matches Outgoing::RoomEvents { room_id, events } && room_id@ == old(dir).rooms@[k].id@
                && exists|room: Room| #[trigger] left_as(old(dir).rooms@[k], room, old(conn).session_id@, events@)
                    && room.id == old(dir).rooms@[k].id && final(dir).rooms@ == occupied_rooms(old(dir).rooms@.update(k, room))
        },
        room_of(*old(dir), *old(conn)) is None ==> r@.len() == 1 && r@[0] is Unsubscribe && final(dir).rooms@ == occupied_rooms(old(dir).rooms@),
{
    handle_client_message(dir, sessions, conn, ClientMessage::LeaveRoom)
}

} // verus!
