//! The rules of a multiplayer room: who joins as host or spectator and in
//! which colour, readiness, starting a game, reveals, chords and flags by the
//! players with their scores, eliminations, the end of a game and its
//! winners. Each step gives the events the server then carries out.
use vstd::prelude::*;
use crate::board::{Board, BoardConfig, GameStatus, RevealResult, reveal_done, chord_done, RevealedCellInfo, uncovered_report, count_cells, Tally, with_mines_flagged, reports_uncovered, newly, laid_out, cell_coord, cell_index};
use crate::i18n::{Language, format_eliminated_msg, format_game_over_msg, format_player_joined_msg, joined_text, eliminated_text, game_over_text};
use crate::protocol::{PlayerInfo, RoomSnapshot, ChatMessagePayload, ScoreDelta, ServerMessage, RoomSummary, snapshot_cells};
use crate::solver::BotTier;
use crate::text::{owned, str_eq, u64_decimal, clone_opt};
use crate::elim::clamp_u64;
use crate::topology::Coord3D;

verus! {

/// The colours given to players in turn.
pub open spec fn palette_color(i: nat) -> Seq<char> {
    if i == 0 {
        "#8b5cf6"@
    } else if i == 1 {
        "#38bdf8"@
    } else if i == 2 {
        "#ec4899"@
    } else if i == 3 {
        "#10b981"@
    } else if i == 4 {
        "#f59e0b"@
    } else if i == 5 {
        "#a855f7"@
    } else if i == 6 {
        "#06b6d4"@
    } else {
        "#ef4444"@
    }
}

/// The colour of the player who joins a room of `count` players.
pub fn player_color(count: usize) -> (s: String)
    ensures
        s@ == palette_color((count % 8) as nat),
{
    let i = count % 8;
    if i == 0 {
        owned("#8b5cf6")
    } else if i == 1 {
        owned("#38bdf8")
    } else if i == 2 {
        owned("#ec4899")
    } else if i == 3 {
        owned("#10b981")
    } else if i == 4 {
        owned("#f59e0b")
    } else if i == 5 {
        owned("#a855f7")
    } else if i == 6 {
        owned("#06b6d4")
    } else {
        owned("#ef4444")
    }
}

#[derive(Debug)]
pub struct RoomPlayer {
    pub id: String,
    pub username: String,
    pub user_id: Option<String>,
    pub color: String,
    pub score: u32,
    pub is_eliminated: bool,
    pub is_host: bool,
    pub is_ready: bool,
    pub is_spectator: bool,
    pub is_bot: bool,
    pub bot_tier: Option<BotTier>,
}

/// What the other players see of `p`.
pub open spec fn info_of(p: RoomPlayer) -> PlayerInfo {
    PlayerInfo {
        id: p.id,
        username: p.username,
        color: p.color,
        score: p.score,
        is_eliminated: p.is_eliminated,
        is_host: p.is_host,
        is_ready: p.is_ready,
        is_spectator: p.is_spectator,
        is_bot: p.is_bot,
        bot_tier: p.bot_tier,
    }
}

impl RoomPlayer {
    pub fn to_info(&self) -> (i: PlayerInfo)
        ensures
            i == info_of(*self),
    {
        PlayerInfo {
            id: self.id.clone(),
            username: self.username.clone(),
            color: self.color.clone(),
            score: self.score,
            is_eliminated: self.is_eliminated,
            is_host: self.is_host,
            is_ready: self.is_ready,
            is_spectator: self.is_spectator,
            is_bot: self.is_bot,
            bot_tier: self.bot_tier,
        }
    }
}

/// What the server does after a step of the room.
#[derive(Debug)]
pub enum RoomEvent {
    /// Send this message to everyone in the room.
    Broadcast(ServerMessage),
    /// Store the scores of the registered players of a finished game, and
    /// its winner where registered.
    RecordMatch { scores: Vec<(String, u32)>, winner_user_id: Option<String> },
    /// Start the worker that plays for this bot.
    StartBot { bot_id: String, tier: BotTier },
    /// Stop the worker of this bot.
    StopBot { bot_id: String },
}

pub struct Room {
    pub id: String,
    pub name: String,
    pub host_id: String,
    pub config: BoardConfig,
    pub board: Board,
    pub status: GameStatus,
    pub players: Vec<RoomPlayer>,
    pub start_time_ms: Option<i64>,
    pub bot_speed_ms: u64,
}

/// The index of the player with id `id` in `players`, if any.
pub open spec fn player_index(players: Seq<RoomPlayer>, id: Seq<char>) -> Option<int> {
    if exists|i: int| 0 <= i < players.len() && (#[trigger] players[i]).id@ == id {
        Some(choose|i: int| 0 <= i < players.len() && (#[trigger] players[i]).id@ == id)
    } else {
        None
    }
}

/// No two players share an id.
pub open spec fn unique_ids(players: Seq<RoomPlayer>) -> bool {
    forall|i: int, j: int| 0 <= i < j < players.len() ==> (#[trigger] players[i]).id@ != (#[trigger] players[j]).id@
}

/// Seconds since `start` at time `now` (both in milliseconds), never below
/// zero; zero before a game has started.
pub open spec fn elapsed_secs(start: Option<i64>, now: i64) -> int {
    match start {
        None => 0,
        Some(st) => if now > st { (now - st) / 1000 } else { 0 },
    }
}

/// The index of the player with id `id`.
pub fn find_player(players: &Vec<RoomPlayer>, id: &str) -> (r: Option<usize>)
    ensures
        r matches Some(i) ==> i < players@.len() && players@[i as int].id@ == id@,
        r is None ==> forall|i: int| 0 <= i < players@.len() ==> (#[trigger] players@[i]).id@ != id@,
{
    let mut i: usize = 0;
    while i < players.len()
        invariant
            i <= players@.len(),
            forall|j: int| 0 <= j < i ==> (#[trigger] players@[j]).id@ != id@,
        decreases players@.len() - i,
    {
        if str_eq(players[i].id.as_str(), id) {
            return Some(i);
        }
        i = i + 1;
    }
    None
}

/// The shortest delay between two bot moves, in milliseconds.
pub const BOT_SPEED_MIN_MS: u64 = 200;

/// The longest delay between two bot moves, in milliseconds.
pub const BOT_SPEED_MAX_MS: u64 = 20000;

/// A requested bot delay brought into the range the rooms allow.
pub open spec fn bot_delay(v: u64) -> u64 {
    if v < BOT_SPEED_MIN_MS { BOT_SPEED_MIN_MS } else if v > BOT_SPEED_MAX_MS { BOT_SPEED_MAX_MS } else { v }
}

impl Room {
    /// The invariant of a room.
    pub open spec fn wf(self) -> bool {
        &&& self.board.wf()
        &&& self.board.config == self.config
        &&& self.config.mines <= self.board.dims.total()
        &&& self.board.dims.total() <= u32::MAX
        &&& unique_ids(self.players@)
        &&& forall|i: int| 0 <= i < self.players@.len() ==> (#[trigger] self.players@[i]).score <= self.board.revealed_count
        &&& BOT_SPEED_MIN_MS <= self.bot_speed_ms <= BOT_SPEED_MAX_MS
    }

    /// The player with id `id` is in a game in progress and not eliminated.
    pub open spec fn can_play(self, id: Seq<char>) -> bool {
        &&& self.status == GameStatus::Playing
        &&& match player_index(self.players@, id) {
            Some(k) => !self.players@[k].is_eliminated,
            None => false,
        }
    }

    /// A room waiting for players, its board fresh.
    pub fn new(id: String, name: String, host_id: String, config: BoardConfig) -> (r: Room)
        requires
            config.spec_dims().fits_usize(),
            config.spec_dims().fits_i32(),
            config.mines <= config.spec_dims().total(),
            config.spec_dims().total() <= u32::MAX,
        ensures
            r.wf(),
            r.id == id,
            r.name == name,
            r.host_id == host_id,
            r.config == config,
            r.board.cells@ == Board::fresh_cells(config),
            r.status == GameStatus::Waiting,
            r.players@.len() == 0,
            r.start_time_ms is None,
            r.bot_speed_ms == 800,
    {
        let board = Board::new(config);
        Room {
            id,
            name,
            host_id,
            config,
            board,
            status: GameStatus::Waiting,
            players: Vec::new(),
            start_time_ms: None,
            bot_speed_ms: 800,
        }
    }

    /// The state of the room at time `now_ms`.
    pub fn snapshot_at(&self, now_ms: i64) -> (s: RoomSnapshot)
        requires
            self.wf(),
        ensures
            s.room_id == self.id,
            s.name == self.name,
            s.host_id == self.host_id,
            s.config == self.config,
            s.status == self.status,
            s.players@ == self.players@.map_values(|p: RoomPlayer| info_of(p)),
            s.revealed_count == self.board.revealed_count,
            s.total_non_mines == self.board.dims.total() - self.config.mines,
            s.elapsed_seconds == elapsed_secs(self.start_time_ms, now_ms),
            s.cells@ == self.board.cells@.map_values(|c: crate::board::Cell| crate::protocol::snapshot_of(c)),
            s.bot_speed_ms == self.bot_speed_ms,
    {
        let elapsed: u64 = match self.start_time_ms {
            Some(st) => {
                if now_ms > st {
                    let d: i128 = now_ms as i128 - st as i128;
                    (d / 1000) as u64
                } else {
                    0
                }
            }
            None => 0,
        };
        let mut players: Vec<PlayerInfo> = Vec::new();
        let mut i: usize = 0;
        while i < self.players.len()
            invariant
                i <= self.players@.len(),
                players@ == self.players@.take(i as int).map_values(|p: RoomPlayer| info_of(p)),
            decreases self.players@.len() - i,
        {
            players.push(self.players[i].to_info());
            proof {
                assert(self.players@.take(i + 1) == self.players@.take(i as int).push(self.players@[i as int]));
                assert(self.players@.take(i + 1).map_values(|p: RoomPlayer| info_of(p)) =~= self.players@.take(i as int).map_values(|p: RoomPlayer| info_of(p)).push(info_of(self.players@[i as int])));
            }
            i = i + 1;
        }
        proof {
            assert(self.players@.take(self.players@.len() as int) == self.players@);
        }
        let total = self.board.dims.total_cells();
        RoomSnapshot {
            room_id: self.id.clone(),
            name: self.name.clone(),
            host_id: self.host_id.clone(),
            config: self.config,
            status: self.status,
            players,
            revealed_count: self.board.revealed_count,
            total_non_mines: total - self.config.mines,
            elapsed_seconds: elapsed,
            cells: snapshot_cells(&self.board.cells),
            bot_speed_ms: self.bot_speed_ms,
        }
    }

    /// The state of the room now.
    pub fn snapshot(&self) -> (s: RoomSnapshot)
        requires
            self.wf(),
        ensures
            s.room_id == self.id,
            s.name == self.name,
            s.host_id == self.host_id,
            s.config == self.config,
            s.status == self.status,
            s.players@ == self.players@.map_values(|p: RoomPlayer| info_of(p)),
            s.revealed_count == self.board.revealed_count,
            s.total_non_mines == self.board.dims.total() - self.config.mines,
            s.cells@ == self.board.cells@.map_values(|c: crate::board::Cell| crate::protocol::snapshot_of(c)),
            s.bot_speed_ms == self.bot_speed_ms,
    {
        let now = crate::chance::now_millis();
        self.snapshot_at(now)
    }

    /// The room as the lobby lists it: the host's name, or "Host" when the
    /// host is not in the room.
    pub fn summary(&self) -> (s: RoomSummary)
        requires
            unique_ids(self.players@),
        ensures
            s.id == self.id,
            s.name == self.name,
            s.player_count == self.players@.len(),
            s.difficulty == self.config.difficulty,
            s.status == self.status,
            s.host_name@ == match player_index(self.players@, self.host_id@) {
                Some(i) => self.players@[i].username@,
                None => "Host"@,
            },
    {
        let host_name = match find_player(&self.players, self.host_id.as_str()) {
            Some(i) => {
                proof {
                    assert(self.players@[i as int].id@ == self.host_id@);
                    let j = choose|j: int| 0 <= j < self.players@.len() && (#[trigger] self.players@[j]).id@ == self.host_id@;
                    if j != i as int {
                        if j < i as int {
                            assert(self.players@[j].id@ != self.players@[i as int].id@);
                        } else {
                            assert(self.players@[i as int].id@ != self.players@[j].id@);
                        }
                    }
                }
                self.players[i].username.clone()
            }
            None => owned("Host"),
        };
        RoomSummary {
            id: self.id.clone(),
            name: self.name.clone(),
            host_name,
            player_count: self.players.len(),
            difficulty: self.config.difficulty,
            status: self.status,
        }
    }
}


/// A chat line from the system, stamped now with a fresh id.
pub fn system_chat(color: &str, text: String, event_key: &str, params: Vec<String>) -> (c: ChatMessagePayload)
    ensures
        c.player_id is None,
        c.username@ == "SYSTEM"@,
        c.color matches Some(col) && col@ == color@,
        c.text == text,
        c.is_system,
        c.event_key matches Some(k) && k@ == event_key@,
        c.event_params == params,
{
    ChatMessagePayload {
        id: crate::chance::fresh_id(),
        player_id: None,
        username: owned("SYSTEM"),
        color: Some(owned(color)),
        text,
        is_system: true,
        timestamp: crate::chance::now_millis(),
        event_key: Some(owned(event_key)),
        event_params: params,
    }
}

/// Player `p` is the one that joins with these details.
pub open spec fn joined_as(p: RoomPlayer, id: Seq<char>, username: Seq<char>, user_id: Option<String>, color: Seq<char>, host: bool, spectator: bool) -> bool {
    &&& p.id@ == id
    &&& p.username@ == username
    &&& p.user_id == user_id
    &&& p.color@ == color
    &&& p.score == 0
    &&& p.is_eliminated == spectator
    &&& p.is_host == host
    &&& p.is_ready == host
    &&& p.is_spectator == spectator
    &&& !p.is_bot
    &&& p.bot_tier is None
}

/// `after` is `before` with `p` put in place of the player with the same id,
/// or added at the end when there is none.
pub open spec fn placed(before: Seq<RoomPlayer>, after: Seq<RoomPlayer>, p: RoomPlayer) -> bool {
    match player_index(before, p.id@) {
        Some(k) => after == before.update(k, p),
        None => after == before.push(p),
    }
}

/// The room state message of `room`: its code, name, host, configuration,
/// players, board progress and bot delay as they are.
pub open spec fn state_of(m: ServerMessage, room: Room) -> bool {
    m matches ServerMessage::RoomState(s) && s.players@ == room.players@.map_values(|p: RoomPlayer| info_of(p))
        && s.status == room.status && s.revealed_count == room.board.revealed_count
        && s.room_id == room.id && s.name == room.name && s.host_id == room.host_id && s.config == room.config
        && s.bot_speed_ms == room.bot_speed_ms
}

impl Room {
    /// Puts `p` in place of the player with its id, or adds it at the end.
    fn place(&mut self, p: RoomPlayer)
        requires
            old(self).wf(),
            p.score <= old(self).board.revealed_count,
        ensures
            final(self).wf(),
            final(self).id == old(self).id,
            placed(old(self).players@, final(self).players@, p),
            final(self).board == old(self).board,
            final(self).config == old(self).config,
            final(self).status == old(self).status,
            final(self).host_id == old(self).host_id,
            final(self).start_time_ms == old(self).start_time_ms,
            final(self).bot_speed_ms == old(self).bot_speed_ms,
            final(self).id == old(self).id,
            final(self).name == old(self).name,
    {
        match find_player(&self.players, p.id.as_str()) {
            Some(k) => {
                proof {
                    let j = choose|j: int| 0 <= j < self.players@.len() && (#[trigger] self.players@[j]).id@ == p.id@;
                    if j != k as int {
                        if j < k as int {
                            assert(self.players@[j].id@ != self.players@[k as int].id@);
                        } else {
                            assert(self.players@[k as int].id@ != self.players@[j].id@);
                        }
                    }
                }
                let ghost before = self.players@;
                self.players.set(k, p);
                proof {
                    assert forall|i: int, j: int| 0 <= i < j < self.players@.len() implies (#[trigger] self.players@[i]).id@ != (#[trigger] self.players@[j]).id@ by {
                        if i != k as int && j != k as int {
                            assert(before[i].id@ != before[j].id@);
                        } else if i == k as int {
                            assert(before[k as int].id@ != before[j].id@);
                        } else {
                            assert(before[i].id@ != before[k as int].id@);
                        }
                    }
                }
            }
            None => {
                let ghost before = self.players@;
                self.players.push(p);
                proof {
                    assert forall|i: int, j: int| 0 <= i < j < self.players@.len() implies (#[trigger] self.players@[i]).id@ != (#[trigger] self.players@[j]).id@ by {
                        if j < before.len() {
                            assert(before[i].id@ != before[j].id@);
                        }
                    }
                }
            }
        }
    }

    /// A player joins: the first one is the host (and ready), one who joins a
    /// game in progress watches it as an eliminated spectator, and each takes
    /// the next colour. Everyone is told in the chat and sent the new state.
    pub fn add_player(&mut self, session_id: &str, username: &str, user_id: Option<String>) -> (r: (PlayerInfo, Vec<RoomEvent>))
        requires
            old(self).wf(),
        ensures
            final(self).wf(),
            final(self).id == old(self).id,
            final(self).board == old(self).board,
            final(self).config == old(self).config,
            final(self).status == old(self).status,
            exists|p: RoomPlayer| {
                &&& joined_as(p, session_id@, username@, user_id, palette_color((old(self).players@.len() % 8) as nat), old(self).players@.len() == 0, old(self).status == GameStatus::Playing)
                &&& placed(old(self).players@, final(self).players@, p)
                &&& r.0 == info_of(p)
            },
            old(self).players@.len() == 0 ==> final(self).host_id@ == session_id@,
            old(self).players@.len() != 0 ==> final(self).host_id == old(self).host_id,
            r.1@.len() == 2,
            r.1@[0] matches RoomEvent::Broadcast(ServerMessage::ChatMessage(c)) && c.text@ == joined_text(Language::En, username@)
                && c.event_params@.len() == 1 && c.event_params@[0]@ == username@,
            r.1@[1] matches RoomEvent::Broadcast(m) && state_of(m, *final(self)),
    {
        let is_host = self.players.len() == 0;
        let color = player_color(self.players.len());
        let is_spectator = self.status == GameStatus::Playing;
        let player = RoomPlayer {
            id: owned(session_id),
            username: owned(username),
            user_id,
            color,
            score: 0,
            is_eliminated: is_spectator,
            is_host,
            is_ready: is_host,
            is_spectator,
            is_bot: false,
            bot_tier: None,
        };
        let info = player.to_info();
        let ghost p = player;
        self.place(player);
        if is_host {
            self.host_id = owned(session_id);
        }
        let text = format_player_joined_msg(Language::En, username);
        let mut params: Vec<String> = Vec::new();
        params.push(owned(username));
        let chat = system_chat("#a855f7", text, "player_joined", params);
        let mut events: Vec<RoomEvent> = Vec::new();
        events.push(RoomEvent::Broadcast(ServerMessage::ChatMessage(chat)));
        events.push(RoomEvent::Broadcast(ServerMessage::RoomState(self.snapshot())));
        proof {
            assert(joined_as(p, session_id@, username@, user_id, palette_color((old(self).players@.len() % 8) as nat), old(self).players@.len() == 0, old(self).status == GameStatus::Playing));
        }
        (info, events)
    }
}


/// The name a bot of `tier` plays under.
pub open spec fn bot_name(tier: BotTier) -> Seq<char> {
    match tier {
        BotTier::Novice => "[AI] Pascal (Novice)"@,
        BotTier::Intermediate => "[AI] Boole (Intermediate)"@,
        BotTier::Advanced => "[AI] Lovelace (Advanced)"@,
        BotTier::Master => "[AI] Turing (Master)"@,
    }
}

fn make_bot_name(tier: BotTier) -> (s: String)
    ensures
        s@ == bot_name(tier),
{
    let mut s = String::new();
    match tier {
        BotTier::Novice => s.append("[AI] Pascal ("),
        BotTier::Intermediate => s.append("[AI] Boole ("),
        BotTier::Advanced => s.append("[AI] Lovelace ("),
        BotTier::Master => s.append("[AI] Turing ("),
    }
    s.append(tier.name_en());
    s.append(")");
    proof {
        reveal_strlit("[AI] Pascal (");
        reveal_strlit("[AI] Boole (");
        reveal_strlit("[AI] Lovelace (");
        reveal_strlit("[AI] Turing (");
        reveal_strlit("Novice");
        reveal_strlit("Intermediate");
        reveal_strlit("Advanced");
        reveal_strlit("Master");
        reveal_strlit(")");
        reveal_strlit("[AI] Pascal (Novice)");
        reveal_strlit("[AI] Boole (Intermediate)");
        reveal_strlit("[AI] Lovelace (Advanced)");
        reveal_strlit("[AI] Turing (Master)");
        assert(s@ =~= bot_name(tier));
    }
    s
}

/// `after` is room `before` once the player with id `id` has left, with the
/// events `r` that announce it: the host's role passes on when the host
/// leaves.
pub open spec fn left_as(before: Room, after: Room, id: Seq<char>, r: Seq<RoomEvent>) -> bool {
    &&& player_index(before.players@, id) is None ==> r.len() == 0 && after.players@ == before.players@ && after.host_id == before.host_id
    &&& (player_index(before.players@, id) matches Some(k) ==> {
        let rest = before.players@.remove(k);
        &&& after.players@.len() == rest.len()
        &&& forall|j: int| 0 <= j < rest.len() ==> #[trigger] after.players@[j].id@ == rest[j].id@
        &&& (before.host_id@ == id && rest.len() > 0) ==> {
            let h = next_host(rest);
            &&& after.host_id@ == rest[h].id@
            &&& after.players@[h] == (RoomPlayer { is_host: true, ..rest[h] })
            &&& forall|j: int| 0 <= j < rest.len() && j != h ==> #[trigger] after.players@[j] == rest[j]
        }
        &&& !(before.host_id@ == id && rest.len() > 0) ==> after.players@ == rest && after.host_id == before.host_id
        &&& (before.players@[k].is_bot ==> r.len() == 2 && (r[0] matches RoomEvent::StopBot { bot_id } && bot_id@ == id))
        &&& (!before.players@[k].is_bot ==> r.len() == 1)
        &&& r[r.len() - 1] matches RoomEvent::Broadcast(m) && state_of(m, after)
    })
}

impl Room {
    /// A bot of `tier` joins under its tier's name, ready, with the next
    /// colour and an id of `bot_` and eight characters of a fresh identifier;
    /// `speed_ms`, when given, becomes the bots' delay (held between 200 ms
    /// and 20 s). Its worker is started,
    /// everyone is told in the chat and sent the new state.
    pub fn add_bot(&mut self, tier: BotTier, speed_ms: Option<u64>) -> (r: (String, Vec<RoomEvent>))
        requires
            old(self).wf(),
        ensures
            final(self).wf(),
            final(self).id == old(self).id,
            final(self).board == old(self).board,
            final(self).status == old(self).status,
            final(self).host_id == old(self).host_id,
            final(self).bot_speed_ms == match speed_ms { Some(v) => bot_delay(v), None => old(self).bot_speed_ms },
            r.0@.len() == 12 && r.0@.subrange(0, 4) == "bot_"@,
            exists|p: RoomPlayer| {
                &&& p.id@ == r.0@
                &&& p.username@ == bot_name(tier)
                &&& p.user_id is None
                &&& p.color@ == palette_color((old(self).players@.len() % 8) as nat)
                &&& p.score == 0
                &&& !p.is_eliminated && !p.is_host && p.is_ready && !p.is_spectator
                &&& p.is_bot && p.bot_tier == Some(tier)
                &&& placed(old(self).players@, final(self).players@, p)
            },
            r.1@.len() == 3,
            r.1@[0] matches RoomEvent::StartBot { bot_id, tier: t } && bot_id@ == r.0@ && t == tier,
            r.1@[1] matches RoomEvent::Broadcast(ServerMessage::ChatMessage(c)) && c.text@ == "AI ["@ + bot_name(tier) + "] joined the room."@
                && c.event_params@.len() == 1 && c.event_params@[0]@ == bot_name(tier),
            r.1@[2] matches RoomEvent::Broadcast(m) && state_of(m, *final(self)),
    {
        let uid = crate::chance::fresh_id();
        let mut bot_id = owned("bot_");
        bot_id.append(uid.as_str().substring_char(0, 8));
        proof {
            reveal_strlit("bot_");
            assert(bot_id@.subrange(0, 4) =~= "bot_"@);
        }
        let name = make_bot_name(tier);
        match speed_ms {
            Some(spd) => {
                self.bot_speed_ms = clamp_u64(spd, BOT_SPEED_MIN_MS, BOT_SPEED_MAX_MS);
            }
            None => {}
        }
        let color = player_color(self.players.len());
        let player = RoomPlayer {
            id: bot_id.clone(),
            username: name.clone(),
            user_id: None,
            color,
            score: 0,
            is_eliminated: false,
            is_host: false,
            is_ready: true,
            is_spectator: false,
            is_bot: true,
            bot_tier: Some(tier),
        };
        let ghost p = player;
        self.place(player);
        let mut events: Vec<RoomEvent> = Vec::new();
        events.push(RoomEvent::StartBot { bot_id: bot_id.clone(), tier });
        let mut text = owned("AI [");
        text.append(name.as_str());
        text.append("] joined the room.");
        let mut params: Vec<String> = Vec::new();
        params.push(name);
        let chat = system_chat("#a855f7", text, "player_joined", params);
        events.push(RoomEvent::Broadcast(ServerMessage::ChatMessage(chat)));
        events.push(RoomEvent::Broadcast(ServerMessage::RoomState(self.snapshot())));
        (bot_id, events)
    }

    /// The player with id `session_id` leaves; a bot's worker is stopped.
    /// When the host leaves, the first remaining human (or else the first
    /// remaining bot) becomes host. Everyone is sent the new state. Nothing
    /// happens for an id not in the room.
    pub fn remove_player(&mut self, session_id: &str) -> (r: Vec<RoomEvent>)
        requires
            old(self).wf(),
        ensures
            final(self).wf(),
            final(self).id == old(self).id,
            final(self).board == old(self).board,
            final(self).status == old(self).status,
            left_as(*old(self), *final(self), session_id@, r@),
    {
        let mut events: Vec<RoomEvent> = Vec::new();
        let k = match find_player(&self.players, session_id) {
            Some(k) => k,
            None => {
                proof {
                    assert(!(exists|i: int| 0 <= i < old(self).players@.len() && (#[trigger] old(self).players@[i]).id@ == session_id@));
                }
                return events;
            }
        };
        proof {
            let j = choose|j: int| 0 <= j < self.players@.len() && (#[trigger] self.players@[j]).id@ == session_id@;
            if j != k as int {
                if j < k as int {
                    assert(self.players@[j].id@ != self.players@[k as int].id@);
                } else {
                    assert(self.players@[k as int].id@ != self.players@[j].id@);
                }
            }
        }
        let removed = self.drop_player(k);
        let ghost rest = self.players@;
        if removed.is_bot {
            events.push(RoomEvent::StopBot { bot_id: owned(session_id) });
        }
        if str_eq(self.host_id.as_str(), session_id) && self.players.len() > 0 {
            let h = first_human_or_first(&self.players);
            self.promote_host(h);
        }
        events.push(RoomEvent::Broadcast(ServerMessage::RoomState(self.snapshot())));
        events
    }

    /// Takes out the player at index `k`.
    fn drop_player(&mut self, k: usize) -> (p: RoomPlayer)
        requires
            old(self).wf(),
            k < old(self).players@.len(),
        ensures
            final(self).wf(),
            final(self).id == old(self).id,
            p == old(self).players@[k as int],
            final(self).players@ == old(self).players@.remove(k as int),
            final(self).board == old(self).board,
            final(self).config == old(self).config,
            final(self).status == old(self).status,
            final(self).host_id == old(self).host_id,
            final(self).start_time_ms == old(self).start_time_ms,
            final(self).bot_speed_ms == old(self).bot_speed_ms,
    {
        let ghost before = self.players@;
        let removed = self.players.remove(k);
        proof {
            assert forall|i: int, j: int| 0 <= i < j < self.players@.len() implies (#[trigger] self.players@[i]).id@ != (#[trigger] self.players@[j]).id@ by {
                let i2 = if i < k { i } else { i + 1 };
                let j2 = if j < k { j } else { j + 1 };
                assert(self.players@[i] == before[i2]);
                assert(self.players@[j] == before[j2]);
                assert(before[i2].id@ != before[j2].id@);
            }
            assert forall|i: int| 0 <= i < self.players@.len() implies (#[trigger] self.players@[i]).score <= self.board.revealed_count by {
                let i2 = if i < k { i } else { i + 1 };
                assert(self.players@[i] == before[i2]);
            }
        }
        removed
    }

    /// Makes the player at index `h` the host.
    fn promote_host(&mut self, h: usize)
        requires
            old(self).wf(),
            h < old(self).players@.len(),
        ensures
            final(self).wf(),
            final(self).id == old(self).id,
            final(self).players@ == old(self).players@.update(h as int, RoomPlayer { is_host: true, ..old(self).players@[h as int] }),
            final(self).host_id@ == old(self).players@[h as int].id@,
            final(self).board == old(self).board,
            final(self).config == old(self).config,
            final(self).status == old(self).status,
            final(self).start_time_ms == old(self).start_time_ms,
            final(self).bot_speed_ms == old(self).bot_speed_ms,
    {
        let ghost before = self.players@;
        let new_id = self.players[h].id.clone();
        let mut p = self.players.remove(h);
        p.is_host = true;
        self.players.insert(h, p);
        self.host_id = new_id;
        proof {
            assert(self.players@ =~= before.update(h as int, RoomPlayer { is_host: true, ..before[h as int] }));
            assert forall|i: int, j: int| 0 <= i < j < self.players@.len() implies (#[trigger] self.players@[i]).id@ != (#[trigger] self.players@[j]).id@ by {
                assert(before[i].id@ != before[j].id@);
            }
            assert forall|i: int| 0 <= i < self.players@.len() implies (#[trigger] self.players@[i]).score <= self.board.revealed_count by {
                assert(before[i].score <= self.board.revealed_count);
            }
        }
    }

    /// A bot leaves: its worker is stopped and it is removed as a player.
    pub fn remove_bot(&mut self, bot_id: &str) -> (r: Vec<RoomEvent>)
        requires
            old(self).wf(),
        ensures
            final(self).wf(),
            final(self).id == old(self).id,
            final(self).board == old(self).board,
            final(self).status == old(self).status,
            left_as(*old(self), *final(self), bot_id@, r@),
    {
        self.remove_player(bot_id)
    }

    /// A player says whether they are ready; everyone is sent the new state.
    pub fn set_ready(&mut self, session_id: &str, ready: bool) -> (r: Vec<RoomEvent>)
        requires
            old(self).wf(),
        ensures
            final(self).wf(),
            final(self).id == old(self).id,
            final(self).board == old(self).board,
            final(self).status == old(self).status,
            final(self).host_id == old(self).host_id,
            player_index(old(self).players@, session_id@) is None ==> r@.len() == 0 && final(self).players@ == old(self).players@,
            player_index(old(self).players@, session_id@) matches Some(k) ==>
                final(self).players@ == old(self).players@.update(k, RoomPlayer { is_ready: ready, ..old(self).players@[k] })
                && r@.len() == 1 && (r@[0] matches RoomEvent::Broadcast(m) && state_of(m, *final(self))),
    {
        match find_player(&self.players, session_id) {
            Some(k) => {
                proof {
                    let j = choose|j: int| 0 <= j < self.players@.len() && (#[trigger] self.players@[j]).id@ == session_id@;
                    if j != k as int {
                        if j < k as int {
                            assert(self.players@[j].id@ != self.players@[k as int].id@);
                        } else {
                            assert(self.players@[k as int].id@ != self.players@[j].id@);
                        }
                    }
                }
                let ghost before = self.players@;
                let mut p = self.players.remove(k);
                p.is_ready = ready;
                self.players.insert(k, p);
                proof {
                    assert(self.players@ =~= before.update(k as int, RoomPlayer { is_ready: ready, ..before[k as int] }));
                    assert forall|i: int, j: int| 0 <= i < j < self.players@.len() implies (#[trigger] self.players@[i]).id@ != (#[trigger] self.players@[j]).id@ by {
                        assert(before[i].id@ != before[j].id@);
                    }
                    assert forall|i: int| 0 <= i < self.players@.len() implies (#[trigger] self.players@[i]).score <= self.board.revealed_count by {
                        assert(before[i].score <= self.board.revealed_count);
                    }
                }
                let mut events: Vec<RoomEvent> = Vec::new();
                events.push(RoomEvent::Broadcast(ServerMessage::RoomState(self.snapshot())));
                events
            }
            None => {
                proof {
                    assert(!(exists|i: int| 0 <= i < old(self).players@.len() && (#[trigger] old(self).players@[i]).id@ == session_id@));
                }
                Vec::new()
            }
        }
    }

    /// Sets the bots' delay, held between 200 ms and 20 s; everyone is sent
    /// the new state.
    pub fn update_bot_speed(&mut self, speed_ms: u64) -> (r: Vec<RoomEvent>)
        requires
            old(self).wf(),
        ensures
            final(self).wf(),
            final(self).id == old(self).id,
            final(self).bot_speed_ms == bot_delay(speed_ms),
            final(self).players@ == old(self).players@,
            final(self).board == old(self).board,
            final(self).status == old(self).status,
            r@.len() == 1,
            r@[0] matches RoomEvent::Broadcast(m) && state_of(m, *final(self)),
    {
        self.bot_speed_ms = clamp_u64(speed_ms, BOT_SPEED_MIN_MS, BOT_SPEED_MAX_MS);
        let mut events: Vec<RoomEvent> = Vec::new();
        events.push(RoomEvent::Broadcast(ServerMessage::RoomState(self.snapshot())));
        events
    }
}

/// The index of the player who becomes host: the first human, or the first
/// player when all are bots.
pub open spec fn next_host(players: Seq<RoomPlayer>) -> int {
    if exists|i: int| 0 <= i < players.len() && !(#[trigger] players[i]).is_bot {
        choose|i: int| 0 <= i < players.len() && !(#[trigger] players[i]).is_bot && forall|j: int| 0 <= j < i ==> (#[trigger] players[j]).is_bot
    } else {
        0
    }
}

fn first_human_or_first(players: &Vec<RoomPlayer>) -> (h: usize)
    requires
        players@.len() > 0,
    ensures
        h == next_host(players@),
        h < players@.len(),
{
    let mut i: usize = 0;
    while i < players.len()
        invariant
            i <= players@.len(),
            forall|j: int| 0 <= j < i ==> (#[trigger] players@[j]).is_bot,
        decreases players@.len() - i,
    {
        if !players[i].is_bot {
            proof {
                let c = choose|c: int| 0 <= c < players@.len() && !(#[trigger] players@[c]).is_bot && forall|j: int| 0 <= j < c ==> (#[trigger] players@[j]).is_bot;
                if c < i {
                    assert(players@[c].is_bot);
                }
                if c > i {
                    assert(players@[i as int].is_bot);
                }
            }
            return i;
        }
        i = i + 1;
    }
    0
}


/// `order` lists the indices below `n` once each, by decreasing score, and
/// in increasing index among equal scores.
pub open spec fn ranked(order: Seq<usize>, scores: Seq<u32>, n: nat) -> bool {
    &&& order.len() == n
    &&& forall|t: int| 0 <= t < order.len() ==> #[trigger] order[t] < n
    &&& forall|t: int, u: int| 0 <= t < u < order.len() ==> (#[trigger] order[t]) != (#[trigger] order[u])
    &&& forall|t: int, u: int| 0 <= t < u < order.len() ==> scores[(#[trigger] order[t]) as int] > scores[(#[trigger] order[u]) as int]
        || (scores[order[t] as int] == scores[order[u] as int] && order[t] < order[u])
}

/// The indices of `scores` by decreasing score, keeping the order of equal
/// scores.
pub fn rank_scores(scores_v: &Vec<u32>) -> (order: Vec<usize>)
    ensures
        ranked(order@, scores_v@, scores_v@.len()),
{
    let ghost scores = scores_v@;
    let mut order: Vec<usize> = Vec::new();
    let mut i: usize = 0;
    while i < scores_v.len()
        invariant
            i <= scores_v@.len(),
            scores == scores_v@,
            ranked(order@, scores, i as nat),
        decreases scores_v@.len() - i,
    {
        let si = scores_v[i];
        let mut pos: usize = 0;
        while pos < order.len() && scores_v[order[pos]] >= si
            invariant
                pos <= order@.len(),
                ranked(order@, scores, i as nat),
                i < scores_v@.len(),
                scores == scores_v@,
                si == scores[i as int],
                forall|t: int| 0 <= t < pos ==> scores[#[trigger] order@[t] as int] >= si,
            decreases order@.len() - pos,
        {
            proof {
                assert(order@[pos as int] < i);
            }
            pos = pos + 1;
        }
        let ghost before = order@;
        proof {
            if pos < before.len() {
                assert(before[pos as int] < i);
                assert(scores[before[pos as int] as int] < si);
                assert forall|t: int| pos <= t < before.len() implies scores[#[trigger] before[t] as int] < si by {
                    if t > pos {
                        assert(scores[before[pos as int] as int] > scores[before[t] as int] || (scores[before[pos as int] as int] == scores[before[t] as int] && before[pos as int] < before[t]));
                    }
                }
            }
        }
        order.insert(pos, i);
        proof {
            assert forall|t: int| 0 <= t < order@.len() implies #[trigger] order@[t] < i + 1 by {
                if t < pos {
                    assert(order@[t] == before[t]);
                } else if t > pos {
                    assert(order@[t] == before[t - 1]);
                }
            }
            assert forall|t: int, u: int| 0 <= t < u < order@.len() implies (#[trigger] order@[t]) != (#[trigger] order@[u]) by {
                if t < pos && u < pos {
                    assert(order@[t] == before[t] && order@[u] == before[u]);
                } else if t < pos && u == pos {
                    assert(order@[t] == before[t]);
                } else if t < pos && u > pos {
                    assert(order@[t] == before[t] && order@[u] == before[u - 1]);
                } else if t == pos {
                    assert(order@[u] == before[u - 1]);
                } else {
                    assert(order@[t] == before[t - 1] && order@[u] == before[u - 1]);
                }
            }
            assert forall|t: int, u: int| 0 <= t < u < order@.len() implies scores[(#[trigger] order@[t]) as int] > scores[(#[trigger] order@[u]) as int]
                || (scores[order@[t] as int] == scores[order@[u] as int] && order@[t] < order@[u]) by {
                if t < pos && u < pos {
                    assert(order@[t] == before[t] && order@[u] == before[u]);
                } else if t < pos && u == pos {
                    assert(order@[t] == before[t]);
                    assert(scores[before[t] as int] >= si);
                    assert(before[t] < i);
                } else if t < pos && u > pos {
                    assert(order@[t] == before[t] && order@[u] == before[u - 1]);
                } else if t == pos {
                    assert(order@[u] == before[u - 1]);
                    assert(scores[before[u - 1] as int] < si);
                } else {
                    assert(order@[t] == before[t - 1] && order@[u] == before[u - 1]);
                }
            }
        }
        i = i + 1;
    }
    order
}

/// The player indices by decreasing score, keeping the order of equal scores.
pub fn rank_players(players: &Vec<RoomPlayer>) -> (order: Vec<usize>)
    ensures
        ranked(order@, players@.map_values(|p: RoomPlayer| p.score), players@.len()),
{
    let mut scores: Vec<u32> = Vec::new();
    let mut i: usize = 0;
    while i < players.len()
        invariant
            i <= players@.len(),
            scores@ == players@.take(i as int).map_values(|p: RoomPlayer| p.score),
        decreases players@.len() - i,
    {
        scores.push(players[i].score);
        i = i + 1;
        proof {
            assert(scores@ =~= players@.take(i as int).map_values(|p: RoomPlayer| p.score));
        }
    }
    proof {
        assert(players@.take(players@.len() as int) =~= players@);
    }
    rank_scores(&scores)
}

/// The usernames of the players with the top score, in room order, when
/// that score is above zero.
pub open spec fn winner_names(players: Seq<RoomPlayer>, top: u32) -> Seq<Seq<char>> {
    players.filter(wins(top)).map_values(|p: RoomPlayer| p.username@)
}

/// A player with score `top`, when `top` is above zero.
pub open spec fn wins(top: u32) -> spec_fn(RoomPlayer) -> bool {
    |p: RoomPlayer| p.score == top && top > 0
}

/// The players' scores, in room order.
pub open spec fn score_list(players: Seq<RoomPlayer>) -> Seq<u32> {
    players.map_values(|p: RoomPlayer| p.score)
}

/// `table` gives each player's score, in the order `order`.
pub open spec fn final_table(table: Seq<ScoreDelta>, players: Seq<RoomPlayer>, order: Seq<usize>) -> bool {
    &&& table.len() == order.len()
    &&& forall|u: int| 0 <= u < order.len() ==> {
        &&& (#[trigger] table[u]).player_id@ == players[order[u] as int].id@
        &&& table[u].points == players[order[u] as int].score
        &&& table[u].total_score == players[order[u] as int].score
    }
}

/// The (account, score) of each registered player, in room order.
pub open spec fn registered_scores(players: Seq<RoomPlayer>) -> Seq<(Seq<char>, u32)>
    decreases players.len(),
{
    if players.len() == 0 {
        Seq::empty()
    } else {
        let prev = registered_scores(players.drop_last());
        match players.last().user_id {
            Some(u) => prev.push((u@, players.last().score)),
            None => prev,
        }
    }
}

/// After the final table, the chat names the leader `top` and its score,
/// and the scores of the registered players are recorded with the leader's
/// account as the winner's.
pub open spec fn closing_events(r: Seq<RoomEvent>, players: Seq<RoomPlayer>, top: RoomPlayer) -> bool {
    &&& r.len() == 4
    &&& r[1] matches RoomEvent::Broadcast(ServerMessage::ChatMessage(c))
        && c.text@ == game_over_text(Language::En, top.username@, top.score as nat) && c.is_system
    &&& r[2] matches RoomEvent::RecordMatch { scores, winner_user_id }
        && winner_user_id == top.user_id
        && scores@.map_values(|e: (String, u32)| (e.0@, e.1)) == registered_scores(players)
}

impl Room {
    /// The game ends once every cell without a mine is uncovered (won: every
    /// covered mine gets a flag) or every player is eliminated (lost). The
    /// final scores are given best first (ties in room order); the winners
    /// are the players with the top score, if it is above zero; the chat
    /// names the first of the ranking and its score; the scores of the
    /// registered players are recorded; everyone is sent the new state.
    pub fn check_game_over(&mut self) -> (r: Vec<RoomEvent>)
        requires
            old(self).wf(),
        ensures
            final(self).wf(),
            final(self).id == old(self).id,
            final(self).players@ == old(self).players@,
            final(self).host_id == old(self).host_id,
            final(self).board.revealed_count == old(self).board.revealed_count,
            final(self).board.status == old(self).board.status,
            final(self).board.dims == old(self).board.dims,
            final(self).board.is_generated == old(self).board.is_generated,
            final(self).config == old(self).config,
            ({
                let all_revealed = old(self).board.revealed_count >= old(self).board.dims.total() - old(self).config.mines;
                let all_eliminated = old(self).players@.len() > 0 && forall|i: int| 0 <= i < old(self).players@.len() ==> (#[trigger] old(self).players@[i]).is_eliminated;
                &&& !(all_revealed || all_eliminated) ==> r@.len() == 0 && *final(self) == *old(self)
                &&& (all_revealed || all_eliminated) ==> {
                    &&& final(self).status == if all_revealed { GameStatus::Won } else { GameStatus::Lost }
                    &&& all_revealed ==> final(self).board.cells@ == with_mines_flagged(old(self).board.cells@)
                    &&& !all_revealed ==> final(self).board == old(self).board
                    &&& r@.len() >= 2
                    &&& r@[0] matches RoomEvent::Broadcast(ServerMessage::GameOver { winners, final_scores }) && {
                        &&& final_scores@.len() == old(self).players@.len()
                        &&& forall|t: int, u: int| 0 <= t < u < final_scores@.len() ==> (#[trigger] final_scores@[t]).points >= (#[trigger] final_scores@[u]).points
                        &&& old(self).players@.len() > 0 ==> winners@.map_values(|w: String| w@) == winner_names(old(self).players@, final_scores@[0].points)
                        &&& exists|order: Seq<usize>| #[trigger] ranked(order, score_list(old(self).players@), old(self).players@.len())
                            && final_table(final_scores@, old(self).players@, order)
                            && (old(self).players@.len() > 0 ==> closing_events(r@, old(self).players@, old(self).players@[order[0] as int]))
                    }
                    &&& r@[r@.len() - 1] matches RoomEvent::Broadcast(m) && state_of(m, *final(self))
                }
            }),
    {
        let total = self.board.dims.total_cells();
        let all_revealed = self.board.revealed_count >= total - self.config.mines;
        let mut all_eliminated = self.players.len() > 0;
        let mut i: usize = 0;
        while i < self.players.len()
            invariant
                i <= self.players@.len(),
                all_eliminated == (self.players@.len() > 0 && forall|j: int| 0 <= j < i ==> (#[trigger] self.players@[j]).is_eliminated),
            decreases self.players@.len() - i,
        {
            if !self.players[i].is_eliminated {
                all_eliminated = false;
            }
            i = i + 1;
        }
        let mut events: Vec<RoomEvent> = Vec::new();
        if !(all_revealed || all_eliminated) {
            return events;
        }
        if all_revealed {
            self.board.flag_covered_mines();
            self.status = GameStatus::Won;
        } else {
            self.status = GameStatus::Lost;
        }
        let order = rank_players(&self.players);
        let ghost scores = self.players@.map_values(|p: RoomPlayer| p.score);
        let mut final_scores: Vec<ScoreDelta> = Vec::new();
        let mut t: usize = 0;
        while t < order.len()
            invariant
                t <= order@.len(),
                ranked(order@, scores, self.players@.len() as nat),
                scores == self.players@.map_values(|p: RoomPlayer| p.score),
                final_scores@.len() == t,
                forall|u: int| 0 <= u < t ==> (#[trigger] final_scores@[u]).points == scores[order@[u] as int]
                    && final_scores@[u].total_score == scores[order@[u] as int]
                    && final_scores@[u].player_id@ == self.players@[order@[u] as int].id@,
            decreases order@.len() - t,
        {
            let p = &self.players[order[t]];
            final_scores.push(ScoreDelta { player_id: p.id.clone(), points: p.score, total_score: p.score });
            t = t + 1;
        }
        let mut winners: Vec<String> = Vec::new();
        if order.len() > 0 {
            let top = self.players[order[0]].score;
            let ghost ps = self.players@;
            let mut j: usize = 0;
            while j < self.players.len()
                invariant
                    j <= ps.len(),
                    ps == self.players@,
                    winners@.map_values(|w: String| w@) == ps.take(j as int).filter(wins(top)).map_values(|p: RoomPlayer| p.username@),
                decreases ps.len() - j,
            {
                let ghost before = winners@;
                if self.players[j].score == top && top > 0 {
                    winners.push(self.players[j].username.clone());
                }
                proof {
                    let f = wins(top);
                    reveal_with_fuel(Seq::<RoomPlayer>::filter, 1);
                    assert(ps.take(j + 1).drop_last() == ps.take(j as int));
                    assert(ps.take(j + 1).filter(f) == if f(ps[j as int]) { ps.take(j as int).filter(f).push(ps[j as int]) } else { ps.take(j as int).filter(f) });
                    if f(ps[j as int]) {
                        assert(winners@.map_values(|w: String| w@) =~= before.map_values(|w: String| w@).push(ps[j as int].username@));
                        assert(ps.take(j + 1).filter(f).map_values(|p: RoomPlayer| p.username@) =~= ps.take(j as int).filter(f).map_values(|p: RoomPlayer| p.username@).push(ps[j as int].username@));
                    } else {
                        assert(winners@ == before);
                    }
                }
                j = j + 1;
            }
            proof {
                assert(ps.take(ps.len() as int) == ps);
            }
        }
        events.push(RoomEvent::Broadcast(ServerMessage::GameOver { winners, final_scores }));
        if order.len() > 0 {
            let top_player = &self.players[order[0]];
            let text = format_game_over_msg(Language::En, top_player.username.as_str(), top_player.score);
            let mut params: Vec<String> = Vec::new();
            params.push(top_player.username.clone());
            params.push(u64_decimal(top_player.score as u64));
            let chat = system_chat("#fbbf24", text, "game_over", params);
            events.push(RoomEvent::Broadcast(ServerMessage::ChatMessage(chat)));
            let mut scores_rec: Vec<(String, u32)> = Vec::new();
            let mut j: usize = 0;
            while j < self.players.len()
                invariant
                    j <= self.players@.len(),
                    scores_rec@.map_values(|e: (String, u32)| (e.0@, e.1)) == registered_scores(self.players@.take(j as int)),
                decreases self.players@.len() - j,
            {
                proof {
                    assert(self.players@.take(j + 1).drop_last() =~= self.players@.take(j as int));
                    assert(self.players@.take(j + 1).last() == self.players@[j as int]);
                }
                let ghost before = scores_rec@;
                match &self.players[j].user_id {
                    Some(uid) => {
                        scores_rec.push((uid.clone(), self.players[j].score));
                        proof {
                            assert(scores_rec@.map_values(|e: (String, u32)| (e.0@, e.1)) =~= before.map_values(|e: (String, u32)| (e.0@, e.1)).push((uid@, self.players@[j as int].score)));
                        }
                    }
                    None => {}
                }
                j = j + 1;
            }
            proof {
                assert(self.players@.take(self.players@.len() as int) =~= self.players@);
            }
            events.push(RoomEvent::RecordMatch { scores: scores_rec, winner_user_id: clone_opt(&top_player.user_id) });
        }
        events.push(RoomEvent::Broadcast(ServerMessage::RoomState(self.snapshot())));
        proof {
            assert(score_list(old(self).players@) == scores);
            assert(ranked(order@, score_list(old(self).players@), old(self).players@.len()));
        }
        events
    }
}


/// A report of uncovered cells that lists a newly uncovered cell is not empty.
proof fn lemma_report_nonempty(dims: crate::topology::Dimensions, before: Seq<crate::board::Cell>, after: Seq<crate::board::Cell>, report: Seq<RevealedCellInfo>, i: int)
    requires
        reports_uncovered(dims, before, after, report),
        0 <= i < before.len(),
        newly(before, after, i),
    ensures
        report.len() > 0,
{
    let k = choose|k: int| 0 <= k < report.len() && #[trigger] report[k].coord == cell_coord(dims, i);
}

/// How a room ends a move of the player `session_id` whose board step left
/// the board `b1` and reported `res`: the board keeps what the step did
/// (with every covered mine flagged when the game is won); a step that
/// uncovers cells is announced with those cells and the player's score, a
/// mine with the player's elimination, and any other step changes nothing
/// more and announces nothing.
pub open spec fn turn_settled(b1: Board, before: Seq<RoomPlayer>, after: Room, session_id: Seq<char>, res: RevealResult, r: Seq<RoomEvent>) -> bool {
    let shows = res is FirstClickGenerated || (res is Success && uncovered_report(res).len() > 0);
    &&& after.board.revealed_count == b1.revealed_count
    &&& after.board.status == b1.status
    &&& after.board.cells@ == b1.cells@ || after.board.cells@ == with_mines_flagged(b1.cells@)
    &&& !(shows || res is HitMine) ==> r.len() == 0 && after.players@ == before && after.board == b1
    &&& shows ==> r.len() >= 1 && (r[0] matches RoomEvent::Broadcast(ServerMessage::CellsRevealed { revealed, score_deltas }) && {
        &&& revealed@ == uncovered_report(res)
        &&& score_deltas@.len() == 1
        &&& score_deltas@[0].player_id@ == session_id
    })
    &&& res matches RevealResult::HitMine { hit_coord: h, .. } ==> r.len() >= 2
        && (r[0] matches RoomEvent::Broadcast(ServerMessage::PlayerEliminated { player_id, hit_coord, .. }) && player_id@ == session_id && hit_coord == h)
}

/// What a step by the player at index `k` did to the players: every other
/// player is as before, and player `k` only gained `points` and was
/// eliminated (and made a spectator) when `hit`.
pub open spec fn scored(before: Seq<RoomPlayer>, after: Seq<RoomPlayer>, k: int, points: int, hit: bool) -> bool {
    &&& after.len() == before.len()
    &&& forall|j: int| 0 <= j < before.len() && j != k ==> #[trigger] after[j] == before[j]
    &&& after[k] == (RoomPlayer {
        score: (before[k].score + points) as u32,
        is_eliminated: before[k].is_eliminated || hit,
        is_spectator: before[k].is_spectator || hit,
        ..before[k]
    })
}

impl Room {
    /// Adds `pts` to the score of the player at index `k`.
    fn credit(&mut self, k: usize, pts: u32)
        requires
            old(self).wf(),
            k < old(self).players@.len(),
            old(self).players@[k as int].score + pts <= old(self).board.revealed_count,
        ensures
            final(self).wf(),
            final(self).id == old(self).id,
            final(self).players@ == old(self).players@.update(k as int, RoomPlayer { score: (old(self).players@[k as int].score + pts) as u32, ..old(self).players@[k as int] }),
            final(self).board == old(self).board,
            final(self).config == old(self).config,
            final(self).status == old(self).status,
            final(self).host_id == old(self).host_id,
            final(self).start_time_ms == old(self).start_time_ms,
            final(self).bot_speed_ms == old(self).bot_speed_ms,
    {
        let ghost before = self.players@;
        proof {
            crate::board::lemma_count_bound(self.board.cells@, Tally::RevealedSafe);
        }
        let mut p = self.players.remove(k);
        p.score = p.score + pts;
        self.players.insert(k, p);
        proof {
            assert(self.players@ =~= before.update(k as int, RoomPlayer { score: (before[k as int].score + pts) as u32, ..before[k as int] }));
            assert forall|i: int, j: int| 0 <= i < j < self.players@.len() implies (#[trigger] self.players@[i]).id@ != (#[trigger] self.players@[j]).id@ by {
                assert(before[i].id@ != before[j].id@);
            }
            assert forall|i: int| 0 <= i < self.players@.len() implies (#[trigger] self.players@[i]).score <= self.board.revealed_count by {
                assert(before[i].score <= self.board.revealed_count);
            }
        }
    }

    /// Eliminates the player at index `k`, who watches from then on.
    fn eliminate(&mut self, k: usize)
        requires
            old(self).wf(),
            k < old(self).players@.len(),
        ensures
            final(self).wf(),
            final(self).id == old(self).id,
            final(self).players@ == old(self).players@.update(k as int, RoomPlayer { is_eliminated: true, is_spectator: true, ..old(self).players@[k as int] }),
            final(self).board == old(self).board,
            final(self).config == old(self).config,
            final(self).status == old(self).status,
            final(self).host_id == old(self).host_id,
            final(self).start_time_ms == old(self).start_time_ms,
            final(self).bot_speed_ms == old(self).bot_speed_ms,
    {
        let ghost before = self.players@;
        let mut p = self.players.remove(k);
        p.is_eliminated = true;
        p.is_spectator = true;
        self.players.insert(k, p);
        proof {
            assert(self.players@ =~= before.update(k as int, RoomPlayer { is_eliminated: true, is_spectator: true, ..before[k as int] }));
            assert forall|i: int, j: int| 0 <= i < j < self.players@.len() implies (#[trigger] self.players@[i]).id@ != (#[trigger] self.players@[j]).id@ by {
                assert(before[i].id@ != before[j].id@);
            }
            assert forall|i: int| 0 <= i < self.players@.len() implies (#[trigger] self.players@[i]).score <= self.board.revealed_count by {
                assert(before[i].score <= self.board.revealed_count);
            }
        }
    }

    /// The events of a reveal or chord by the player at index `k` (whose name
    /// and colour are given) that ended with `result`: points and the cells
    /// uncovered, or the elimination; then the check for the end of the game.
    fn settle(&mut self, k: usize, session_id: &str, name: String, result: RevealResult, before_count: usize) -> (r: Vec<RoomEvent>)
        requires
            old(self).wf(),
            k < old(self).players@.len(),
            before_count <= old(self).board.revealed_count,
            old(self).players@[k as int].score <= before_count,
            old(self).players@[k as int].id@ == session_id@,
            result is FirstClickGenerated ==> uncovered_report(result).len() >= 1,
            (result is FirstClickGenerated || result is Success) ==> old(self).board.revealed_count == before_count + uncovered_report(result).len(),
            !(result is FirstClickGenerated || result is Success) ==> old(self).board.revealed_count >= before_count,
        ensures
            final(self).wf(),
            final(self).id == old(self).id,
            final(self).host_id == old(self).host_id,
            ({
                let points = if result is FirstClickGenerated { 1 } else if result is Success { uncovered_report(result).len() as int } else { 0 };
                scored(old(self).players@, final(self).players@, k as int, points, result is HitMine)
            }),
            final(self).board.revealed_count == old(self).board.revealed_count,
            final(self).board.status == old(self).board.status,
            (result is FirstClickGenerated || result is Success || result is HitMine) ==> r@.len() >= 1,
            !(result is FirstClickGenerated || result is Success || result is HitMine) ==> r@.len() == 0 && *final(self) == *old(self),
            (result is FirstClickGenerated || result is Success) ==> (r@[0] matches RoomEvent::Broadcast(ServerMessage::CellsRevealed { revealed, score_deltas }) && {
                &&& revealed@ == uncovered_report(result)
                &&& score_deltas@.len() == 1
                &&& score_deltas@[0].player_id@ == session_id@
                &&& score_deltas@[0].points == (if result is FirstClickGenerated { 1 } else { uncovered_report(result).len() })
                &&& score_deltas@[0].total_score == final(self).players@[k as int].score
            }),
            final(self).board.cells@ == old(self).board.cells@ || final(self).board.cells@ == with_mines_flagged(old(self).board.cells@),
            !(result is FirstClickGenerated || result is Success || result is HitMine) ==> final(self).board == old(self).board,
            result matches RevealResult::HitMine { hit_coord: h, .. } ==> (r@[0] matches RoomEvent::Broadcast(ServerMessage::PlayerEliminated { hit_coord, .. }) && hit_coord == h),
            result is HitMine ==> r@.len() >= 2 && (r@[0] matches RoomEvent::Broadcast(ServerMessage::PlayerEliminated { player_id, username, hit_coord, all_mines }) && player_id@ == session_id@ && username@ == name@)
                && (r@[1] matches RoomEvent::Broadcast(ServerMessage::ChatMessage(c)) && c.text@ == eliminated_text(Language::En, name@)),
    {
        proof {
            crate::board::lemma_count_bound(self.board.cells@, Tally::RevealedSafe);
        }
        let ghost res = result;
        let mut events: Vec<RoomEvent> = Vec::new();
        match result {
            RevealResult::FirstClickGenerated { revealed } => {
                self.credit(k, 1);
                let total = self.players[k].score;
                let mut deltas: Vec<ScoreDelta> = Vec::new();
                deltas.push(ScoreDelta { player_id: owned(session_id), points: 1, total_score: total });
                events.push(RoomEvent::Broadcast(ServerMessage::CellsRevealed { revealed, score_deltas: deltas }));
            }
            RevealResult::Success { revealed } => {
                let pts = revealed.len() as u32;
                self.credit(k, pts);
                let total = self.players[k].score;
                let mut deltas: Vec<ScoreDelta> = Vec::new();
                deltas.push(ScoreDelta { player_id: owned(session_id), points: pts, total_score: total });
                events.push(RoomEvent::Broadcast(ServerMessage::CellsRevealed { revealed, score_deltas: deltas }));
            }
            RevealResult::HitMine { hit_coord, all_mines, revealed_by: _ } => {
                self.eliminate(k);
                events.push(RoomEvent::Broadcast(ServerMessage::PlayerEliminated {
                    player_id: owned(session_id),
                    username: name.clone(),
                    hit_coord,
                    all_mines,
                }));
                let text = format_eliminated_msg(Language::En, name.as_str());
                let mut params: Vec<String> = Vec::new();
                params.push(name);
                let chat = system_chat("#ef4444", text, "player_eliminated", params);
                events.push(RoomEvent::Broadcast(ServerMessage::ChatMessage(chat)));
            }
            _ => {
                return events;
            }
        }
        let ghost mid = *self;
        let ghost ev = events@;
        let more = self.check_game_over();
        let mut more = more;
        events.append(&mut more);
        proof {
            assert(self.players@ == mid.players@);
            assert(events@[0] == ev[0]);
        }
        events
    }

    /// A reveal by a player who is still in the game: a first click scores
    /// one point, any other reveal a point per cell uncovered; a mine
    /// eliminates the player. Everyone is told, and the end of the game is
    /// checked. Nothing happens outside a game in progress, or for a player
    /// not in the room or eliminated.
    pub fn handle_reveal(&mut self, session_id: &str, coord: Coord3D) -> (r: Vec<RoomEvent>)
        requires
            old(self).wf(),
        ensures
            final(self).wf(),
            final(self).id == old(self).id,
            final(self).host_id == old(self).host_id,
            (old(self).status != GameStatus::Playing || player_index(old(self).players@, session_id@) is None) ==> r@.len() == 0 && *final(self) == *old(self),
            old(self).status == GameStatus::Playing ==> (player_index(old(self).players@, session_id@) matches Some(k) ==> {
                &&& old(self).players@[k].is_eliminated ==> r@.len() == 0 && *final(self) == *old(self)
                &&& !old(self).players@[k].is_eliminated ==> {
                    let first_click = !old(self).board.is_generated && old(self).board.dims.valid(coord) && !old(self).board.at(coord).is_flagged;
                    let gained = final(self).board.revealed_count - old(self).board.revealed_count;
                    let hit = old(self).board.status != GameStatus::Lost && final(self).board.status == GameStatus::Lost;
                    &&& final(self).board.revealed_count >= old(self).board.revealed_count
                    &&& scored(old(self).players@, final(self).players@, k, if first_click { 1 } else { gained }, hit)
                    &&& exists|res: RevealResult, b1: Board, pid: String, color: String| {
                        &&& pid@ == session_id@
                        &&& color@ == old(self).players@[k].color@
                        &&& #[trigger] reveal_done(old(self).board, b1, coord, Some(pid), Some(color), res)
                        &&& turn_settled(b1, old(self).players@, *final(self), session_id@, res, r@)
                    }
                }
            }),
    {
        if self.status != GameStatus::Playing {
            return Vec::new();
        }
        let k = match find_player(&self.players, session_id) {
            Some(k) => k,
            None => {
                proof {
                    assert(!(exists|i: int| 0 <= i < old(self).players@.len() && (#[trigger] old(self).players@[i]).id@ == session_id@));
                }
                return Vec::new();
            }
        };
        proof {
            let j = choose|j: int| 0 <= j < self.players@.len() && (#[trigger] self.players@[j]).id@ == session_id@;
            if j != k as int {
                if j < k as int {
                    assert(self.players@[j].id@ != self.players@[k as int].id@);
                } else {
                    assert(self.players@[k as int].id@ != self.players@[j].id@);
                }
            }
        }
        if self.players[k].is_eliminated {
            return Vec::new();
        }
        let name = self.players[k].username.clone();
        let color = self.players[k].color.clone();
        let before_count = self.board.revealed_count;
        let ghost b0 = self.board;
        let pid = owned(session_id);
        let ghost gpid = pid;
        let ghost gcolor = color;
        let result = self.board.reveal_cell(coord, Some(pid), Some(color));
        let ghost b1 = self.board;
        let ghost res = result;
        proof {
            if result is Success {
                let i = b0.idx(coord);
                crate::board::lemma_valid_index(b0.dims, coord);
                lemma_report_nonempty(b0.dims, laid_out(b0.cells@, self.board.cells@), self.board.cells@, uncovered_report(result), i);
            }
            let first_click = !b0.is_generated && b0.dims.valid(coord) && !b0.at(coord).is_flagged;
            if result is FirstClickGenerated {
                let i = b0.idx(coord);
                crate::board::lemma_valid_index(b0.dims, coord);
                lemma_report_nonempty(b0.dims, laid_out(b0.cells@, self.board.cells@), self.board.cells@, uncovered_report(result), i);
            }
            assert(self.board.revealed_count <= self.board.dims.total()) by {
                crate::board::lemma_count_bound(self.board.cells@, Tally::RevealedSafe);
            }
            assert forall|i: int| 0 <= i < self.players@.len() implies (#[trigger] self.players@[i]).score <= self.board.revealed_count by {
                assert(self.players@[i].score <= b0.revealed_count);
            }
            assert((result is HitMine) == (b0.status != GameStatus::Lost && self.board.status == GameStatus::Lost));
        }
        let r = self.settle(k, session_id, name, result, before_count);
        proof {
            assert(gpid@ == session_id@);
            assert(gcolor@ == old(self).players@[k as int].color@);
            assert(reveal_done(b0, b1, coord, Some(gpid), Some(gcolor), res));
            assert(turn_settled(b1, old(self).players@, *self, session_id@, res, r@));
        }
        r
    }
}


/// `c` is white space as `char::is_whitespace` has it (the Unicode
/// White_Space property).
pub open spec fn is_space(c: char) -> bool {
    ||| ('\u{9}' <= c && c <= '\u{d}')
    ||| c == ' '
    ||| c == '\u{85}'
    ||| c == '\u{a0}'
    ||| c == '\u{1680}'
    ||| ('\u{2000}' <= c && c <= '\u{200a}')
    ||| c == '\u{2028}'
    ||| c == '\u{2029}'
    ||| c == '\u{202f}'
    ||| c == '\u{205f}'
    ||| c == '\u{3000}'
}

/// Whether `s` is empty once white space is trimmed: every character is
/// white space.
pub fn is_blank(s: &str) -> (b: bool)
    ensures
        b == forall|i: int| 0 <= i < s@.len() ==> is_space(#[trigger] s@[i]),
{
    let n = s.unicode_len();
    let mut i: usize = 0;
    while i < n
        invariant
            i <= n,
            n == s@.len(),
            forall|j: int| 0 <= j < i ==> is_space(#[trigger] s@[j]),
        decreases n - i,
    {
        let c = s.get_char(i);
        let space = ('\u{9}' <= c && c <= '\u{d}') || c == ' ' || c == '\u{85}' || c == '\u{a0}' || c == '\u{1680}'
            || ('\u{2000}' <= c && c <= '\u{200a}') || c == '\u{2028}' || c == '\u{2029}' || c == '\u{202f}'
            || c == '\u{205f}' || c == '\u{3000}';
        if !space {
            proof {
                assert(!is_space(s@[i as int]));
            }
            return false;
        }
        i = i + 1;
    }
    true
}

impl Room {
    /// A chord by a player who is still in the game: a point per cell
    /// uncovered, or elimination on a mine; a chord that uncovers nothing
    /// changes nothing. Everyone is told, and the end of the game is checked.
    pub fn handle_chord(&mut self, session_id: &str, coord: Coord3D) -> (r: Vec<RoomEvent>)
        requires
            old(self).wf(),
        ensures
            final(self).wf(),
            final(self).id == old(self).id,
            final(self).host_id == old(self).host_id,
            (old(self).status != GameStatus::Playing || player_index(old(self).players@, session_id@) is None) ==> r@.len() == 0 && *final(self) == *old(self),
            old(self).status == GameStatus::Playing ==> (player_index(old(self).players@, session_id@) matches Some(k) ==> {
                &&& old(self).players@[k].is_eliminated ==> r@.len() == 0 && *final(self) == *old(self)
                &&& !old(self).players@[k].is_eliminated ==> {
                    let gained = final(self).board.revealed_count - old(self).board.revealed_count;
                    let hit = old(self).board.status != GameStatus::Lost && final(self).board.status == GameStatus::Lost;
                    let b = old(self).board;
                    let noop = b.is_over() || !b.dims.valid(coord) || !b.at(coord).is_revealed || b.at(coord).adjacent_mines == 0
                        || b.flags_around(coord) != b.at(coord).adjacent_mines;
                    &&& final(self).board.revealed_count >= old(self).board.revealed_count
                    &&& scored(old(self).players@, final(self).players@, k, if hit { 0 } else { gained }, hit)
                    &&& noop ==> r@.len() == 0 && *final(self) == *old(self)
                    &&& exists|res: RevealResult, b1: Board, pid: String, color: String| {
                        &&& pid@ == session_id@
                        &&& color@ == old(self).players@[k].color@
                        &&& #[trigger] chord_done(old(self).board, b1, coord, Some(pid), Some(color), res)
                        &&& turn_settled(b1, old(self).players@, *final(self), session_id@, res, r@)
                    }
                    &&& !noop && hit ==> r@.len() >= 2 && (r@[0] matches RoomEvent::Broadcast(ServerMessage::PlayerEliminated { player_id, .. }) && player_id@ == session_id@)
                    &&& !noop && !hit && gained == 0 ==> r@.len() == 0 && final(self).players@ == old(self).players@
                    &&& !noop && !hit && gained > 0 ==> r@.len() >= 1 && (r@[0] matches RoomEvent::Broadcast(ServerMessage::CellsRevealed { revealed, score_deltas }) && {
                        &&& revealed@.len() == gained
                        &&& score_deltas@.len() == 1
                        &&& score_deltas@[0].player_id@ == session_id@
                        &&& score_deltas@[0].points == gained
                    })
                }
            }),
    {
        if self.status != GameStatus::Playing {
            return Vec::new();
        }
        let k = match find_player(&self.players, session_id) {
            Some(k) => k,
            None => {
                proof {
                    assert(!(exists|i: int| 0 <= i < old(self).players@.len() && (#[trigger] old(self).players@[i]).id@ == session_id@));
                }
                return Vec::new();
            }
        };
        proof {
            let j = choose|j: int| 0 <= j < self.players@.len() && (#[trigger] self.players@[j]).id@ == session_id@;
            if j != k as int {
                if j < k as int {
                    assert(self.players@[j].id@ != self.players@[k as int].id@);
                } else {
                    assert(self.players@[k as int].id@ != self.players@[j].id@);
                }
            }
        }
        if self.players[k].is_eliminated {
            return Vec::new();
        }
        let name = self.players[k].username.clone();
        let color = self.players[k].color.clone();
        let before_count = self.board.revealed_count;
        let ghost b0 = self.board;
        let ghost r0 = *self;
        let pid = owned(session_id);
        let ghost gpid = pid;
        let ghost gcolor = color;
        let result = self.board.chord(coord, Some(pid), Some(color));
        let ghost b1 = self.board;
        let ghost res = result;
        let empty = match &result {
            RevealResult::Success { revealed } => revealed.len() == 0,
            _ => false,
        };
        proof {
            assert forall|i: int| 0 <= i < self.players@.len() implies (#[trigger] self.players@[i]).score <= self.board.revealed_count by {
                assert(self.players@[i].score <= b0.revealed_count);
            }
            assert((result is HitMine) == (b0.status != GameStatus::Lost && self.board.status == GameStatus::Lost));
            assert(gpid@ == session_id@);
            assert(gcolor@ == old(self).players@[k as int].color@);
            assert(chord_done(b0, b1, coord, Some(gpid), Some(gcolor), res));
        }
        if empty {
            proof {
                assert(self.board.revealed_count == b0.revealed_count);
                assert(turn_settled(b1, old(self).players@, *self, session_id@, res, Seq::empty()));
            }
            return Vec::new();
        }
        let r = self.settle(k, session_id, name, result, before_count);
        proof {
            assert(turn_settled(b1, old(self).players@, *self, session_id@, res, r@));
        }
        r
    }

    /// A player still in the game puts a flag on, or takes it off, a covered
    /// cell; everyone is told where and how.
    pub fn handle_toggle_flag(&mut self, session_id: &str, coord: Coord3D) -> (r: Vec<RoomEvent>)
        requires
            old(self).wf(),
            old(self).can_play(session_id@) ==> old(self).board.idx(coord) < old(self).board.dims.total(),
        ensures
            final(self).wf(),
            final(self).id == old(self).id,
            final(self).players@ == old(self).players@,
            final(self).status == old(self).status,
            final(self).host_id == old(self).host_id,
            ({
                let active = old(self).can_play(session_id@);
                let ok = !old(self).board.is_over() && old(self).board.dims.valid(coord) && !old(self).board.at(coord).is_revealed;
                &&& !(active && ok) ==> r@.len() == 0 && *final(self) == *old(self)
                &&& active && ok ==> {
                    &&& final(self).board.cells@ == old(self).board.cells@.update(old(self).board.idx(coord),
                        crate::board::Cell { is_flagged: !old(self).board.at(coord).is_flagged, ..old(self).board.at(coord) })
                    &&& r@.len() == 1
                    &&& r@[0] matches RoomEvent::Broadcast(ServerMessage::PlayerFlagToggled { coord: c, is_flagged, player_id })
                        && c == coord && is_flagged == !old(self).board.at(coord).is_flagged && player_id@ == session_id@
                }
            }),
    {
        let mut events: Vec<RoomEvent> = Vec::new();
        if self.status != GameStatus::Playing {
            return events;
        }
        let eliminated = match find_player(&self.players, session_id) {
            Some(k) => {
                proof {
                    let j = choose|j: int| 0 <= j < self.players@.len() && (#[trigger] self.players@[j]).id@ == session_id@;
                    if j != k as int {
                        if j < k as int {
                            assert(self.players@[j].id@ != self.players@[k as int].id@);
                        } else {
                            assert(self.players@[k as int].id@ != self.players@[j].id@);
                        }
                    }
                }
                self.players[k].is_eliminated
            }
            None => {
                proof {
                    assert(!(exists|i: int| 0 <= i < old(self).players@.len() && (#[trigger] old(self).players@[i]).id@ == session_id@));
                }
                true
            }
        };
        if eliminated {
            return events;
        }
        proof {
            crate::board::lemma_count_bound(self.board.cells@, Tally::RevealedSafe);
        }
        let will_flag = !self.board.get_cell(coord).is_flagged;
        let ghost b0 = self.board;
        if self.board.toggle_flag(coord) {
            events.push(RoomEvent::Broadcast(ServerMessage::PlayerFlagToggled { coord, is_flagged: will_flag, player_id: owned(session_id) }));
        }
        proof {
            assert forall|i: int| 0 <= i < self.players@.len() implies (#[trigger] self.players@[i]).score <= self.board.revealed_count by {
                assert(self.players@[i].score <= b0.revealed_count);
            }
        }
        events
    }

    /// A chat line from a player in the room, passed on to everyone unless it
    /// is blank.
    pub fn handle_chat(&self, session_id: &str, text: &str) -> (r: Vec<RoomEvent>)
        requires
            unique_ids(self.players@),
        ensures
            (player_index(self.players@, session_id@) is None || forall|i: int| 0 <= i < text@.len() ==> is_space(#[trigger] text@[i])) ==> r@.len() == 0,
            player_index(self.players@, session_id@) matches Some(k) ==> !(forall|i: int| 0 <= i < text@.len() ==> is_space(#[trigger] text@[i])) ==> {
                &&& r@.len() == 1
                &&& r@[0] matches RoomEvent::Broadcast(ServerMessage::ChatMessage(c)) && {
                    &&& c.player_id matches Some(pid) && pid@ == session_id@
                    &&& c.username == self.players@[k].username
                    &&& c.color == Some(self.players@[k].color)
                    &&& c.text@ == text@
                    &&& !c.is_system
                    &&& c.event_key is None
                    &&& c.event_params@.len() == 0
                }
            },
    {
        let mut events: Vec<RoomEvent> = Vec::new();
        let k = match find_player(&self.players, session_id) {
            Some(k) => k,
            None => {
                proof {
                    assert(!(exists|i: int| 0 <= i < self.players@.len() && (#[trigger] self.players@[i]).id@ == session_id@));
                }
                return events;
            }
        };
        proof {
            let j = choose|j: int| 0 <= j < self.players@.len() && (#[trigger] self.players@[j]).id@ == session_id@;
            if j != k as int {
                if j < k as int {
                    assert(self.players@[j].id@ != self.players@[k as int].id@);
                } else {
                    assert(self.players@[k as int].id@ != self.players@[j].id@);
                }
            }
        }
        if is_blank(text) {
            return events;
        }
        let chat = ChatMessagePayload {
            id: crate::chance::fresh_id(),
            player_id: Some(owned(session_id)),
            username: self.players[k].username.clone(),
            color: Some(self.players[k].color.clone()),
            text: owned(text),
            is_system: false,
            timestamp: crate::chance::now_millis(),
            event_key: None,
            event_params: Vec::new(),
        };
        events.push(RoomEvent::Broadcast(ServerMessage::ChatMessage(chat)));
        events
    }

    /// The host starts a game: a fresh board, every player back in with no
    /// points; everyone is told and sent the new state. Only the host may
    /// start, and not while a game is in progress.
    pub fn start_game(&mut self, session_id: &str) -> (r: Result<Vec<RoomEvent>, String>)
        requires
            old(self).wf(),
        ensures
            final(self).wf(),
            final(self).id == old(self).id,
            final(self).name == old(self).name,
            final(self).host_id == old(self).host_id,
            final(self).config == old(self).config,
            final(self).bot_speed_ms == old(self).bot_speed_ms,
            old(self).host_id@ != session_id@ ==> (r matches Err(e) && e@ == "Only the room host can start the game"@) && *final(self) == *old(self),
            old(self).host_id@ == session_id@ && old(self).status == GameStatus::Playing ==> (r matches Err(e) && e@ == "Game is already in progress"@) && *final(self) == *old(self),
            old(self).host_id@ == session_id@ && old(self).status != GameStatus::Playing ==> {
                &&& r is Ok
                &&& final(self).status == GameStatus::Playing
                &&& final(self).start_time_ms is Some
                &&& final(self).board.cells@ == Board::fresh_cells(old(self).config)
                &&& !final(self).board.is_generated
                &&& final(self).players@ == old(self).players@.map_values(|p: RoomPlayer| RoomPlayer { score: 0, is_eliminated: false, is_spectator: false, ..p })
                &&& r->Ok_0@.len() == 3
                &&& r->Ok_0@[0] matches RoomEvent::Broadcast(ServerMessage::GameStarted { config }) && config == old(self).config
                &&& r->Ok_0@[1] matches RoomEvent::Broadcast(ServerMessage::ChatMessage(c)) && c.text@ == "Game started!"@ && c.event_params@.len() == 0
                &&& r->Ok_0@[2] matches RoomEvent::Broadcast(m) && state_of(m, *final(self))
            },
    {
        if !str_eq(self.host_id.as_str(), session_id) {
            return Err(owned("Only the room host can start the game"));
        }
        if self.status == GameStatus::Playing {
            return Err(owned("Game is already in progress"));
        }
        self.status = GameStatus::Playing;
        self.start_time_ms = Some(crate::chance::now_millis());
        self.board = Board::new(self.config);
        let mut players: Vec<RoomPlayer> = Vec::new();
        std::mem::swap(&mut players, &mut self.players);
        let ghost before = players@;
        let mut i: usize = 0;
        while i < players.len()
            invariant
                i <= players@.len(),
                players@.len() == before.len(),
                forall|j: int| 0 <= j < i ==> #[trigger] players@[j] == (RoomPlayer { score: 0, is_eliminated: false, is_spectator: false, ..before[j] }),
                forall|j: int| i <= j < before.len() ==> #[trigger] players@[j] == before[j],
            decreases players@.len() - i,
        {
            let ghost mid = players@;
            let mut p = players.remove(i);
            p.score = 0;
            p.is_eliminated = false;
            p.is_spectator = false;
            players.insert(i, p);
            proof {
                assert forall|j: int| 0 <= j < players@.len() && j != i implies #[trigger] players@[j] == mid[j] by {}
            }
            i = i + 1;
        }
        self.players = players;
        proof {
            assert(self.players@ =~= before.map_values(|p: RoomPlayer| RoomPlayer { score: 0, is_eliminated: false, is_spectator: false, ..p }));
            assert(self.board.wf());
            assert(self.board.config == self.config);
            assert forall|a: int| 0 <= a < self.players@.len() implies (#[trigger] self.players@[a]).score <= self.board.revealed_count by {
                assert(self.players@[a].score == 0);
            }
            assert forall|a: int, b: int| 0 <= a < b < self.players@.len() implies (#[trigger] self.players@[a]).id@ != (#[trigger] self.players@[b]).id@ by {
                assert(before[a].id@ != before[b].id@);
            }
        }
        let mut events: Vec<RoomEvent> = Vec::new();
        events.push(RoomEvent::Broadcast(ServerMessage::GameStarted { config: self.config }));
        let chat = system_chat("#38bdf8", owned("Game started!"), "game_started", Vec::new());
        events.push(RoomEvent::Broadcast(ServerMessage::ChatMessage(chat)));
        events.push(RoomEvent::Broadcast(ServerMessage::RoomState(self.snapshot())));
        Ok(events)
    }
}

} // verus!
