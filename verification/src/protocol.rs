//! The messages and snapshots that clients and server exchange.
use vstd::prelude::*;
use crate::board::{BoardConfig, Cell, Difficulty, GameStatus, RevealedCellInfo};
use crate::solver::BotTier;
use crate::text::clone_opt;
use crate::topology::Coord3D;

verus! {

#[derive(Debug, Clone)]
pub struct PlayerInfo {
    pub id: String,
    pub username: String,
    pub color: String,
    pub score: u32,
    pub is_eliminated: bool,
    pub is_host: bool,
    pub is_ready: bool,
    pub is_spectator: bool,
    pub is_bot: bool,
    pub bot_tier: Option<BotTier>,
}

#[derive(Debug, Clone)]
pub struct RoomSnapshot {
    pub room_id: String,
    pub name: String,
    pub host_id: String,
    pub config: BoardConfig,
    pub status: GameStatus,
    pub players: Vec<PlayerInfo>,
    pub revealed_count: usize,
    pub total_non_mines: usize,
    pub elapsed_seconds: u64,
    pub cells: Vec<CellSnapshot>,
    pub bot_speed_ms: u64,
}

/// The bot delay a snapshot without one is read with, in milliseconds.
pub fn default_bot_speed() -> (ms: u64)
    ensures
        ms == 800,
{
    800
}

/// What a player may see of a cell: number and mine only once it is uncovered.
#[derive(Debug, Clone)]
pub struct CellSnapshot {
    pub coord: Coord3D,
    pub is_revealed: bool,
    pub adjacent_mines: u8,
    pub is_flagged: bool,
    pub is_mine: bool,
    pub revealed_by: Option<String>,
    pub player_color: Option<String>,
}

/// The snapshot of `c`: its number and mine are hidden while it is covered.
pub open spec fn snapshot_of(c: Cell) -> CellSnapshot {
    CellSnapshot {
        coord: c.coord,
        is_revealed: c.is_revealed,
        adjacent_mines: if c.is_revealed { c.adjacent_mines } else { 0 },
        is_flagged: c.is_flagged,
        is_mine: if c.is_revealed { c.is_mine } else { false },
        revealed_by: c.revealed_by,
        player_color: c.player_color,
    }
}

impl CellSnapshot {
    pub fn from(c: &Cell) -> (s: Self)
        ensures
            s == snapshot_of(*c),
    {
        CellSnapshot {
            coord: c.coord,
            is_revealed: c.is_revealed,
            adjacent_mines: if c.is_revealed { c.adjacent_mines } else { 0 },
            is_flagged: c.is_flagged,
            is_mine: if c.is_revealed { c.is_mine } else { false },
            revealed_by: clone_opt(&c.revealed_by),
            player_color: clone_opt(&c.player_color),
        }
    }
}

/// Snapshots of all cells, in order.
pub fn snapshot_cells(cells: &Vec<Cell>) -> (v: Vec<CellSnapshot>)
    ensures
        v@ == cells@.map_values(|c: Cell| snapshot_of(c)),
{
    let mut v: Vec<CellSnapshot> = Vec::new();
    let mut i: usize = 0;
    while i < cells.len()
        invariant
            i <= cells.len(),
            v@ == cells@.take(i as int).map_values(|c: Cell| snapshot_of(c)),
        decreases cells.len() - i,
    {
        v.push(CellSnapshot::from(&cells[i]));
        proof {
            assert(cells@.take(i + 1) == cells@.take(i as int).push(cells@[i as int]));
            assert(cells@.take(i + 1).map_values(|c: Cell| snapshot_of(c)) =~= cells@.take(i as int).map_values(|c: Cell| snapshot_of(c)).push(snapshot_of(cells@[i as int])));
        }
        i = i + 1;
    }
    proof {
        assert(cells@.take(cells.len() as int) == cells@);
    }
    v
}

#[derive(Debug, Clone)]
pub struct ChatMessagePayload {
    pub id: String,
    pub player_id: Option<String>,
    pub username: String,
    pub color: Option<String>,
    pub text: String,
    pub is_system: bool,
    pub timestamp: i64,
    pub event_key: Option<String>,
    pub event_params: Vec<String>,
}

#[derive(Debug, Clone)]
pub struct ScoreDelta {
    pub player_id: String,
    pub points: u32,
    pub total_score: u32,
}

#[derive(Debug, Clone)]
pub enum ClientMessage {
    CreateRoom { name: String, config: BoardConfig, username: String, token: Option<String> },
    JoinRoom { room_id: String, username: String, token: Option<String> },
    SetReady { ready: bool },
    StartGame,
    RevealCell { coord: Coord3D },
    ChordCell { coord: Coord3D },
    ToggleFlag { coord: Coord3D },
    SendChat { text: String },
    AddBot { tier: BotTier, speed_ms: Option<u64> },
    RemoveBot { bot_id: String },
    UpdateBotSpeed { speed_ms: u64 },
    LeaveRoom,
    Ping,
}

#[derive(Debug, Clone)]
pub enum ServerMessage {
    RoomState(RoomSnapshot),
    GameStarted { config: BoardConfig },
    CellsRevealed { revealed: Vec<RevealedCellInfo>, score_deltas: Vec<ScoreDelta> },
    PlayerEliminated { player_id: String, username: String, hit_coord: Coord3D, all_mines: Vec<Coord3D> },
    PlayerFlagToggled { coord: Coord3D, is_flagged: bool, player_id: String },
    GameOver { winners: Vec<String>, final_scores: Vec<ScoreDelta> },
    ChatMessage(ChatMessagePayload),
    GlobalNotification { title: String, message: String },
    Pong,
    Error { message: String },
}

#[derive(Debug, Clone)]
pub struct RoomSummary {
    pub id: String,
    pub name: String,
    pub host_name: String,
    pub player_count: usize,
    pub difficulty: Difficulty,
    pub status: GameStatus,
}

#[derive(Debug, Clone)]
pub struct AuthRequest {
    pub username: String,
    pub password: String,
}

#[derive(Debug, Clone)]
pub struct AuthResponse {
    pub token: String,
    pub username: String,
    pub user_id: String,
}

#[derive(Debug, Clone)]
pub struct PbRecordRequest {
    pub difficulty: Difficulty,
    pub config_hash: String,
    pub time_ms: u64,
    pub moves: u32,
}

#[derive(Debug, Clone)]
pub struct PbRecordResponse {
    pub id: String,
    pub is_new_best: bool,
    pub current_best_time_ms: u64,
}

#[derive(Debug, Clone)]
pub struct UserStatsResponse {
    pub username: String,
    pub easy_pb_ms: Option<u64>,
    pub medium_pb_ms: Option<u64>,
    pub expert_pb_ms: Option<u64>,
    pub sp_games_played: u32,
    pub sp_games_won: u32,
    pub mp_games_played: u32,
    pub mp_games_won: u32,
    pub mp_total_score: u32,
}

} // verus!
