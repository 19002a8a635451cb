//! The decisions of a bot's worker: how each room message changes what the
//! bot knows of the game, whether it is its turn to act, and its move. The
//! worker itself waits for messages and timers and applies the move.
use vstd::prelude::*;
use crate::board::{GameStatus, RevealedCellInfo, cell_coord};
use crate::decide::{board_snapshot, covered, tier_rules, full_snapshot, arranged, ai_may_choose, is_full_snapshot};
use crate::protocol::{CellSnapshot, RoomSnapshot, ServerMessage};
use crate::solver::{AiAction, AiSolver, BotTier, usable};
use crate::text::str_eq;
use crate::topology::{Coord3D, Dimensions};

verus! {

/// The slot of `coord` among `len` cells of a grid `width` wide and
/// `height` high, when its linear index is below `len`.
pub fn cell_slot(coord: Coord3D, width: usize, height: usize, len: usize) -> (r: Option<usize>)
    ensures
        r matches Some(i) ==> i == coord.index(width as int, height as int) && i < len,
        r is None ==> coord.index(width as int, height as int) >= len,
{
    proof {
        assert(coord.z * width <= 0xffff_ffff_ffff_ffffu128 * 0xffff_ffff_ffff_ffffu128) by (nonlinear_arith)
            requires coord.z <= 0xffff_ffff_ffff_ffffu128, width <= 0xffff_ffff_ffff_ffffu128;
        assert(coord.z * (width * height) == (coord.z * width) * height) by (nonlinear_arith);
        assert(coord.y * width >= 0 && coord.z * (width * height) >= 0) by (nonlinear_arith);
        assert(coord.y * width <= 0xffff_ffff_ffff_ffffu128 * 0xffff_ffff_ffff_ffffu128) by (nonlinear_arith)
            requires coord.y <= 0xffff_ffff_ffff_ffffu128, width <= 0xffff_ffff_ffff_ffffu128;
    }
    let zw: u128 = (coord.z as u128) * (width as u128);
    let yw: u128 = (coord.y as u128) * (width as u128);
    let zwh = match zw.checked_mul(height as u128) {
        Some(v) => v,
        None => {
            return None;
        }
    };
    let part = match zwh.checked_add(yw) {
        Some(v) => v,
        None => {
            return None;
        }
    };
    let idx = match part.checked_add(coord.x as u128) {
        Some(v) => v,
        None => {
            return None;
        }
    };
    if idx < len as u128 {
        Some(idx as usize)
    } else {
        None
    }
}

/// `s` after the cells in `revealed` were uncovered (a report naming a cell
/// outside the grid is passed over).
pub open spec fn with_revealed(s: RoomSnapshot, revealed: Seq<RevealedCellInfo>) -> Seq<CellSnapshot>
    decreases revealed.len(),
{
    if revealed.len() == 0 {
        s.cells@
    } else {
        let prev = with_revealed(s, revealed.drop_last());
        let r = revealed.last();
        let i = r.coord.index(s.config.width as int, s.config.height as int);
        if 0 <= i < prev.len() {
            prev.update(i, CellSnapshot {
                is_revealed: true,
                adjacent_mines: r.adjacent_mines,
                is_mine: r.is_mine,
                revealed_by: r.revealed_by,
                player_color: r.player_color,
                ..prev[i]
            })
        } else {
            prev
        }
    }
}

/// The cells of `s` with the one at `coord` (if inside) changed by `f`.
pub open spec fn cells_with(s: RoomSnapshot, coord: Coord3D, f: spec_fn(CellSnapshot) -> CellSnapshot) -> Seq<CellSnapshot> {
    let i = coord.index(s.config.width as int, s.config.height as int);
    if 0 <= i < s.cells@.len() {
        s.cells@.update(i, f(s.cells@[i]))
    } else {
        s.cells@
    }
}

/// `after` is `before` with other cells.
pub open spec fn same_but_cells(before: RoomSnapshot, after: RoomSnapshot) -> bool {
    after == RoomSnapshot { cells: after.cells, ..before }
}

/// The remembered state `after` follows `before` on `msg`.
pub open spec fn follows(before: RoomSnapshot, after: RoomSnapshot, msg: ServerMessage) -> bool {
    match msg {
        ServerMessage::RoomState(s) => after == s,
        ServerMessage::CellsRevealed { revealed, .. } => same_but_cells(before, after) && after.cells@ == with_revealed(before, revealed@),
        ServerMessage::PlayerEliminated { hit_coord, .. } => same_but_cells(before, after)
            && after.cells@ == cells_with(before, hit_coord, |c: CellSnapshot| CellSnapshot { is_revealed: true, is_mine: true, ..c }),
        ServerMessage::PlayerFlagToggled { coord, is_flagged, .. } => same_but_cells(before, after)
            && after.cells@ == cells_with(before, coord, |c: CellSnapshot| CellSnapshot { is_flagged, ..c }),
        ServerMessage::GameOver { .. } => after == RoomSnapshot { status: GameStatus::Won, ..before },
        _ => after == before,
    }
}

/// What a bot does on a room message, given the last state it saw.
pub enum Heard {
    /// Nothing to remember.
    Unchanged,
    /// The state it now knows.
    Updated,
    /// A game started: it must read the room's state afresh.
    Refresh,
    /// The room is gone: the worker stops.
    Stop,
}

impl Heard {
    pub open spec fn spec_of(msg: ServerMessage, bot_id: Seq<char>, had: bool) -> Heard {
        match msg {
            ServerMessage::RoomState(_) => Heard::Updated,
            ServerMessage::GameStarted { .. } => Heard::Refresh,
            ServerMessage::CellsRevealed { .. } => if had { Heard::Updated } else { Heard::Unchanged },
            ServerMessage::PlayerEliminated { player_id, .. } => if had && player_id@ != bot_id { Heard::Updated } else { Heard::Unchanged },
            ServerMessage::PlayerFlagToggled { .. } => if had { Heard::Updated } else { Heard::Unchanged },
            ServerMessage::GameOver { .. } => if had { Heard::Updated } else { Heard::Unchanged },
            _ => Heard::Unchanged,
        }
    }
}

/// How the state a bot remembers follows a room message: a new state
/// replaces it; uncovered cells, another player's mine and flag changes are
/// written into it; the end of the game marks it won; a game start asks for
/// the room's state afresh. Without a remembered state only a full state
/// counts.
pub fn observe(last: &mut Option<RoomSnapshot>, msg: ServerMessage, bot_id: &str) -> (h: Heard)
    ensures
        h == Heard::spec_of(msg, bot_id@, old(last).is_some()),
        !(h is Updated) ==> *final(last) == *old(last),
        h is Updated ==> final(last).is_some(),
        msg matches ServerMessage::RoomState(s) ==> *final(last) == Some(s),
        h is Updated && old(last).is_some() ==> follows(old(last).unwrap(), final(last).unwrap(), msg),
{
    match msg {
        ServerMessage::RoomState(s) => {
            *last = Some(s);
            Heard::Updated
        }
        ServerMessage::GameStarted { .. } => Heard::Refresh,
        ServerMessage::CellsRevealed { revealed, .. } => {
            match last.take() {
                Some(mut s) => {
                    let w = s.config.width;
                    let h = s.config.height;
                    let ghost s0 = s;
                    let mut k: usize = 0;
                    while k < revealed.len()
                        invariant
                            k <= revealed@.len(),
                            w == s0.config.width,
                            h == s0.config.height,
                            same_but_cells(s0, s),
                            s.cells@ == with_revealed(s0, revealed@.take(k as int)),
                        decreases revealed@.len() - k,
                    {
                        proof {
                            assert(revealed@.take(k + 1).drop_last() =~= revealed@.take(k as int));
                            assert(revealed@.take(k + 1).last() == revealed@[k as int]);
                        }
                        let r = &revealed[k];
                        match cell_slot(r.coord, w, h, s.cells.len()) {
                            Some(i) => {
                                let mut c = s.cells.remove(i);
                                c.is_revealed = true;
                                c.adjacent_mines = r.adjacent_mines;
                                c.is_mine = r.is_mine;
                                c.revealed_by = r.revealed_by.clone();
                                c.player_color = r.player_color.clone();
                                s.cells.insert(i, c);
                                proof {
                                    assert(s.cells@ =~= with_revealed(s0, revealed@.take(k + 1)));
                                }
                            }
                            None => {}
                        }
                        k = k + 1;
                    }
                    proof {
                        assert(revealed@.take(revealed@.len() as int) =~= revealed@);
                    }
                    *last = Some(s);
                    Heard::Updated
                }
                None => Heard::Unchanged,
            }
        }
        ServerMessage::PlayerEliminated { player_id, hit_coord, .. } => {
            if str_eq(player_id.as_str(), bot_id) {
                return Heard::Unchanged;
            }
            match last.take() {
                Some(mut s) => {
                    let ghost s0 = s;
                    match cell_slot(hit_coord, s.config.width, s.config.height, s.cells.len()) {
                        Some(i) => {
                            let mut c = s.cells.remove(i);
                            c.is_revealed = true;
                            c.is_mine = true;
                            s.cells.insert(i, c);
                            proof {
                                assert(s.cells@ =~= cells_with(s0, hit_coord, |c: CellSnapshot| CellSnapshot { is_revealed: true, is_mine: true, ..c }));
                            }
                        }
                        None => {}
                    }
                    *last = Some(s);
                    Heard::Updated
                }
                None => Heard::Unchanged,
            }
        }
        ServerMessage::PlayerFlagToggled { coord, is_flagged, .. } => {
            match last.take() {
                Some(mut s) => {
                    let ghost s0 = s;
                    match cell_slot(coord, s.config.width, s.config.height, s.cells.len()) {
                        Some(i) => {
                            let mut c = s.cells.remove(i);
                            c.is_flagged = is_flagged;
                            s.cells.insert(i, c);
                            proof {
                                assert(s.cells@ =~= cells_with(s0, coord, |c: CellSnapshot| CellSnapshot { is_flagged, ..c }));
                            }
                        }
                        None => {}
                    }
                    *last = Some(s);
                    Heard::Updated
                }
                None => Heard::Unchanged,
            }
        }
        ServerMessage::GameOver { .. } => {
            match last.take() {
                Some(mut s) => {
                    s.status = GameStatus::Won;
                    *last = Some(s);
                    Heard::Updated
                }
                None => Heard::Unchanged,
            }
        }
        _ => Heard::Unchanged,
    }
}

/// The bot is in a game in progress, neither eliminated nor watching.
pub open spec fn active_in(s: RoomSnapshot, bot_id: Seq<char>) -> bool {
    &&& s.status == GameStatus::Playing
    &&& exists|i: int| 0 <= i < s.players@.len() && (#[trigger] s.players@[i]).id@ == bot_id && !s.players@[i].is_eliminated && !s.players@[i].is_spectator
}

pub fn is_active(s: &RoomSnapshot, bot_id: &str) -> (b: bool)
    ensures
        b == active_in(*s, bot_id@),
{
    if s.status != GameStatus::Playing {
        return false;
    }
    let mut i: usize = 0;
    while i < s.players.len()
        invariant
            i <= s.players@.len(),
            s.status == GameStatus::Playing,
            forall|k: int| 0 <= k < i ==> !((#[trigger] s.players@[k]).id@ == bot_id@ && !s.players@[k].is_eliminated && !s.players@[k].is_spectator),
        decreases s.players@.len() - i,
    {
        let p = &s.players[i];
        if str_eq(p.id.as_str(), bot_id) && !p.is_eliminated && !p.is_spectator {
            proof {
                assert(s.status == GameStatus::Playing);
                assert(s.players@[i as int].id@ == bot_id@ && !s.players@[i as int].is_eliminated && !s.players@[i as int].is_spectator);
            }
            return true;
        }
        i = i + 1;
    }
    false
}

/// Whether the grid `dims` and `cells` are a board the AI can read: sizes
/// that fit, one cell per position, each cell in its place.
pub fn is_readable(dims: Dimensions, cells: &Vec<CellSnapshot>) -> (b: bool)
    ensures
        b == board_snapshot(dims, cells@),
{
    if dims.width > 0x7fff_ffff || dims.height > 0x7fff_ffff || dims.depth > 0x7fff_ffff {
        return false;
    }
    let area = match dims.width.checked_mul(dims.height) {
        Some(a) => a,
        None => {
            return false;
        }
    };
    let total = match area.checked_mul(dims.depth) {
        Some(t) => t,
        None => {
            proof {
                assert(dims.width * dims.height * dims.depth == area * dims.depth);
            }
            return false;
        }
    };
    proof {
        assert(usable(dims));
    }
    if cells.len() != total {
        return false;
    }
    if total == 0 {
        return true;
    }
    assert(area > 0) by (nonlinear_arith)
        requires total == area * dims.depth, total > 0, area >= 0, dims.depth >= 0;
    let mut i: usize = 0;
    while i < cells.len()
        invariant
            i <= cells@.len(),
            cells@.len() == total,
            area == dims.width * dims.height,
            area > 0,
            forall|k: int| 0 <= k < i ==> (#[trigger] cells@[k]).coord == cell_coord(dims, k),
        decreases cells@.len() - i,
    {
        let c = Coord3D::from_index(i, dims.width, dims.height);
        if cells[i].coord != c {
            return false;
        }
        i = i + 1;
    }
    true
}

/// The bot's move on the state it remembers: none unless it is in a game
/// in progress and the state holds each cell of the board once (in any
/// order); otherwise the move its tier picks.
pub fn bot_move(s: &RoomSnapshot, bot_id: &str, tier: BotTier) -> (r: Option<AiAction>)
    ensures
        !active_in(*s, bot_id@) || !full_snapshot(s.config.spec_dims(), s.cells@) ==> r is None,
        active_in(*s, bot_id@) && full_snapshot(s.config.spec_dims(), s.cells@) ==> ai_may_choose(s.config.spec_dims(), arranged(s.config.spec_dims(), s.cells@), tier, s.config.mines, r),
{
    if !is_active(s, bot_id) {
        return None;
    }
    let dims = s.config.dims();
    if !is_full_snapshot(dims, s.cells.as_slice()) {
        return None;
    }
    AiSolver::decide_action(dims, s.cells.as_slice(), tier, s.config.mines)
}

} // verus!
