//! A single-player game driven move by move, as the command-line front end
//! plays it: a move and the line that reports it, and a whole game played
//! by an AI tier.
use vstd::prelude::*;
use crate::board::{Board, BoardConfig, Cell, GameStatus, RevealResult, lemma_valid_index, in_safe_zone, reveal_done, chord_done, mines_laid, flag_flipped};
use crate::decide::{board_snapshot, ai_may_choose};
use crate::protocol::{snapshot_cells, snapshot_of, CellSnapshot};
use crate::solver::{AiAction, AiSolver, BotTier};
use crate::text::{decimal, owned, u64_decimal};
use crate::topology::Coord3D;

verus! {

/// The three moves a player makes.
#[derive(Debug, Clone, Copy, PartialEq, Eq, Structural)]
pub enum MoveKind {
    Reveal,
    Flag,
    Chord,
}

/// `Coord3D { x: 1, y: 2, z: 3 }`, as `Debug` writes a coordinate.
pub open spec fn coord_text(c: Coord3D) -> Seq<char> {
    "Coord3D { x: "@ + decimal(c.x as nat) + ", y: "@ + decimal(c.y as nat) + ", z: "@ + decimal(c.z as nat) + " }"@
}

pub fn coord_debug(c: Coord3D) -> (s: String)
    ensures
        s@ == coord_text(c),
{
    let mut s = owned("Coord3D { x: ");
    s.append(u64_decimal(c.x as u64).as_str());
    s.append(", y: ");
    s.append(u64_decimal(c.y as u64).as_str());
    s.append(", z: ");
    s.append(u64_decimal(c.z as u64).as_str());
    s.append(" }");
    s
}

/// The report of a reveal that ended with `r`.
pub open spec fn reveal_label(r: RevealResult) -> Seq<char> {
    match r {
        RevealResult::Success { revealed } => "REVEALED_"@ + decimal(revealed@.len()) + "_CELLS"@,
        RevealResult::FirstClickGenerated { revealed } => "REVEALED_"@ + decimal(revealed@.len()) + "_CELLS"@,
        RevealResult::HitMine { hit_coord, .. } => "HIT_MINE_AT_"@ + coord_text(hit_coord),
        RevealResult::AlreadyRevealed => "ALREADY_REVEALED"@,
        RevealResult::Flagged => "FLAGGED_CELL"@,
        RevealResult::NoOp => "NO_OP"@,
    }
}

/// The report of a chord that ended with `r`.
pub open spec fn chord_label(r: RevealResult) -> Seq<char> {
    match r {
        RevealResult::Success { revealed } => "CHORD_REVEALED_"@ + decimal(revealed@.len()) + "_CELLS"@,
        RevealResult::HitMine { hit_coord, .. } => "CHORD_HIT_MINE_AT_"@ + coord_text(hit_coord),
        _ => "CHORD_NO_OP"@,
    }
}

/// The cells a reveal or chord uncovered and reported.
pub open spec fn uncovered_count(r: RevealResult) -> nat {
    match r {
        RevealResult::Success { revealed } => revealed@.len(),
        RevealResult::FirstClickGenerated { revealed } => revealed@.len(),
        _ => 0,
    }
}

/// What a move did: its report and how many cells it uncovered.
#[derive(Debug)]
pub struct MoveOutcome {
    pub label: String,
    pub newly_revealed: usize,
}

/// The refusal of a move outside the board.
pub open spec fn out_of_bounds_text(c: Coord3D, config: BoardConfig) -> Seq<char> {
    "Coordinate ("@ + decimal(c.x as nat) + ","@ + decimal(c.y as nat) + ","@ + decimal(c.z as nat)
        + ") is outside dimensions "@ + decimal(config.width as nat) + "x"@ + decimal(config.height as nat) + "x"@
        + decimal(config.depth as nat)
}

fn reveal_report(r: &RevealResult) -> (s: String)
    ensures
        s@ == reveal_label(*r),
{
    match r {
        RevealResult::Success { revealed } | RevealResult::FirstClickGenerated { revealed } => {
            let mut s = owned("REVEALED_");
            s.append(u64_decimal(revealed.len() as u64).as_str());
            s.append("_CELLS");
            s
        }
        RevealResult::HitMine { hit_coord, .. } => {
            let mut s = owned("HIT_MINE_AT_");
            s.append(coord_debug(*hit_coord).as_str());
            s
        }
        RevealResult::AlreadyRevealed => owned("ALREADY_REVEALED"),
        RevealResult::Flagged => owned("FLAGGED_CELL"),
        RevealResult::NoOp => owned("NO_OP"),
    }
}

fn chord_report(r: &RevealResult) -> (s: String)
    ensures
        s@ == chord_label(*r),
{
    match r {
        RevealResult::Success { revealed } => {
            let mut s = owned("CHORD_REVEALED_");
            s.append(u64_decimal(revealed.len() as u64).as_str());
            s.append("_CELLS");
            s
        }
        RevealResult::HitMine { hit_coord, .. } => {
            let mut s = owned("CHORD_HIT_MINE_AT_");
            s.append(coord_debug(*hit_coord).as_str());
            s
        }
        _ => owned("CHORD_NO_OP"),
    }
}

/// Plays one move at `coord`. A move outside the board is refused with a
/// message naming it and the board's size, and changes nothing. The first
/// reveal of a game first lays the mines around `coord` from `seed`. A flag
/// reports `FLAG_SET`, `FLAG_REMOVED` or `FLAG_FAILED`; a reveal or chord
/// reports how it ended and how many cells it uncovered.
pub fn apply_move(board: &mut Board, kind: MoveKind, coord: Coord3D, seed: Option<u64>) -> (r: Result<MoveOutcome, String>)
    requires
        old(board).wf(),
        old(board).config.mines <= old(board).dims.total(),
    ensures
        final(board).wf(),
        final(board).config == old(board).config,
        final(board).dims == old(board).dims,
        !old(board).dims.valid(coord) ==> (r matches Err(e) && e@ == out_of_bounds_text(coord, old(board).config)) && *final(board) == *old(board),
        old(board).dims.valid(coord) ==> r is Ok,
        old(board).dims.valid(coord) && kind == MoveKind::Flag ==> (r matches Ok(o) && o.newly_revealed == 0 && o.label@ == (
            if !old(board).is_over() && !old(board).at(coord).is_revealed {
                if old(board).at(coord).is_flagged { "FLAG_REMOVED"@ } else { "FLAG_SET"@ }
            } else {
                "FLAG_FAILED"@
            })),
        old(board).dims.valid(coord) && kind == MoveKind::Flag ==> final(board).is_generated == old(board).is_generated,
        old(board).dims.valid(coord) && kind == MoveKind::Flag ==> ({
            let ok = !old(board).is_over() && !old(board).at(coord).is_revealed;
            &&& ok ==> final(board).cells@ == flag_flipped(old(board).cells@, old(board).idx(coord))
            &&& !ok ==> *final(board) == *old(board)
        }),
        old(board).dims.valid(coord) && kind == MoveKind::Reveal ==> (r matches Ok(o) && exists|res: RevealResult, laid: Board| {
            &&& old(board).is_generated ==> laid == *old(board)
            &&& !old(board).is_generated ==> mines_laid(*old(board), laid, coord)
            &&& #[trigger] reveal_done(laid, *final(board), coord, None, None, res)
            &&& o.newly_revealed == uncovered_count(res)
            &&& o.label@ == reveal_label(res)
        }),
        old(board).dims.valid(coord) && kind == MoveKind::Chord ==> (r matches Ok(o) && exists|res: RevealResult| {
            &&& #[trigger] chord_done(*old(board), *final(board), coord, None, None, res)
            &&& o.newly_revealed == uncovered_count(res)
            &&& o.label@ == chord_label(res)
        }),
        old(board).dims.valid(coord) && kind != MoveKind::Flag ==> (r matches Ok(o) && exists|res: RevealResult| {
            &&& o.newly_revealed == uncovered_count(res)
            &&& o.label@ == if kind == MoveKind::Reveal { reveal_label(res) } else { chord_label(res) }
            &&& (kind == MoveKind::Chord ==> !(res is FirstClickGenerated))
            &&& (res is Success || res is FirstClickGenerated) ==> final(board).revealed_count == old(board).revealed_count + uncovered_count(res)
        }),
        old(board).dims.valid(coord) && kind == MoveKind::Reveal && !old(board).is_over() ==> final(board).is_generated,
        old(board).dims.valid(coord) && kind == MoveKind::Reveal && !old(board).is_generated ==> forall|j: int|
            0 <= j < old(board).dims.total() && in_safe_zone(old(board).dims, coord, j) ==> !(#[trigger] final(board).cells@[j]).is_mine,
{
    let dims = board.dims;
    if !dims.is_valid_coord(coord) {
        let mut msg = owned("Coordinate (");
        msg.append(u64_decimal(coord.x as u64).as_str());
        msg.append(",");
        msg.append(u64_decimal(coord.y as u64).as_str());
        msg.append(",");
        msg.append(u64_decimal(coord.z as u64).as_str());
        msg.append(") is outside dimensions ");
        msg.append(u64_decimal(board.config.width as u64).as_str());
        msg.append("x");
        msg.append(u64_decimal(board.config.height as u64).as_str());
        msg.append("x");
        msg.append(u64_decimal(board.config.depth as u64).as_str());
        return Err(msg);
    }
    proof {
        lemma_valid_index(dims, coord);
    }
    match kind {
        MoveKind::Reveal => {
            if !board.is_generated {
                board.generate_mines_with_seed(coord, seed);
            }
            let ghost laid = *board;
            let res = board.reveal_cell(coord, None, None);
            let n = match &res {
                RevealResult::Success { revealed } | RevealResult::FirstClickGenerated { revealed } => revealed.len(),
                _ => 0,
            };
            let label = reveal_report(&res);
            proof {
                assert(n == uncovered_count(res));
                assert((res is Success || res is FirstClickGenerated) ==> board.revealed_count == old(board).revealed_count + uncovered_count(res));
                assert(reveal_done(laid, *board, coord, None, None, res));
            }
            Ok(MoveOutcome { label, newly_revealed: n })
        }
        MoveKind::Flag => {
            let ok = board.toggle_flag(coord);
            let label = if ok {
                if board.get_cell(coord).is_flagged {
                    owned("FLAG_SET")
                } else {
                    owned("FLAG_REMOVED")
                }
            } else {
                owned("FLAG_FAILED")
            };
            Ok(MoveOutcome { label, newly_revealed: 0 })
        }
        MoveKind::Chord => {
            let res = board.chord(coord, None, None);
            let n = match &res {
                RevealResult::Success { revealed } => revealed.len(),
                _ => 0,
            };
            let label = chord_report(&res);
            proof {
                assert(n == uncovered_count(res));
                assert(!(res is FirstClickGenerated));
                assert(chord_done(*old(board), *board, coord, None, None, res));
                assert((res is Success || res is FirstClickGenerated) ==> board.revealed_count == old(board).revealed_count + uncovered_count(res));
            }
            Ok(MoveOutcome { label, newly_revealed: n })
        }
    }
}

/// How many mines are left to flag: the mine count less the flags, never
/// below zero.
pub fn mines_remaining(board: &Board) -> (n: usize)
    ensures
        n == if board.config.mines >= board.flag_count { board.config.mines - board.flag_count } else { 0 },
{
    board.config.mines.saturating_sub(board.flag_count)
}

/// The board `b1` is `b0` after the AI's move `act`.
pub open spec fn move_made(b0: Board, b1: Board, act: AiAction) -> bool {
    match act {
        AiAction::Reveal(c) => exists|res: RevealResult| #[trigger] reveal_done(b0, b1, c, None, None, res),
        AiAction::Chord(c) => exists|res: RevealResult| #[trigger] chord_done(b0, b1, c, None, None, res),
        AiAction::Flag(c) => {
            let ok = !b0.is_over() && b0.dims.valid(c) && !b0.at(c).is_revealed;
            &&& ok ==> b1.cells@ == flag_flipped(b0.cells@, b0.idx(c))
            &&& !ok ==> b1 == b0
        },
    }
}

/// The board `b` is a fresh board of `config` opened at its centre: the
/// mines laid around the centre, then the centre uncovered.
pub open spec fn opened_at_centre(config: BoardConfig, b: Board) -> bool {
    let centre = Coord3D { x: config.width / 2, y: config.height / 2, z: config.depth / 2 };
    exists|fresh: Board, laid: Board, res: RevealResult|
        #![trigger mines_laid(fresh, laid, centre), reveal_done(laid, b, centre, None, None, res)] {
        &&& fresh.wf()
        &&& fresh.config == config
        &&& fresh.cells@ == Board::fresh_cells(config)
        &&& !fresh.is_generated
        &&& mines_laid(fresh, laid, centre)
        &&& reveal_done(laid, b, centre, None, None, res)
    }
}

/// The AI's view of board `b`.
pub open spec fn view_of(b: Board) -> Seq<CellSnapshot> {
    b.cells@.map_values(|c: Cell| snapshot_of(c))
}

/// The boards `boards` are a game of the AI of `tier` on `config`: the
/// first is the fresh board opened at its centre, and each next one follows
/// from a move `acts` that the AI may choose on the one before, made while
/// the game was on.
pub open spec fn ai_game(config: BoardConfig, tier: BotTier, boards: Seq<Board>, acts: Seq<AiAction>) -> bool {
    &&& boards.len() == acts.len() + 1
    &&& opened_at_centre(config, boards[0])
    &&& forall|i: int| 0 <= i < acts.len() ==> {
        &&& (#[trigger] boards[i]).status == GameStatus::Playing
        &&& ai_may_choose(config.spec_dims(), view_of(boards[i]), tier, config.mines, Some(acts[i]))
        &&& move_made(boards[i], boards[i + 1], acts[i])
    }
}

/// A game played by an AI of `tier` from a fresh board: the mines are laid
/// around the centre (from `seed` when given), the centre is opened, and the
/// AI moves until the game ends, it has no move, or `max_moves` moves were
/// made. Returns the board and the number of moves.
pub fn play_bot_game(config: BoardConfig, tier: BotTier, seed: Option<u64>, max_moves: usize) -> (r: (Board, usize))
    requires
        config.spec_dims().fits_usize(),
        config.spec_dims().fits_i32(),
        config.mines <= config.spec_dims().total(),
        config.width > 0 && config.height > 0 && config.depth > 0,
    ensures
        r.0.wf(),
        r.0.config == config,
        r.0.is_generated,
        r.1 <= max_moves,
        r.1 < max_moves && r.0.status == GameStatus::Playing ==> forall|j: int| 0 <= j < r.0.cells@.len() ==> (#[trigger] r.0.cells@[j]).is_revealed || r.0.cells@[j].is_flagged,
        exists|boards: Seq<Board>, acts: Seq<AiAction>| #[trigger] ai_game(config, tier, boards, acts) && boards.last() == r.0
            && (acts.len() == r.1 || (acts.len() + 1 == r.1
                && forall|j: int| 0 <= j < r.0.cells@.len() ==> (#[trigger] r.0.cells@[j]).is_revealed || r.0.cells@[j].is_flagged)),
{
    let mut board = Board::new(config);
    let dims = board.dims;
    let centre = Coord3D::new(config.width / 2, config.height / 2, config.depth / 2);
    proof {
        lemma_valid_index(dims, centre);
    }
    let ghost fresh = board;
    board.generate_mines_with_seed(centre, seed);
    let ghost laid = board;
    let opening = board.reveal_cell(centre, None, None);
    proof {
        assert(reveal_done(laid, board, centre, None, None, opening));
        assert(mines_laid(fresh, laid, centre));
        assert(opened_at_centre(config, board));
    }
    let ghost mut boards: Seq<Board> = seq![board];
    let ghost mut acts: Seq<AiAction> = Seq::empty();
    let mut moves: usize = 0;
    let mut stuck = false;
    while !stuck && board.status == GameStatus::Playing && moves < max_moves
        invariant
            acts.len() == if stuck { moves - 1 } else { moves as int },
            ai_game(config, tier, boards, acts),
            boards.last() == board,
            board.wf(),
            board.config == config,
            board.dims == dims,
            dims == config.spec_dims(),
            config.mines <= dims.total(),
            board.is_generated,
            moves <= max_moves,
            stuck ==> forall|j: int| 0 <= j < board.cells@.len() ==> (#[trigger] board.cells@[j]).is_revealed || board.cells@[j].is_flagged,
        decreases max_moves - moves,
    {
        moves = moves + 1;
        let snaps = snapshot_cells(&board.cells);
        proof {
            assert(board_snapshot(dims, snaps@));
            assert(snaps@ == view_of(board));
            crate::decide::lemma_ordered_is_arranged(dims, snaps@);
        }
        let ghost b0 = board;
        let choice = AiSolver::decide_action(dims, snaps.as_slice(), tier, config.mines);
        let ghost gchoice = choice;
        match choice {
            Some(AiAction::Reveal(c)) => {
                let res = board.reveal_cell(c, None, None);
                proof {
                    assert(reveal_done(b0, board, c, None, None, res));
                }
            }
            Some(AiAction::Chord(c)) => {
                let res = board.chord(c, None, None);
                proof {
                    assert(chord_done(b0, board, c, None, None, res));
                }
            }
            Some(AiAction::Flag(c)) => {
                board.toggle_flag(c);
            }
            None => {
                proof {
                    assert forall|j: int| 0 <= j < board.cells@.len() implies (#[trigger] board.cells@[j]).is_revealed || board.cells@[j].is_flagged by {
                        assert(!crate::decide::covered(snaps@, j));
                    }
                }
                stuck = true;
            }
        }
        if !stuck {
            proof {
                let act = gchoice->Some_0;
                assert(move_made(b0, board, act));
                let nb = boards.push(board);
                let na = acts.push(act);
                assert forall|i: int| 0 <= i < na.len() implies {
                    &&& (#[trigger] nb[i]).status == GameStatus::Playing
                    &&& ai_may_choose(config.spec_dims(), view_of(nb[i]), tier, config.mines, Some(na[i]))
                    &&& move_made(nb[i], nb[i + 1], na[i])
                } by {
                    if i < acts.len() {
                        assert(nb[i] == boards[i]);
                        assert(nb[i + 1] == boards[i + 1]);
                        assert(na[i] == acts[i]);
                    } else {
                        assert(nb[i] == b0);
                        assert(nb[i + 1] == board);
                    }
                }
                boards = nb;
                acts = na;
            }
        }
    }
    proof {
        assert(ai_game(config, tier, boards, acts));
    }
    (board, moves)
}

} // verus!
