//! What a client knows of its multiplayer room, kept up to date from the
//! server's messages: the room's state, the chat, and the end-of-game
//! summary with the players ranked.
use vstd::prelude::*;
use crate::board::{BoardConfig, GameStatus};
use crate::bots::{cell_slot, with_revealed};
use crate::protocol::{CellSnapshot, ChatMessagePayload, PlayerInfo, RoomSnapshot, ScoreDelta, ServerMessage};
use crate::room::{rank_scores, ranked};
use crate::text::str_eq;
use crate::topology::Coord3D;

verus! {

/// A player's line in the end-of-game table.
#[derive(Debug, Clone)]
pub struct PlayerRankInfo {
    pub rank: usize,
    pub username: String,
    pub color: String,
    pub score: u32,
    pub is_eliminated: bool,
}

/// The end-of-game summary.
#[derive(Debug, Clone)]
pub struct GameOverModalData {
    pub winners: Vec<String>,
    pub is_all_eliminated: bool,
    pub is_board_cleared: bool,
    pub player_rankings: Vec<PlayerRankInfo>,
    pub elapsed_seconds: u64,
    pub revealed_count: usize,
    pub total_non_mines: usize,
}

pub open spec fn rank_entry(p: PlayerInfo, rank: int) -> PlayerRankInfo {
    PlayerRankInfo { rank: rank as usize, username: p.username, color: p.color, score: p.score, is_eliminated: p.is_eliminated }
}

pub open spec fn scores_of(players: Seq<PlayerInfo>) -> Seq<u32> {
    players.map_values(|p: PlayerInfo| p.score)
}

/// The table for `players` listed in `order`, ranks counted from 1.
pub open spec fn ranks_of(players: Seq<PlayerInfo>, order: Seq<usize>) -> Seq<PlayerRankInfo> {
    Seq::new(order.len(), |t: int| rank_entry(players[order[t] as int], t + 1))
}

/// The players by decreasing score (equal scores in room order), ranked
/// from 1.
pub fn rankings(players: &Vec<PlayerInfo>) -> (r: Vec<PlayerRankInfo>)
    ensures
        exists|order: Seq<usize>| ranked(order, scores_of(players@), players@.len()) && r@ == ranks_of(players@, order),
{
    let mut scores: Vec<u32> = Vec::new();
    let mut i: usize = 0;
    while i < players.len()
        invariant
            i <= players@.len(),
            scores@ == scores_of(players@.take(i as int)),
        decreases players@.len() - i,
    {
        scores.push(players[i].score);
        i = i + 1;
        proof {
            assert(scores@ =~= scores_of(players@.take(i as int)));
        }
    }
    proof {
        assert(players@.take(players@.len() as int) =~= players@);
    }
    let order = rank_scores(&scores);
    let mut r: Vec<PlayerRankInfo> = Vec::new();
    let mut t: usize = 0;
    while t < order.len()
        invariant
            t <= order@.len(),
            ranked(order@, scores@, scores@.len()),
            scores@.len() == players@.len(),
            r@ == ranks_of(players@, order@).take(t as int),
        decreases order@.len() - t,
    {
        let p = &players[order[t]];
        r.push(PlayerRankInfo {
            rank: t + 1,
            username: p.username.clone(),
            color: p.color.clone(),
            score: p.score,
            is_eliminated: p.is_eliminated,
        });
        t = t + 1;
        proof {
            assert(r@ =~= ranks_of(players@, order@).take(t as int));
        }
    }
    proof {
        assert(r@ =~= ranks_of(players@, order@));
    }
    r
}

/// The names of the players of `ranks` with score `top`, in order, when
/// `top` is above zero.
pub open spec fn names_scoring(ranks: Seq<PlayerRankInfo>, top: u32) -> Seq<Seq<char>>
    decreases ranks.len(),
{
    if ranks.len() == 0 {
        Seq::empty()
    } else {
        let prev = names_scoring(ranks.drop_last(), top);
        if ranks.last().score == top && top > 0 {
            prev.push(ranks.last().username@)
        } else {
            prev
        }
    }
}

/// The winners of a ranked table: those with the first line's score, when
/// it is above zero.
pub open spec fn winners_of(ranks: Seq<PlayerRankInfo>) -> Seq<Seq<char>> {
    if ranks.len() == 0 {
        Seq::empty()
    } else {
        names_scoring(ranks, ranks[0].score)
    }
}

fn winner_names(ranks: &Vec<PlayerRankInfo>) -> (w: Vec<String>)
    ensures
        w@.len() == winners_of(ranks@).len(),
        forall|i: int| 0 <= i < w@.len() ==> (#[trigger] w@[i])@ == winners_of(ranks@)[i],
{
    let mut w: Vec<String> = Vec::new();
    if ranks.len() == 0 {
        return w;
    }
    let top = ranks[0].score;
    let mut i: usize = 0;
    while i < ranks.len()
        invariant
            i <= ranks@.len(),
            ranks@.len() > 0,
            top == ranks@[0].score,
            w@.len() == names_scoring(ranks@.take(i as int), top).len(),
            forall|k: int| 0 <= k < w@.len() ==> (#[trigger] w@[k])@ == names_scoring(ranks@.take(i as int), top)[k],
        decreases ranks@.len() - i,
    {
        proof {
            assert(ranks@.take(i + 1).drop_last() =~= ranks@.take(i as int));
            assert(ranks@.take(i + 1).last() == ranks@[i as int]);
        }
        if ranks[i].score == top && top > 0 {
            w.push(ranks[i].username.clone());
        }
        i = i + 1;
    }
    proof {
        assert(ranks@.take(ranks@.len() as int) =~= ranks@);
    }
    w
}

/// Every player of a non-empty room is eliminated.
pub open spec fn all_out(players: Seq<PlayerInfo>) -> bool {
    players.len() > 0 && forall|i: int| 0 <= i < players.len() ==> (#[trigger] players[i]).is_eliminated
}

fn everyone_out(players: &Vec<PlayerInfo>) -> (b: bool)
    ensures
        b == all_out(players@),
{
    if players.len() == 0 {
        return false;
    }
    let mut i: usize = 0;
    while i < players.len()
        invariant
            i <= players@.len(),
            forall|k: int| 0 <= k < i ==> (#[trigger] players@[k]).is_eliminated,
        decreases players@.len() - i,
    {
        if !players[i].is_eliminated {
            return false;
        }
        i = i + 1;
    }
    true
}

/// The summary `d` describes room state `s` with the winners named in
/// `winners` (or, when `None`, those at the top of the table).
pub open spec fn summary_of(d: GameOverModalData, s: RoomSnapshot, winners: Option<Seq<Seq<char>>>) -> bool {
    &&& exists|order: Seq<usize>| ranked(order, scores_of(s.players@), s.players@.len()) && d.player_rankings@ == ranks_of(s.players@, order)
    &&& d.winners@.len() == (match winners { Some(w) => w, None => winners_of(d.player_rankings@) }).len()
    &&& forall|i: int| 0 <= i < d.winners@.len() ==> (#[trigger] d.winners@[i])@ == (match winners { Some(w) => w, None => winners_of(d.player_rankings@) })[i]
    &&& d.is_all_eliminated == all_out(s.players@)
    &&& d.is_board_cleared == (s.revealed_count >= s.total_non_mines)
    &&& d.elapsed_seconds == s.elapsed_seconds
    &&& d.revealed_count == s.revealed_count
    &&& d.total_non_mines == s.total_non_mines
}

fn summarize(s: &RoomSnapshot, winners: Option<Vec<String>>) -> (d: GameOverModalData)
    ensures
        summary_of(d, *s, match winners { Some(w) => Some(w@.map_values(|x: String| x@)), None => None }),
{
    let ranks = rankings(&s.players);
    let names = match winners {
        Some(w) => w,
        None => winner_names(&ranks),
    };
    let d = GameOverModalData {
        winners: names,
        is_all_eliminated: everyone_out(&s.players),
        is_board_cleared: s.revealed_count >= s.total_non_mines,
        player_rankings: ranks,
        elapsed_seconds: s.elapsed_seconds,
        revealed_count: s.revealed_count,
        total_non_mines: s.total_non_mines,
    };
    d
}

/// The index of the first player with id `id`.
pub open spec fn first_with(players: Seq<PlayerInfo>, id: Seq<char>) -> Option<int> {
    if exists|i: int| 0 <= i < players.len() && (#[trigger] players[i]).id@ == id && forall|j: int| 0 <= j < i ==> (#[trigger] players[j]).id@ != id {
        Some(choose|i: int| 0 <= i < players.len() && (#[trigger] players[i]).id@ == id && forall|j: int| 0 <= j < i ==> (#[trigger] players[j]).id@ != id)
    } else {
        None
    }
}

/// The first player with id `id` changed by `f`.
pub open spec fn with_player(players: Seq<PlayerInfo>, id: Seq<char>, f: spec_fn(PlayerInfo) -> PlayerInfo) -> Seq<PlayerInfo> {
    match first_with(players, id) {
        Some(i) => players.update(i, f(players[i])),
        None => players,
    }
}

/// The scores of `deltas` applied in order.
pub open spec fn with_scores(players: Seq<PlayerInfo>, deltas: Seq<ScoreDelta>) -> Seq<PlayerInfo>
    decreases deltas.len(),
{
    if deltas.len() == 0 {
        players
    } else {
        let d = deltas.last();
        with_player(with_scores(players, deltas.drop_last()), d.player_id@, |p: PlayerInfo| PlayerInfo { score: d.total_score, ..p })
    }
}

/// The cells with every listed mine marked as a mine.
pub open spec fn with_mines(s: RoomSnapshot, cells: Seq<CellSnapshot>, mines: Seq<Coord3D>) -> Seq<CellSnapshot>
    decreases mines.len(),
{
    if mines.len() == 0 {
        cells
    } else {
        let prev = with_mines(s, cells, mines.drop_last());
        let i = mines.last().index(s.config.width as int, s.config.height as int);
        if 0 <= i < prev.len() {
            prev.update(i, CellSnapshot { is_mine: true, ..prev[i] })
        } else {
            prev
        }
    }
}

/// Finds the first player with id `id`.
fn find_first(players: &Vec<PlayerInfo>, id: &str) -> (r: Option<usize>)
    ensures
        r is None ==> first_with(players@, id@) is None,
        r matches Some(i) ==> first_with(players@, id@) == Some(i as int),
{
    let mut i: usize = 0;
    while i < players.len()
        invariant
            i <= players@.len(),
            forall|k: int| 0 <= k < i ==> (#[trigger] players@[k]).id@ != id@,
        decreases players@.len() - i,
    {
        if str_eq(players[i].id.as_str(), id) {
            proof {
                let c = choose|c: int| 0 <= c < players@.len() && (#[trigger] players@[c]).id@ == id@ && forall|j: int| 0 <= j < c ==> (#[trigger] players@[j]).id@ != id@;
                if c < i {
                    assert(players@[c].id@ != id@);
                }
                if c > i {
                    assert(players@[i as int].id@ != id@);
                }
            }
            return Some(i);
        }
        i = i + 1;
    }
    None
}

/// Applies the new totals of `deltas`, in order.
fn apply_scores(players: &mut Vec<PlayerInfo>, deltas: &Vec<ScoreDelta>)
    ensures
        final(players)@ == with_scores(old(players)@, deltas@),
{
    let ghost p0 = players@;
    let mut k: usize = 0;
    while k < deltas.len()
        invariant
            k <= deltas@.len(),
            players@ == with_scores(p0, deltas@.take(k as int)),
        decreases deltas@.len() - k,
    {
        proof {
            assert(deltas@.take(k + 1).drop_last() =~= deltas@.take(k as int));
            assert(deltas@.take(k + 1).last() == deltas@[k as int]);
        }
        let d = &deltas[k];
        match find_first(players, d.player_id.as_str()) {
            Some(i) => {
                let mut p = players.remove(i);
                p.score = d.total_score;
                players.insert(i, p);
                proof {
                    assert(players@ =~= with_scores(p0, deltas@.take(k + 1)));
                }
            }
            None => {}
        }
        k = k + 1;
    }
    proof {
        assert(deltas@.take(deltas@.len() as int) =~= deltas@);
    }
}

/// What the client shows of its room.
pub struct ClientView {
    pub room: Option<RoomSnapshot>,
    pub chat: Vec<ChatMessagePayload>,
    pub game_over: Option<GameOverModalData>,
}

/// The room of `s` made ready for a new game on `config`: playing, nothing
/// uncovered, flagged or shown as a mine, every player back in with no
/// points.
pub open spec fn restarted(s: RoomSnapshot, config: BoardConfig) -> (RoomSnapshot) {
    RoomSnapshot {
        status: GameStatus::Playing,
        config,
        revealed_count: 0,
        cells: s.cells,
        players: s.players,
        ..s
    }
}

/// `n` is room `s` reset for a new game on `config`.
pub open spec fn restarted_as(s: RoomSnapshot, n: RoomSnapshot, config: BoardConfig) -> bool {
    &&& n == RoomSnapshot { cells: n.cells, players: n.players, ..restarted(s, config) }
    &&& n.cells@.len() == s.cells@.len()
    &&& forall|i: int| 0 <= i < n.cells@.len() ==> #[trigger] n.cells@[i] == (CellSnapshot { is_revealed: false, is_flagged: false, is_mine: false, ..s.cells@[i] })
    &&& n.players@.len() == s.players@.len()
    &&& forall|i: int| 0 <= i < n.players@.len() ==> #[trigger] n.players@[i] == (PlayerInfo { score: 0, is_eliminated: false, is_spectator: false, ..s.players@[i] })
}

/// `n` is room `s` after the report of uncovered cells and new scores.
pub open spec fn revealed_as(s: RoomSnapshot, n: RoomSnapshot, revealed: Seq<crate::board::RevealedCellInfo>, deltas: Seq<ScoreDelta>) -> bool {
    &&& n == RoomSnapshot { cells: n.cells, players: n.players, revealed_count: n.revealed_count, ..s }
    &&& n.cells@ == with_revealed(s, revealed)
    &&& n.revealed_count == if s.revealed_count + revealed.len() <= usize::MAX { s.revealed_count + revealed.len() } else { usize::MAX as int }
    &&& n.players@ == with_scores(s.players@, deltas)
}

/// `n` is room `s` after player `id` hit the mine at `hit` (all mines listed).
pub open spec fn eliminated_as(s: RoomSnapshot, n: RoomSnapshot, id: Seq<char>, hit: Coord3D, mines: Seq<Coord3D>) -> bool {
    let shown = crate::bots::cells_with(s, hit, |c: CellSnapshot| CellSnapshot { is_revealed: true, is_mine: true, ..c });
    &&& n == RoomSnapshot { cells: n.cells, players: n.players, ..s }
    &&& n.players@ == with_player(s.players@, id, |p: PlayerInfo| PlayerInfo { is_eliminated: true, is_spectator: true, ..p })
    &&& n.cells@ == with_mines(s, shown, mines)
}

/// `n` is room `s` after a game ended with `scores`.
pub open spec fn finished_as(s: RoomSnapshot, n: RoomSnapshot, scores: Seq<ScoreDelta>) -> bool {
    &&& n == RoomSnapshot { players: n.players, status: n.status, ..s }
    &&& n.players@ == with_scores(s.players@, scores)
    &&& n.status == if s.revealed_count >= s.total_non_mines { GameStatus::Won } else { GameStatus::Lost }
}

fn restart_room(s: &mut RoomSnapshot, config: BoardConfig)
    ensures
        restarted_as(*old(s), *final(s), config),
{
    let ghost s0 = *s;
    s.status = GameStatus::Playing;
    s.config = config;
    s.revealed_count = 0;
    let mut i: usize = 0;
    while i < s.cells.len()
        invariant
            i <= s.cells@.len(),
            s.cells@.len() == s0.cells@.len(),
            forall|k: int| 0 <= k < i ==> #[trigger] s.cells@[k] == (CellSnapshot { is_revealed: false, is_flagged: false, is_mine: false, ..s0.cells@[k] }),
            forall|k: int| i <= k < s.cells@.len() ==> #[trigger] s.cells@[k] == s0.cells@[k],
            *s == (RoomSnapshot { cells: s.cells, ..restarted(s0, config) }),
        decreases s.cells@.len() - i,
    {
        let mut c = s.cells.remove(i);
        c.is_revealed = false;
        c.is_flagged = false;
        c.is_mine = false;
        s.cells.insert(i, c);
        i = i + 1;
    }
    let mut j: usize = 0;
    while j < s.players.len()
        invariant
            j <= s.players@.len(),
            s.players@.len() == s0.players@.len(),
            s.cells@.len() == s0.cells@.len(),
            forall|k: int| 0 <= k < s.cells@.len() ==> #[trigger] s.cells@[k] == (CellSnapshot { is_revealed: false, is_flagged: false, is_mine: false, ..s0.cells@[k] }),
            forall|k: int| 0 <= k < j ==> #[trigger] s.players@[k] == (PlayerInfo { score: 0, is_eliminated: false, is_spectator: false, ..s0.players@[k] }),
            forall|k: int| j <= k < s.players@.len() ==> #[trigger] s.players@[k] == s0.players@[k],
            *s == (RoomSnapshot { cells: s.cells, players: s.players, ..restarted(s0, config) }),
        decreases s.players@.len() - j,
    {
        let mut p = s.players.remove(j);
        p.score = 0;
        p.is_eliminated = false;
        p.is_spectator = false;
        s.players.insert(j, p);
        j = j + 1;
    }
}

fn reveal_into(s: &mut RoomSnapshot, revealed: &Vec<crate::board::RevealedCellInfo>, deltas: &Vec<ScoreDelta>)
    ensures
        revealed_as(*old(s), *final(s), revealed@, deltas@),
{
    let ghost s0 = *s;
    let w = s.config.width;
    let h = s.config.height;
    let mut k: usize = 0;
    while k < revealed.len()
        invariant
            k <= revealed@.len(),
            w == s0.config.width,
            h == s0.config.height,
            *s == (RoomSnapshot { cells: s.cells, revealed_count: s.revealed_count, ..s0 }),
            s.cells@ == with_revealed(s0, revealed@.take(k as int)),
            s.revealed_count == if s0.revealed_count + k <= usize::MAX { s0.revealed_count + k } else { usize::MAX as int },
        decreases revealed@.len() - k,
    {
        proof {
            assert(revealed@.take(k + 1).drop_last() =~= revealed@.take(k as int));
            assert(revealed@.take(k + 1).last() == revealed@[k as int]);
        }
        let r = &revealed[k];
        match cell_slot(r.coord, w, h, s.cells.len()) {
            Some(i) => {
                let mut c = s.cells.remove(i);
                c.is_revealed = true;
                c.adjacent_mines = r.adjacent_mines;
                c.is_mine = r.is_mine;
                c.revealed_by = r.revealed_by.clone();
                c.player_color = r.player_color.clone();
                s.cells.insert(i, c);
                proof {
                    assert(s.cells@ =~= with_revealed(s0, revealed@.take(k + 1)));
                }
            }
            None => {}
        }
        s.revealed_count = s.revealed_count.saturating_add(1);
        k = k + 1;
    }
    proof {
        assert(revealed@.take(revealed@.len() as int) =~= revealed@);
    }
    apply_scores(&mut s.players, deltas);
}

fn eliminate_into(s: &mut RoomSnapshot, player_id: &str, hit_coord: Coord3D, all_mines: &Vec<Coord3D>)
    ensures
        eliminated_as(*old(s), *final(s), player_id@, hit_coord, all_mines@),
{
    let ghost s0 = *s;
    match find_first(&s.players, player_id) {
        Some(i) => {
            let mut p = s.players.remove(i);
            p.is_eliminated = true;
            p.is_spectator = true;
            s.players.insert(i, p);
            proof {
                assert(s.players@ =~= with_player(s0.players@, player_id@, |p: PlayerInfo| PlayerInfo { is_eliminated: true, is_spectator: true, ..p }));
            }
        }
        None => {}
    }
    let w = s.config.width;
    let h = s.config.height;
    match cell_slot(hit_coord, w, h, s.cells.len()) {
        Some(i) => {
            let mut c = s.cells.remove(i);
            c.is_revealed = true;
            c.is_mine = true;
            s.cells.insert(i, c);
        }
        None => {}
    }
    let ghost shown = crate::bots::cells_with(s0, hit_coord, |c: CellSnapshot| CellSnapshot { is_revealed: true, is_mine: true, ..c });
    proof {
        assert(s.cells@ =~= shown);
    }
    let mut k: usize = 0;
    while k < all_mines.len()
        invariant
            k <= all_mines@.len(),
            w == s0.config.width,
            h == s0.config.height,
            *s == (RoomSnapshot { cells: s.cells, players: s.players, ..s0 }),
            s.players@ == with_player(s0.players@, player_id@, |p: PlayerInfo| PlayerInfo { is_eliminated: true, is_spectator: true, ..p }),
            s.cells@ == with_mines(s0, shown, all_mines@.take(k as int)),
        decreases all_mines@.len() - k,
    {
        proof {
            assert(all_mines@.take(k + 1).drop_last() =~= all_mines@.take(k as int));
            assert(all_mines@.take(k + 1).last() == all_mines@[k as int]);
        }
        match cell_slot(all_mines[k], w, h, s.cells.len()) {
            Some(i) => {
                let mut c = s.cells.remove(i);
                c.is_mine = true;
                s.cells.insert(i, c);
                proof {
                    assert(s.cells@ =~= with_mines(s0, shown, all_mines@.take(k + 1)));
                }
            }
            None => {}
        }
        k = k + 1;
    }
    proof {
        assert(all_mines@.take(all_mines@.len() as int) =~= all_mines@);
    }
}

fn flag_into(s: &mut RoomSnapshot, coord: Coord3D, is_flagged: bool)
    ensures
        *final(s) == (RoomSnapshot { cells: final(s).cells, ..*old(s) }),
        final(s).cells@ == crate::bots::cells_with(*old(s), coord, |c: CellSnapshot| CellSnapshot { is_flagged, ..c }),
{
    let ghost s0 = *s;
    match cell_slot(coord, s.config.width, s.config.height, s.cells.len()) {
        Some(i) => {
            let mut c = s.cells.remove(i);
            c.is_flagged = is_flagged;
            s.cells.insert(i, c);
        }
        None => {}
    }
    proof {
        assert(s.cells@ =~= crate::bots::cells_with(s0, coord, |c: CellSnapshot| CellSnapshot { is_flagged, ..c }));
    }
}

fn finish_room(s: &mut RoomSnapshot, final_scores: &Vec<ScoreDelta>)
    ensures
        finished_as(*old(s), *final(s), final_scores@),
{
    apply_scores(&mut s.players, final_scores);
    s.status = if s.revealed_count >= s.total_non_mines { GameStatus::Won } else { GameStatus::Lost };
}

impl ClientView {
    pub fn new() -> (v: Self)
        ensures
            v.room is None,
            v.chat@.len() == 0,
            v.game_over is None,
    {
        ClientView { room: None, chat: Vec::new(), game_over: None }
    }

    /// Takes in one message of the server.
    ///
    /// A full state replaces the room; when it shows a finished game and no
    /// summary is shown yet, the summary is made from it. A game start drops
    /// the summary and resets the room for the new game. Uncovered cells,
    /// eliminations, flags and scores are written into the room. The end of
    /// the game sets the final scores, marks the room won when every safe
    /// cell is uncovered (lost otherwise) and makes the summary with the
    /// winners named by the server. A chat line joins the chat. Without a
    /// room, only full states, game starts and chat lines count.
    pub fn apply_server_message(&mut self, msg: ServerMessage)
        ensures
            !(msg is ChatMessage) ==> final(self).chat == old(self).chat,
            msg matches ServerMessage::ChatMessage(c) ==> final(self).chat@ == old(self).chat@.push(c) && final(self).room == old(self).room && final(self).game_over == old(self).game_over,
            (msg is GlobalNotification || msg is Pong || msg is Error) ==> *final(self) == *old(self),
            msg matches ServerMessage::RoomState(s) ==> {
                &&& final(self).room == Some(s)
                &&& ((s.status == GameStatus::Won || s.status == GameStatus::Lost) && old(self).game_over is None)
                    ==> (final(self).game_over matches Some(d) && summary_of(d, s, None))
                &&& !((s.status == GameStatus::Won || s.status == GameStatus::Lost) && old(self).game_over is None)
                    ==> final(self).game_over == old(self).game_over
            },
            msg is GameStarted ==> final(self).game_over is None,
            (msg is CellsRevealed || msg is PlayerEliminated || msg is PlayerFlagToggled) ==> final(self).game_over == old(self).game_over,
            (msg is GameStarted || msg is CellsRevealed || msg is PlayerEliminated || msg is PlayerFlagToggled || msg is GameOver) && old(self).room is None
                ==> final(self).room is None && (!(msg is GameStarted) ==> final(self).game_over == old(self).game_over),
            old(self).room matches Some(s) ==> (final(self).room matches Some(n) && match msg {
                ServerMessage::GameStarted { config } => restarted_as(s, n, config),
                ServerMessage::CellsRevealed { revealed, score_deltas } => revealed_as(s, n, revealed@, score_deltas@),
                ServerMessage::PlayerEliminated { player_id, hit_coord, all_mines, .. } => eliminated_as(s, n, player_id@, hit_coord, all_mines@),
                ServerMessage::PlayerFlagToggled { coord, is_flagged, .. } => n == (RoomSnapshot { cells: n.cells, ..s })
                    && n.cells@ == crate::bots::cells_with(s, coord, |c: CellSnapshot| CellSnapshot { is_flagged, ..c }),
                ServerMessage::GameOver { winners, final_scores } => finished_as(s, n, final_scores@)
                    && (final(self).game_over matches Some(d) && summary_of(d, n, Some(winners@.map_values(|x: String| x@)))),
                ServerMessage::RoomState(t) => n == t,
                _ => n == s,
            }),
    {
        match msg {
            ServerMessage::RoomState(s) => {
                if (s.status == GameStatus::Won || s.status == GameStatus::Lost) && self.game_over.is_none() {
                    self.game_over = Some(summarize(&s, None));
                }
                self.room = Some(s);
            }
            ServerMessage::GameStarted { config } => {
                self.game_over = None;
                if let Some(mut s) = self.room.take() {
                    restart_room(&mut s, config);
                    self.room = Some(s);
                }
            }
            ServerMessage::CellsRevealed { revealed, score_deltas } => {
                if let Some(mut s) = self.room.take() {
                    reveal_into(&mut s, &revealed, &score_deltas);
                    self.room = Some(s);
                }
            }
            ServerMessage::PlayerEliminated { player_id, hit_coord, all_mines, .. } => {
                if let Some(mut s) = self.room.take() {
                    eliminate_into(&mut s, player_id.as_str(), hit_coord, &all_mines);
                    self.room = Some(s);
                }
            }
            ServerMessage::PlayerFlagToggled { coord, is_flagged, .. } => {
                if let Some(mut s) = self.room.take() {
                    flag_into(&mut s, coord, is_flagged);
                    self.room = Some(s);
                }
            }
            ServerMessage::GameOver { winners, final_scores } => {
                if let Some(mut s) = self.room.take() {
                    finish_room(&mut s, &final_scores);
                    self.game_over = Some(summarize(&s, Some(winners)));
                    self.room = Some(s);
                }
            }
            ServerMessage::ChatMessage(c) => {
                self.chat.push(c);
            }
            _ => {}
        }
    }
}

} // verus!
