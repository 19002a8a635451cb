//! The terminal front end's decisions: what each key press does to the
//! single-player game, the cursor, the layer shown, the custom-board form
//! and the help screen, and what the terminal must do outside the game
//! (quit, run the local server, talk to a room). Drawing, the clock and the
//! network stay with the terminal.
use vstd::prelude::*;
use crate::board::{Board, BoardConfig, Difficulty, GameStatus, RevealResult, reveal_done, chord_done, flag_flipped, custom_outcome, lemma_valid_index};
use crate::decide::{board_snapshot, ai_may_choose};
use crate::session::view_of;
use crate::protocol::snapshot_cells;
use crate::solver::{AiAction, AiSolver, BotTier};
use crate::text::{owned, u64_decimal};
use crate::topology::Coord3D;

verus! {

/// A key as the terminal reads it.
#[derive(Debug, Clone, Copy, PartialEq, Eq, Structural)]
pub enum TuiKey {
    Char(char),
    Up,
    Down,
    Left,
    Right,
    PageUp,
    PageDown,
    Enter,
    Esc,
    F1,
    Other,
}

/// What the terminal is used for.
#[derive(Debug, Clone, Copy, PartialEq, Eq, Structural)]
pub enum TuiMode {
    SinglePlayer,
    Multiplayer,
    HostServer,
}

/// What the terminal must do after a key press.
#[derive(Debug, Clone, PartialEq, Eq, Structural)]
pub enum TuiAction {
    /// Nothing beyond redrawing.
    Nothing,
    /// Leave the program.
    Quit,
    /// The cell under the cursor was uncovered (the game clock starts).
    Reveal(Coord3D),
    /// The number under the cursor was chorded (the game clock starts).
    Chord(Coord3D),
    /// The flag under the cursor was put on or taken off.
    Flag(Coord3D),
    /// The AI made this move on the board.
    BotMove(AiAction),
    /// A new game was set up (the game clock stops).
    NewGame,
    /// Start the local server on this port.
    StartServer(u16),
    /// Stop the local server.
    StopServer,
    /// Connect to the room server.
    Connect,
    /// Ask the room server for a new room.
    CreateRoom,
    /// Ask the room server for a master-tier bot.
    AddBot,
}

/// The state of the terminal front end.
pub struct TuiState {
    pub mode: TuiMode,
    pub config: BoardConfig,
    pub board: Board,
    pub cursor: Coord3D,
    pub layer: usize,
    pub status: String,
    pub hint: Option<String>,
    pub show_help: bool,
    pub custom_open: bool,
    pub custom_w: usize,
    pub custom_h: usize,
    pub custom_d: usize,
    pub custom_m: usize,
    pub custom_field: usize,
    pub custom_error: Option<String>,
    pub server_running: bool,
    pub server_port: u16,
    pub connected: bool,
    pub in_room: bool,
}

/// A configuration a board can be built from and played on.
pub open spec fn playable(c: BoardConfig) -> bool {
    &&& c.spec_dims().fits_usize()
    &&& c.spec_dims().fits_i32()
    &&& c.mines <= c.spec_dims().total()
    &&& c.width > 0 && c.height > 0 && c.depth > 0
}

/// The key that uncovers or chords the cell under the cursor.
pub open spec fn is_activate(k: TuiKey) -> bool {
    k == TuiKey::Enter || k == TuiKey::Char(' ')
}

/// The key that puts a flag on or takes it off.
pub open spec fn is_flag_key(k: TuiKey) -> bool {
    k == TuiKey::Char('f') || k == TuiKey::Char('F')
}

/// The key that chords on the cell under the cursor.
pub open spec fn is_chord_key(k: TuiKey) -> bool {
    k == TuiKey::Char('c') || k == TuiKey::Char('C')
}

/// The keys that open the help screen.
pub open spec fn is_help_key(k: TuiKey) -> bool {
    k == TuiKey::F1 || k == TuiKey::Char('?') || k == TuiKey::Char('k') || k == TuiKey::Char('K')
}

impl TuiState {
    /// The invariant: a playable board of the chosen configuration, the
    /// cursor on it and on the layer shown, and the custom form within the
    /// ranges a custom board may take.
    pub open spec fn wf(self) -> bool {
        &&& playable(self.config)
        &&& self.board.wf()
        &&& self.board.config == self.config
        &&& self.board.dims == self.config.spec_dims()
        &&& self.board.dims.valid(self.cursor)
        &&& self.cursor.z == self.layer
        &&& 4 <= self.custom_w <= 60
        &&& 4 <= self.custom_h <= 40
        &&& 1 <= self.custom_d <= 16
        &&& 1 <= self.custom_m <= 5000
        &&& self.custom_field <= 3
    }

    /// A new front end: a medium board, the cursor in its centre, the
    /// custom form filled with the medium sizes, and the local server's port
    /// 3000.
    pub fn new() -> (s: Self)
        ensures
            s.wf(),
            s.mode == TuiMode::SinglePlayer,
            s.config.width == 16 && s.config.height == 16 && s.config.depth == 4 && s.config.mines == 160,
            s.cursor == (Coord3D { x: 8, y: 8, z: 2 }),
            !s.board.is_generated,
            !s.show_help && !s.custom_open,
            s.custom_w == 16 && s.custom_h == 16 && s.custom_d == 4 && s.custom_m == 160 && s.custom_field == 0,
            s.server_port == 3000,
            !s.server_running && !s.connected && !s.in_room,
    {
        let config = BoardConfig::medium();
        let board = Board::new(config);
        TuiState {
            mode: TuiMode::SinglePlayer,
            config,
            board,
            cursor: Coord3D::new(config.width / 2, config.height / 2, config.depth / 2),
            layer: config.depth / 2,
            status: owned("SYSTEM READY // Press [F1] or [?] for Full Keymap Guide."),
            hint: None,
            show_help: false,
            custom_open: false,
            custom_w: 16,
            custom_h: 16,
            custom_d: 4,
            custom_m: 160,
            custom_field: 0,
            custom_error: None,
            server_running: false,
            server_port: 3000,
            connected: false,
            in_room: false,
        }
    }
}

/// The cell an AI move is made on.
pub open spec fn action_cell(act: AiAction) -> Coord3D {
    match act {
        AiAction::Reveal(x) => x,
        AiAction::Flag(x) => x,
        AiAction::Chord(x) => x,
    }
}

/// `"<prefix>(x,y,z)"`.
fn with_coord(prefix: &str, c: Coord3D) -> (s: String)
    ensures
        s@ == prefix@ + "("@ + crate::text::decimal(c.x as nat) + ","@ + crate::text::decimal(c.y as nat) + ","@
            + crate::text::decimal(c.z as nat) + ")"@,
{
    let mut s = owned(prefix);
    s.append("(");
    s.append(u64_decimal(c.x as u64).as_str());
    s.append(",");
    s.append(u64_decimal(c.y as u64).as_str());
    s.append(",");
    s.append(u64_decimal(c.z as u64).as_str());
    s.append(")");
    s
}

/// The status shown when a move is tried on a finished game.
pub open spec fn game_over_text() -> Seq<char> {
    "Game Over! Press [R] to start a new game."@
}

/// `v` lowered by `step`, but not below `lo`.
pub open spec fn lowered(v: usize, step: usize, lo: usize) -> usize {
    if v >= step + lo { (v - step) as usize } else { lo }
}

/// `v` raised by `step`, but not above `hi`.
pub open spec fn raised(v: usize, step: usize, hi: usize) -> usize {
    if v + step <= hi { (v + step) as usize } else { hi }
}

fn lower(v: usize, step: usize, lo: usize) -> (r: usize)
    ensures
        r == lowered(v, step, lo),
{
    if v >= step && v - step >= lo { v - step } else { lo }
}

fn raise(v: usize, step: usize, hi: usize) -> (r: usize)
    requires
        v <= hi,
    ensures
        r == raised(v, step, hi),
{
    if step <= hi - v { v + step } else { hi }
}

impl TuiState {
    /// A fresh game of `config`: the clock stops, the hint goes, and the
    /// cursor is brought inside the new board, on the layer `layer` (or the
    /// last one, if the board is not that deep).
    fn start_over(&mut self, config: BoardConfig, layer: usize)
        requires
            old(self).wf(),
            playable(config),
        ensures
            final(self).wf(),
            final(self).config == config,
            final(self).board.cells@ == Board::fresh_cells(config),
            !final(self).board.is_generated,
            final(self).board.status == GameStatus::Waiting,
            final(self).cursor.x == if old(self).cursor.x < config.width { old(self).cursor.x } else { (config.width - 1) as usize },
            final(self).cursor.y == if old(self).cursor.y < config.height { old(self).cursor.y } else { (config.height - 1) as usize },
            final(self).layer == if layer < config.depth { layer } else { (config.depth - 1) as usize },
            final(self).status@ == "Game re-initialized. Ready."@,
            final(self).hint is None,
            final(self).mode == old(self).mode,
            final(self).show_help == old(self).show_help,
            final(self).custom_open == old(self).custom_open,
            final(self).custom_w == old(self).custom_w && final(self).custom_h == old(self).custom_h,
            final(self).custom_d == old(self).custom_d && final(self).custom_m == old(self).custom_m,
            final(self).custom_field == old(self).custom_field,
            final(self).server_running == old(self).server_running,
            final(self).server_port == old(self).server_port,
            final(self).connected == old(self).connected && final(self).in_room == old(self).in_room,
    {
        self.config = config;
        self.board = Board::new(config);
        let x = if self.cursor.x < config.width { self.cursor.x } else { config.width - 1 };
        let y = if self.cursor.y < config.height { self.cursor.y } else { config.height - 1 };
        let z = if layer < config.depth { layer } else { config.depth - 1 };
        self.cursor = Coord3D::new(x, y, z);
        self.layer = z;
        self.status = owned("Game re-initialized. Ready.");
        self.hint = None;
    }

    /// The move the master AI would make on the board, if any.
    fn ai_advice(&self) -> (r: Option<AiAction>)
        requires
            self.wf(),
        ensures
            r matches Some(AiAction::Reveal(c)) ==> self.board.dims.valid(c),
            r matches Some(AiAction::Flag(c)) ==> self.board.dims.valid(c) && !self.board.at(c).is_revealed,
            r matches Some(AiAction::Chord(c)) ==> self.board.dims.valid(c),
            r is None <==> forall|j: int| 0 <= j < self.board.cells@.len() ==> (#[trigger] self.board.cells@[j]).is_revealed || self.board.cells@[j].is_flagged,
            ai_may_choose(self.board.dims, view_of(self.board), BotTier::Master, self.config.mines, r),
    {
        let dims = self.board.dims;
        let snaps = snapshot_cells(&self.board.cells);
        proof {
            assert(board_snapshot(dims, snaps@));
            crate::decide::lemma_ordered_is_arranged(dims, snaps@);
        }
        proof {
            assert(snaps@ == view_of(self.board));
        }
        let r = AiSolver::decide_action(dims, snaps.as_slice(), BotTier::Master, self.config.mines);
        proof {
            match r {
                Some(AiAction::Reveal(c)) => {
                    if c != crate::decide::centre(dims) {
                        let i = choose|i: int| 0 <= i < snaps@.len() && #[trigger] crate::decide::covered(snaps@, i) && c == crate::board::cell_coord(dims, i);
                        crate::board::lemma_cell_coord(dims, i);
                    }
                }
                Some(AiAction::Flag(c)) => {
                    let i = choose|i: int| 0 <= i < snaps@.len() && #[trigger] crate::decide::covered(snaps@, i) && c == crate::board::cell_coord(dims, i);
                    crate::board::lemma_cell_coord(dims, i);
                    assert(self.board.idx(c) == i);
                    assert(snaps@[i] == crate::protocol::snapshot_of(self.board.cells@[i]));
                }
                Some(AiAction::Chord(c)) => {
                    let i = choose|i: int| 0 <= i < snaps@.len() && #[trigger] crate::decide::chordable(dims, snaps@, i) && c == crate::board::cell_coord(dims, i);
                    crate::board::lemma_cell_coord(dims, i);
                }
                None => {
                    assert forall|j: int| 0 <= j < self.board.cells@.len() implies (#[trigger] self.board.cells@[j]).is_revealed || self.board.cells@[j].is_flagged by {
                        assert(!crate::decide::covered(snaps@, j));
                    }
                }
            }
        }
        r
    }
}

/// A key pressed on the custom-board form takes the state `before` to
/// `after` and asks the terminal for `a`: Esc or q closes the form; up and
/// down (w/k, s/j) pick the field; left and right (a/-, d/+/=) change it, a
/// size by one and the mine count by five, within 4-60 wide, 4-40 high,
/// 1-16 deep and 1-5000 mines; Enter starts a new game on the custom board
/// of those sizes, or shows why that board cannot be had. No key but Enter
/// touches the game, the configuration or the cursor.
pub open spec fn custom_form_step(before: TuiState, after: TuiState, key: TuiKey, a: TuiAction) -> bool {
    let closing = key == TuiKey::Esc || key == TuiKey::Char('q') || key == TuiKey::Char('Q');
    let up = key == TuiKey::Up || key == TuiKey::Char('w') || key == TuiKey::Char('k');
    let down = key == TuiKey::Down || key == TuiKey::Char('s') || key == TuiKey::Char('j');
    let left = key == TuiKey::Left || key == TuiKey::Char('a') || key == TuiKey::Char('-');
    let right = key == TuiKey::Right || key == TuiKey::Char('d') || key == TuiKey::Char('+') || key == TuiKey::Char('=');
    let same_fields = after.custom_w == before.custom_w && after.custom_h == before.custom_h
        && after.custom_d == before.custom_d && after.custom_m == before.custom_m;
    &&& after.mode == before.mode
    &&& after.show_help == before.show_help
    &&& key != TuiKey::Enter ==> {
        &&& a == TuiAction::Nothing
        &&& after.board == before.board
        &&& after.config == before.config
        &&& after.cursor == before.cursor
        &&& after.custom_open == !closing
    }
    &&& closing ==> after.custom_error is None && same_fields
    &&& up ==> after.custom_field == (if before.custom_field > 0 { before.custom_field - 1 } else { 0 }) && same_fields
    &&& down ==> after.custom_field == (if before.custom_field < 3 { before.custom_field + 1 } else { 3 }) && same_fields
    &&& left ==> {
        &&& after.custom_field == before.custom_field
        &&& after.custom_w == if before.custom_field == 0 { lowered(before.custom_w, 1, 4) } else { before.custom_w }
        &&& after.custom_h == if before.custom_field == 1 { lowered(before.custom_h, 1, 4) } else { before.custom_h }
        &&& after.custom_d == if before.custom_field == 2 { lowered(before.custom_d, 1, 1) } else { before.custom_d }
        &&& after.custom_m == if before.custom_field == 3 { lowered(before.custom_m, 5, 1) } else { before.custom_m }
    }
    &&& right ==> {
        &&& after.custom_field == before.custom_field
        &&& after.custom_w == if before.custom_field == 0 { raised(before.custom_w, 1, 60) } else { before.custom_w }
        &&& after.custom_h == if before.custom_field == 1 { raised(before.custom_h, 1, 40) } else { before.custom_h }
        &&& after.custom_d == if before.custom_field == 2 { raised(before.custom_d, 1, 16) } else { before.custom_d }
        &&& after.custom_m == if before.custom_field == 3 { raised(before.custom_m, 5, 5000) } else { before.custom_m }
    }
    &&& !(key == TuiKey::Enter || closing || up || down || left || right) ==> same_fields && after.custom_field == before.custom_field
    &&& key == TuiKey::Enter ==> match custom_outcome(before.custom_w as int, before.custom_h as int, before.custom_d as int, before.custom_m as int) {
        Ok(c) => {
            &&& after.config == c
            &&& after.board.cells@ == Board::fresh_cells(c)
            &&& !after.board.is_generated
            &&& after.layer == c.depth / 2
            &&& !after.custom_open
            &&& after.custom_error is None
            &&& a == TuiAction::NewGame
        },
        Err(e) => {
            &&& after.custom_error matches Some(m) && m@ == e
            &&& after.custom_open
            &&& after.board == before.board
            &&& after.config == before.config
            &&& a == TuiAction::Nothing
        },
    }
}

impl TuiState {
    /// A key on the custom-board form: Esc or q closes it; up and down pick
    /// the field; left and right change it (a size by one, the mine count by
    /// five) within 4-60 wide, 4-40 high, 1-16 deep and 1-5000 mines; Enter
    /// starts a game of that size, or shows why it cannot be had.
    fn custom_key(&mut self, key: TuiKey) -> (a: TuiAction)
        requires
            old(self).wf(),
            old(self).custom_open,
        ensures
            final(self).wf(),
            custom_form_step(*old(self), *final(self), key, a),
    {
        match key {
            TuiKey::Esc | TuiKey::Char('q') | TuiKey::Char('Q') => {
                self.custom_open = false;
                self.custom_error = None;
            }
            TuiKey::Up | TuiKey::Char('w') | TuiKey::Char('k') => {
                if self.custom_field > 0 {
                    self.custom_field = self.custom_field - 1;
                }
            }
            TuiKey::Down | TuiKey::Char('s') | TuiKey::Char('j') => {
                if self.custom_field < 3 {
                    self.custom_field = self.custom_field + 1;
                }
            }
            TuiKey::Left | TuiKey::Char('a') | TuiKey::Char('-') => {
                if self.custom_field == 0 {
                    self.custom_w = lower(self.custom_w, 1, 4);
                } else if self.custom_field == 1 {
                    self.custom_h = lower(self.custom_h, 1, 4);
                } else if self.custom_field == 2 {
                    self.custom_d = lower(self.custom_d, 1, 1);
                } else {
                    self.custom_m = lower(self.custom_m, 5, 1);
                }
            }
            TuiKey::Right | TuiKey::Char('d') | TuiKey::Char('+') | TuiKey::Char('=') => {
                if self.custom_field == 0 {
                    self.custom_w = raise(self.custom_w, 1, 60);
                } else if self.custom_field == 1 {
                    self.custom_h = raise(self.custom_h, 1, 40);
                } else if self.custom_field == 2 {
                    self.custom_d = raise(self.custom_d, 1, 16);
                } else {
                    self.custom_m = raise(self.custom_m, 5, 5000);
                }
            }
            TuiKey::Enter => {
                match BoardConfig::custom(self.custom_w, self.custom_h, self.custom_d, self.custom_m) {
                    Ok(cfg) => {
                        proof {
                            crate::board::lemma_custom_leaves_room(self.custom_w as int, self.custom_h as int, self.custom_d as int, self.custom_m as int);
                            let w = cfg.width as int;
                            let h = cfg.height as int;
                            let d = cfg.depth as int;
                            assert(w * h <= 2400 && w * h * d <= 38400) by (nonlinear_arith)
                                requires 4 <= w <= 60, 4 <= h <= 40, 1 <= d <= 16;
                        }
                        self.start_over(cfg, cfg.depth / 2);
                        self.custom_open = false;
                        self.custom_error = None;
                        let mut msg = owned("Custom 3D Game ((");
                        msg.append(u64_decimal(cfg.width as u64).as_str());
                        msg.append(", ");
                        msg.append(u64_decimal(cfg.height as u64).as_str());
                        msg.append(", ");
                        msg.append(u64_decimal(cfg.depth as u64).as_str());
                        msg.append(", ");
                        msg.append(u64_decimal(cfg.mines as u64).as_str());
                        msg.append(")) Ready.");
                        self.status = msg;
                        return TuiAction::NewGame;
                    }
                    Err(e) => {
                        self.custom_error = Some(e);
                    }
                }
            }
            _ => {}
        }
        TuiAction::Nothing
    }
}

impl TuiState {
    /// One key press. The help screen, when shown, is closed by any key; the
    /// custom-board form, when open, takes the key. Otherwise:
    /// - q quits; F1, ?, k open the help screen; m switches the mode;
    /// - r starts the game over, 1, 2, 3 start a beginner, intermediate or
    ///   expert game, 4 or u open the custom-board form;
    /// - the arrows (or w, a, s, d) move the cursor within the layer, PageUp
    ///   and PageDown (or [ and ]) change the layer, within the board;
    /// - Enter or Space uncovers the cell under the cursor, or chords on it
    ///   when it is uncovered; f flags it; c chords on it; on a finished
    ///   game these change nothing and say so;
    /// - / puts the cursor on the master AI's next move; b makes that move
    ///   (in single-player play) or asks the room for a master bot (in a
    ///   room); h runs or stops the local server (when hosting) or opens the
    ///   help screen; n connects, p creates a room.
    #[verifier::rlimit(80)]
    pub fn tui_step(&mut self, key: TuiKey) -> (a: TuiAction)
        requires
            old(self).wf(),
        ensures
            final(self).wf(),
            final(self).board.dims.valid(final(self).cursor),
            final(self).cursor.z == final(self).layer,
            4 <= final(self).custom_w <= 60,
            4 <= final(self).custom_h <= 40,
            1 <= final(self).custom_d <= 16,
            1 <= final(self).custom_m <= 5000,
            old(self).show_help ==> !final(self).show_help && final(self).board == old(self).board && final(self).cursor == old(self).cursor
                && final(self).custom_open == old(self).custom_open && a == TuiAction::Nothing,
            !old(self).show_help && old(self).custom_open ==> custom_form_step(*old(self), *final(self), key, a),
            ({
                let free = !old(self).show_help && !old(self).custom_open;
                let b = old(self).board;
                let c = old(self).cursor;
                &&& free && (key == TuiKey::Char('q') || key == TuiKey::Char('Q')) ==> a == TuiAction::Quit && final(self).board == b
                &&& free && is_help_key(key) ==> final(self).show_help && final(self).board == b
                &&& free && is_activate(key) && !b.is_over() && b.at(c).is_revealed ==> a == TuiAction::Chord(c)
                    && exists|res: RevealResult| #[trigger] chord_done(b, final(self).board, c, None, None, res)
                &&& free && is_activate(key) && !b.is_over() && !b.at(c).is_revealed ==> a == TuiAction::Reveal(c)
                    && exists|res: RevealResult| #[trigger] reveal_done(b, final(self).board, c, None, None, res)
                &&& free && is_chord_key(key) && !b.is_over() ==> a == TuiAction::Chord(c)
                    && exists|res: RevealResult| #[trigger] chord_done(b, final(self).board, c, None, None, res)
                &&& free && is_flag_key(key) && !b.is_over() ==> a == TuiAction::Flag(c) && ({
                    &&& !b.at(c).is_revealed ==> final(self).board.cells@ == flag_flipped(b.cells@, b.idx(c))
                    &&& b.at(c).is_revealed ==> final(self).board == b
                })
                &&& free && (is_activate(key) || is_flag_key(key) || is_chord_key(key)) && b.is_over() ==>
                    final(self).board == b && a == TuiAction::Nothing && final(self).status@ == game_over_text()
                &&& free && (key == TuiKey::Up || key == TuiKey::Char('w')) ==> final(self).cursor == (Coord3D { y: if c.y > 0 { (c.y - 1) as usize } else { c.y }, ..c })
                &&& free && (key == TuiKey::Down || key == TuiKey::Char('s')) ==> final(self).cursor == (Coord3D { y: if c.y + 1 < b.dims.height { (c.y + 1) as usize } else { c.y }, ..c })
                &&& free && (key == TuiKey::Left || key == TuiKey::Char('a')) ==> final(self).cursor == (Coord3D { x: if c.x > 0 { (c.x - 1) as usize } else { c.x }, ..c })
                &&& free && (key == TuiKey::Right || key == TuiKey::Char('d')) ==> final(self).cursor == (Coord3D { x: if c.x + 1 < b.dims.width { (c.x + 1) as usize } else { c.x }, ..c })
                &&& free && (key == TuiKey::PageUp || key == TuiKey::Char('[') || key == TuiKey::Char('<')) ==> final(self).cursor == (Coord3D { z: if c.z > 0 { (c.z - 1) as usize } else { c.z }, ..c })
                &&& free && (key == TuiKey::PageDown || key == TuiKey::Char(']') || key == TuiKey::Char('>')) ==> final(self).cursor == (Coord3D { z: if c.z + 1 < b.dims.depth { (c.z + 1) as usize } else { c.z }, ..c })
                &&& free && (key == TuiKey::Char('r') || key == TuiKey::Char('R')) ==> a == TuiAction::NewGame && final(self).config == old(self).config
                    && final(self).board.cells@ == Board::fresh_cells(old(self).config) && !final(self).board.is_generated
                &&& free && key == TuiKey::Char('1') ==> a == TuiAction::NewGame && final(self).config == (BoardConfig { difficulty: Difficulty::Easy, width: 9, height: 9, depth: 3, mines: 25 }) && !final(self).board.is_generated
                &&& free && key == TuiKey::Char('2') ==> a == TuiAction::NewGame && final(self).config == (BoardConfig { difficulty: Difficulty::Medium, width: 16, height: 16, depth: 4, mines: 160 }) && !final(self).board.is_generated
                &&& free && key == TuiKey::Char('3') ==> a == TuiAction::NewGame && final(self).config == (BoardConfig { difficulty: Difficulty::Expert, width: 30, height: 16, depth: 6, mines: 580 }) && !final(self).board.is_generated
                &&& free && (key == TuiKey::Char('4') || key == TuiKey::Char('u') || key == TuiKey::Char('U')) ==> final(self).custom_open && final(self).board == b
                &&& free && (key == TuiKey::Char('m') || key == TuiKey::Char('M')) ==> final(self).mode == match old(self).mode {
                    TuiMode::SinglePlayer => TuiMode::Multiplayer,
                    TuiMode::Multiplayer => TuiMode::HostServer,
                    TuiMode::HostServer => TuiMode::SinglePlayer,
                }
                &&& free && key == TuiKey::Char('/') ==> final(self).board == b
                    && exists|r: Option<AiAction>| #[trigger] ai_may_choose(b.dims, view_of(b), BotTier::Master, old(self).config.mines, r) && match r {
                        Some(act) => final(self).cursor == action_cell(act) && final(self).layer == action_cell(act).z,
                        None => final(self).cursor == c,
                    }
                &&& free && (key == TuiKey::Char('h') || key == TuiKey::Char('H')) ==> final(self).board == b && if old(self).mode == TuiMode::HostServer {
                    &&& final(self).server_running == !old(self).server_running
                    &&& a == if old(self).server_running { TuiAction::StopServer } else { TuiAction::StartServer(old(self).server_port) }
                } else {
                    final(self).show_help
                }
                &&& free && (key == TuiKey::Char('n') || key == TuiKey::Char('N')) ==>
                    a == if old(self).mode == TuiMode::Multiplayer && !old(self).connected { TuiAction::Connect } else { TuiAction::Nothing }
                &&& free && (key == TuiKey::Char('p') || key == TuiKey::Char('P')) ==>
                    a == if old(self).mode == TuiMode::Multiplayer && old(self).connected && !old(self).in_room { TuiAction::CreateRoom } else { TuiAction::Nothing }
                &&& free && (key == TuiKey::Char('b') || key == TuiKey::Char('B')) && old(self).mode == TuiMode::Multiplayer && old(self).connected && old(self).in_room ==>
                    a == TuiAction::AddBot && final(self).board == b
                &&& free && (key == TuiKey::Char('b') || key == TuiKey::Char('B')) && old(self).mode == TuiMode::SinglePlayer && !b.is_over() ==> ({
                    &&& a matches TuiAction::BotMove(AiAction::Reveal(x)) ==> exists|res: RevealResult| #[trigger] reveal_done(b, final(self).board, x, None, None, res)
                    &&& a matches TuiAction::BotMove(AiAction::Chord(x)) ==> exists|res: RevealResult| #[trigger] chord_done(b, final(self).board, x, None, None, res)
                    &&& a matches TuiAction::BotMove(AiAction::Flag(x)) ==> final(self).board.cells@ == flag_flipped(b.cells@, b.idx(x))
                    &&& a is Nothing <==> forall|j: int| 0 <= j < b.cells@.len() ==> (#[trigger] b.cells@[j]).is_revealed || b.cells@[j].is_flagged
                    &&& a is Nothing || a is BotMove
                    &&& a matches TuiAction::BotMove(act) ==> ai_may_choose(b.dims, view_of(b), BotTier::Master, old(self).config.mines, Some(act))
                })
            }),
    {
        if self.show_help {
            self.show_help = false;
            return TuiAction::Nothing;
        }
        if self.custom_open {
            return self.custom_key(key);
        }
        let c = self.cursor;
        proof {
            lemma_valid_index(self.board.dims, c);
        }
        match key {
            TuiKey::Char('q') | TuiKey::Char('Q') => TuiAction::Quit,
            TuiKey::F1 | TuiKey::Char('?') | TuiKey::Char('k') | TuiKey::Char('K') => {
                self.show_help = true;
                TuiAction::Nothing
            }
            TuiKey::Char('m') | TuiKey::Char('M') => {
                self.mode = match self.mode {
                    TuiMode::SinglePlayer => TuiMode::Multiplayer,
                    TuiMode::Multiplayer => TuiMode::HostServer,
                    TuiMode::HostServer => TuiMode::SinglePlayer,
                };
                TuiAction::Nothing
            }
            TuiKey::Char('r') | TuiKey::Char('R') => {
                let cfg = self.config;
                let layer = self.layer;
                self.start_over(cfg, layer);
                TuiAction::NewGame
            }
            TuiKey::Char('1') => {
                let layer = self.layer;
                let cfg = BoardConfig::easy();
                proof {
                    assert(cfg.spec_dims().total() == 9 * 9 * 3);
                    assert(cfg.spec_dims().width * cfg.spec_dims().height == 9 * 9);
                }
                self.start_over(cfg, layer);
                self.status = owned("Switched to [1] Beginner (9x9x3, 25 mines).");
                TuiAction::NewGame
            }
            TuiKey::Char('2') => {
                let layer = self.layer;
                let cfg = BoardConfig::medium();
                proof {
                    assert(cfg.spec_dims().total() == 16 * 16 * 4);
                    assert(cfg.spec_dims().width * cfg.spec_dims().height == 16 * 16);
                }
                self.start_over(cfg, layer);
                self.status = owned("Switched to [2] Intermediate (16x16x4, 160 mines).");
                TuiAction::NewGame
            }
            TuiKey::Char('3') => {
                let layer = self.layer;
                let cfg = BoardConfig::expert();
                proof {
                    assert(cfg.spec_dims().total() == 30 * 16 * 6);
                    assert(cfg.spec_dims().width * cfg.spec_dims().height == 30 * 16);
                }
                self.start_over(cfg, layer);
                self.status = owned("Switched to [3] Expert (30x16x6, 580 mines).");
                TuiAction::NewGame
            }
            TuiKey::Char('4') | TuiKey::Char('u') | TuiKey::Char('U') => {
                self.custom_open = true;
                self.status = owned("CUSTOM SETUP // [W/S] Field, [A/D] Adjust, [Enter] Apply, [Esc] Cancel");
                TuiAction::Nothing
            }
            TuiKey::Up | TuiKey::Char('w') => {
                if self.cursor.y > 0 {
                    self.cursor.y = self.cursor.y - 1;
                }
                TuiAction::Nothing
            }
            TuiKey::Down | TuiKey::Char('s') => {
                if self.cursor.y + 1 < self.board.dims.height {
                    self.cursor.y = self.cursor.y + 1;
                }
                TuiAction::Nothing
            }
            TuiKey::Left | TuiKey::Char('a') => {
                if self.cursor.x > 0 {
                    self.cursor.x = self.cursor.x - 1;
                }
                TuiAction::Nothing
            }
            TuiKey::Right | TuiKey::Char('d') => {
                if self.cursor.x + 1 < self.board.dims.width {
                    self.cursor.x = self.cursor.x + 1;
                }
                TuiAction::Nothing
            }
            TuiKey::PageUp | TuiKey::Char('[') | TuiKey::Char('<') => {
                if self.layer > 0 {
                    self.layer = self.layer - 1;
                    self.cursor.z = self.layer;
                }
                TuiAction::Nothing
            }
            TuiKey::PageDown | TuiKey::Char(']') | TuiKey::Char('>') => {
                if self.layer + 1 < self.board.dims.depth {
                    self.layer = self.layer + 1;
                    self.cursor.z = self.layer;
                }
                TuiAction::Nothing
            }
            TuiKey::Enter | TuiKey::Char(' ') => {
                if self.board.status == GameStatus::Lost || self.board.status == GameStatus::Won {
                    self.status = owned("Game Over! Press [R] to start a new game.");
                    return TuiAction::Nothing;
                }
                if self.board.get_cell(c).is_revealed {
                    self.board.chord(c, None, None);
                    if self.board.status == GameStatus::Won {
                        self.status = owned("[VICTORY] All non-mine cells cleared!");
                    }
                    TuiAction::Chord(c)
                } else {
                    let res = self.board.reveal_cell(c, None, None);
                    if let RevealResult::HitMine { .. } = res {
                        self.status = owned("[DETONATION] Mine hit! Press [R] to restart.");
                    }
                    if self.board.status == GameStatus::Won {
                        self.status = owned("[VICTORY] All non-mine cells cleared!");
                    }
                    TuiAction::Reveal(c)
                }
            }
            TuiKey::Char('f') | TuiKey::Char('F') => {
                if self.board.status == GameStatus::Lost || self.board.status == GameStatus::Won {
                    self.status = owned("Game Over! Press [R] to start a new game.");
                    return TuiAction::Nothing;
                }
                self.board.toggle_flag(c);
                TuiAction::Flag(c)
            }
            TuiKey::Char('c') | TuiKey::Char('C') => {
                if self.board.status == GameStatus::Lost || self.board.status == GameStatus::Won {
                    self.status = owned("Game Over! Press [R] to start a new game.");
                    return TuiAction::Nothing;
                }
                self.board.chord(c, None, None);
                TuiAction::Chord(c)
            }
            TuiKey::Char('/') => {
                match self.ai_advice() {
                    Some(act) => {
                        let (word, at) = match act {
                            AiAction::Reveal(x) => ("REVEAL @ ", x),
                            AiAction::Flag(x) => ("FLAG @ ", x),
                            AiAction::Chord(x) => ("CHORD @ ", x),
                        };
                        self.hint = Some(with_coord(word, at));
                        let mut msg = owned("Solver: ");
                        msg.append(with_coord(word, at).as_str());
                        self.status = msg;
                        self.cursor = at;
                        self.layer = at.z;
                    }
                    None => {
                        self.status = owned("No deterministic mathematical moves found.");
                    }
                }
                TuiAction::Nothing
            }
            TuiKey::Char('h') | TuiKey::Char('H') => {
                if self.mode == TuiMode::HostServer {
                    if !self.server_running {
                        self.server_running = true;
                        let mut msg = owned("Local Server ONLINE -> 0.0.0.0:");
                        msg.append(u64_decimal(self.server_port as u64).as_str());
                        self.status = msg;
                        TuiAction::StartServer(self.server_port)
                    } else {
                        self.server_running = false;
                        self.status = owned("Local Server STOPPED.");
                        TuiAction::StopServer
                    }
                } else {
                    self.show_help = true;
                    TuiAction::Nothing
                }
            }
            TuiKey::Char('n') | TuiKey::Char('N') => {
                if self.mode == TuiMode::Multiplayer && !self.connected {
                    self.status = owned("Connecting to WebSocket server...");
                    TuiAction::Connect
                } else {
                    TuiAction::Nothing
                }
            }
            TuiKey::Char('p') | TuiKey::Char('P') => {
                if self.mode == TuiMode::Multiplayer && self.connected && !self.in_room {
                    TuiAction::CreateRoom
                } else {
                    TuiAction::Nothing
                }
            }
            TuiKey::Char('b') | TuiKey::Char('B') => {
                if self.mode == TuiMode::Multiplayer && self.connected && self.in_room {
                    self.status = owned("Added Master AI Bot (Turing) to room!");
                    TuiAction::AddBot
                } else if self.mode == TuiMode::SinglePlayer {
                    if self.board.status == GameStatus::Lost || self.board.status == GameStatus::Won {
                        self.status = owned("Game Over! Press [R] to start a new game.");
                        return TuiAction::Nothing;
                    }
                    match self.ai_advice() {
                        Some(act) => {
                            match act {
                                AiAction::Reveal(x) => {
                                    self.board.reveal_cell(x, None, None);
                                    self.status = with_coord("Bot executed REVEAL @ ", x);
                                }
                                AiAction::Flag(x) => {
                                    self.board.toggle_flag(x);
                                    self.status = with_coord("Bot placed FLAG @ ", x);
                                }
                                AiAction::Chord(x) => {
                                    self.board.chord(x, None, None);
                                    self.status = with_coord("Bot executed CHORD @ ", x);
                                }
                            }
                            TuiAction::BotMove(act)
                        }
                        None => TuiAction::Nothing,
                    }
                } else {
                    TuiAction::Nothing
                }
            }
            _ => TuiAction::Nothing,
        }
    }
}

} // verus!
