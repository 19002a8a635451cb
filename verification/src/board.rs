//! The minefield: configurations, cells, lazy mine placement with the
//! first-click safe zone, flags, flood-fill reveals and chords.
use vstd::prelude::*;
use crate::text::{decimal, u64_decimal, owned, clone_opt};
use crate::topology::{Coord3D, Dimensions, coord_of, lemma_coord_round_trip, lemma_index_round_trip};
use vstd::arithmetic::div_mod::{lemma_fundamental_div_mod, lemma_fundamental_div_mod_converse};

verus! {

#[derive(Debug, Clone, Copy, PartialEq, Eq, Structural)]
pub enum Difficulty {
    Easy,
    Medium,
    Expert,
    Custom,
}

#[derive(Debug, Clone, Copy, PartialEq, Eq, Structural)]
pub struct BoardConfig {
    pub difficulty: Difficulty,
    pub width: usize,
    pub height: usize,
    pub depth: usize,
    pub mines: usize,
}

/// The largest mine count a custom board may hold: at most 60% of the cells,
/// and at least 27 cells (a full first-click safe zone) left free.
pub open spec fn max_custom_mines(total: int) -> int {
    let by_density = (3 * total) / 5;
    let by_safe_zone = if total >= 27 { total - 27 } else { 0 };
    if by_density <= by_safe_zone { by_density } else { by_safe_zone }
}

/// What `BoardConfig::custom` returns: the error text, or the configuration.
pub open spec fn custom_outcome(width: int, height: int, depth: int, mines: int) -> Result<BoardConfig, Seq<char>> {
    if !(4 <= width <= 60 && 4 <= height <= 40 && 1 <= depth <= 16) {
        Err("Dimensions must be within 4-60 x 4-40 x 1-16"@)
    } else if mines == 0 {
        Err("Mine count must be greater than 0"@)
    } else if mines > max_custom_mines(width * height * depth) {
        Err("Mine count exceeds maximum allowable limit ("@ + decimal(
            max_custom_mines(width * height * depth) as nat,
        ) + ")"@)
    } else {
        Ok(BoardConfig {
            difficulty: Difficulty::Custom,
            width: width as usize,
            height: height as usize,
            depth: depth as usize,
            mines: mines as usize,
        })
    }
}

/// Every custom board that is accepted is 4 to 60 wide, 4 to 40 high and 1
/// to 16 deep, leaves at least 27 cells without a mine (room for a first
/// click and its whole neighbourhood), holds at most 60% mines (so under
/// 85%), and has at least one mine.
pub proof fn lemma_custom_leaves_room(width: int, height: int, depth: int, mines: int)
    requires
        mines >= 0,
        custom_outcome(width, height, depth, mines) is Ok,
    ensures
        4 <= width <= 60 && 4 <= height <= 40 && 1 <= depth <= 16,
        width * height * depth - mines >= 27,
        5 * mines <= 3 * (width * height * depth),
        100 * mines < 85 * (width * height * depth),
        mines >= 1,
{
    assert(width * height * depth >= 0) by (nonlinear_arith)
        requires width >= 4, height >= 4, depth >= 1;
    let t = width * height * depth;
    assert(5 * ((3 * t) / 5) <= 3 * t) by (nonlinear_arith)
        requires t >= 0;
}

/// `cells` with the flag of the cell at `i` put on or taken off.
pub open spec fn flag_flipped(cells: Seq<Cell>, i: int) -> Seq<Cell> {
    cells.update(i, Cell { is_flagged: !cells[i].is_flagged, ..cells[i] })
}

/// A second flag toggle on the same cell undoes the first.
pub proof fn lemma_flag_twice(cells: Seq<Cell>, i: int)
    requires
        0 <= i < cells.len(),
    ensures
        flag_flipped(flag_flipped(cells, i), i) == cells,
{
    assert(flag_flipped(flag_flipped(cells, i), i) =~= cells);
}

impl BoardConfig {
    pub open spec fn spec_dims(self) -> Dimensions {
        Dimensions { width: self.width, height: self.height, depth: self.depth }
    }

    pub fn dims(&self) -> (d: Dimensions)
        ensures
            d == self.spec_dims(),
    {
        Dimensions::new(self.width, self.height, self.depth)
    }

    pub fn easy() -> (c: Self)
        ensures
            c == (BoardConfig { difficulty: Difficulty::Easy, width: 9, height: 9, depth: 3, mines: 25 }),
    {
        BoardConfig { difficulty: Difficulty::Easy, width: 9, height: 9, depth: 3, mines: 25 }
    }

    pub fn medium() -> (c: Self)
        ensures
            c == (BoardConfig {
                difficulty: Difficulty::Medium,
                width: 16,
                height: 16,
                depth: 4,
                mines: 160,
            }),
    {
        BoardConfig { difficulty: Difficulty::Medium, width: 16, height: 16, depth: 4, mines: 160 }
    }

    pub fn expert() -> (c: Self)
        ensures
            c == (BoardConfig {
                difficulty: Difficulty::Expert,
                width: 30,
                height: 16,
                depth: 6,
                mines: 580,
            }),
    {
        BoardConfig { difficulty: Difficulty::Expert, width: 30, height: 16, depth: 6, mines: 580 }
    }

    /// A custom board: 4 to 60 wide, 4 to 40 high and 1 to 16 deep, and a
    /// mine count from 1 to `max_custom_mines` of the cell count.
    pub fn custom(width: usize, height: usize, depth: usize, mines: usize) -> (r: Result<Self, String>)
        ensures
            match r {
                Ok(c) => custom_outcome(width as int, height as int, depth as int, mines as int) == Ok::<BoardConfig, Seq<char>>(c),
                Err(e) => custom_outcome(width as int, height as int, depth as int, mines as int) == Err::<BoardConfig, Seq<char>>(e@),
            },
    {
        if width < 4 || width > 60 || height < 4 || height > 40 || depth < 1 || depth > 16 {
            return Err(owned("Dimensions must be within 4-60 x 4-40 x 1-16"));
        }
        assert(width * height <= width * height * depth && width * height * depth <= 60 * 40 * 16) by (nonlinear_arith)
            requires 1 <= depth <= 16, 4 <= width <= 60, 4 <= height <= 40;
        let total = width * height * depth;
        let max_density_mines = (total / 5) * 3 + ((total % 5) * 3) / 5;
        proof {
            let t = total as int;
            lemma_fundamental_div_mod(t, 5);
            lemma_fundamental_div_mod_converse(3 * t, 5, 3 * (t / 5) + ((t % 5) * 3) / 5, ((t % 5) * 3) % 5);
        }
        let max_safe_mines = if total >= 27 { total - 27 } else { 0 };
        let max_allowed = if max_density_mines <= max_safe_mines { max_density_mines } else { max_safe_mines };
        if mines == 0 {
            return Err(owned("Mine count must be greater than 0"));
        }
        if mines > max_allowed {
            let mut msg = owned("Mine count exceeds maximum allowable limit (");
            let num = u64_decimal(max_allowed as u64);
            msg.append(num.as_str());
            msg.append(")");
            return Err(msg);
        }
        Ok(BoardConfig { difficulty: Difficulty::Custom, width, height, depth, mines })
    }

    pub fn dimensions(&self) -> (d: Dimensions)
        ensures
            d == self.spec_dims(),
    {
        Dimensions::new(self.width, self.height, self.depth)
    }

    pub fn total_cells(&self) -> (n: usize)
        requires
            self.width * self.height <= usize::MAX,
            self.width * self.height * self.depth <= usize::MAX,
        ensures
            n == self.width * self.height * self.depth,
    {
        self.width * self.height * self.depth
    }

    /// `"<width>-<height>-<depth>-<mines>"`, the key of personal bests.
    pub open spec fn spec_hash(self) -> Seq<char> {
        decimal(self.width as nat) + "-"@ + decimal(self.height as nat) + "-"@ + decimal(
            self.depth as nat,
        ) + "-"@ + decimal(self.mines as nat)
    }

    pub fn config_hash(&self) -> (s: String)
        ensures
            s@ == self.spec_hash(),
    {
        let mut s = u64_decimal(self.width as u64);
        s.append("-");
        s.append(u64_decimal(self.height as u64).as_str());
        s.append("-");
        s.append(u64_decimal(self.depth as u64).as_str());
        s.append("-");
        s.append(u64_decimal(self.mines as u64).as_str());
        s
    }
}

#[derive(Debug, Clone)]
pub struct Cell {
    pub coord: Coord3D,
    pub is_mine: bool,
    pub adjacent_mines: u8,
    pub is_revealed: bool,
    pub is_flagged: bool,
    pub revealed_by: Option<String>,
    pub player_color: Option<String>,
}

impl Cell {
    pub open spec fn fresh(coord: Coord3D) -> Cell {
        Cell {
            coord,
            is_mine: false,
            adjacent_mines: 0,
            is_revealed: false,
            is_flagged: false,
            revealed_by: None,
            player_color: None,
        }
    }

    pub fn new(coord: Coord3D) -> (c: Self)
        ensures
            c == Cell::fresh(coord),
    {
        Cell {
            coord,
            is_mine: false,
            adjacent_mines: 0,
            is_revealed: false,
            is_flagged: false,
            revealed_by: None,
            player_color: None,
        }
    }
}

#[derive(Debug, Clone, Copy, PartialEq, Eq, Structural)]
pub enum GameStatus {
    Waiting,
    Playing,
    Won,
    Lost,
}

#[derive(Debug, Clone)]
pub struct RevealedCellInfo {
    pub coord: Coord3D,
    pub adjacent_mines: u8,
    pub is_mine: bool,
    pub revealed_by: Option<String>,
    pub player_color: Option<String>,
}

#[derive(Debug, Clone)]
pub enum RevealResult {
    FirstClickGenerated { revealed: Vec<RevealedCellInfo> },
    Success { revealed: Vec<RevealedCellInfo> },
    HitMine { hit_coord: Coord3D, all_mines: Vec<Coord3D>, revealed_by: Option<String> },
    AlreadyRevealed,
    Flagged,
    NoOp,
}

/// What a cell counts towards.
pub enum Tally {
    RevealedSafe,
    Flagged,
    Mine,
}

pub open spec fn tallies(t: Tally, c: Cell) -> bool {
    match t {
        Tally::RevealedSafe => c.is_revealed && !c.is_mine,
        Tally::Flagged => c.is_flagged,
        Tally::Mine => c.is_mine,
    }
}

/// How many cells of `s` count towards `t`.
pub open spec fn count_cells(s: Seq<Cell>, t: Tally) -> nat
    decreases s.len(),
{
    if s.len() == 0 {
        0
    } else {
        count_cells(s.drop_last(), t) + if tallies(t, s.last()) {
            1nat
        } else {
            0nat
        }
    }
}

pub proof fn lemma_count_update(s: Seq<Cell>, i: int, c: Cell, t: Tally)
    requires
        0 <= i < s.len(),
    ensures
        count_cells(s.update(i, c), t) + (if tallies(t, s[i]) { 1int } else { 0int })
            == count_cells(s, t) + (if tallies(t, c) { 1int } else { 0int }),
    decreases s.len(),
{
    if i == s.len() - 1 {
        assert(s.update(i, c).drop_last() =~= s.drop_last());
    } else {
        lemma_count_update(s.drop_last(), i, c, t);
        assert(s.update(i, c).drop_last() =~= s.drop_last().update(i, c));
    }
}

pub proof fn lemma_count_bound(s: Seq<Cell>, t: Tally)
    ensures
        count_cells(s, t) <= s.len(),
    decreases s.len(),
{
    if s.len() > 0 {
        lemma_count_bound(s.drop_last(), t);
    }
}

pub proof fn lemma_count_none(s: Seq<Cell>, t: Tally)
    requires
        forall|i: int| 0 <= i < s.len() ==> !tallies(t, #[trigger] s[i]),
    ensures
        count_cells(s, t) == 0,
    decreases s.len(),
{
    if s.len() > 0 {
        lemma_count_none(s.drop_last(), t);
    }
}

/// Two cell sequences agree on what counts towards `t`.
pub proof fn lemma_count_same(s: Seq<Cell>, u: Seq<Cell>, t: Tally)
    requires
        s.len() == u.len(),
        forall|i: int| 0 <= i < s.len() ==> tallies(t, #[trigger] s[i]) == tallies(t, u[i]),
    ensures
        count_cells(s, t) == count_cells(u, t),
    decreases s.len(),
{
    if s.len() > 0 {
        lemma_count_same(s.drop_last(), u.drop_last(), t);
    }
}

/// Where the cells hold mines.
pub open spec fn mine_map(cells: Seq<Cell>) -> Seq<bool> {
    cells.map_values(|c: Cell| c.is_mine)
}

/// How many of `coords` hold a mine in `mines`, a grid of the given width and height.
pub open spec fn mines_among(mines: Seq<bool>, coords: Seq<Coord3D>, width: int, height: int) -> nat
    decreases coords.len(),
{
    if coords.len() == 0 {
        0
    } else {
        mines_among(mines, coords.drop_last(), width, height) + if mines[coords.last().index(
            width,
            height,
        )] {
            1nat
        } else {
            0nat
        }
    }
}

pub proof fn lemma_mines_among_zero(mines: Seq<bool>, coords: Seq<Coord3D>, width: int, height: int)
    ensures
        mines_among(mines, coords, width, height) == 0 <==> forall|k: int|
            0 <= k < coords.len() ==> !mines[#[trigger] coords[k].index(width, height)],
        mines_among(mines, coords, width, height) <= coords.len(),
    decreases coords.len(),
{
    if coords.len() > 0 {
        lemma_mines_among_zero(mines, coords.drop_last(), width, height);
        if mines_among(mines, coords, width, height) == 0 {
            assert forall|k: int| 0 <= k < coords.len() implies !mines[#[trigger] coords[k].index(
                width,
                height,
            )] by {
                if k < coords.len() - 1 {
                    assert(coords.drop_last()[k] == coords[k]);
                }
            }
        }
        if forall|k: int| 0 <= k < coords.len() ==> !mines[#[trigger] coords[k].index(width, height)] {
            assert forall|k: int| 0 <= k < coords.drop_last().len() implies !mines[#[trigger] coords.drop_last()[k].index(
                width,
                height,
            )] by {
                assert(coords.drop_last()[k] == coords[k]);
            }
            assert(!mines[coords[coords.len() - 1].index(width, height)]);
        }
    }
}

/// The number a cell at linear index `i` shows: the mines among its neighbours.
pub open spec fn adjacent_count(dims: Dimensions, mines: Seq<bool>, i: int) -> nat {
    let w = dims.width as int;
    let h = dims.height as int;
    mines_among(mines, dims.neighbor_list(coord_of(i, w, h)), w, h)
}

#[derive(Debug, Clone)]
pub struct Board {
    pub config: BoardConfig,
    pub dims: Dimensions,
    pub cells: Vec<Cell>,
    pub is_generated: bool,
    pub status: GameStatus,
    pub revealed_count: usize,
    pub flag_count: usize,
}

impl Board {
    pub open spec fn width(self) -> int {
        self.dims.width as int
    }

    pub open spec fn height(self) -> int {
        self.dims.height as int
    }

    /// Linear index of `c` on this board.
    pub open spec fn idx(self, c: Coord3D) -> int {
        c.index(self.width(), self.height())
    }

    /// The cell at `c`.
    pub open spec fn at(self, c: Coord3D) -> Cell {
        self.cells@[self.idx(c)]
    }

    pub open spec fn is_over(self) -> bool {
        self.status == GameStatus::Won || self.status == GameStatus::Lost
    }

    /// The invariant of a board.
    pub open spec fn wf(self) -> bool {
        let cells = self.cells@;
        let w = self.width();
        let h = self.height();
        &&& self.dims == self.config.spec_dims()
        &&& self.dims.fits_usize()
        &&& self.dims.fits_i32()
        &&& cells.len() == self.dims.total()
        &&& forall|i: int| 0 <= i < cells.len() ==> (#[trigger] cells[i]).coord == coord_of(i, w, h)
        &&& self.revealed_count == count_cells(cells, Tally::RevealedSafe)
        &&& self.flag_count == count_cells(cells, Tally::Flagged)
        &&& self.is_generated <==> self.status != GameStatus::Waiting
        &&& !self.is_generated ==> forall|i: int|
            0 <= i < cells.len() ==> !(#[trigger] cells[i]).is_mine && !cells[i].is_revealed
        &&& self.is_generated ==> forall|i: int|
            0 <= i < cells.len() ==> (#[trigger] cells[i]).adjacent_mines == adjacent_count(
                self.dims,
                mine_map(cells),
                i,
            )
        &&& !self.is_over() ==> forall|i: int|
            0 <= i < cells.len() ==> (#[trigger] cells[i]).is_revealed ==> !cells[i].is_mine
        &&& self.status != GameStatus::Lost ==> forall|i: int|
            0 <= i < cells.len() ==> !((#[trigger] cells[i]).is_revealed && cells[i].is_flagged)
    }

    /// The board that `Board::new` makes for `config`.
    pub open spec fn fresh_cells(config: BoardConfig) -> Seq<Cell> {
        Seq::new(
            config.spec_dims().total() as nat,
            |i: int| Cell::fresh(coord_of(i, config.width as int, config.height as int)),
        )
    }

    pub fn new(config: BoardConfig) -> (b: Self)
        requires
            config.spec_dims().fits_usize(),
            config.spec_dims().fits_i32(),
        ensures
            b.wf(),
            b.config == config,
            b.cells@ == Board::fresh_cells(config),
            !b.is_generated,
            b.status == GameStatus::Waiting,
            b.revealed_count == 0,
            b.flag_count == 0,
    {
        let dims = config.dimensions();
        let total = dims.total_cells();
        let mut cells: Vec<Cell> = Vec::new();
        let mut idx: usize = 0;
        while idx < total
            invariant
                idx <= total,
                total == dims.total(),
                dims == config.spec_dims(),
                dims.fits_usize(),
                cells@ =~= Board::fresh_cells(config).take(idx as int),
            decreases total - idx,
        {
            assert(dims.width * dims.height > 0) by (nonlinear_arith)
                requires idx < dims.width * dims.height * dims.depth, idx >= 0;
            let coord = Coord3D::from_index(idx, dims.width, dims.height);
            cells.push(Cell::new(coord));
            idx = idx + 1;
        }
        proof {
            assert(cells@ =~= Board::fresh_cells(config));
            lemma_count_none(cells@, Tally::RevealedSafe);
            lemma_count_none(cells@, Tally::Flagged);
        }
        Board {
            config,
            dims,
            cells,
            is_generated: false,
            status: GameStatus::Waiting,
            revealed_count: 0,
            flag_count: 0,
        }
    }

    pub fn get_cell(&self, coord: Coord3D) -> (c: &Cell)
        requires
            self.dims.width * self.dims.height <= usize::MAX,
            self.idx(coord) <= usize::MAX,
            self.idx(coord) < self.cells.len(),
        ensures
            *c == self.at(coord),
    {
        let idx = coord.to_index(self.dims.width, self.dims.height);
        &self.cells[idx]
    }

    pub fn get_cell_mut(&mut self, coord: Coord3D) -> (c: &mut Cell)
        requires
            old(self).dims.width * old(self).dims.height <= usize::MAX,
            old(self).idx(coord) <= usize::MAX,
            old(self).idx(coord) < old(self).cells.len(),
        ensures
            *c == old(self).at(coord),
            final(self).cells@ == old(self).cells@.update(old(self).idx(coord), *final(c)),
            final(self).config == old(self).config,
            final(self).dims == old(self).dims,
            final(self).is_generated == old(self).is_generated,
            final(self).status == old(self).status,
            final(self).revealed_count == old(self).revealed_count,
            final(self).flag_count == old(self).flag_count,
    {
        let idx = coord.to_index(self.dims.width, self.dims.height);
        &mut self.cells[idx]
    }

    /// Puts a flag on, or takes it off, a covered cell of a game that is not over.
    pub fn toggle_flag(&mut self, coord: Coord3D) -> (ok: bool)
        requires
            old(self).wf(),
        ensures
            final(self).wf(),
            ok == (!old(self).is_over() && old(self).dims.valid(coord) && !old(self).at(coord).is_revealed),
            ok ==> final(self).cells@ == flag_flipped(old(self).cells@, old(self).idx(coord)),
            ok ==> final(self).flag_count == if old(self).at(coord).is_flagged {
                old(self).flag_count - 1
            } else {
                old(self).flag_count + 1
            },
            !ok ==> *final(self) == *old(self),
            final(self).config == old(self).config,
            final(self).dims == old(self).dims,
            final(self).is_generated == old(self).is_generated,
            final(self).status == old(self).status,
            final(self).revealed_count == old(self).revealed_count,
    {
        if self.status == GameStatus::Lost || self.status == GameStatus::Won {
            return false;
        }
        if !self.dims.is_valid_coord(coord) {
            return false;
        }
        proof {
            lemma_valid_index(self.dims, coord);
        }
        let idx = coord.to_index(self.dims.width, self.dims.height);
        if self.cells[idx].is_revealed {
            return false;
        }
        let ghost old_cells = self.cells@;
        let now_flagged = !self.cells[idx].is_flagged;
        self.cells[idx].is_flagged = now_flagged;
        proof {
            lemma_count_update(old_cells, idx as int, self.cells@[idx as int], Tally::Flagged);
            lemma_count_update(old_cells, idx as int, self.cells@[idx as int], Tally::RevealedSafe);
            lemma_count_bound(self.cells@, Tally::Flagged);
            assert(mine_map(self.cells@) =~= mine_map(old_cells));
            assert forall|i: int| 0 <= i < self.cells@.len() implies (#[trigger] self.cells@[i]).coord == coord_of(i, self.width(), self.height()) by {
                assert(old_cells[i].coord == coord_of(i, self.width(), self.height()));
            }
        }
        if now_flagged {
            self.flag_count = self.flag_count + 1;
        } else {
            self.flag_count = self.flag_count - 1;
        }
        true
    }

    pub fn is_won(&self) -> (b: bool)
        ensures
            b == (self.status == GameStatus::Won),
    {
        self.status == GameStatus::Won
    }

    pub fn is_lost(&self) -> (b: bool)
        ensures
            b == (self.status == GameStatus::Lost),
    {
        self.status == GameStatus::Lost
    }
}

/// Index `i` lies in the first-click safe zone around `center`: the center
/// itself or one of its neighbours.
pub open spec fn in_safe_zone(dims: Dimensions, center: Coord3D, i: int) -> bool {
    let w = dims.width as int;
    let h = dims.height as int;
    ||| i == center.index(w, h)
    ||| exists|k: int|
        0 <= k < dims.neighbor_list(center).len() && #[trigger] dims.neighbor_list(center)[k].index(
            w,
            h,
        ) == i
}

/// How many of the indices below `k` lie outside the safe zone.
pub open spec fn free_cells(dims: Dimensions, center: Coord3D, k: nat) -> nat
    decreases k,
{
    if k == 0 {
        0
    } else {
        free_cells(dims, center, (k - 1) as nat) + if in_safe_zone(dims, center, k - 1) {
            0nat
        } else {
            1nat
        }
    }
}

/// `new` is `old` with only the mine layout and the numbers changed.
pub open spec fn same_marks(old: Seq<Cell>, new: Seq<Cell>) -> bool {
    &&& old.len() == new.len()
    &&& forall|i: int|
        0 <= i < old.len() ==> #[trigger] new[i] == (Cell {
            is_mine: new[i].is_mine,
            adjacent_mines: new[i].adjacent_mines,
            ..old[i]
        })
}

/// Puts a mine on each cell named by the first `count` places of `order`
/// (the shuffled cells outside the first click's safe zone), changing
/// nothing else.
pub fn lay_mines(cells: &mut Vec<Cell>, order: &Vec<usize>, count: usize)
    requires
        count <= order@.len(),
        order@.no_duplicates(),
        forall|q: int| 0 <= q < order@.len() ==> #[trigger] order@[q] < old(cells)@.len(),
    ensures
        final(cells)@.len() == old(cells)@.len(),
        forall|j: int| 0 <= j < old(cells)@.len() ==> #[trigger] final(cells)@[j] == (Cell {
            is_mine: old(cells)@[j].is_mine || order@.take(count as int).contains(j as usize),
            ..old(cells)@[j]
        }),
        (forall|j: int| 0 <= j < old(cells)@.len() ==> !(#[trigger] old(cells)@[j]).is_mine) ==> count_cells(final(cells)@, Tally::Mine) == count,
{
    let ghost start = cells@;
    let total = cells.len();
    let ghost fresh = forall|j: int| 0 <= j < start.len() ==> !(#[trigger] start[j]).is_mine;
    proof {
        if fresh {
            lemma_count_none(start, Tally::Mine);
        }
    }
    let mut k: usize = 0;
    while k < count
        invariant
            k <= count <= order@.len(),
            order@.no_duplicates(),
            forall|q: int| 0 <= q < order@.len() ==> #[trigger] order@[q] < start.len(),
            cells@.len() == start.len(),
            start.len() == total,
            forall|j: int| 0 <= j < start.len() ==> #[trigger] cells@[j] == (Cell {
                is_mine: start[j].is_mine || order@.take(k as int).contains(j as usize),
                ..start[j]
            }),
            fresh == forall|j: int| 0 <= j < start.len() ==> !(#[trigger] start[j]).is_mine,
            fresh ==> count_cells(cells@, Tally::Mine) == k,
        decreases count - k,
    {
        let idx = order[k];
        let ghost before = cells@;
        proof {
            assert(!order@.take(k as int).contains(idx)) by {
                if order@.take(k as int).contains(idx) {
                    let q = order@.take(k as int).index_of(idx);
                    assert(order@[q] == order@[k as int]);
                }
            }
        }
        cells[idx].is_mine = true;
        proof {
            if fresh {
                assert(!before[idx as int].is_mine);
                lemma_count_update(before, idx as int, cells@[idx as int], Tally::Mine);
            }
            assert forall|j: int| 0 <= j < start.len() implies #[trigger] cells@[j] == (Cell {
                is_mine: start[j].is_mine || order@.take(k + 1).contains(j as usize),
                ..start[j]
            }) by {
                let pre = order@.take(k as int);
                let post = order@.take(k + 1);
                assert(post =~= pre.push(idx));
                assert(before[j] == (Cell { is_mine: start[j].is_mine || pre.contains(j as usize), ..start[j] }));
                if post.contains(j as usize) {
                    let q = post.index_of(j as usize);
                    if q < k {
                        assert(pre[q] == j as usize);
                    }
                }
                if pre.contains(j as usize) {
                    let q = pre.index_of(j as usize);
                    assert(post[q] == j as usize);
                }
                if j == idx {
                    assert(post[k as int] == idx);
                    assert(cells@[j] == (Cell { is_mine: true, ..before[j] }));
                } else {
                    assert(cells@[j] == before[j]);
                }
            }
        }
        k = k + 1;
    }
}

impl Board {
    /// The number of mines around the cell at index `idx`, counted on the
    /// board's own cells.
    fn mines_around(&self, idx: usize) -> (count: u8)
        requires
            self.dims.fits_usize(),
            self.dims.fits_i32(),
            self.cells@.len() == self.dims.total(),
            idx < self.dims.total(),
        ensures
            count == adjacent_count(self.dims, mine_map(self.cells@), idx as int),
    {
        let ghost dims = self.dims;
        let ghost mines = mine_map(self.cells@);
        let w = self.dims.width;
        let h = self.dims.height;
        let total = self.cells.len();
        assert(w * h > 0) by (nonlinear_arith)
            requires idx < w * h * dims.depth, idx >= 0, w == dims.width, h == dims.height;
        let coord = Coord3D::from_index(idx, w, h);
        proof {
            assert(w > 0 && h > 0) by (nonlinear_arith) requires w * h > 0, w >= 0, h >= 0;
            lemma_coord_round_trip(idx as int, w as int, h as int, dims.depth as int);
            dims.lemma_neighbors_valid(coord);
            dims.lemma_neighbor_prefix(coord, 27);
        }
        let neighbors = self.dims.get_neighbors(coord);
        let mut count: u8 = 0;
        let mut t: usize = 0;
        while t < neighbors.len()
            invariant
                t <= neighbors.len() <= 27,
                neighbors@ == dims.neighbor_list(coord),
                forall|n: Coord3D| #[trigger] dims.is_neighbor(coord, n) ==> dims.valid(n),
                self.cells@.len() == total,
                total == dims.total(),
                dims == self.dims,
                dims.fits_usize(),
                w == dims.width,
                h == dims.height,
                mine_map(self.cells@) == mines,
                count == mines_among(mines, neighbors@.take(t as int), w as int, h as int),
            decreases neighbors.len() - t,
        {
            let n = neighbors[t];
            proof {
                assert(neighbors@.contains(n));
                assert(dims.is_neighbor(coord, n));
                lemma_valid_index(dims, n);
                lemma_mines_among_zero(mines, neighbors@.take(t as int), w as int, h as int);
                assert(neighbors@.take(t + 1).drop_last() == neighbors@.take(t as int));
            }
            let n_idx = n.to_index(w, h);
            if self.cells[n_idx].is_mine {
                count = count + 1;
            }
            t = t + 1;
        }
        proof {
            assert(neighbors@.take(neighbors@.len() as int) == neighbors@);
        }
        count
    }

    /// Whether the board keeps its invariant: what a board read from
    /// outside is checked for before it is played on.
    pub fn is_consistent(&self) -> (b: bool)
        ensures
            b == self.wf(),
    {
        if self.dims.width != self.config.width || self.dims.height != self.config.height || self.dims.depth != self.config.depth {
            return false;
        }
        let w = self.dims.width;
        let h = self.dims.height;
        let d = self.dims.depth;
        if w > 0x7fff_ffff || h > 0x7fff_ffff || d > 0x7fff_ffff {
            return false;
        }
        let area = match w.checked_mul(h) {
            Some(a) => a,
            None => {
                return false;
            }
        };
        let total = match area.checked_mul(d) {
            Some(t) => t,
            None => {
                proof {
                    assert(w * h * d == area * d);
                }
                return false;
            }
        };
        if self.cells.len() != total {
            return false;
        }
        if self.is_generated != (self.status != GameStatus::Waiting) {
            return false;
        }
        let over = self.status == GameStatus::Won || self.status == GameStatus::Lost;
        let lost = self.status == GameStatus::Lost;
        let ghost cells = self.cells@;
        let mut revealed: usize = 0;
        let mut flagged: usize = 0;
        let mut i: usize = 0;
        while i < total
            invariant
                i <= total,
                total == self.dims.total(),
                cells == self.cells@,
                cells.len() == total,
                self.dims == self.config.spec_dims(),
                self.dims.fits_usize(),
                self.dims.fits_i32(),
                w == self.dims.width,
                h == self.dims.height,
                over == self.is_over(),
                lost == (self.status == GameStatus::Lost),
                self.is_generated <==> self.status != GameStatus::Waiting,
                revealed == count_cells(cells.take(i as int), Tally::RevealedSafe),
                flagged == count_cells(cells.take(i as int), Tally::Flagged),
                revealed <= i && flagged <= i,
                forall|j: int| 0 <= j < i ==> (#[trigger] cells[j]).coord == coord_of(j, w as int, h as int),
                !self.is_generated ==> forall|j: int| 0 <= j < i ==> !(#[trigger] cells[j]).is_mine && !cells[j].is_revealed,
                self.is_generated ==> forall|j: int| 0 <= j < i ==> (#[trigger] cells[j]).adjacent_mines == adjacent_count(self.dims, mine_map(cells), j),
                !over ==> forall|j: int| 0 <= j < i ==> (#[trigger] cells[j]).is_revealed ==> !cells[j].is_mine,
                !lost ==> forall|j: int| 0 <= j < i ==> !((#[trigger] cells[j]).is_revealed && cells[j].is_flagged),
            decreases total - i,
        {
            assert(w * h > 0) by (nonlinear_arith)
                requires i < w * h * self.dims.depth, i >= 0, w == self.dims.width, h == self.dims.height;
            let c = &self.cells[i];
            let expected = Coord3D::from_index(i, w, h);
            if c.coord != expected {
                return false;
            }
            if !self.is_generated && (c.is_mine || c.is_revealed) {
                return false;
            }
            if !over && c.is_revealed && c.is_mine {
                return false;
            }
            if !lost && c.is_revealed && c.is_flagged {
                return false;
            }
            if self.is_generated {
                let count = self.mines_around(i);
                if c.adjacent_mines != count {
                    return false;
                }
            }
            proof {
                assert(cells.take(i + 1).drop_last() =~= cells.take(i as int));
                assert(cells.take(i + 1).last() == cells[i as int]);
            }
            if c.is_revealed && !c.is_mine {
                revealed = revealed + 1;
            }
            if c.is_flagged {
                flagged = flagged + 1;
            }
            i = i + 1;
        }
        proof {
            assert(cells.take(total as int) =~= cells);
        }
        revealed == self.revealed_count && flagged == self.flag_count
    }
}

/// What laying the mines does to a board without them: `safe_center` and
/// its neighbours stay free, the capped mine count is laid, every mark and
/// count of the board stays, and the game is on.
pub open spec fn mines_laid(b0: Board, b1: Board, safe_center: Coord3D) -> bool {
    let total = b0.dims.total() as nat;
    let cap = free_cells(b0.dims, safe_center, total);
    &&& b1.wf()
    &&& b1.is_generated
    &&& b1.status == GameStatus::Playing
    &&& b1.config == b0.config
    &&& b1.dims == b0.dims
    &&& b1.revealed_count == b0.revealed_count
    &&& b1.flag_count == b0.flag_count
    &&& same_marks(b0.cells@, b1.cells@)
    &&& forall|i: int|
        0 <= i < total && in_safe_zone(b0.dims, safe_center, i)
            ==> !(#[trigger] b1.cells@[i]).is_mine
    &&& count_cells(b1.cells@, Tally::Mine) == if b0.config.mines <= cap {
        b0.config.mines as nat
    } else {
        cap
    }
}

impl Board {
    /// Places the mines on the first click. `safe_center` and its neighbours
    /// stay free of mines; `min(mines, free cells)` other cells, chosen by a
    /// shuffle (from `seed` when given), get one; then every cell gets its count.
    /// A board that already has its mines is left as it is.
    pub fn generate_mines_with_seed(&mut self, safe_center: Coord3D, seed: Option<u64>)
        requires
            old(self).wf(),
            !old(self).is_generated ==> safe_center.fits_i32() && old(self).idx(safe_center)
                <= usize::MAX,
        ensures
            old(self).is_generated ==> *final(self) == *old(self),
            !old(self).is_generated ==> mines_laid(*old(self), *final(self), safe_center),
    {
        if self.is_generated {
            return;
        }
        let ghost old_cells = self.cells@;
        let w = self.dims.width;
        let h = self.dims.height;
        let total = self.dims.total_cells();
        let ghost dims = self.dims;
        let ghost nbrs = dims.neighbor_list(safe_center);

        // The safe zone: the center and its neighbours.
        let mut safe: Vec<bool> = Vec::new();
        let mut i: usize = 0;
        while i < total
            invariant
                i <= total,
                safe@.len() == i,
                forall|j: int| 0 <= j < i ==> !(#[trigger] safe@[j]),
            decreases total - i,
        {
            safe.push(false);
            i = i + 1;
        }
        let center_idx = safe_center.to_index(w, h);
        if center_idx < total {
            safe.set(center_idx, true);
        }
        if total > 0 {
            let neighbors = self.dims.get_neighbors(safe_center);
            proof {
                assert(dims.width > 0) by (nonlinear_arith)
                    requires total > 0, total == dims.width * dims.height * dims.depth;
                dims.lemma_neighbors_valid(safe_center);
            }
            let mut t: usize = 0;
            while t < neighbors.len()
                invariant
                    t <= neighbors.len(),
                    neighbors@ == nbrs,
                    nbrs == dims.neighbor_list(safe_center),
                    dims == self.dims,
                    dims.fits_usize(),
                    dims.width > 0,
                    w == dims.width,
                    h == dims.height,
                    total == dims.total(),
                    center_idx == safe_center.index(w as int, h as int),
                    safe@.len() == total,
                    forall|n: Coord3D| #[trigger] dims.is_neighbor(safe_center, n) ==> dims.valid(n),
                    forall|j: int|
                        0 <= j < total ==> (#[trigger] safe@[j] <==> (j == center_idx || exists|k: int|
                            0 <= k < t && #[trigger] nbrs[k].index(w as int, h as int) == j)),
                decreases neighbors.len() - t,
            {
                let n = neighbors[t];
                proof {
                    assert(nbrs.contains(n));
                    assert(dims.is_neighbor(safe_center, n));
                    lemma_valid_index(dims, n);
                }
                let n_idx = n.to_index(w, h);
                safe.set(n_idx, true);
                proof {
                    assert forall|j: int| 0 <= j < total implies (#[trigger] safe@[j] <==> (j
                        == center_idx || exists|k: int|
                        0 <= k < t + 1 && #[trigger] nbrs[k].index(w as int, h as int) == j)) by {
                        if j == n_idx {
                            assert(nbrs[t as int].index(w as int, h as int) == j);
                        }
                    }
                }
                t = t + 1;
            }
        }
        proof {
            assert forall|j: int| 0 <= j < total implies (#[trigger] safe@[j] <==> in_safe_zone(dims, safe_center, j)) by {
                if total > 0 {
                } else {
                }
            }
        }

        // The cells outside the safe zone, in increasing order.
        let mut available: Vec<usize> = Vec::new();
        let mut i: usize = 0;
        while i < total
            invariant
                i <= total,
                safe@.len() == total,
                total == dims.total(),
                forall|j: int| 0 <= j < total ==> (#[trigger] safe@[j] <==> in_safe_zone(dims, safe_center, j)),
                available@.len() == free_cells(dims, safe_center, i as nat),
                available@.no_duplicates(),
                forall|k: int| 0 <= k < available@.len() ==> #[trigger] available@[k] < i,
                forall|j: usize| #[trigger] available@.contains(j) <==> (j < i && !in_safe_zone(dims, safe_center, j as int)),
            decreases total - i,
        {
            let ghost prev = available@;
            if !safe[i] {
                proof {
                    assert(!available@.contains(i));
                }
                available.push(i);
            }
            proof {
                assert forall|j: usize| #[trigger] available@.contains(j) <==> (j < i + 1 && !in_safe_zone(dims, safe_center, j as int)) by {
                    if j == i && !safe@[i as int] {
                        assert(available@[available@.len() - 1] == j);
                    }
                    if available@.contains(j) && j != i {
                        let k = available@.index_of(j);
                        if !safe@[i as int] {
                            assert(k < prev.len());
                            assert(prev[k] == j);
                        }
                        assert(prev.contains(j));
                    }
                    if j < i && !in_safe_zone(dims, safe_center, j as int) {
                        assert(prev.contains(j));
                        let k = prev.index_of(j);
                        assert(available@[k] == j);
                    }
                }
            }
            i = i + 1;
        }

        let ghost avail = available@;
        let shuffled = match seed {
            Some(s) => crate::chance::shuffle_seeded(available, s),
            None => crate::chance::shuffle_entropy(available),
        };
        proof {
            avail.to_multiset_ensures();
            shuffled@.to_multiset_ensures();
            avail.lemma_multiset_has_no_duplicates();
            shuffled@.lemma_multiset_has_no_duplicates_conv();
            assert forall|k: int| 0 <= k < shuffled@.len() implies #[trigger] shuffled@[k] < total
                && !in_safe_zone(dims, safe_center, shuffled@[k] as int) by {
                assert(shuffled@.contains(shuffled@[k]));
                assert(shuffled@.to_multiset().count(shuffled@[k]) > 0);
                assert(avail.to_multiset().count(shuffled@[k]) > 0);
                assert(avail.contains(shuffled@[k]));
            }
        }

        proof {
            lemma_count_none(old_cells, Tally::Mine);
            assert(self.cells@ =~= old_cells);
        }
        let mine_count = if self.config.mines <= shuffled.len() { self.config.mines } else { shuffled.len() };
        lay_mines(&mut self.cells, &shuffled, mine_count);
        proof {
            assert forall|j: int| 0 <= j < total implies !(#[trigger] old_cells[j]).is_mine by {}
        }

        // Every cell shows the number of mines among its neighbours.
        let ghost mines = mine_map(self.cells@);
        let ghost placed = self.cells@;
        let mut idx: usize = 0;
        while idx < total
            invariant
                idx <= total,
                self.cells@.len() == total,
                total == dims.total(),
                self.dims == dims,
                self.config == old(self).config,
                self.revealed_count == old(self).revealed_count,
                self.flag_count == old(self).flag_count,
                dims.fits_usize(),
                dims.fits_i32(),
                w == dims.width,
                h == dims.height,
                mine_map(self.cells@) == mines,
                placed.len() == total,
                forall|j: int| 0 <= j < total ==> #[trigger] self.cells@[j] == (Cell {
                    adjacent_mines: self.cells@[j].adjacent_mines,
                    ..placed[j]
                }),
                forall|j: int| 0 <= j < idx ==> (#[trigger] self.cells@[j]).adjacent_mines == adjacent_count(dims, mines, j),
            decreases total - idx,
        {
            assert(w * h > 0) by (nonlinear_arith)
                requires idx < w * h * dims.depth, idx >= 0, w == dims.width, h == dims.height;
            let coord = Coord3D::from_index(idx, w, h);
            proof {
                assert(w > 0 && h > 0) by (nonlinear_arith) requires w * h > 0, w >= 0, h >= 0;
                lemma_coord_round_trip(idx as int, w as int, h as int, dims.depth as int);
                dims.lemma_neighbors_valid(coord);
                dims.lemma_neighbor_prefix(coord, 27);
            }
            let neighbors = self.dims.get_neighbors(coord);
            let mut count: u8 = 0;
            let mut t: usize = 0;
            while t < neighbors.len()
                invariant
                    t <= neighbors.len() <= 27,
                    neighbors@ == dims.neighbor_list(coord),
                    forall|n: Coord3D| #[trigger] dims.is_neighbor(coord, n) ==> dims.valid(n),
                    self.cells@.len() == total,
                    total == dims.total(),
                    dims.fits_usize(),
                    w == dims.width,
                    h == dims.height,
                    mine_map(self.cells@) == mines,
                    count == mines_among(mines, neighbors@.take(t as int), w as int, h as int),
                decreases neighbors.len() - t,
            {
                let n = neighbors[t];
                proof {
                    assert(neighbors@.contains(n));
                    assert(dims.is_neighbor(coord, n));
                    lemma_valid_index(dims, n);
                    lemma_mines_among_zero(mines, neighbors@.take(t as int), w as int, h as int);
                    assert(neighbors@.take(t + 1).drop_last() == neighbors@.take(t as int));
                }
                let n_idx = n.to_index(w, h);
                if self.cells[n_idx].is_mine {
                    count = count + 1;
                }
                t = t + 1;
            }
            proof {
                assert(neighbors@.take(neighbors@.len() as int) == neighbors@);
            }
            let ghost before = self.cells@;
            self.cells[idx].adjacent_mines = count;
            proof {
                assert(mine_map(self.cells@) =~= mine_map(before));
            }
            idx = idx + 1;
        }
        proof {
            let cells = self.cells@;
            assert forall|j: int| 0 <= j < total implies #[trigger] cells[j] == (Cell {
                is_mine: cells[j].is_mine,
                adjacent_mines: cells[j].adjacent_mines,
                ..old_cells[j]
            }) by {
                assert(placed[j] == (Cell { is_mine: placed[j].is_mine, ..old_cells[j] }));
            }
            lemma_count_same(old_cells, cells, Tally::Flagged);
            lemma_count_same(old_cells, cells, Tally::RevealedSafe);
        }
        self.is_generated = true;
        self.status = GameStatus::Playing;
        proof {
            let total = dims.total() as nat;
            assert(avail.len() == free_cells(dims, safe_center, total));
            assert(shuffled@.len() == avail.len());
            lemma_count_same(placed, self.cells@, Tally::Mine);
            assert(count_cells(self.cells@, Tally::Mine) == mine_count);
            let cells = self.cells@;
            assert(forall|i: int| 0 <= i < cells.len() ==> (#[trigger] cells[i]).coord == coord_of(i, self.width(), self.height()));
            assert(self.revealed_count == count_cells(cells, Tally::RevealedSafe));
            assert(self.flag_count == count_cells(cells, Tally::Flagged));
            assert(forall|i: int|
            0 <= i < cells.len() ==> (#[trigger] cells[i]).adjacent_mines == adjacent_count(
                self.dims,
                mine_map(cells),
                i,
            ));
            assert(forall|i: int| 0 <= i < cells.len() ==> !(#[trigger] cells[i]).is_revealed);
            assert(self.wf());
        }
    }
}

/// The coordinate of the cell at linear index `i`.
pub open spec fn cell_coord(dims: Dimensions, i: int) -> Coord3D {
    coord_of(i, dims.width as int, dims.height as int)
}

/// The linear index of `c`.
pub open spec fn cell_index(dims: Dimensions, c: Coord3D) -> int {
    c.index(dims.width as int, dims.height as int)
}

/// `c` once uncovered by player `by`, shown in `color`.
pub open spec fn revealed_as(c: Cell, by: Option<String>, color: Option<String>) -> Cell {
    Cell { is_revealed: true, revealed_by: by, player_color: color, ..c }
}

/// What a reveal reports of an uncovered cell.
pub open spec fn info_of(c: Cell) -> RevealedCellInfo {
    RevealedCellInfo {
        coord: c.coord,
        adjacent_mines: c.adjacent_mines,
        is_mine: c.is_mine,
        revealed_by: c.revealed_by,
        player_color: c.player_color,
    }
}

/// Cell `i` was covered in `before` and is uncovered in `after`.
pub open spec fn newly(before: Seq<Cell>, after: Seq<Cell>, i: int) -> bool {
    after[i].is_revealed && !before[i].is_revealed
}

/// Every neighbour of cell `i` is uncovered, flagged or a mine.
pub open spec fn surrounded(dims: Dimensions, cells: Seq<Cell>, i: int) -> bool {
    forall|n: Coord3D|
        #[trigger] dims.is_neighbor(cell_coord(dims, i), n) ==> {
            let c = cells[cell_index(dims, n)];
            c.is_revealed || c.is_flagged || c.is_mine
        }
}

/// Every neighbour of cell `i` is uncovered or flagged.
pub open spec fn opened_around(dims: Dimensions, cells: Seq<Cell>, i: int) -> bool {
    forall|n: Coord3D|
        #[trigger] dims.is_neighbor(cell_coord(dims, i), n) ==> {
            let c = cells[cell_index(dims, n)];
            c.is_revealed || c.is_flagged
        }
}

/// The cells uncovered between `before` and `after` are those a flood fill
/// uncovers: covered, unflagged, mine-free cells, each changed only by being
/// uncovered by `by` in `color`; and around every uncovered cell that shows 0,
/// every neighbour is uncovered or flagged.
pub open spec fn flood_closed(
    dims: Dimensions,
    before: Seq<Cell>,
    after: Seq<Cell>,
    by: Option<String>,
    color: Option<String>,
) -> bool {
    &&& before.len() == after.len()
    &&& forall|i: int|
        0 <= i < before.len() ==> (#[trigger] after[i] == before[i] || (!before[i].is_revealed
            && !before[i].is_flagged && !before[i].is_mine && after[i] == revealed_as(
            before[i],
            by,
            color,
        )))
    &&& forall|i: int|
        0 <= i < before.len() && newly(before, after, i) && (#[trigger] after[i]).adjacent_mines
            == 0 ==> opened_around(dims, after, i)
}

/// Every cell uncovered between `before` and `after` is a root, or has an
/// uncovered neighbour showing 0 that comes earlier by `depth`: each is reached
/// from a root through cells showing 0.
pub open spec fn flood_reached(
    dims: Dimensions,
    before: Seq<Cell>,
    after: Seq<Cell>,
    roots: Set<int>,
    depth: Seq<nat>,
) -> bool {
    forall|i: int|
        0 <= i < before.len() && #[trigger] newly(before, after, i) ==> roots.contains(i) || exists|
            j: int,
        |
            0 <= j < before.len() && newly(before, after, j) && after[j].adjacent_mines == 0
                && #[trigger] dims.is_neighbor(cell_coord(dims, j), cell_coord(dims, i))
                && depth[j] < depth[i]
}

/// The report lists each newly uncovered cell once, as it now is.
pub open spec fn reports_uncovered(
    dims: Dimensions,
    before: Seq<Cell>,
    after: Seq<Cell>,
    report: Seq<RevealedCellInfo>,
) -> bool {
    &&& report.map_values(|r: RevealedCellInfo| r.coord).no_duplicates()
    &&& forall|k: int|
        0 <= k < report.len() ==> {
            let i = cell_index(dims, (#[trigger] report[k]).coord);
            &&& dims.valid(report[k].coord)
            &&& newly(before, after, i)
            &&& report[k] == info_of(after[i])
        }
    &&& forall|i: int|
        0 <= i < before.len() && #[trigger] newly(before, after, i) ==> exists|k: int|
            0 <= k < report.len() && #[trigger] report[k].coord == cell_coord(dims, i)
}

/// The cells with a mine, in index order.
pub open spec fn mine_coords(cells: Seq<Cell>) -> Seq<Coord3D>
    decreases cells.len(),
{
    if cells.len() == 0 {
        Seq::empty()
    } else if cells.last().is_mine {
        mine_coords(cells.drop_last()).push(cells.last().coord)
    } else {
        mine_coords(cells.drop_last())
    }
}

/// The board after stepping on the mine at `hit`: every mine uncovered, the hit
/// one credited to `by` in `color`.
pub open spec fn exploded(cells: Seq<Cell>, hit: int, by: Option<String>, color: Option<String>) -> Seq<Cell> {
    Seq::new(
        cells.len(),
        |i: int|
            if !cells[i].is_mine {
                cells[i]
            } else if i == hit {
                revealed_as(cells[i], by, color)
            } else {
                Cell { is_revealed: true, ..cells[i] }
            },
    )
}

/// The cells of `old` with the mine layout and numbers of `new`.
pub open spec fn laid_out(old: Seq<Cell>, new: Seq<Cell>) -> Seq<Cell> {
    Seq::new(
        old.len(),
        |i: int| Cell { is_mine: new[i].is_mine, adjacent_mines: new[i].adjacent_mines, ..old[i] },
    )
}

/// Every neighbour of a cell showing 0 is free of mines.
pub proof fn lemma_zero_means_no_mine_around(dims: Dimensions, cells: Seq<Cell>, i: int, n: Coord3D)
    requires
        cells[i].adjacent_mines == adjacent_count(dims, mine_map(cells), i),
        cells[i].adjacent_mines == 0,
        dims.is_neighbor(cell_coord(dims, i), n),
        0 <= cell_index(dims, n) < cells.len(),
    ensures
        !cells[cell_index(dims, n)].is_mine,
{
    let w = dims.width as int;
    let h = dims.height as int;
    let list = dims.neighbor_list(cell_coord(dims, i));
    lemma_mines_among_zero(mine_map(cells), list, w, h);
    let k = list.index_of(n);
    assert(list[k] == n);
    assert(!mine_map(cells)[list[k].index(w, h)]);
}

impl Board {
    /// Uncovers `start` and floods outwards through cells showing 0.
    fn flood_fill(&mut self, start: usize, by: &Option<String>, color: &Option<String>) -> (r: (
        Vec<RevealedCellInfo>,
        Ghost<Seq<nat>>,
    ))
        requires
            old(self).wf(),
            old(self).is_generated,
            !old(self).is_over(),
            start < old(self).cells.len(),
            !old(self).cells@[start as int].is_revealed,
            !old(self).cells@[start as int].is_flagged,
            !old(self).cells@[start as int].is_mine,
        ensures
            final(self).config == old(self).config,
            final(self).dims == old(self).dims,
            final(self).is_generated == old(self).is_generated,
            final(self).status == old(self).status,
            final(self).flag_count == old(self).flag_count,
            final(self).revealed_count == old(self).revealed_count + r.0@.len(),
            final(self).cells@[start as int].is_revealed,
            flood_closed(old(self).dims, old(self).cells@, final(self).cells@, *by, *color),
            flood_reached(old(self).dims, old(self).cells@, final(self).cells@, set![start as int], r.1@),
            reports_uncovered(old(self).dims, old(self).cells@, final(self).cells@, r.0@),
            r.0@.len() > 0 && r.0@[0].coord == old(self).cells@[start as int].coord,
            final(self).wf(),
    {
        let ghost before = self.cells@;
        let ghost dims = self.dims;
        let w = self.dims.width;
        let h = self.dims.height;
        let total = self.cells.len();
        let ghost by_v = *by;
        let ghost color_v = *color;

        let mut revealed_list: Vec<RevealedCellInfo> = Vec::new();
        let mut queue: Vec<usize> = Vec::new();
        let mut head: usize = 0;
        let ghost mut order: Seq<int> = Seq::empty();
        let ghost mut depth: Seq<nat> = Seq::new(total as nat, |i: int| 0nat);

        proof {
            lemma_cell_coord(dims, start as int);
        }
        let ghost pre = self.cells@;
        self.cells[start].is_revealed = true;
        self.cells[start].revealed_by = clone_opt(by);
        self.cells[start].player_color = clone_opt(color);
        proof {
            assert(tallies(Tally::RevealedSafe, self.cells@[start as int]));
            assert(!tallies(Tally::RevealedSafe, pre[start as int]));
            lemma_count_update(pre, start as int, self.cells@[start as int], Tally::RevealedSafe);
            assert(self.cells@ == pre.update(start as int, self.cells@[start as int]));
            lemma_count_bound(self.cells@, Tally::RevealedSafe);
        }
        self.revealed_count = self.revealed_count + 1;
        let info = RevealedCellInfo {
            coord: self.cells[start].coord,
            adjacent_mines: self.cells[start].adjacent_mines,
            is_mine: false,
            revealed_by: clone_opt(by),
            player_color: clone_opt(color),
        };
        revealed_list.push(info);
        queue.push(start);
        proof {
            order = order.push(start as int);
            assert forall|i: int| 0 <= i < total implies (#[trigger] newly(before, self.cells@, i) <==> order.contains(i)) by {
                if i == start {
                    assert(order[0] == start);
                }
            }
            assert(queue@[0] == start);
            assert(order[0] == start);
            assert forall|q: int| 0 <= q < queue@.len() implies order.contains(#[trigger] queue@[q] as int) by {
                assert(order[0] == queue@[q] as int);
            }
            assert forall|i: int| 0 <= i < before.len() && #[trigger] newly(before, self.cells@, i) implies set![start as int].contains(i) by {
                assert(order.contains(i));
            }
        }

        while head < queue.len()
            invariant
                self.dims == dims,
                self.config == old(self).config,
                self.is_generated == old(self).is_generated,
                self.status == old(self).status,
                self.flag_count == old(self).flag_count,
                old(self).wf(),
                old(self).cells@ == before,
                old(self).dims == dims,
                dims.fits_usize(),
                dims.fits_i32(),
                w == dims.width,
                h == dims.height,
                total == before.len(),
                total == dims.total(),
                self.cells@.len() == total,
                by_v == *by,
                color_v == *color,
                start < total,
                forall|i: int|
                    0 <= i < total ==> (#[trigger] self.cells@[i] == before[i] || (
                        !before[i].is_revealed && self.cells@[i] == revealed_as(before[i], by_v, color_v))),
                forall|i: int| 0 <= i < total ==> (#[trigger] newly(before, self.cells@, i) <==> order.contains(i)),
                order.no_duplicates(),
                order.len() == revealed_list@.len(),
                order.len() > 0 && order[0] == start as int,
                forall|k: int| 0 <= k < order.len() ==> 0 <= #[trigger] order[k] < total,
                forall|k: int|
                    0 <= k < order.len() ==> #[trigger] revealed_list@[k] == info_of(self.cells@[order[k]]),
                forall|k: int|
                    0 <= k < order.len() ==> !before[#[trigger] order[k]].is_mine && !before[order[k]].is_flagged,
                head <= queue@.len(),
                forall|q: int| 0 <= q < queue@.len() ==> order.contains(#[trigger] queue@[q] as int),
                forall|i: int|
                    0 <= i < total && order.contains(i) && before[i].adjacent_mines == 0
                        ==> #[trigger] queue@.contains(i as usize),
                queue@.contains(start),
                forall|q: int|
                    0 <= q < head && before[#[trigger] queue@[q] as int].adjacent_mines == 0 ==> surrounded(
                        dims,
                        self.cells@,
                        queue@[q] as int,
                    ),
                self.revealed_count == old(self).revealed_count + order.len(),
                self.revealed_count == count_cells(self.cells@, Tally::RevealedSafe),
                depth.len() == total,
                self.cells@[start as int].is_revealed,
                flood_reached(dims, before, self.cells@, set![start as int], depth),
            decreases (total - self.revealed_count) + (queue@.len() - head),
        {
            proof { lemma_count_bound(self.cells@, Tally::RevealedSafe); }
            let cur = queue[head];
            head = head + 1;
            let ghost m0 = (total - self.revealed_count) + (queue@.len() - head);
            if self.cells[cur].adjacent_mines != 0 {
                continue;
            }
            let ghost cells_before_scan = self.cells@;
            let cur_coord = self.cells[cur].coord;
            proof {
                assert(self.cells@[cur as int].coord == before[cur as int].coord);
                lemma_cell_coord(dims, cur as int);
                dims.lemma_neighbors_valid(cur_coord);
            }
            let neighbors = self.dims.get_neighbors(cur_coord);
            let mut t: usize = 0;
            while t < neighbors.len()
                invariant
                    self.dims == dims,
                    self.config == old(self).config,
                    self.is_generated == old(self).is_generated,
                    self.status == old(self).status,
                    self.flag_count == old(self).flag_count,
                    old(self).wf(),
                    old(self).cells@ == before,
                    old(self).dims == dims,
                    dims.fits_usize(),
                    dims.fits_i32(),
                    w == dims.width,
                    h == dims.height,
                    total == before.len(),
                    total == dims.total(),
                    self.cells@.len() == total,
                    by_v == *by,
                    color_v == *color,
                    start < total,
                    cur < total,
                    cur_coord == cell_coord(dims, cur as int),
                    neighbors@ == dims.neighbor_list(cur_coord),
                    forall|n: Coord3D| #[trigger] dims.is_neighbor(cur_coord, n) ==> dims.valid(n),
                    before[cur as int].adjacent_mines == 0,
                    order.contains(cur as int),
                    t <= neighbors@.len(),
                    forall|i: int|
                        0 <= i < total ==> (#[trigger] self.cells@[i] == before[i] || (
                            !before[i].is_revealed && self.cells@[i] == revealed_as(before[i], by_v, color_v))),
                    forall|i: int| 0 <= i < total ==> (#[trigger] newly(before, self.cells@, i) <==> order.contains(i)),
                    forall|i: int| 0 <= i < total && cells_before_scan[i].is_revealed ==> (#[trigger] self.cells@[i]).is_revealed,
                    order.no_duplicates(),
                    order.len() == revealed_list@.len(),
                    order.len() > 0 && order[0] == start as int,
                    forall|k: int| 0 <= k < order.len() ==> 0 <= #[trigger] order[k] < total,
                    forall|k: int|
                        0 <= k < order.len() ==> #[trigger] revealed_list@[k] == info_of(self.cells@[order[k]]),
                    forall|k: int|
                        0 <= k < order.len() ==> !before[#[trigger] order[k]].is_mine && !before[order[k]].is_flagged,
                    head <= queue@.len(),
                    forall|q: int| 0 <= q < queue@.len() ==> order.contains(#[trigger] queue@[q] as int),
                    forall|i: int|
                        0 <= i < total && order.contains(i) && before[i].adjacent_mines == 0
                            ==> #[trigger] queue@.contains(i as usize),
                    queue@.contains(start),
                    forall|q: int|
                        0 <= q < head - 1 && before[#[trigger] queue@[q] as int].adjacent_mines == 0 ==> surrounded(
                            dims,
                            cells_before_scan,
                            queue@[q] as int,
                        ),
                    head >= 1,
                    queue@[head - 1] == cur,
                    cells_before_scan.len() == total,
                    self.revealed_count <= total,
                    (total - self.revealed_count) + (queue@.len() - head) <= m0,
                    forall|u: int| 0 <= u < t ==> {
                        let c = self.cells@[cell_index(dims, #[trigger] neighbors@[u])];
                        c.is_revealed || c.is_flagged || c.is_mine
                    },
                    self.revealed_count == old(self).revealed_count + order.len(),
                    self.revealed_count == count_cells(self.cells@, Tally::RevealedSafe),
                    depth.len() == total,
                    flood_reached(dims, before, self.cells@, set![start as int], depth),
                decreases neighbors@.len() - t,
            {
                let n = neighbors[t];
                proof {
                    assert(neighbors@.contains(n));
                    assert(dims.is_neighbor(cur_coord, n));
                    lemma_valid_index(dims, n);
                }
                let n_idx = n.to_index(w, h);
                let ghost pre_iter = self.cells@;
                let ghost queue_iter = queue@;
                let ghost order_iter = order;
                let nc = &self.cells[n_idx];
                if !nc.is_revealed && !nc.is_flagged && !nc.is_mine {
                    let ghost pre = self.cells@;
                    let ghost old_order = order;
                    let ghost old_depth = depth;
                    proof {
                        assert(pre[n_idx as int] == before[n_idx as int]);
                        assert(!newly(before, self.cells@, n_idx as int));
                        assert(!order.contains(n_idx as int));
                    }
                    self.cells[n_idx].is_revealed = true;
                    self.cells[n_idx].revealed_by = clone_opt(by);
                    self.cells[n_idx].player_color = clone_opt(color);
                    proof {
                        assert(tallies(Tally::RevealedSafe, self.cells@[n_idx as int]));
                        assert(!tallies(Tally::RevealedSafe, pre[n_idx as int]));
                        assert(self.cells@ == pre.update(n_idx as int, self.cells@[n_idx as int]));
                        lemma_count_update(pre, n_idx as int, self.cells@[n_idx as int], Tally::RevealedSafe);
                        lemma_count_bound(self.cells@, Tally::RevealedSafe);
                        assert(self.cells@[n_idx as int] == revealed_as(before[n_idx as int], by_v, color_v));
                    }
                    self.revealed_count = self.revealed_count + 1;
                    let n_adj = self.cells[n_idx].adjacent_mines;
                    revealed_list.push(RevealedCellInfo {
                        coord: n,
                        adjacent_mines: n_adj,
                        is_mine: false,
                        revealed_by: clone_opt(by),
                        player_color: clone_opt(color),
                    });
                    proof {
                        assert(cell_coord(dims, n_idx as int) == n);
                        assert(old_order.contains(cur as int));
                        assert(newly(before, pre, cur as int));
                        assert(self.cells@[cur as int] == pre[cur as int]);
                        lemma_wf_coord(*old(self), n_idx as int);
                        assert(before[n_idx as int].coord == n);
                        assert(self.cells@[n_idx as int].coord == n);
                        order = order.push(n_idx as int);
                        depth = depth.update(n_idx as int, depth[cur as int] + 1);
                        assert(order[old_order.index_of(cur as int)] == cur as int);
                        assert forall|i: int| 0 <= i < total && #[trigger] newly(before, self.cells@, i) implies (set![start as int].contains(i) || exists|j: int|
                            0 <= j < before.len() && newly(before, self.cells@, j) && self.cells@[j].adjacent_mines == 0
                                && #[trigger] dims.is_neighbor(cell_coord(dims, j), cell_coord(dims, i))
                                && depth[j] < depth[i]) by {
                            if i == n_idx {
                                assert(newly(before, self.cells@, cur as int));
                                assert(dims.is_neighbor(cell_coord(dims, cur as int), cell_coord(dims, i)));
                            } else {
                                assert(newly(before, pre, i));
                                if !set![start as int].contains(i) {
                                    let j = choose|j: int|
                                        0 <= j < before.len() && newly(before, pre, j) && pre[j].adjacent_mines == 0
                                            && #[trigger] dims.is_neighbor(cell_coord(dims, j), cell_coord(dims, i))
                                            && old_depth[j] < old_depth[i];
                                    assert(j != n_idx);
                                    assert(newly(before, self.cells@, j));
                                }
                            }
                        }
                        assert forall|k: int|
                            0 <= k < order.len() implies #[trigger] revealed_list@[k] == info_of(self.cells@[order[k]]) by {
                            if k < old_order.len() {
                                assert(old_order[k] != n_idx);
                            }
                        }
                        assert forall|i: int| 0 <= i < total implies (#[trigger] newly(before, self.cells@, i) <==> order.contains(i)) by {
                            if i == n_idx {
                                assert(order[order.len() - 1] == i);
                            } else {
                                assert(self.cells@[i] == pre[i]);
                                assert(newly(before, pre, i) <==> old_order.contains(i));
                                if order.contains(i) {
                                    let k = order.index_of(i);
                                    assert(old_order[k] == i);
                                }
                                if old_order.contains(i) {
                                    let k = old_order.index_of(i);
                                    assert(order[k] == i);
                                }
                            }
                        }
                    }
                    let ghost old_queue = queue@;
                    if n_adj == 0 {
                        queue.push(n_idx);
                    }
                    proof {
                        assert(before[n_idx as int].adjacent_mines == n_adj);
                        assert forall|i: int|
                            0 <= i < total && order.contains(i) && before[i].adjacent_mines == 0
                                implies #[trigger] queue@.contains(i as usize) by {
                            if i == n_idx {
                                assert(queue@[queue@.len() - 1] == n_idx);
                            } else {
                                let k = order.index_of(i);
                                assert(old_order[k] == i);
                                assert(old_order.contains(i));
                                assert(old_queue.contains(i as usize));
                                let q = old_queue.index_of(i as usize);
                                assert(queue@[q] == i as usize);
                            }
                        }
                    }
                }
                proof {
                    assert(queue@[queue_iter.index_of(start)] == start);
                    assert forall|q: int| 0 <= q < queue@.len() implies order.contains(#[trigger] queue@[q] as int) by {
                        if q < queue_iter.len() {
                            assert(queue_iter[q] == queue@[q]);
                            assert(order_iter.contains(queue@[q] as int));
                            let k = order_iter.index_of(queue@[q] as int);
                            assert(order[k] == queue@[q] as int);
                        } else {
                            assert(order[order.len() - 1] == queue@[q] as int);
                        }
                    }
                    assert forall|u: int| 0 <= u < t + 1 implies {
                        let c = self.cells@[cell_index(dims, #[trigger] neighbors@[u])];
                        c.is_revealed || c.is_flagged || c.is_mine
                    } by {
                        let ci = cell_index(dims, neighbors@[u]);
                        assert(neighbors@.contains(neighbors@[u]));
                        assert(dims.is_neighbor(cur_coord, neighbors@[u]));
                        lemma_valid_index(dims, neighbors@[u]);
                        if u < t {
                            let cb = pre_iter[ci];
                            assert(cb.is_revealed || cb.is_flagged || cb.is_mine);
                            assert(pre_iter[ci] == before[ci] || pre_iter[ci] == revealed_as(before[ci], by_v, color_v));
                            assert(self.cells@[ci] == before[ci] || self.cells@[ci] == revealed_as(before[ci], by_v, color_v));
                        } else {
                            assert(ci == n_idx);
                        }
                    }
                }
                t = t + 1;
            }
            proof {
                assert(surrounded(dims, self.cells@, cur as int)) by {
                    assert forall|n: Coord3D| #[trigger] dims.is_neighbor(cell_coord(dims, cur as int), n) implies {
                        let c = self.cells@[cell_index(dims, n)];
                        c.is_revealed || c.is_flagged || c.is_mine
                    } by {
                        let u = neighbors@.index_of(n);
                        assert(neighbors@[u] == n);
                    }
                }
                assert forall|q: int|
                    0 <= q < head && before[#[trigger] queue@[q] as int].adjacent_mines == 0 implies surrounded(
                        dims,
                        self.cells@,
                        queue@[q] as int,
                    ) by {
                    if q < head - 1 {
                        let i = queue@[q] as int;
                        assert forall|n: Coord3D| #[trigger] dims.is_neighbor(cell_coord(dims, i), n) implies {
                            let c = self.cells@[cell_index(dims, n)];
                            c.is_revealed || c.is_flagged || c.is_mine
                        } by {
                            let ci = cell_index(dims, n);
                            assert(surrounded(dims, cells_before_scan, i));
                            let cb = cells_before_scan[ci];
                            assert(cb.is_revealed || cb.is_flagged || cb.is_mine);
                            assert(order.contains(i));
                            lemma_cell_coord(dims, i);
                            dims.lemma_neighbors_valid(cell_coord(dims, i));
                            lemma_valid_index(dims, n);
                        }
                    }
                }
            }
        }
        proof {
            let after = self.cells@;
            assert forall|i: int|
                0 <= i < before.len() && newly(before, after, i) && (#[trigger] after[i]).adjacent_mines
                    == 0 implies opened_around(dims, after, i) by {
                assert(queue@.contains(i as usize));
                let q = queue@.index_of(i as usize);
                assert(surrounded(dims, after, queue@[q] as int));
                assert forall|n: Coord3D| #[trigger] dims.is_neighbor(cell_coord(dims, i), n) implies {
                    let c = after[cell_index(dims, n)];
                    c.is_revealed || c.is_flagged
                } by {
                    lemma_cell_coord(dims, i);
                    dims.lemma_neighbors_valid(cell_coord(dims, i));
                    lemma_valid_index(dims, n);
                    assert(before[i].adjacent_mines == 0);
                    lemma_zero_means_no_mine_around(dims, before, i, n);
                    let ci = cell_index(dims, n);
                    assert(after[ci].is_mine == before[ci].is_mine);
                }
            }
            assert forall|i: int|
                0 <= i < before.len() implies (#[trigger] after[i] == before[i] || (!before[i].is_revealed
                    && !before[i].is_flagged && !before[i].is_mine && after[i] == revealed_as(
                    before[i],
                    by_v,
                    color_v,
                ))) by {
                if after[i] != before[i] {
                    assert(newly(before, after, i));
                    let k = order.index_of(i);
                    assert(order[k] == i);
                }
            }
            let report = revealed_list@;
            let coords = report.map_values(|r: RevealedCellInfo| r.coord);
            assert forall|a: int, b: int| 0 <= a < coords.len() && 0 <= b < coords.len() && a != b implies coords[a] != coords[b] by {
                lemma_cell_coord(dims, order[a]);
                lemma_cell_coord(dims, order[b]);
                assert(after[order[a]].coord == before[order[a]].coord);
                assert(after[order[b]].coord == before[order[b]].coord);
            }
            assert forall|k: int| 0 <= k < report.len() implies {
                let i = cell_index(dims, (#[trigger] report[k]).coord);
                &&& dims.valid(report[k].coord)
                &&& newly(before, after, i)
                &&& report[k] == info_of(after[i])
            } by {
                let i = order[k];
                lemma_cell_coord(dims, i);
                assert(after[i].coord == before[i].coord);
                assert(newly(before, after, i));
            }
            assert forall|i: int| 0 <= i < before.len() && #[trigger] newly(before, after, i) implies exists|k: int|
                0 <= k < report.len() && #[trigger] report[k].coord == cell_coord(dims, i) by {
                let k = order.index_of(i);
                assert(report[k].coord == cell_coord(dims, i));
            }
            assert(mine_map(after) =~= mine_map(before));
            lemma_count_same(before, after, Tally::Flagged);
        }
        (revealed_list, Ghost(depth))
    }
}

/// The cells a reveal reports as uncovered.
pub open spec fn uncovered_report(r: RevealResult) -> Seq<RevealedCellInfo> {
    match r {
        RevealResult::Success { revealed } => revealed@,
        RevealResult::FirstClickGenerated { revealed } => revealed@,
        _ => Seq::empty(),
    }
}

/// The mine layout of `old` is the one of `new`, and so is every number.
pub open spec fn same_layout(old: Seq<Cell>, new: Seq<Cell>) -> bool {
    laid_out(old, new) == old
}

impl Board {
    /// Ends the game on a mine: every mine is uncovered, the one at `hit` in the
    /// name and colour of the player.
    fn explode(&mut self, hit: usize, coord: Coord3D, by: Option<String>, color: Option<String>) -> (r: RevealResult)
        requires
            old(self).wf(),
            old(self).is_generated,
            old(self).dims.valid(coord),
            hit == old(self).idx(coord),
            old(self).cells@[hit as int].is_mine,
        ensures
            final(self).wf(),
            final(self).config == old(self).config,
            final(self).dims == old(self).dims,
            final(self).is_generated,
            final(self).status == GameStatus::Lost,
            final(self).revealed_count == old(self).revealed_count,
            final(self).flag_count == old(self).flag_count,
            final(self).cells@ == exploded(old(self).cells@, hit as int, by, color),
            r == (RevealResult::HitMine { hit_coord: coord, all_mines: r->all_mines, revealed_by: by }),
            r->all_mines@ == mine_coords(old(self).cells@),
    {
        let ghost before = self.cells@;
        let ghost dims = self.dims;
        let total = self.cells.len();
        proof {
            lemma_valid_index(dims, coord);
        }
        let mut all_mines: Vec<Coord3D> = Vec::new();
        let mut i: usize = 0;
        while i < total
            invariant
                i <= total,
                total == self.cells@.len(),
                self.cells@ == before,
                all_mines@ == mine_coords(before.take(i as int)),
            decreases total - i,
        {
            proof {
                assert(before.take(i + 1).drop_last() == before.take(i as int));
            }
            if self.cells[i].is_mine {
                all_mines.push(self.cells[i].coord);
            }
            i = i + 1;
        }
        proof {
            assert(before.take(total as int) == before);
        }
        self.status = GameStatus::Lost;
        let ghost target = exploded(before, hit as int, by, color);
        let mut i: usize = 0;
        while i < total
            invariant
                i <= total,
                total == self.cells@.len(),
                total == before.len(),
                before == old(self).cells@,
                old(self).wf(),
                old(self).dims == dims,
                dims.valid(coord),
                hit == cell_index(dims, coord),
                coord == cell_coord(dims, hit as int),
                target == exploded(before, hit as int, by, color),
                forall|j: int| 0 <= j < i ==> #[trigger] self.cells@[j] == target[j],
                forall|j: int| i <= j < total ==> #[trigger] self.cells@[j] == before[j],
                self.dims == dims,
                self.config == old(self).config,
                self.is_generated,
                self.status == GameStatus::Lost,
                self.revealed_count == old(self).revealed_count,
                self.flag_count == old(self).flag_count,
            decreases total - i,
        {
            if self.cells[i].is_mine {
                self.cells[i].is_revealed = true;
                proof {
                    lemma_wf_coord(*old(self), i as int);
                    lemma_cell_coord(dims, i as int);
                }
                if self.cells[i].coord == coord {
                    self.cells[i].revealed_by = clone_opt(&by);
                    self.cells[i].player_color = clone_opt(&color);
                }
            }
            i = i + 1;
        }
        proof {
            let cells = self.cells@;
            assert(cells =~= target);
            assert(mine_map(cells) =~= mine_map(before));
            lemma_count_same(before, cells, Tally::RevealedSafe);
            lemma_count_same(before, cells, Tally::Flagged);
            assert forall|j: int| 0 <= j < cells.len() implies (#[trigger] cells[j]).coord == coord_of(j, self.width(), self.height()) by {
                lemma_wf_coord(*old(self), j);
            }
        }
        RevealResult::HitMine { hit_coord: coord, all_mines, revealed_by: by }
    }

    /// Uncovers the cell at `coord` for `player_id`, shown in `player_color`.
    /// On the first click the mines are placed first, keeping `coord` and its
    /// neighbours free. A flagged or uncovered cell is left alone; a mine ends
    /// the game; otherwise the cell is uncovered and the flood spreads through
    /// cells showing 0. The game is won once every cell without a mine is
    /// uncovered.
    pub fn reveal_cell(&mut self, coord: Coord3D, player_id: Option<String>, player_color: Option<String>) -> (r: RevealResult)
        requires
            old(self).wf(),
            old(self).config.mines <= old(self).dims.total(),
        ensures
            final(self).wf(),
            final(self).config == old(self).config,
            final(self).dims == old(self).dims,
            final(self).flag_count == old(self).flag_count,
            reveal_done(*old(self), *final(self), coord, player_id, player_color, r),
    {
        if self.status == GameStatus::Lost || self.status == GameStatus::Won {
            return RevealResult::NoOp;
        }
        if !self.dims.is_valid_coord(coord) {
            return RevealResult::NoOp;
        }
        let ghost old_cells = self.cells@;
        let ghost dims = self.dims;
        proof {
            lemma_valid_index(dims, coord);
        }
        let first_click = !self.is_generated;
        if first_click {
            self.generate_mines_with_seed(coord, None);
        }
        let ghost gen = self.cells@;
        proof {
            assert(laid_out(old_cells, gen) =~= gen);
            if first_click {
                let i = cell_index(dims, coord);
                let w = dims.width as int;
                let h = dims.height as int;
                assert(in_safe_zone(dims, coord, i));
                assert(!gen[i].is_mine);
                dims.lemma_neighbors_valid(coord);
                assert forall|n: Coord3D| #[trigger] dims.is_neighbor(coord, n) implies !gen[cell_index(dims, n)].is_mine by {
                    lemma_valid_index(dims, n);
                    let list = dims.neighbor_list(coord);
                    let k = list.index_of(n);
                    assert(list[k].index(w, h) == cell_index(dims, n));
                    assert(in_safe_zone(dims, coord, cell_index(dims, n)));
                }
                let list = dims.neighbor_list(coord);
                assert forall|k: int| 0 <= k < list.len() implies !mine_map(gen)[#[trigger] list[k].index(w, h)] by {
                    assert(list.contains(list[k]));
                    assert(dims.is_neighbor(coord, list[k]));
                    lemma_valid_index(dims, list[k]);
                }
                lemma_mines_among_zero(mine_map(gen), list, w, h);
                lemma_wf_coord(*self, i);
                assert(gen[i].adjacent_mines == 0);
            }
        }
        let idx = coord.to_index(self.dims.width, self.dims.height);
        if self.cells[idx].is_flagged {
            return RevealResult::Flagged;
        }
        if self.cells[idx].is_revealed {
            return RevealResult::AlreadyRevealed;
        }
        if self.cells[idx].is_mine {
            let r = self.explode(idx, coord, player_id, player_color);
            proof {
                assert(laid_out(old_cells, self.cells@) =~= gen);
            }
            return r;
        }
        let (revealed, depth) = self.flood_fill(idx, &player_id, &player_color);
        proof {
            assert(laid_out(old_cells, self.cells@) =~= gen);
            assert(flood_reached(dims, gen, self.cells@, set![idx as int], depth@));
        }
        let non_mine_total = self.dims.total_cells() - self.config.mines;
        if self.revealed_count >= non_mine_total {
            self.status = GameStatus::Won;
        }
        proof {
            let fin = self.cells@;
            lemma_count_same(gen, fin, Tally::Mine);
            assert(laid_out(old_cells, fin) == gen);
            assert(!first_click ==> gen == old_cells);
            assert(!first_click ==> same_layout(old_cells, fin));
            assert(exists|depth: Seq<nat>| #[trigger] flood_reached(dims, gen, fin, set![idx as int], depth));
            assert(reports_uncovered(dims, gen, fin, revealed@));
            assert(flood_closed(dims, gen, fin, player_id, player_color));
            if first_click {
                let i = cell_index(dims, coord);
                assert(newly(gen, fin, i));
                assert(fin[i].adjacent_mines == 0);
                assert(opened_around(dims, fin, i));
                lemma_wf_coord(*self, i);
                assert(cell_coord(dims, i) == coord);
                assert forall|n: Coord3D| #[trigger] dims.is_neighbor(coord, n) implies {
                    &&& !fin[cell_index(dims, n)].is_mine
                    &&& fin[cell_index(dims, n)].is_revealed || fin[cell_index(dims, n)].is_flagged
                } by {
                    lemma_valid_index(dims, n);
                    let j = cell_index(dims, n);
                    assert(fin[j] == gen[j] || fin[j] == revealed_as(gen[j], player_id, player_color));
                }
            }
        }
        if first_click {
            RevealResult::FirstClickGenerated { revealed }
        } else {
            RevealResult::Success { revealed }
        }
    }
}

/// Revealing more only uncovers cells: what is uncovered stays uncovered, and
/// nothing else changes but the credit of newly uncovered cells.
pub proof fn lemma_flood_closed_compose(
    dims: Dimensions,
    a: Seq<Cell>,
    b: Seq<Cell>,
    c: Seq<Cell>,
    by: Option<String>,
    color: Option<String>,
)
    requires
        dims.fits_usize(),
        a.len() == dims.total(),
        flood_closed(dims, a, b, by, color),
        flood_closed(dims, b, c, by, color),
    ensures
        flood_closed(dims, a, c, by, color),
{
    assert forall|i: int|
        0 <= i < a.len() implies (#[trigger] c[i] == a[i] || (!a[i].is_revealed && !a[i].is_flagged
            && !a[i].is_mine && c[i] == revealed_as(a[i], by, color))) by {
        assert(b[i] == a[i] || b[i] == revealed_as(a[i], by, color));
        assert(c[i] == b[i] || c[i] == revealed_as(b[i], by, color));
    }
    assert forall|i: int|
        0 <= i < a.len() && newly(a, c, i) && (#[trigger] c[i]).adjacent_mines == 0 implies opened_around(
            dims,
            c,
            i,
        ) by {
        assert(b[i] == a[i] || b[i] == revealed_as(a[i], by, color));
        assert(c[i] == b[i] || c[i] == revealed_as(b[i], by, color));
        if newly(a, b, i) {
            assert(b[i].adjacent_mines == 0);
            assert(opened_around(dims, b, i));
            lemma_cell_coord(dims, i);
            dims.lemma_neighbors_valid(cell_coord(dims, i));
            assert forall|n: Coord3D| #[trigger] dims.is_neighbor(cell_coord(dims, i), n) implies {
                let x = c[cell_index(dims, n)];
                x.is_revealed || x.is_flagged
            } by {
                lemma_valid_index(dims, n);
                let ci = cell_index(dims, n);
                assert(b[ci] == a[ci] || b[ci] == revealed_as(a[ci], by, color));
                assert(c[ci] == b[ci] || c[ci] == revealed_as(b[ci], by, color));
            }
        } else {
            assert(newly(b, c, i));
        }
    }
}

/// Reach through two successive floods, from the roots of either.
pub proof fn lemma_flood_reached_compose(
    dims: Dimensions,
    a: Seq<Cell>,
    b: Seq<Cell>,
    c: Seq<Cell>,
    by: Option<String>,
    color: Option<String>,
    roots1: Set<int>,
    roots2: Set<int>,
    d1: Seq<nat>,
    d2: Seq<nat>,
    roots: Set<int>,
) -> (d: Seq<nat>)
    requires
        flood_closed(dims, a, b, by, color),
        flood_closed(dims, b, c, by, color),
        flood_reached(dims, a, b, roots1, d1),
        flood_reached(dims, b, c, roots2, d2),
        roots1.subset_of(roots),
        roots2.subset_of(roots),
    ensures
        flood_reached(dims, a, c, roots, d),
        d.len() == a.len(),
{
    let d = Seq::new(a.len(), |i: int| if newly(b, c, i) { d2[i] } else { d1[i] });
    assert forall|i: int|
        0 <= i < a.len() && #[trigger] newly(a, c, i) implies roots.contains(i) || exists|j: int|
            0 <= j < a.len() && newly(a, c, j) && c[j].adjacent_mines == 0
                && #[trigger] dims.is_neighbor(cell_coord(dims, j), cell_coord(dims, i))
                && d[j] < d[i] by {
        assert(b[i] == a[i] || b[i] == revealed_as(a[i], by, color));
        assert(c[i] == b[i] || c[i] == revealed_as(b[i], by, color));
        if newly(a, b, i) {
            if !roots1.contains(i) {
                let j = choose|j: int|
                    0 <= j < a.len() && newly(a, b, j) && b[j].adjacent_mines == 0
                        && #[trigger] dims.is_neighbor(cell_coord(dims, j), cell_coord(dims, i))
                        && d1[j] < d1[i];
                assert(c[j] == b[j] || c[j] == revealed_as(b[j], by, color));
                assert(newly(a, c, j));
                assert(!newly(b, c, j));
                assert(!newly(b, c, i));
            }
        } else {
            assert(newly(b, c, i));
            if !roots2.contains(i) {
                let j = choose|j: int|
                    0 <= j < a.len() && newly(b, c, j) && c[j].adjacent_mines == 0
                        && #[trigger] dims.is_neighbor(cell_coord(dims, j), cell_coord(dims, i))
                        && d2[j] < d2[i];
                assert(b[j] == a[j] || b[j] == revealed_as(a[j], by, color));
                assert(newly(a, c, j));
            }
        }
    }
    d
}

/// The reports of two successive floods, one after the other, report the
/// cells the two uncovered together.
pub proof fn lemma_reports_compose(
    dims: Dimensions,
    a: Seq<Cell>,
    b: Seq<Cell>,
    c: Seq<Cell>,
    by: Option<String>,
    color: Option<String>,
    r1: Seq<RevealedCellInfo>,
    r2: Seq<RevealedCellInfo>,
)
    requires
        dims.fits_usize(),
        a.len() == dims.total(),
        flood_closed(dims, a, b, by, color),
        flood_closed(dims, b, c, by, color),
        reports_uncovered(dims, a, b, r1),
        reports_uncovered(dims, b, c, r2),
    ensures
        reports_uncovered(dims, a, c, r1 + r2),
{
    let r = r1 + r2;
    let f = |x: RevealedCellInfo| x.coord;
    assert forall|k: int| 0 <= k < r.len() implies {
        let i = cell_index(dims, (#[trigger] r[k]).coord);
        &&& dims.valid(r[k].coord)
        &&& newly(a, c, i)
        &&& r[k] == info_of(c[i])
    } by {
        let i = cell_index(dims, r[k].coord);
        if k < r1.len() {
            assert(r[k] == r1[k]);
            lemma_valid_index(dims, r1[k].coord);
            assert(c[i] == b[i] || c[i] == revealed_as(b[i], by, color));
        } else {
            assert(r[k] == r2[k - r1.len()]);
            lemma_valid_index(dims, r2[k - r1.len()].coord);
            assert(b[i] == a[i] || b[i] == revealed_as(a[i], by, color));
        }
    }
    let coords = r.map_values(f);
    assert forall|x: int, y: int| 0 <= x < coords.len() && 0 <= y < coords.len() && x != y implies coords[x] != coords[y] by {
        if x < r1.len() && y < r1.len() {
            assert(r1.map_values(f)[x] == coords[x]);
            assert(r1.map_values(f)[y] == coords[y]);
        } else if x >= r1.len() && y >= r1.len() {
            assert(r2.map_values(f)[x - r1.len()] == coords[x]);
            assert(r2.map_values(f)[y - r1.len()] == coords[y]);
        } else {
            let ix = cell_index(dims, r[x].coord);
            let iy = cell_index(dims, r[y].coord);
            if x < r1.len() {
                assert(r[x] == r1[x]);
                assert(r[y] == r2[y - r1.len()]);
                assert(b[ix].is_revealed);
                assert(!b[iy].is_revealed);
            } else {
                assert(r[y] == r1[y]);
                assert(r[x] == r2[x - r1.len()]);
                assert(b[iy].is_revealed);
                assert(!b[ix].is_revealed);
            }
        }
    }
    assert forall|i: int| 0 <= i < a.len() && #[trigger] newly(a, c, i) implies exists|k: int|
        0 <= k < r.len() && #[trigger] r[k].coord == cell_coord(dims, i) by {
        assert(b[i] == a[i] || b[i] == revealed_as(a[i], by, color));
        assert(c[i] == b[i] || c[i] == revealed_as(b[i], by, color));
        if newly(a, b, i) {
            let k = choose|k: int| 0 <= k < r1.len() && #[trigger] r1[k].coord == cell_coord(dims, i);
            assert(r[k] == r1[k]);
        } else {
            assert(newly(b, c, i));
            let k = choose|k: int| 0 <= k < r2.len() && #[trigger] r2[k].coord == cell_coord(dims, i);
            assert(r[k + r1.len()] == r2[k]);
        }
    }
}

/// How many of `coords` are flagged in `cells`, a grid of the given width and height.
pub open spec fn flags_among(cells: Seq<Cell>, coords: Seq<Coord3D>, width: int, height: int) -> nat
    decreases coords.len(),
{
    if coords.len() == 0 {
        0
    } else {
        flags_among(cells, coords.drop_last(), width, height) + if cells[coords.last().index(
            width,
            height,
        )].is_flagged {
            1nat
        } else {
            0nat
        }
    }
}

/// Two cell sequences with the same mines at the same coordinates list the same mines.
pub proof fn lemma_mine_coords_same(a: Seq<Cell>, b: Seq<Cell>)
    requires
        a.len() == b.len(),
        forall|i: int| 0 <= i < a.len() ==> (#[trigger] a[i]).is_mine == b[i].is_mine && a[i].coord == b[i].coord,
    ensures
        mine_coords(a) == mine_coords(b),
    decreases a.len(),
{
    if a.len() > 0 {
        lemma_mine_coords_same(a.drop_last(), b.drop_last());
    }
}

/// What `reveal_cell` does: the board goes from `b0` to `b1` and reports
/// `r` for a click at `coord` by `player_id` in `player_color`.
pub open spec fn reveal_done(b0: Board, b1: Board, coord: Coord3D, player_id: Option<String>, player_color: Option<String>, r: RevealResult) -> bool {
    &&& ((b0.is_over() || !b0.dims.valid(coord)) <==> r is NoOp)
    &&& (r is NoOp ==> b1 == b0)
    // First-click safety: the first reveal lands on a cell without a mine,
    // showing 0, and its neighbours, free of mines, are uncovered too.
    &&& (!b0.is_generated && b0.dims.valid(coord) && !b0.at(coord).is_flagged ==> {
        &&& r is FirstClickGenerated
        &&& !b1.at(coord).is_mine
        &&& b1.at(coord).adjacent_mines == 0
        &&& forall|n: Coord3D| #[trigger] b0.dims.is_neighbor(coord, n) ==> {
            &&& !b1.at(n).is_mine
            &&& b1.at(n).is_revealed || b1.at(n).is_flagged
        }
    })
    &&& (!(r is NoOp) ==> {
        let i = b0.idx(coord);
        let before = laid_out(b0.cells@, b1.cells@);
        let total = b0.dims.total();
        let cap = free_cells(b0.dims, coord, total as nat);
        &&& b1.is_generated
        &&& b0.is_generated ==> same_layout(b0.cells@, b1.cells@)
        &&& !b0.is_generated ==> {
            &&& forall|j: int| 0 <= j < total && in_safe_zone(b0.dims, coord, j)
                ==> !(#[trigger] b1.cells@[j]).is_mine
            &&& count_cells(b1.cells@, Tally::Mine) == if b0.config.mines <= cap {
                b0.config.mines as nat
            } else {
                cap
            }
        }
        &&& (r is Flagged <==> before[i].is_flagged)
        &&& (r is AlreadyRevealed <==> !before[i].is_flagged && before[i].is_revealed)
        &&& (r is HitMine <==> !before[i].is_flagged && !before[i].is_revealed && before[i].is_mine)
        &&& (r is FirstClickGenerated <==> !before[i].is_flagged && !before[i].is_revealed && !before[i].is_mine && !b0.is_generated)
        &&& (r is Success <==> !before[i].is_flagged && !before[i].is_revealed && !before[i].is_mine && b0.is_generated)
        &&& (r is Flagged || r is AlreadyRevealed) ==> {
            &&& b1.cells@ == before
            &&& b1.revealed_count == b0.revealed_count
            &&& b1.status == (if b0.is_generated { b0.status } else { GameStatus::Playing })
        }
        &&& r matches RevealResult::HitMine { hit_coord, all_mines, revealed_by } ==> {
            &&& hit_coord == coord
            &&& all_mines@ == mine_coords(before)
            &&& revealed_by == player_id
            &&& b1.cells@ == exploded(before, i, player_id, player_color)
            &&& b1.status == GameStatus::Lost
            &&& b1.revealed_count == b0.revealed_count
        }
        &&& (r is Success || r is FirstClickGenerated) ==> {
            let revealed = uncovered_report(r);
            &&& flood_closed(b0.dims, before, b1.cells@, player_id, player_color)
            &&& exists|depth: Seq<nat>| #[trigger] flood_reached(b0.dims, before, b1.cells@, set![i], depth)
            &&& reports_uncovered(b0.dims, before, b1.cells@, revealed)
            &&& revealed.len() > 0 && revealed[0].coord == coord
            &&& b1.cells@[i].is_revealed
            &&& b1.revealed_count == b0.revealed_count + revealed.len()
            &&& b1.status == if b1.revealed_count >= total - b0.config.mines {
                GameStatus::Won
            } else {
                GameStatus::Playing
            }
        }
    })
}

/// What `chord` does: the board goes from `b0` to `b1` and reports `r` for
/// a chord at `coord` by `player_id` in `player_color`.
pub open spec fn chord_done(b0: Board, b1: Board, coord: Coord3D, player_id: Option<String>, player_color: Option<String>, r: RevealResult) -> bool {
    &&& ((b0.is_over() || !b0.dims.valid(coord) || !b0.at(coord).is_revealed
        || b0.at(coord).adjacent_mines == 0 || b0.flags_around(coord)
        != b0.at(coord).adjacent_mines) <==> r is NoOp)
    &&& (b1.revealed_count >= b0.revealed_count)
    &&& (r is NoOp ==> b1 == b0)
    &&& (!(r is NoOp) ==> {
        let roots = chord_roots(b0.dims, coord);
        let total = b0.dims.total();
        &&& r is Success || r is HitMine
        &&& same_layout(b0.cells@, b1.cells@)
        &&& forall|j: int| 0 <= j < total ==> (#[trigger] b1.cells@[j]).is_flagged == b0.cells@[j].is_flagged
        &&& r matches RevealResult::HitMine { hit_coord, all_mines, revealed_by } ==> {
            &&& b0.dims.is_neighbor(coord, hit_coord)
            &&& b0.at(hit_coord).is_mine
            &&& !b0.at(hit_coord).is_flagged
            &&& all_mines@ == mine_coords(b0.cells@)
            &&& revealed_by == player_id
            &&& b1.status == GameStatus::Lost
            &&& forall|j: int| 0 <= j < total && (#[trigger] b1.cells@[j]).is_mine ==> b1.cells@[j].is_revealed
        }
        &&& r matches RevealResult::Success { revealed } ==> {
            &&& flood_closed(b0.dims, b0.cells@, b1.cells@, player_id, player_color)
            &&& exists|depth: Seq<nat>| #[trigger] flood_reached(b0.dims, b0.cells@, b1.cells@, roots, depth)
            &&& reports_uncovered(b0.dims, b0.cells@, b1.cells@, revealed@)
            &&& b1.revealed_count == b0.revealed_count + revealed@.len()
            &&& b1.status == if revealed@.len() > 0 && b1.revealed_count >= total - b0.config.mines {
                GameStatus::Won
            } else {
                GameStatus::Playing
            }
            &&& b1.status == GameStatus::Playing ==> forall|n: Coord3D|
                #[trigger] b0.dims.is_neighbor(coord, n) && !b0.at(n).is_flagged
                    ==> b1.at(n).is_revealed && !b1.at(n).is_mine
        }
    })
}

/// The indices of the neighbours of `coord`: where a chord's floods start.
pub open spec fn chord_roots(dims: Dimensions, coord: Coord3D) -> Set<int> {
    Set::new(|i: int| exists|n: Coord3D| #[trigger] dims.is_neighbor(coord, n) && i == cell_index(dims, n))
}

impl Board {
    /// How many neighbours of `coord` carry a flag on this board.
    pub open spec fn flags_around(self, coord: Coord3D) -> nat {
        flags_among(self.cells@, self.dims.neighbor_list(coord), self.width(), self.height())
    }

    /// Chord on the uncovered cell at `coord`: when as many of its neighbours
    /// carry a flag as its number says, every covered unflagged neighbour is
    /// revealed in turn, stopping at the first mine.
    pub fn chord(&mut self, coord: Coord3D, player_id: Option<String>, player_color: Option<String>) -> (r: RevealResult)
        requires
            old(self).wf(),
            old(self).config.mines <= old(self).dims.total(),
        ensures
            final(self).wf(),
            final(self).config == old(self).config,
            final(self).dims == old(self).dims,
            final(self).flag_count == old(self).flag_count,
            chord_done(*old(self), *final(self), coord, player_id, player_color, r),
    {
        if self.status == GameStatus::Lost || self.status == GameStatus::Won {
            return RevealResult::NoOp;
        }
        if !self.dims.is_valid_coord(coord) {
            return RevealResult::NoOp;
        }
        let ghost old_cells = self.cells@;
        let ghost dims = self.dims;
        let w = self.dims.width;
        let h = self.dims.height;
        proof {
            lemma_valid_index(dims, coord);
        }
        let idx = coord.to_index(w, h);
        if !self.cells[idx].is_revealed || self.cells[idx].adjacent_mines == 0 {
            return RevealResult::NoOp;
        }
        let adj = self.cells[idx].adjacent_mines;
        proof {
            dims.lemma_neighbors_valid(coord);
            dims.lemma_neighbor_prefix(coord, 27);
        }
        let neighbors = self.dims.get_neighbors(coord);
        let mut flags: u8 = 0;
        let mut t: usize = 0;
        while t < neighbors.len()
            invariant
                t <= neighbors.len() <= 27,
                neighbors@ == dims.neighbor_list(coord),
                forall|n: Coord3D| #[trigger] dims.is_neighbor(coord, n) ==> dims.valid(n),
                self.cells@ == old_cells,
                old_cells.len() == dims.total(),
                self.dims == dims,
                dims.fits_usize(),
                w == dims.width,
                h == dims.height,
                flags == flags_among(old_cells, neighbors@.take(t as int), w as int, h as int),
                flags <= t,
            decreases neighbors.len() - t,
        {
            let n = neighbors[t];
            proof {
                assert(neighbors@.contains(n));
                assert(dims.is_neighbor(coord, n));
                lemma_valid_index(dims, n);
                assert(neighbors@.take(t + 1).drop_last() == neighbors@.take(t as int));
            }
            let n_idx = n.to_index(w, h);
            if self.cells[n_idx].is_flagged {
                flags = flags + 1;
            }
            t = t + 1;
        }
        proof {
            assert(neighbors@.take(neighbors@.len() as int) == neighbors@);
        }
        if flags != adj {
            return RevealResult::NoOp;
        }

        let ghost roots = chord_roots(dims, coord);
        let ghost mut depth: Seq<nat> = Seq::new(old_cells.len(), |i: int| 0nat);
        let mut combined: Vec<RevealedCellInfo> = Vec::new();
        proof {
            assert(flood_closed(dims, old_cells, self.cells@, player_id, player_color));
            assert(reports_uncovered(dims, old_cells, self.cells@, combined@));
            assert(laid_out(old_cells, self.cells@) =~= old_cells);
        }
        let mut t: usize = 0;
        while t < neighbors.len()
            invariant
                t <= neighbors.len(),
                neighbors@ == dims.neighbor_list(coord),
                forall|n: Coord3D| #[trigger] dims.is_neighbor(coord, n) ==> dims.valid(n),
                old(self).cells@ == old_cells,
                old(self).dims == dims,
                old_cells.len() == dims.total(),
                self.wf(),
                self.dims == dims,
                self.config == old(self).config,
                self.config.mines <= dims.total(),
                self.flag_count == old(self).flag_count,
                self.status == if combined@.len() > 0 && self.revealed_count >= dims.total() - self.config.mines {
                    GameStatus::Won
                } else {
                    GameStatus::Playing
                },
                self.is_generated,
                dims.fits_usize(),
                w == dims.width,
                h == dims.height,
                same_layout(old_cells, self.cells@),
                flood_closed(dims, old_cells, self.cells@, player_id, player_color),
                depth.len() == old_cells.len(),
                flood_reached(dims, old_cells, self.cells@, roots, depth),
                reports_uncovered(dims, old_cells, self.cells@, combined@),
                self.revealed_count == old(self).revealed_count + combined@.len(),
                !old(self).is_over(),
                dims.valid(coord),
                old(self).at(coord).is_revealed,
                old(self).at(coord).adjacent_mines != 0,
                old(self).flags_around(coord) == old(self).at(coord).adjacent_mines,
                roots == chord_roots(dims, coord),
                forall|u: int| 0 <= u < t ==> self.status == GameStatus::Won || {
                    let c = self.cells@[cell_index(dims, #[trigger] neighbors@[u])];
                    c.is_revealed || c.is_flagged
                },
            decreases neighbors.len() - t,
        {
            let nc = neighbors[t];
            proof {
                assert(neighbors@.contains(nc));
                assert(dims.is_neighbor(coord, nc));
                lemma_valid_index(dims, nc);
            }
            let ghost mid = self.cells@;
            let ghost mid_status = self.status;
            let n_idx = nc.to_index(w, h);
            if !self.cells[n_idx].is_revealed && !self.cells[n_idx].is_flagged {
                let res = self.reveal_cell(nc, clone_opt(&player_id), clone_opt(&player_color));
                proof {
                    assert(laid_out(mid, self.cells@) == mid) by {
                        if mid_status == GameStatus::Won {
                        } else {
                            assert(res is HitMine || res is Success || res is Flagged || res is AlreadyRevealed);
                        }
                    }
                }
                match res {
                    RevealResult::HitMine { hit_coord, all_mines, revealed_by } => {
                        proof {
                            lemma_mine_coords_same(mid, old_cells);
                            assert forall|j: int| 0 <= j < dims.total() implies (#[trigger] self.cells@[j]).is_flagged == old_cells[j].is_flagged by {
                                assert(mid[j] == old_cells[j] || mid[j] == revealed_as(old_cells[j], player_id, player_color));
                                assert(self.cells@[j] == exploded(mid, n_idx as int, player_id, player_color)[j]);
                            }
                            assert(laid_out(old_cells, self.cells@) =~= old_cells) by {
                                assert forall|j: int| 0 <= j < old_cells.len() implies #[trigger] laid_out(old_cells, self.cells@)[j] == old_cells[j] by {
                                    assert(laid_out(old_cells, mid)[j] == old_cells[j]);
                                    assert(laid_out(mid, self.cells@)[j] == mid[j]);
                                }
                            }
                            assert forall|j: int| 0 <= j < dims.total() && (#[trigger] self.cells@[j]).is_mine implies self.cells@[j].is_revealed by {
                                assert(self.cells@[j] == exploded(mid, n_idx as int, player_id, player_color)[j]);
                            }
                            assert(mid[n_idx as int] == old_cells[n_idx as int] || mid[n_idx as int] == revealed_as(old_cells[n_idx as int], player_id, player_color));
                        }
                        return RevealResult::HitMine { hit_coord, all_mines, revealed_by };
                    },
                    RevealResult::Success { mut revealed } => {
                        let ghost step = revealed@;
                        let ghost d2 = choose|d: Seq<nat>| #[trigger] flood_reached(dims, mid, self.cells@, set![n_idx as int], d);
                        proof {
                            assert(set![n_idx as int].subset_of(roots)) by {
                                assert(dims.is_neighbor(coord, nc) && n_idx as int == cell_index(dims, nc));
                                assert(roots.contains(n_idx as int));
                            }
                            lemma_flood_closed_compose(dims, old_cells, mid, self.cells@, player_id, player_color);
                            lemma_reports_compose(dims, old_cells, mid, self.cells@, player_id, player_color, combined@, step);
                            depth = lemma_flood_reached_compose(dims, old_cells, mid, self.cells@, player_id, player_color, roots, set![n_idx as int], depth, d2, roots);
                            assert(laid_out(old_cells, self.cells@) =~= old_cells) by {
                                assert forall|j: int| 0 <= j < old_cells.len() implies #[trigger] laid_out(old_cells, self.cells@)[j] == old_cells[j] by {
                                    assert(laid_out(old_cells, mid)[j] == old_cells[j]);
                                    assert(laid_out(mid, self.cells@)[j] == mid[j]);
                                }
                            }
                        }
                        proof {
                            assert(newly(mid, self.cells@, n_idx as int));
                            let k = choose|k: int| 0 <= k < step.len() && #[trigger] step[k].coord == cell_coord(dims, n_idx as int);
                            assert(step.len() > 0);
                        }
                        combined.append(&mut revealed);
                    },
                    RevealResult::FirstClickGenerated { mut revealed } => {
                        proof {
                            assert(false);
                        }
                        combined.append(&mut revealed);
                    },
                    _ => {
                    },
                }
            }
            proof {
                assert forall|u: int| 0 <= u < t + 1 implies self.status == GameStatus::Won || {
                    let c = self.cells@[cell_index(dims, #[trigger] neighbors@[u])];
                    c.is_revealed || c.is_flagged
                } by {
                    if self.status != GameStatus::Won {
                        assert(mid_status != GameStatus::Won);
                        assert(neighbors@.contains(neighbors@[u]));
                        assert(dims.is_neighbor(coord, neighbors@[u]));
                        lemma_valid_index(dims, neighbors@[u]);
                        let ci = cell_index(dims, neighbors@[u]);
                        assert(self.cells@[ci] == mid[ci] || self.cells@[ci] == revealed_as(mid[ci], player_id, player_color));
                    }
                }
            }
            t = t + 1;
        }
        proof {
            let fin = self.cells@;
            assert(exists|d: Seq<nat>| #[trigger] flood_reached(dims, old_cells, fin, roots, d));
            assert forall|j: int| 0 <= j < dims.total() implies (#[trigger] fin[j]).is_flagged == old_cells[j].is_flagged by {
                assert(fin[j] == old_cells[j] || fin[j] == revealed_as(old_cells[j], player_id, player_color));
            }
            if self.status == GameStatus::Playing {
                assert forall|n: Coord3D|
                    #[trigger] dims.is_neighbor(coord, n) && !old_cells[cell_index(dims, n)].is_flagged
                        implies fin[cell_index(dims, n)].is_revealed && !fin[cell_index(dims, n)].is_mine by {
                    let u = neighbors@.index_of(n);
                    assert(neighbors@[u] == n);
                    lemma_valid_index(dims, n);
                    let ci = cell_index(dims, n);
                    assert(fin[ci] == old_cells[ci] || fin[ci] == revealed_as(old_cells[ci], player_id, player_color));
                }
            }
        }
        RevealResult::Success { revealed: combined }
    }
}

/// The coordinate of an index below the cell count lies on the grid and has
/// that index.
pub proof fn lemma_cell_coord(dims: Dimensions, i: int)
    requires
        dims.fits_usize(),
        0 <= i < dims.total(),
    ensures
        dims.width > 0,
        dims.height > 0,
        dims.valid(cell_coord(dims, i)),
        cell_index(dims, cell_coord(dims, i)) == i,
{
    let w = dims.width as int;
    let h = dims.height as int;
    let d = dims.depth as int;
    assert(w > 0 && h > 0) by (nonlinear_arith)
        requires 0 <= i < w * h * d, w >= 0, h >= 0, d >= 0;
    lemma_coord_round_trip(i, w, h, d);
}

/// The cell at index `i` of a board sits at the coordinate of `i`.
pub proof fn lemma_wf_coord(b: Board, i: int)
    requires
        b.wf(),
        0 <= i < b.cells@.len(),
    ensures
        b.cells@[i].coord == cell_coord(b.dims, i),
{
}

/// A coordinate on the grid has an index below the cell count.
pub proof fn lemma_valid_index(dims: Dimensions, c: Coord3D)
    requires
        dims.valid(c),
        dims.fits_usize(),
    ensures
        0 <= c.index(dims.width as int, dims.height as int) < dims.total(),
        coord_of(c.index(dims.width as int, dims.height as int), dims.width as int, dims.height as int) == c,
{
    let w = dims.width as int;
    let h = dims.height as int;
    let d = dims.depth as int;
    assert(0 <= c.index(w, h) < dims.total()) by (nonlinear_arith)
        requires
            0 <= c.x < w,
            0 <= c.y < h,
            0 <= c.z < d,
            c.index(w, h) == c.z * (w * h) + c.y * w + c.x,
            dims.total() == w * h * d,
    {
        assert(c.y * w + c.x < w * h) by (nonlinear_arith) requires 0 <= c.x < w, 0 <= c.y < h;
        assert(c.z * (w * h) + w * h <= d * (w * h)) by (nonlinear_arith) requires 0 <= c.z < d, w * h >= 0;
        assert(w * h * d == d * (w * h)) by (nonlinear_arith);
    }
    lemma_index_round_trip(c, w, h);
}


/// The cells with a flag put on every covered mine.
pub open spec fn with_mines_flagged(cells: Seq<Cell>) -> Seq<Cell> {
    cells.map_values(|c: Cell| Cell { is_flagged: c.is_flagged || (c.is_mine && !c.is_revealed), ..c })
}

impl Board {
    /// Puts a flag on every covered mine, as a won game shows them, and counts
    /// the flags again.
    pub fn flag_covered_mines(&mut self)
        requires
            old(self).wf(),
        ensures
            final(self).wf(),
            final(self).cells@ == with_mines_flagged(old(self).cells@),
            final(self).flag_count == count_cells(final(self).cells@, Tally::Flagged),
            final(self).config == old(self).config,
            final(self).dims == old(self).dims,
            final(self).is_generated == old(self).is_generated,
            final(self).status == old(self).status,
            final(self).revealed_count == old(self).revealed_count,
    {
        let ghost start = self.cells@;
        let n = self.cells.len();
        let mut i: usize = 0;
        while i < n
            invariant
                i <= n,
                n == start.len(),
                self.cells@.len() == n,
                self.config == old(self).config,
                self.dims == old(self).dims,
                self.is_generated == old(self).is_generated,
                self.status == old(self).status,
                self.revealed_count == old(self).revealed_count,
                start == old(self).cells@,
                old(self).wf(),
                forall|j: int| 0 <= j < i ==> #[trigger] self.cells@[j] == with_mines_flagged(start)[j],
                forall|j: int| i <= j < n ==> #[trigger] self.cells@[j] == start[j],
                self.flag_count == count_cells(self.cells@, Tally::Flagged),
                count_cells(self.cells@, Tally::RevealedSafe) == count_cells(start, Tally::RevealedSafe),
                mine_map(self.cells@) == mine_map(start),
            decreases n - i,
        {
            let ghost before = self.cells@;
            if self.cells[i].is_mine && !self.cells[i].is_revealed && !self.cells[i].is_flagged {
                self.cells[i].is_flagged = true;
                proof {
                    lemma_count_update(before, i as int, self.cells@[i as int], Tally::Flagged);
                    lemma_count_update(before, i as int, self.cells@[i as int], Tally::RevealedSafe);
                    lemma_count_bound(self.cells@, Tally::Flagged);
                    assert(mine_map(self.cells@) =~= mine_map(before));
                }
                self.flag_count = self.flag_count + 1;
            }
            proof {
                assert(self.cells@[i as int] == with_mines_flagged(start)[i as int]);
            }
            i = i + 1;
        }
        proof {
            assert(self.cells@ =~= with_mines_flagged(start));
            let cells = self.cells@;
            assert forall|j: int| 0 <= j < cells.len() implies (#[trigger] cells[j]).coord == coord_of(j, self.width(), self.height()) by {
                assert(start[j].coord == coord_of(j, self.width(), self.height()));
            }
            if self.status != GameStatus::Lost {
                assert forall|j: int| 0 <= j < cells.len() implies !((#[trigger] cells[j]).is_revealed && cells[j].is_flagged) by {
                    assert(!(start[j].is_revealed && start[j].is_flagged));
                }
            }
            if self.is_generated {
                assert forall|j: int| 0 <= j < cells.len() implies (#[trigger] cells[j]).adjacent_mines == adjacent_count(self.dims, mine_map(cells), j) by {
                    assert(start[j].adjacent_mines == adjacent_count(self.dims, mine_map(start), j));
                }
            } else {
                assert forall|j: int| 0 <= j < cells.len() implies !(#[trigger] cells[j]).is_mine && !cells[j].is_revealed by {
                    assert(!start[j].is_mine && !start[j].is_revealed);
                }
            }
            if !self.is_over() {
                assert forall|j: int| 0 <= j < cells.len() implies (#[trigger] cells[j]).is_revealed ==> !cells[j].is_mine by {
                    assert(start[j].is_revealed ==> !start[j].is_mine);
                }
            }
        }
    }
}

} // verus!
