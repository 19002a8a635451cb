//! How an AI player picks its next move from what it can see of the board:
//! chords on satisfied numbers, deductions from the visible numbers, and
//! guesses by risk when nothing is certain.
use vstd::prelude::*;
use crate::board::{cell_coord, lemma_cell_coord, lemma_valid_index, mines_among, lemma_mines_among_zero};
use crate::protocol::CellSnapshot;
use crate::solver::{
    AiAction, AiSolver, BotTier, Equation, tally, increasing, below, well_formed, all_well_formed, holds, meets_all,
    marks_hold, usable, listed, same_eq, sound_marks, in_support, mines_at_most, dedup_equations,
    direct_deductions, solve_subset_replacement, subset_result, merge_marks, pick_best_safe_cell,
    pick_lowest_risk_boundary, members, lemma_members_len,
};
use crate::topology::{Coord3D, Dimensions};
use crate::frontier::{FrontierSolution, solve_connected_components, support_mask, components_run, component_cap};
use crate::elim::{PPB, clamp_u64};
use crate::solver::count_marked_around;

verus! {

/// The snapshot lists every cell of a grid of `dims` at its own index.
pub open spec fn board_snapshot(dims: Dimensions, cells: Seq<CellSnapshot>) -> bool {
    &&& usable(dims)
    &&& cells.len() == dims.total()
    &&& forall|i: int| 0 <= i < cells.len() ==> (#[trigger] cells[i]).coord == cell_coord(dims, i)
}

/// The cell at index `j` is neither uncovered nor flagged.
pub open spec fn covered(cells: Seq<CellSnapshot>, j: int) -> bool {
    !cells[j].is_revealed && !cells[j].is_flagged
}

/// Which cells are covered and unflagged.
pub open spec fn covered_mask(cells: Seq<CellSnapshot>) -> Seq<bool> {
    Seq::new(cells.len(), |j: int| covered(cells, j))
}

/// Which cells carry a flag (and are still covered).
pub open spec fn flag_mask(cells: Seq<CellSnapshot>) -> Seq<bool> {
    Seq::new(cells.len(), |j: int| !cells[j].is_revealed && cells[j].is_flagged)
}

/// Index `j` is the index of a neighbour of the cell at index `i`.
pub open spec fn near(dims: Dimensions, i: int, j: int) -> bool {
    let nl = dims.neighbor_list(cell_coord(dims, i));
    exists|k: int| 0 <= k < nl.len() && #[trigger] nl[k].index(dims.width as int, dims.height as int) == j
}

/// The flags around the cell at index `i`.
pub open spec fn flags_near(dims: Dimensions, cells: Seq<CellSnapshot>, i: int) -> nat {
    mines_among(flag_mask(cells), dims.neighbor_list(cell_coord(dims, i)), dims.width as int, dims.height as int)
}

/// The mines the number at index `i` still asks for among its covered
/// neighbours: its number less the flags around it, never below zero.
pub open spec fn needed(dims: Dimensions, cells: Seq<CellSnapshot>, i: int) -> nat {
    let a = cells[i].adjacent_mines as nat;
    let f = flags_near(dims, cells, i);
    if a >= f { (a - f) as nat } else { 0 }
}

/// How many indices below `k` satisfy `f`.
pub open spec fn count_upto(k: nat, f: spec_fn(int) -> bool) -> nat
    decreases k,
{
    if k == 0 {
        0
    } else {
        count_upto((k - 1) as nat, f) + if f(k - 1) { 1nat } else { 0nat }
    }
}

/// The uncovered cell at index `i` has a covered neighbour.
pub open spec fn on_frontier(dims: Dimensions, cells: Seq<CellSnapshot>, i: int) -> bool {
    cells[i].is_revealed && exists|j: int| 0 <= j < cells.len() && covered(cells, j) && #[trigger] near(dims, i, j)
}

/// The layout `m` (true where a mine lies) agrees with every visible number:
/// around each uncovered cell with covered neighbours, the mines among those
/// neighbours are what the number still asks for.
pub open spec fn consistent(dims: Dimensions, cells: Seq<CellSnapshot>, m: Seq<bool>) -> bool {
    &&& m.len() == cells.len()
    &&& forall|i: int| 0 <= i < cells.len() && #[trigger] on_frontier(dims, cells, i) ==>
        count_upto(cells.len() as nat, |j: int| covered(cells, j) && near(dims, i, j) && m[j]) == needed(dims, cells, i)
}

/// The tally of a layout over a cell list counts the indices that lie in the
/// list and hold a mine.
pub proof fn lemma_tally_count(m: Seq<bool>, s: Seq<usize>, n: nat)
    requires
        n <= usize::MAX,
    ensures
        tally(m, s, n) == count_upto(n, |j: int| s.contains(j as usize) && m[j]),
    decreases n,
{
    if n > 0 {
        lemma_tally_count(m, s, (n - 1) as nat);
    }
}

/// Counts of two conditions that agree below `k` are equal.
pub proof fn lemma_count_ext(k: nat, f: spec_fn(int) -> bool, g: spec_fn(int) -> bool)
    requires
        forall|j: int| 0 <= j < k ==> #[trigger] f(j) == g(j),
    ensures
        count_upto(k, f) == count_upto(k, g),
    decreases k,
{
    if k > 0 {
        lemma_count_ext((k - 1) as nat, f, g);
    }
}

/// Adds `x` to a strictly increasing list unless it is already there.
pub fn insert_sorted(v: &mut Vec<usize>, x: usize)
    requires
        increasing(old(v)@),
    ensures
        increasing(final(v)@),
        forall|y: usize| #[trigger] final(v)@.contains(y) <==> (old(v)@.contains(y) || y == x),
{
    let mut p: usize = 0;
    while p < v.len() && v[p] < x
        invariant
            p <= v.len(),
            forall|k: int| 0 <= k < p ==> v@[k] < x,
        decreases v.len() - p,
    {
        p = p + 1;
    }
    if p < v.len() && v[p] == x {
        return;
    }
    let ghost before = v@;
    v.insert(p, x);
    proof {
        assert forall|a: int, b: int| 0 <= a < b < v@.len() implies v@[a] < v@[b] by {
            if b < p {
                assert(v@[a] == before[a] && v@[b] == before[b]);
            } else if b == p {
                assert(v@[a] == before[a]);
            } else if a < p {
                assert(v@[a] == before[a] && v@[b] == before[b - 1]);
                assert(before[b - 1] >= x) by {
                    if p < before.len() {
                        assert(before[p as int] > x);
                        if b - 1 > p {
                            assert(before[p as int] < before[b - 1]);
                        }
                    }
                }
            } else if a == p {
                assert(v@[b] == before[b - 1]);
                assert(before[p as int] > x);
                if b - 1 > p {
                    assert(before[p as int] < before[b - 1]);
                }
            } else {
                assert(v@[a] == before[a - 1] && v@[b] == before[b - 1]);
            }
        }
        assert forall|y: usize| #[trigger] v@.contains(y) <==> (before.contains(y) || y == x) by {
            if v@.contains(y) {
                let k = v@.index_of(y);
                if k < p {
                    assert(before[k] == y);
                } else if k > p {
                    assert(before[k - 1] == y);
                }
            }
            if before.contains(y) {
                let k = before.index_of(y);
                if k < p {
                    assert(v@[k] == y);
                } else {
                    assert(v@[k + 1] == y);
                }
            }
            if y == x {
                assert(v@[p as int] == x);
            }
        }
    }
}

/// What the uncovered cell at index `i` sees around it: the indices of its
/// covered neighbours in increasing order, and the flags among its neighbours.
pub fn frontier_of(dims: Dimensions, covered_cells: &Vec<bool>, flags: &Vec<bool>, i: usize) -> (r: (Vec<usize>, usize))
    requires
        usable(dims),
        i < dims.total(),
        covered_cells@.len() == dims.total(),
        flags@.len() == dims.total(),
        forall|j: int| 0 <= j < dims.total() ==> !(#[trigger] covered_cells@[j] && flags@[j]),
    ensures
        increasing(r.0@),
        below(r.0@, dims.total() as nat),
        forall|j: usize| #[trigger] r.0@.contains(j) <==> (covered_cells@[j as int] && near(dims, i as int, j as int) && j < dims.total()),
        r.1 == mines_among(flags@, dims.neighbor_list(cell_coord(dims, i as int)), dims.width as int, dims.height as int),
        r.1 <= 27,
{
    let w = dims.width;
    let h = dims.height;
    proof {
        lemma_cell_coord(dims, i as int);
    }
    let coord = Coord3D::from_index(i, w, h);
    proof {
        dims.lemma_neighbors_valid(coord);
        dims.lemma_neighbor_prefix(coord, 27);
    }
    let neighbors = coord.neighbors_26(dims);
    let ghost nl = neighbors@;
    let mut front: Vec<usize> = Vec::new();
    let mut count: usize = 0;
    let mut t: usize = 0;
    while t < neighbors.len()
        invariant
            t <= neighbors.len() <= 27,
            nl == neighbors@,
            neighbors@ == dims.neighbor_list(coord),
            coord == cell_coord(dims, i as int),
            forall|n: Coord3D| #[trigger] dims.is_neighbor(coord, n) ==> dims.valid(n),
            covered_cells@.len() == dims.total(),
            flags@.len() == dims.total(),
            forall|j: int| 0 <= j < dims.total() ==> !(#[trigger] covered_cells@[j] && flags@[j]),
            usable(dims),
            w == dims.width,
            h == dims.height,
            count == mines_among(flags@, nl.take(t as int), w as int, h as int),
            count <= t,
            increasing(front@),
            below(front@, dims.total() as nat),
            forall|j: usize| #[trigger] front@.contains(j) <==> (covered_cells@[j as int] && j < dims.total() && exists|k: int| 0 <= k < t && #[trigger] nl[k].index(w as int, h as int) == j),
        decreases neighbors.len() - t,
    {
        let n = neighbors[t];
        proof {
            assert(neighbors@.contains(n));
            assert(dims.is_neighbor(coord, n));
            lemma_valid_index(dims, n);
            assert(nl.take(t + 1).drop_last() == nl.take(t as int));
        }
        let n_idx = n.to_index(w, h);
        let ghost fb = front@;
        if flags[n_idx] {
            count = count + 1;
        } else if covered_cells[n_idx] {
            insert_sorted(&mut front, n_idx);
        }
        proof {
            assert forall|k: int| 0 <= k < front@.len() implies front@[k] < dims.total() by {
                if front@[k] != n_idx {
                    assert(fb.contains(front@[k])) by {
                        assert(front@.contains(front@[k]));
                    }
                    let q = fb.index_of(front@[k]);
                }
            }
            assert forall|j: usize| #[trigger] front@.contains(j) <==> (covered_cells@[j as int] && j < dims.total() && exists|k: int| 0 <= k < t + 1 && #[trigger] nl[k].index(w as int, h as int) == j) by {
                if exists|k: int| 0 <= k < t + 1 && #[trigger] nl[k].index(w as int, h as int) == j {
                    let k = choose|k: int| 0 <= k < t + 1 && #[trigger] nl[k].index(w as int, h as int) == j;
                    if k < t {
                        assert(exists|k2: int| 0 <= k2 < t && #[trigger] nl[k2].index(w as int, h as int) == j);
                    }
                }
                if covered_cells@[j as int] && j < dims.total() && exists|k: int| 0 <= k < t && #[trigger] nl[k].index(w as int, h as int) == j {
                    let k = choose|k: int| 0 <= k < t && #[trigger] nl[k].index(w as int, h as int) == j;
                    assert(exists|k2: int| 0 <= k2 < t + 1 && #[trigger] nl[k2].index(w as int, h as int) == j);
                }
                if j == n_idx && covered_cells@[j as int] && flags@[j as int] {
                }
            }
        }
        t = t + 1;
    }
    proof {
        assert(nl.take(nl.len() as int) == nl);
    }
    (front, count)
}


/// Equation `e` is the one the number at index `i` gives: its cells are the
/// covered neighbours of `i`, and it needs what the number still asks for.
pub open spec fn frontier_eq(dims: Dimensions, cells: Seq<CellSnapshot>, i: int, e: Equation) -> bool {
    &&& cells[i].is_revealed
    &&& forall|j: usize| #[trigger] e.cells@.contains(j) <==> (j < cells.len() && covered(cells, j as int) && near(dims, i, j as int))
    &&& e.mines == needed(dims, cells, i)
}

/// Equation `e` is the one some number of the snapshot gives.
pub open spec fn from_frontier(dims: Dimensions, cells: Seq<CellSnapshot>, e: Equation) -> bool {
    exists|i: int| 0 <= i < cells.len() && #[trigger] frontier_eq(dims, cells, i, e)
}

/// The number at index `i` can be chorded: it is uncovered and not zero, it
/// has a covered neighbour, and the flags around it match it.
pub open spec fn chordable(dims: Dimensions, cells: Seq<CellSnapshot>, i: int) -> bool {
    &&& cells[i].adjacent_mines > 0
    &&& on_frontier(dims, cells, i)
    &&& flags_near(dims, cells, i) == cells[i].adjacent_mines
}

/// The covered and the flagged cells of a snapshot, as masks.
pub fn snapshot_masks(cells: &[CellSnapshot]) -> (r: (Vec<bool>, Vec<bool>))
    ensures
        r.0@ == covered_mask(cells@),
        r.1@ == flag_mask(cells@),
{
    let mut cov: Vec<bool> = Vec::new();
    let mut fl: Vec<bool> = Vec::new();
    let mut i: usize = 0;
    while i < cells.len()
        invariant
            i <= cells@.len(),
            cov@.len() == i,
            fl@.len() == i,
            forall|j: int| 0 <= j < i ==> #[trigger] cov@[j] == covered(cells@, j),
            forall|j: int| 0 <= j < i ==> #[trigger] fl@[j] == (!cells@[j].is_revealed && cells@[j].is_flagged),
        decreases cells@.len() - i,
    {
        cov.push(!cells[i].is_revealed && !cells[i].is_flagged);
        fl.push(!cells[i].is_revealed && cells[i].is_flagged);
        i = i + 1;
    }
    assert(cov@ =~= covered_mask(cells@));
    assert(fl@ =~= flag_mask(cells@));
    (cov, fl)
}

/// The mines the number at index `i` still asks for, given the flags around it.
fn still_needed(adj: u8, flags: usize) -> (r: usize)
    ensures
        r == if adj as nat >= flags { (adj - flags) as nat } else { 0 },
{
    if adj as usize >= flags {
        adj as usize - flags
    } else {
        0
    }
}

/// One equation for each uncovered cell with covered neighbours, in index
/// order: its covered neighbours hold what its number still asks for.
pub fn frontier_equations(dims: Dimensions, cells: &[CellSnapshot], cov: &Vec<bool>, flags: &Vec<bool>) -> (eqs: Vec<Equation>)
    requires
        board_snapshot(dims, cells@),
        cov@ == covered_mask(cells@),
        flags@ == flag_mask(cells@),
    ensures
        all_well_formed(eqs@, dims.total() as nat),
        forall|k: int| 0 <= k < eqs@.len() ==> (#[trigger] eqs@[k]).cells@.len() > 0 && eqs@[k].mines <= 255,
        forall|k: int| 0 <= k < eqs@.len() ==> from_frontier(dims, cells@, #[trigger] eqs@[k]),
        forall|i: int| 0 <= i < dims.total() && #[trigger] on_frontier(dims, cells@, i) ==> exists|k: int| 0 <= k < eqs@.len() && frontier_eq(dims, cells@, i, #[trigger] eqs@[k]),
        forall|m: Seq<bool>| #[trigger] consistent(dims, cells@, m) ==> meets_all(m, eqs@, dims.total() as nat),
{
    let n = dims.total_cells();
    let mut eqs: Vec<Equation> = Vec::new();
    let mut i: usize = 0;
    while i < n
        invariant
            i <= n,
            n == dims.total(),
            board_snapshot(dims, cells@),
            cov@ == covered_mask(cells@),
            flags@ == flag_mask(cells@),
            all_well_formed(eqs@, n as nat),
            forall|k: int| 0 <= k < eqs@.len() ==> (#[trigger] eqs@[k]).cells@.len() > 0 && eqs@[k].mines <= 255,
            forall|k: int| 0 <= k < eqs@.len() ==> from_frontier(dims, cells@, #[trigger] eqs@[k]),
            forall|q: int| 0 <= q < i && #[trigger] on_frontier(dims, cells@, q) ==> exists|k: int| 0 <= k < eqs@.len() && frontier_eq(dims, cells@, q, #[trigger] eqs@[k]),
            forall|m: Seq<bool>| #[trigger] consistent(dims, cells@, m) ==> meets_all(m, eqs@, n as nat),
        decreases n - i,
    {
        if cells[i].is_revealed {
            proof {
                assert forall|j: int| 0 <= j < n implies !(#[trigger] cov@[j] && flags@[j]) by {}
            }
            let (front, fl) = frontier_of(dims, cov, flags, i);
            if front.len() > 0 {
                let need = still_needed(cells[i].adjacent_mines, fl);
                let ghost before = eqs@;
                let ghost fc = front@;
                let e = Equation { cells: front, mines: need };
                proof {
                    assert(e.cells@ == fc);
                    assert(frontier_eq(dims, cells@, i as int, e)) by {
                        assert forall|j: usize| #[trigger] e.cells@.contains(j) <==> (j < cells@.len() && covered(cells@, j as int) && near(dims, i as int, j as int)) by {
                            if j < cells@.len() {
                                assert(cov@[j as int] == covered(cells@, j as int));
                            }
                        }
                    }
                    assert forall|m: Seq<bool>| #[trigger] consistent(dims, cells@, m) implies holds(m, e, n as nat) by {
                        let j0 = fc[0];
                        assert(fc.contains(j0));
                        assert(cov@[j0 as int] == covered(cells@, j0 as int));
                        assert(near(dims, i as int, j0 as int));
                        assert(on_frontier(dims, cells@, i as int));
                        lemma_tally_count(m, fc, n as nat);
                        lemma_count_ext(n as nat, |j: int| fc.contains(j as usize) && m[j], |j: int| covered(cells@, j) && near(dims, i as int, j) && m[j]);
                    }
                }
                eqs.push(e);
                proof {
                    assert forall|k: int| 0 <= k < eqs@.len() implies #[trigger] well_formed(eqs@[k], n as nat) by {
                        if k < before.len() {
                            assert(eqs@[k] == before[k]);
                        }
                    }
                    assert forall|k: int| 0 <= k < eqs@.len() implies (#[trigger] eqs@[k]).cells@.len() > 0 && eqs@[k].mines <= 255 by {
                        if k < before.len() {
                            assert(eqs@[k] == before[k]);
                        }
                    }
                    assert forall|k: int| 0 <= k < eqs@.len() implies from_frontier(dims, cells@, #[trigger] eqs@[k]) by {
                        if k < before.len() {
                            assert(eqs@[k] == before[k]);
                            assert(from_frontier(dims, cells@, before[k]));
                        } else {
                            assert(frontier_eq(dims, cells@, i as int, eqs@[k]));
                        }
                    }
                    assert forall|q: int| 0 <= q < i + 1 && #[trigger] on_frontier(dims, cells@, q) implies exists|k: int| 0 <= k < eqs@.len() && frontier_eq(dims, cells@, q, #[trigger] eqs@[k]) by {
                        if q < i {
                            let k = choose|k: int| 0 <= k < before.len() && frontier_eq(dims, cells@, q, #[trigger] before[k]);
                            assert(eqs@[k] == before[k]);
                        } else {
                            assert(frontier_eq(dims, cells@, q, eqs@[eqs@.len() - 1]));
                        }
                    }
                    assert forall|m: Seq<bool>| #[trigger] consistent(dims, cells@, m) implies meets_all(m, eqs@, n as nat) by {
                        assert(meets_all(m, before, n as nat));
                        assert(holds(m, e, n as nat));
                        assert forall|k: int| 0 <= k < eqs@.len() implies #[trigger] holds(m, eqs@[k], n as nat) by {
                            if k < before.len() {
                                assert(eqs@[k] == before[k]);
                                assert(holds(m, before[k], n as nat));
                            }
                        }
                    }
                }
            } else {
                proof {
                    assert(!on_frontier(dims, cells@, i as int)) by {
                        if on_frontier(dims, cells@, i as int) {
                            let j = choose|j: int| 0 <= j < cells@.len() && covered(cells@, j) && #[trigger] near(dims, i as int, j);
                            assert(cov@[j] == covered(cells@, j));
                            assert(front@.contains(j as usize));
                        }
                    }
                }
            }
        }
        i = i + 1;
    }
    eqs
}

/// The first number, in index order, that can be chorded.
pub fn find_chord(dims: Dimensions, cells: &[CellSnapshot], cov: &Vec<bool>, flags: &Vec<bool>) -> (r: Option<usize>)
    requires
        board_snapshot(dims, cells@),
        cov@ == covered_mask(cells@),
        flags@ == flag_mask(cells@),
    ensures
        r matches Some(i) ==> i < dims.total() && chordable(dims, cells@, i as int) && forall|j: int| 0 <= j < i ==> !#[trigger] chordable(dims, cells@, j),
        r is None ==> forall|j: int| 0 <= j < dims.total() ==> !#[trigger] chordable(dims, cells@, j),
{
    let n = dims.total_cells();
    let mut i: usize = 0;
    while i < n
        invariant
            i <= n,
            n == dims.total(),
            board_snapshot(dims, cells@),
            cov@ == covered_mask(cells@),
            flags@ == flag_mask(cells@),
            forall|j: int| 0 <= j < i ==> !#[trigger] chordable(dims, cells@, j),
        decreases n - i,
    {
        if cells[i].is_revealed && cells[i].adjacent_mines > 0 {
            proof {
                assert forall|j: int| 0 <= j < n implies !(#[trigger] cov@[j] && flags@[j]) by {}
            }
            let (front, fl) = frontier_of(dims, cov, flags, i);
            proof {
                if on_frontier(dims, cells@, i as int) {
                    let j = choose|j: int| 0 <= j < cells@.len() && covered(cells@, j) && #[trigger] near(dims, i as int, j);
                    assert(cov@[j] == covered(cells@, j));
                    assert(front@.contains(j as usize));
                }
                if front@.len() > 0 {
                    let j0 = front@[0];
                    assert(front@.contains(j0));
                    assert(cov@[j0 as int] == covered(cells@, j0 as int));
                    assert(near(dims, i as int, j0 as int));
                }
            }
            if front.len() > 0 && fl == cells[i].adjacent_mines as usize {
                return Some(i);
            }
        }
        i = i + 1;
    }
    None
}


/// What an AI player will do next.
#[derive(Debug)]
pub enum Plan {
    /// Nothing is left to uncover.
    Idle,
    /// Open the game at this cell (the centre of the grid).
    Open(Coord3D),
    /// Chord on this number.
    Chord(Coord3D),
    /// Uncover this cell, deduced to be free of mines.
    Safe(Coord3D),
    /// Flag this cell, deduced to hold a mine.
    Mine(Coord3D),
    /// Uncover this cell, which no model counted put a mine on (the
    /// counting stopped at its cap, so this is not certain).
    Likely(Coord3D),
    /// Flag this cell, which every model counted put a mine on (the counting
    /// stopped at its cap, so this is not certain).
    LikelyMine(Coord3D),
    /// Uncover this cell, the least risky one found.
    Risk(Coord3D),
    /// Uncover one of these cells, chosen at random.
    Random(Vec<Coord3D>),
}

/// The centre of the grid, where an AI player opens a game.
pub open spec fn centre(dims: Dimensions) -> Coord3D {
    Coord3D { x: dims.width / 2, y: dims.height / 2, z: dims.depth / 2 }
}

/// The coordinates of the cells marked in `mask`, in index order.
pub fn coords_of(dims: Dimensions, mask: &Vec<bool>) -> (v: Vec<Coord3D>)
    requires
        usable(dims),
        mask@.len() == dims.total(),
    ensures
        forall|c: Coord3D| #[trigger] v@.contains(c) <==> exists|i: int| 0 <= i < dims.total() && mask@[i] && c == cell_coord(dims, i),
        v@.len() > 0 <==> exists|i: int| 0 <= i < dims.total() && #[trigger] mask@[i],
{
    let n = dims.total_cells();
    let mut v: Vec<Coord3D> = Vec::new();
    let mut i: usize = 0;
    while i < n
        invariant
            i <= n,
            n == dims.total(),
            usable(dims),
            mask@.len() == n,
            forall|c: Coord3D| #[trigger] v@.contains(c) <==> exists|j: int| 0 <= j < i && mask@[j] && c == cell_coord(dims, j),
            v@.len() > 0 <==> exists|j: int| 0 <= j < i && #[trigger] mask@[j],
        decreases n - i,
    {
        if mask[i] {
            proof {
                lemma_cell_coord(dims, i as int);
            }
            let c = Coord3D::from_index(i, dims.width, dims.height);
            let ghost before = v@;
            v.push(c);
            proof {
                assert forall|d: Coord3D| #[trigger] v@.contains(d) <==> exists|j: int| 0 <= j < i + 1 && mask@[j] && d == cell_coord(dims, j) by {
                    if v@.contains(d) {
                        let k = v@.index_of(d);
                        if k < before.len() {
                            assert(before[k] == d);
                            assert(before.contains(d));
                        }
                    }
                    if exists|j: int| 0 <= j < i + 1 && mask@[j] && d == cell_coord(dims, j) {
                        let j = choose|j: int| 0 <= j < i + 1 && mask@[j] && d == cell_coord(dims, j);
                        if j < i {
                            assert(before.contains(d));
                            let k = before.index_of(d);
                            assert(v@[k] == d);
                        } else {
                            assert(v@[before.len() as int] == d);
                        }
                    }
                }
            }
        }
        i = i + 1;
    }
    v
}

/// The first index, in index order, marked in `mines` and not in `flags`.
pub fn first_unflagged(mines: &Vec<bool>, flags: &Vec<bool>) -> (r: Option<usize>)
    requires
        mines@.len() == flags@.len(),
    ensures
        r matches Some(i) ==> i < mines@.len() && mines@[i as int] && !flags@[i as int],
        r is None ==> forall|i: int| 0 <= i < mines@.len() ==> !(#[trigger] mines@[i] && !flags@[i]),
{
    let mut i: usize = 0;
    while i < mines.len()
        invariant
            i <= mines@.len(),
            mines@.len() == flags@.len(),
            forall|j: int| 0 <= j < i ==> !(#[trigger] mines@[j] && !flags@[j]),
        decreases mines@.len() - i,
    {
        if mines[i] && !flags[i] {
            return Some(i);
        }
        i = i + 1;
    }
    None
}

/// Whether some cell is marked in `mask`.
pub fn any_marked(mask: &Vec<bool>) -> (r: bool)
    ensures
        r == exists|i: int| 0 <= i < mask@.len() && #[trigger] mask@[i],
{
    let mut i: usize = 0;
    while i < mask.len()
        invariant
            i <= mask@.len(),
            forall|j: int| 0 <= j < i ==> !(#[trigger] mask@[j]),
        decreases mask@.len() - i,
    {
        if mask[i] {
            return true;
        }
        i = i + 1;
    }
    false
}

/// Whether some cell of the snapshot is uncovered.
pub fn any_revealed(cells: &[CellSnapshot]) -> (r: bool)
    ensures
        r == exists|i: int| 0 <= i < cells@.len() && (#[trigger] cells@[i]).is_revealed,
{
    let mut i: usize = 0;
    while i < cells.len()
        invariant
            i <= cells@.len(),
            forall|j: int| 0 <= j < i ==> !(#[trigger] cells@[j]).is_revealed,
        decreases cells@.len() - i,
    {
        if cells[i].is_revealed {
            return true;
        }
        i = i + 1;
    }
    false
}

/// The cell at index `i` holds no mine in any layout that agrees with the
/// visible numbers.
pub open spec fn surely_safe(dims: Dimensions, cells: Seq<CellSnapshot>, i: int) -> bool {
    forall|m: Seq<bool>| #[trigger] consistent(dims, cells, m) ==> !m[i]
}

/// The cell at index `i` holds a mine in every layout that agrees with the
/// visible numbers.
pub open spec fn surely_mine(dims: Dimensions, cells: Seq<CellSnapshot>, i: int) -> bool {
    forall|m: Seq<bool>| #[trigger] consistent(dims, cells, m) ==> m[i]
}

/// The masks mark only covered cells, and agree with every layout that agrees
/// with the visible numbers.
pub open spec fn sound_for(dims: Dimensions, cells: Seq<CellSnapshot>, safe: Seq<bool>, mines: Seq<bool>) -> bool {
    &&& safe.len() == cells.len()
    &&& mines.len() == cells.len()
    &&& forall|i: int| 0 <= i < cells.len() && #[trigger] safe[i] ==> covered(cells, i) && surely_safe(dims, cells, i)
    &&& forall|i: int| 0 <= i < cells.len() && #[trigger] mines[i] ==> covered(cells, i) && surely_mine(dims, cells, i)
}

/// Equations read off the snapshot, each met by every layout that agrees with
/// the visible numbers, over covered cells only.
pub open spec fn sound_eqs(dims: Dimensions, cells: Seq<CellSnapshot>, eqs: Seq<Equation>) -> bool {
    &&& all_well_formed(eqs, cells.len() as nat)
    &&& forall|m: Seq<bool>| #[trigger] consistent(dims, cells, m) ==> meets_all(m, eqs, cells.len() as nat)
    &&& forall|k: int, x: usize| 0 <= k < eqs.len() && #[trigger] eqs[k].cells@.contains(x) ==> covered(cells, x as int)
    &&& mines_at_most(eqs, 255)
}

/// Masks that are sound for the equations are sound for the snapshot.
pub proof fn lemma_marks_sound(dims: Dimensions, cells: Seq<CellSnapshot>, eqs: Seq<Equation>, safe: Seq<bool>, mines: Seq<bool>)
    requires
        sound_eqs(dims, cells, eqs),
        cells.len() <= usize::MAX,
        safe.len() == cells.len(),
        mines.len() == cells.len(),
        sound_marks(eqs, cells.len() as nat, safe, mines),
        forall|c: int| 0 <= c < cells.len() && #[trigger] safe[c] ==> in_support(eqs, c as usize),
        forall|c: int| 0 <= c < cells.len() && #[trigger] mines[c] ==> in_support(eqs, c as usize),
    ensures
        sound_for(dims, cells, safe, mines),
{
    let n = cells.len() as nat;
    assert forall|i: int| 0 <= i < cells.len() && #[trigger] safe[i] implies covered(cells, i) && surely_safe(dims, cells, i) by {
        let k = choose|k: int| 0 <= k < eqs.len() && (#[trigger] eqs[k]).cells@.contains(i as usize);
        assert(eqs[k].cells@.contains(i as usize));
        assert((i as usize) as int == i);
        assert forall|m: Seq<bool>| #[trigger] consistent(dims, cells, m) implies !m[i] by {
            assert(meets_all(m, eqs, n));
            assert(marks_hold(m, safe, mines, n));
        }
    }
    assert forall|i: int| 0 <= i < cells.len() && #[trigger] mines[i] implies covered(cells, i) && surely_mine(dims, cells, i) by {
        let k = choose|k: int| 0 <= k < eqs.len() && (#[trigger] eqs[k]).cells@.contains(i as usize);
        assert(eqs[k].cells@.contains(i as usize));
        assert((i as usize) as int == i);
        assert forall|m: Seq<bool>| #[trigger] consistent(dims, cells, m) implies m[i] by {
            assert(meets_all(m, eqs, n));
            assert(marks_hold(m, safe, mines, n));
        }
    }
}



/// Dropping repeats from the frontier equations keeps what they say.
#[verifier::rlimit(40)]
pub proof fn lemma_dedup_sound(dims: Dimensions, cells: Seq<CellSnapshot>, a: Seq<Equation>, eqs: Seq<Equation>)
    requires
        all_well_formed(a, cells.len() as nat),
        forall|k: int| 0 <= k < a.len() ==> (#[trigger] a[k]).cells@.len() > 0 && a[k].mines <= 255,
        forall|k: int| 0 <= k < a.len() ==> from_frontier(dims, cells, #[trigger] a[k]),
        forall|i: int| 0 <= i < dims.total() && #[trigger] on_frontier(dims, cells, i) ==> exists|k: int| 0 <= k < a.len() && frontier_eq(dims, cells, i, #[trigger] a[k]),
        forall|m: Seq<bool>| #[trigger] consistent(dims, cells, m) ==> meets_all(m, a, cells.len() as nat),
        forall|k: int| 0 <= k < eqs.len() ==> listed(#[trigger] eqs[k], a),
        forall|j: int| 0 <= j < a.len() && (#[trigger] a[j]).cells@.len() > 0 ==> listed(a[j], eqs),
    ensures
        sound_eqs(dims, cells, eqs),
        forall|k: int| 0 <= k < eqs.len() ==> from_frontier(dims, cells, #[trigger] eqs[k]),
        forall|i: int| 0 <= i < dims.total() && #[trigger] on_frontier(dims, cells, i) ==> exists|k: int| 0 <= k < eqs.len() && frontier_eq(dims, cells, i, #[trigger] eqs[k]),
{
        let n = cells.len() as nat;
        assert forall|k: int| #![trigger eqs[k]] 0 <= k < eqs.len() implies from_frontier(dims, cells, eqs[k]) && well_formed(eqs[k], n) && eqs[k].mines <= 255 by {
            assert(listed(eqs[k], a));
            let j = choose|j: int| 0 <= j < a.len() && same_eq(eqs[k], #[trigger] a[j]);
            assert(from_frontier(dims, cells, a[j]));
            let i = choose|i: int| 0 <= i < cells.len() && #[trigger] frontier_eq(dims, cells, i, a[j]);
            assert(frontier_eq(dims, cells, i, eqs[k]));
            assert(well_formed(a[j], n));
        }
        assert forall|m: Seq<bool>| #[trigger] consistent(dims, cells, m) implies meets_all(m, eqs, n) by {
            assert(meets_all(m, a, n));
            assert forall|k: int| 0 <= k < eqs.len() implies #[trigger] holds(m, eqs[k], n) by {
                assert(listed(eqs[k], a));
                let j = choose|j: int| 0 <= j < a.len() && same_eq(eqs[k], #[trigger] a[j]);
                assert(holds(m, a[j], n));
            }
        }
        assert forall|k: int, x: usize| 0 <= k < eqs.len() && #[trigger] eqs[k].cells@.contains(x) implies covered(cells, x as int) by {
            assert(from_frontier(dims, cells, eqs[k]));
            let i = choose|i: int| 0 <= i < cells.len() && #[trigger] frontier_eq(dims, cells, i, eqs[k]);
        }
        assert forall|k: int| 0 <= k < eqs.len() implies (#[trigger] eqs[k]).mines <= 255 by {
            assert(from_frontier(dims, cells, eqs[k]));
        }
        assert forall|i: int| 0 <= i < dims.total() && #[trigger] on_frontier(dims, cells, i) implies exists|k: int| 0 <= k < eqs.len() && frontier_eq(dims, cells, i, #[trigger] eqs[k]) by {
            let j = choose|j: int| 0 <= j < a.len() && frontier_eq(dims, cells, i, #[trigger] a[j]);
            assert(a[j].cells@.len() > 0);
            assert(listed(a[j], eqs));
            let k = choose|k: int| 0 <= k < eqs.len() && same_eq(a[j], #[trigger] eqs[k]);
            assert(frontier_eq(dims, cells, i, eqs[k]));
        }
}

/// The equations `eqs` of the snapshot: each that of some number, none
/// repeated or empty, one for every number with a covered neighbour, and
/// met by every layout that agrees with the numbers.
pub open spec fn snapshot_eqs(dims: Dimensions, cells: Seq<CellSnapshot>, eqs: Seq<Equation>) -> bool {
    &&& (sound_eqs(dims, cells, eqs))
    &&& (forall|k: int| 0 <= k < eqs.len() ==> from_frontier(dims, cells, #[trigger] eqs[k]))
    &&& (forall|k: int| 0 <= k < eqs.len() ==> (#[trigger] eqs[k]).cells@.len() > 0)
    &&& (forall|k1: int, k2: int| 0 <= k1 < k2 < eqs.len() ==> !same_eq(#[trigger] eqs[k1], #[trigger] eqs[k2]))
    &&& (forall|i: int| 0 <= i < dims.total() && #[trigger] on_frontier(dims, cells, i) ==> exists|k: int| 0 <= k < eqs.len() && frontier_eq(dims, cells, i, #[trigger] eqs[k]))
}

/// The frontier equations without repeats, each from some number of the
/// snapshot.
pub fn snapshot_equations(dims: Dimensions, cells: &[CellSnapshot], cov: &Vec<bool>, flags: &Vec<bool>) -> (eqs: Vec<Equation>)
    requires
        board_snapshot(dims, cells@),
        cov@ == covered_mask(cells@),
        flags@ == flag_mask(cells@),
    ensures
        snapshot_eqs(dims, cells@, eqs@),
{
    let all = frontier_equations(dims, cells, cov, flags);
    let ghost a = all@;
    let eqs = dedup_equations(all);
    proof {
        lemma_dedup_sound(dims, cells@, a, eqs@);
    }
    eqs
}

/// How many covered cells lie next to the cell at index `i`.
pub open spec fn covered_near(dims: Dimensions, cells: Seq<CellSnapshot>, i: int) -> nat {
    count_upto(cells.len() as nat, |j: int| covered(cells, j) && near(dims, i, j))
}

/// The covered cell at index `c` lies next to a number that asks for no
/// more mines.
pub open spec fn plainly_safe(dims: Dimensions, cells: Seq<CellSnapshot>, c: int) -> bool {
    &&& covered(cells, c)
    &&& exists|i: int| 0 <= i < cells.len() && cells[i].is_revealed && #[trigger] near(dims, i, c) && needed(dims, cells, i) == 0
}

/// The covered cell at index `c` lies next to a number that still asks for
/// a mine in each of its covered neighbours.
pub open spec fn plainly_mine(dims: Dimensions, cells: Seq<CellSnapshot>, c: int) -> bool {
    &&& covered(cells, c)
    &&& exists|i: int| 0 <= i < cells.len() && cells[i].is_revealed && #[trigger] near(dims, i, c)
        && needed(dims, cells, i) > 0 && needed(dims, cells, i) == covered_near(dims, cells, i)
}

/// Some run of the component search with labels `labels` over `eqs` ends
/// in `fs`.
pub open spec fn run_ends(eqs: Seq<Equation>, n: usize, cap: nat, labels: Seq<usize>, fs: FrontierSolution) -> bool {
    exists|sols: Seq<FrontierSolution>| #[trigger] components_run(eqs, n, cap, labels, sols) && sols.last() == fs
}

/// The cells marked in `a` or in `b`.
pub open spec fn either(a: Seq<bool>, b: Seq<bool>) -> Seq<bool> {
    Seq::new(a.len(), |i: int| a[i] || b[i])
}

/// Some cell is marked safe, or some unflagged cell is marked a mine.
pub open spec fn marks_any(cells: Seq<CellSnapshot>, safe: Seq<bool>, mines: Seq<bool>) -> bool {
    ||| exists|i: int| 0 <= i < cells.len() && #[trigger] safe[i]
    ||| exists|i: int| 0 <= i < cells.len() && #[trigger] mines[i] && !cells[i].is_flagged
}

/// The cell a plan uncovers on a deduction, certain or counted.
pub open spec fn deduced_reveal(p: Plan) -> Option<Coord3D> {
    match p {
        Plan::Safe(c) => Some(c),
        Plan::Likely(c) => Some(c),
        _ => None,
    }
}

/// The cell a plan flags on a deduction, certain or counted.
pub open spec fn deduced_flag(p: Plan) -> Option<Coord3D> {
    match p {
        Plan::Mine(c) => Some(c),
        Plan::LikelyMine(c) => Some(c),
        _ => None,
    }
}

/// The plan follows the marks: where some cell is marked safe, it uncovers
/// a cell marked safe; otherwise, where some unflagged cell is marked a
/// mine, it flags such a cell.
pub open spec fn marked_plan(dims: Dimensions, cells: Seq<CellSnapshot>, safe: Seq<bool>, mines: Seq<bool>, p: Plan) -> bool {
    &&& (exists|i: int| 0 <= i < cells.len() && #[trigger] safe[i]) ==> (deduced_reveal(p) matches Some(c)
        && exists|i: int| 0 <= i < cells.len() && #[trigger] safe[i] && c == cell_coord(dims, i))
    &&& !(exists|i: int| 0 <= i < cells.len() && #[trigger] safe[i])
        && (exists|i: int| 0 <= i < cells.len() && #[trigger] mines[i] && !cells[i].is_flagged) ==> (deduced_flag(p) matches Some(c)
        && exists|i: int| 0 <= i < cells.len() && #[trigger] mines[i] && !cells[i].is_flagged && c == cell_coord(dims, i))
}

/// The move follows the marks, as `marked_plan` has it for plans.
pub open spec fn marked_move(dims: Dimensions, cells: Seq<CellSnapshot>, safe: Seq<bool>, mines: Seq<bool>, r: Option<AiAction>) -> bool {
    &&& (exists|i: int| 0 <= i < cells.len() && #[trigger] safe[i]) ==> (r matches Some(AiAction::Reveal(c))
        && exists|i: int| 0 <= i < cells.len() && #[trigger] safe[i] && c == cell_coord(dims, i))
    &&& !(exists|i: int| 0 <= i < cells.len() && #[trigger] safe[i])
        && (exists|i: int| 0 <= i < cells.len() && #[trigger] mines[i] && !cells[i].is_flagged) ==> (r matches Some(AiAction::Flag(c))
        && exists|i: int| 0 <= i < cells.len() && #[trigger] mines[i] && !cells[i].is_flagged && c == cell_coord(dims, i))
}

/// What the tiers above novice deduce beyond single numbers, on the
/// snapshot's equations `eqs`: the plan follows what the subset stage marks
/// (`ss`, `sm`); the intermediate tier goes no further, while the advanced
/// and master tiers, where the subset stage marks nothing, follow what the
/// component analysis of the reduced equations `red` marks (elimination on
/// large components, model counting on the others, up to 14 cells, or 18
/// for the master).
pub open spec fn deduction_plan(dims: Dimensions, cells: Seq<CellSnapshot>, tier: BotTier, total_mines: usize, p: Plan) -> bool {
    exists|eqs: Seq<Equation>, ss: Seq<bool>, sm: Seq<bool>, red: Seq<Equation>|
        #![trigger snapshot_eqs(dims, cells, eqs), subset_result(eqs, cells.len() as usize, ss, sm, red)] {
        &&& snapshot_eqs(dims, cells, eqs)
        &&& subset_result(eqs, cells.len() as usize, ss, sm, red)
        &&& (tier is Intermediate || marks_any(cells, ss, sm)) ==> marked_plan(dims, cells, ss, sm, p)
        &&& tier is Intermediate && !marks_any(cells, ss, sm) ==> least_risk_plan(dims, cells, red, p)
        &&& !(tier is Novice || tier is Intermediate) && !marks_any(cells, ss, sm) ==> exists|labels: Seq<usize>, sols: Seq<FrontierSolution>|
            #[trigger] components_run(red, cells.len() as usize, component_cap(tier is Master), labels, sols)
            && marked_plan(dims, cells, sols.last().safe@, sols.last().mines@, p)
            && (!marks_any(cells, sols.last().safe@, sols.last().mines@) ==> guess_rule(dims, cells, red, sols.last().probs@,
                sols.last().has_prob@, tier is Master, remaining_mines(total_mines, cells), p))
    }
}

/// The same rules for the move that the AI makes.
pub open spec fn deduction_rules(dims: Dimensions, cells: Seq<CellSnapshot>, tier: BotTier, total_mines: usize, r: Option<AiAction>) -> bool {
    exists|eqs: Seq<Equation>, ss: Seq<bool>, sm: Seq<bool>, red: Seq<Equation>|
        #![trigger snapshot_eqs(dims, cells, eqs), subset_result(eqs, cells.len() as usize, ss, sm, red)] {
        &&& snapshot_eqs(dims, cells, eqs)
        &&& subset_result(eqs, cells.len() as usize, ss, sm, red)
        &&& (tier is Intermediate || marks_any(cells, ss, sm)) ==> marked_move(dims, cells, ss, sm, r)
        &&& tier is Intermediate && !marks_any(cells, ss, sm) ==> least_risk_move(dims, cells, red, r)
        &&& !(tier is Novice || tier is Intermediate) && !marks_any(cells, ss, sm) ==> exists|labels: Seq<usize>, sols: Seq<FrontierSolution>|
            #[trigger] components_run(red, cells.len() as usize, component_cap(tier is Master), labels, sols)
            && marked_move(dims, cells, sols.last().safe@, sols.last().mines@, r)
            && (!marks_any(cells, sols.last().safe@, sols.last().mines@) ==> guess_move(dims, cells, red, sols.last().probs@,
                sols.last().has_prob@, tier is Master, remaining_mines(total_mines, cells), r))
    }
}

/// The number of flags on the snapshot.
pub open spec fn flags_total(cells: Seq<CellSnapshot>) -> nat {
    count_upto(cells.len() as nat, |i: int| flag_mask(cells)[i])
}

/// The mines not yet flagged: `total_mines` less the flags, never below zero.
pub open spec fn remaining_mines(total_mines: usize, cells: Seq<CellSnapshot>) -> nat {
    if total_mines >= flags_total(cells) { (total_mines - flags_total(cells)) as nat } else { 0 }
}

/// The move made on a guess by average risk over `eqs`: where some covered
/// cell is held by an equation, it uncovers one of least average risk.
pub open spec fn least_risk_move(dims: Dimensions, cells: Seq<CellSnapshot>, eqs: Seq<Equation>, r: Option<AiAction>) -> bool {
    (exists|i: int| 0 <= i < cells.len() && #[trigger] crate::solver::candidate(eqs, covered_mask(cells), i)) ==>
        (r matches Some(AiAction::Reveal(c)) && exists|i: int| #[trigger] least_risk(eqs, cells, i) && c == cell_coord(dims, i))
}

/// The move made on the guess of `guess_rule`, where the guess is a chosen
/// cell.
pub open spec fn guess_move(dims: Dimensions, cells: Seq<CellSnapshot>, red: Seq<Equation>, probs: Seq<u64>, has_prob: Seq<bool>, master: bool, remaining: nat, r: Option<AiAction>) -> bool {
    let n = cells.len() as int;
    let nu = interior_count(cells, red, n);
    let share = interior_chance(remaining, estimate_total(probs, has_prob, n), nu);
    (exists|i: int| 0 <= i < n && #[trigger] has_prob[i]) ==> exists|m: int| #[trigger] least_prob(probs, has_prob, m) && {
        let interior_first = nu > 0 && share <= probs[m];
        &&& interior_first ==> (r matches Some(AiAction::Reveal(c))
            && exists|i: int| #[trigger] busiest_interior(dims, cells, red, i) && c == cell_coord(dims, i))
        &&& !interior_first && !master ==> (r matches Some(AiAction::Reveal(c))
            && exists|i: int| #[trigger] least_prob(probs, has_prob, i) && c == cell_coord(dims, i))
        &&& !interior_first && master ==> (r matches Some(AiAction::Reveal(c))
            && exists|i: int| #[trigger] busiest_near_least(dims, cells, probs, has_prob, probs[m] + 100_000, i) && c == cell_coord(dims, i))
    }
}

/// A move made from a guess plan is the guess.
pub proof fn lemma_guess_move(dims: Dimensions, cells: Seq<CellSnapshot>, red: Seq<Equation>, probs: Seq<u64>, has_prob: Seq<bool>, master: bool, remaining: nat, p: Plan, r: Option<AiAction>)
    requires
        p matches Plan::Risk(c) ==> r == Some(AiAction::Reveal(c)),
    ensures
        least_risk_plan(dims, cells, red, p) ==> least_risk_move(dims, cells, red, r),
        guess_rule(dims, cells, red, probs, has_prob, master, remaining, p) ==> guess_move(dims, cells, red, probs, has_prob, master, remaining, r),
{
}

/// A move made from a plan follows the marks the plan follows.
pub proof fn lemma_marked_move(dims: Dimensions, cells: Seq<CellSnapshot>, safe: Seq<bool>, mines: Seq<bool>, p: Plan, r: Option<AiAction>)
    requires
        marked_plan(dims, cells, safe, mines, p),
        deduced_reveal(p) matches Some(c) ==> r == Some(AiAction::Reveal(c)),
        deduced_flag(p) matches Some(c) ==> r == Some(AiAction::Flag(c)),
    ensures
        marked_move(dims, cells, safe, mines, r),
{
}

/// What an AI of tier `tier` does with what the numbers plainly say, once
/// some cell is uncovered and no number can be chorded: a plainly safe cell
/// means a cell is uncovered (for the tiers above novice, one that is surely
/// safe; a novice may hesitate and pick at random); failing that, a plainly
/// mined cell means the tiers above novice flag a cell that surely holds a
/// mine.
pub open spec fn tier_rules(dims: Dimensions, cells: Seq<CellSnapshot>, tier: BotTier, total_mines: usize, r: Option<AiAction>) -> bool {
    let open = exists|j: int| 0 <= j < cells.len() && (#[trigger] cells[j]).is_revealed;
    let chord = exists|j: int| 0 <= j < cells.len() && #[trigger] chordable(dims, cells, j);
    let safe_seen = exists|c: int| 0 <= c < cells.len() && #[trigger] plainly_safe(dims, cells, c);
    let mine_seen = exists|c: int| 0 <= c < cells.len() && #[trigger] plainly_mine(dims, cells, c);
    &&& open && !chord && safe_seen ==> (r matches Some(AiAction::Reveal(c))
        && exists|i: int| 0 <= i < cells.len() && #[trigger] covered(cells, i) && c == cell_coord(dims, i))
    &&& open && !chord && safe_seen && !(tier is Novice) ==> (r matches Some(AiAction::Reveal(c))
        && exists|i: int| 0 <= i < cells.len() && #[trigger] covered(cells, i) && c == cell_coord(dims, i) && surely_safe(dims, cells, i))
    &&& open && !chord && !safe_seen && mine_seen && !(tier is Novice) ==> (r matches Some(AiAction::Flag(c))
        && exists|i: int| 0 <= i < cells.len() && #[trigger] covered(cells, i) && c == cell_coord(dims, i) && surely_mine(dims, cells, i))
    &&& (exists|j: int| 0 <= j < cells.len() && #[trigger] covered(cells, j)) && open && !chord && !safe_seen && !mine_seen
        && !(tier is Novice) ==> deduction_rules(dims, cells, tier, total_mines, r)
}

/// The members of `s` below `n` are counted by any test that holds of
/// exactly them.
proof fn lemma_members_count(s: Seq<usize>, n: nat, f: spec_fn(int) -> bool)
    requires
        n <= usize::MAX,
        forall|j: int| 0 <= j < n ==> (s.contains(j as usize) <==> #[trigger] f(j)),
    ensures
        members(s, n) == count_upto(n, f),
    decreases n,
{
    if n > 0 {
        lemma_members_count(s, (n - 1) as nat, f);
        assert(s.contains((n - 1) as usize) <==> f(n - 1));
    }
}

/// What the direct rule settles on the equations of a snapshot is what the
/// numbers plainly say: a cell is marked safe exactly when it is plainly
/// safe, and a plainly mined cell is marked a mine (and carries no flag).
proof fn lemma_direct_plain(dims: Dimensions, cells: Seq<CellSnapshot>, eqs: Seq<Equation>, safe: Seq<bool>, mines: Seq<bool>)
    requires
        board_snapshot(dims, cells),
        sound_eqs(dims, cells, eqs),
        forall|k: int| 0 <= k < eqs.len() ==> from_frontier(dims, cells, #[trigger] eqs[k]),
        forall|i: int| 0 <= i < dims.total() && #[trigger] on_frontier(dims, cells, i) ==> exists|k: int| 0 <= k < eqs.len() && frontier_eq(dims, cells, i, #[trigger] eqs[k]),
        safe.len() == cells.len(),
        mines.len() == cells.len(),
        forall|c: int| 0 <= c < cells.len() ==> (#[trigger] safe[c] <==> exists|k: int| 0 <= k < eqs.len() && (#[trigger] eqs[k]).mines == 0 && eqs[k].cells@.contains(c as usize)),
        forall|c: int| 0 <= c < cells.len() ==> (#[trigger] mines[c] <==> exists|k: int| 0 <= k < eqs.len() && (#[trigger] eqs[k]).mines != 0 && eqs[k].mines == eqs[k].cells@.len() && eqs[k].cells@.contains(c as usize)),
    ensures
        (exists|c: int| 0 <= c < cells.len() && #[trigger] safe[c]) <==> (exists|c: int| 0 <= c < cells.len() && #[trigger] plainly_safe(dims, cells, c)),
        (exists|c: int| 0 <= c < cells.len() && #[trigger] plainly_mine(dims, cells, c)) ==> exists|c: int| 0 <= c < cells.len() && #[trigger] mines[c] && !flag_mask(cells)[c],
        (exists|c: int| 0 <= c < cells.len() && #[trigger] mines[c]) ==> exists|c: int| 0 <= c < cells.len() && #[trigger] plainly_mine(dims, cells, c),
{
    let n = cells.len();
    if exists|c: int| 0 <= c < n && #[trigger] safe[c] {
        let c = choose|c: int| 0 <= c < n && #[trigger] safe[c];
        let k = choose|k: int| 0 <= k < eqs.len() && (#[trigger] eqs[k]).mines == 0 && eqs[k].cells@.contains(c as usize);
        assert(from_frontier(dims, cells, eqs[k]));
        let i = choose|i: int| 0 <= i < cells.len() && #[trigger] frontier_eq(dims, cells, i, eqs[k]);
        assert(near(dims, i, c));
        assert(plainly_safe(dims, cells, c));
    }
    if exists|c: int| 0 <= c < n && #[trigger] plainly_safe(dims, cells, c) {
        let c = choose|c: int| 0 <= c < n && #[trigger] plainly_safe(dims, cells, c);
        let i = choose|i: int| 0 <= i < cells.len() && cells[i].is_revealed && #[trigger] near(dims, i, c) && needed(dims, cells, i) == 0;
        assert(on_frontier(dims, cells, i));
        let k = choose|k: int| 0 <= k < eqs.len() && frontier_eq(dims, cells, i, #[trigger] eqs[k]);
        assert(eqs[k].cells@.contains(c as usize));
        assert(safe[c]);
    }
    if exists|c: int| 0 <= c < n && #[trigger] plainly_mine(dims, cells, c) {
        let c = choose|c: int| 0 <= c < n && #[trigger] plainly_mine(dims, cells, c);
        let i = choose|i: int| 0 <= i < cells.len() && cells[i].is_revealed && #[trigger] near(dims, i, c)
            && needed(dims, cells, i) > 0 && needed(dims, cells, i) == covered_near(dims, cells, i);
        assert(on_frontier(dims, cells, i));
        let k = choose|k: int| 0 <= k < eqs.len() && frontier_eq(dims, cells, i, #[trigger] eqs[k]);
        let e = eqs[k];
        assert(e.cells@.contains(c as usize));
        assert(well_formed(e, n));
        lemma_members_len(e.cells@, n);
        let f = |j: int| covered(cells, j) && near(dims, i, j);
        assert forall|j: int| 0 <= j < n implies (e.cells@.contains(j as usize) <==> #[trigger] f(j)) by {
            if e.cells@.contains(j as usize) {
                assert(covered(cells, j) && near(dims, i, j));
            }
        }
        lemma_members_count(e.cells@, n, f);
        assert(mines[c]);
        assert(!flag_mask(cells)[c]);
    }
    if exists|c: int| 0 <= c < n && #[trigger] mines[c] {
        let c = choose|c: int| 0 <= c < n && #[trigger] mines[c];
        let k = choose|k: int| 0 <= k < eqs.len() && (#[trigger] eqs[k]).mines != 0 && eqs[k].mines == eqs[k].cells@.len() && eqs[k].cells@.contains(c as usize);
        let e = eqs[k];
        assert(from_frontier(dims, cells, e));
        let i = choose|i: int| 0 <= i < cells.len() && #[trigger] frontier_eq(dims, cells, i, e);
        assert(well_formed(e, n));
        lemma_members_len(e.cells@, n);
        let f = |j: int| covered(cells, j) && near(dims, i, j);
        assert forall|j: int| 0 <= j < n implies (e.cells@.contains(j as usize) <==> #[trigger] f(j)) by {
            if e.cells@.contains(j as usize) {
                assert(covered(cells, j) && near(dims, i, j));
            }
        }
        lemma_members_count(e.cells@, n, f);
        assert(near(dims, i, c));
        assert(plainly_mine(dims, cells, c));
    }
}

/// The next move of an AI player of tier `tier` on what it sees, `cells`,
/// with `total_mines` mines on the board. `hesitate` is the chance draw that
/// makes a novice uncover a random covered cell.
pub fn plan_move(dims: Dimensions, cells: &[CellSnapshot], tier: BotTier, total_mines: usize, hesitate: bool) -> (p: Plan)
    requires
        board_snapshot(dims, cells@),
    ensures
        p is Idle <==> forall|j: int| 0 <= j < cells@.len() ==> !#[trigger] covered(cells@, j),
        p is Open <==> (exists|j: int| 0 <= j < cells@.len() && #[trigger] covered(cells@, j)) && forall|j: int| 0 <= j < cells@.len() ==> !(#[trigger] cells@[j]).is_revealed,
        p matches Plan::Open(c) ==> c == centre(dims),
        p matches Plan::Chord(c) ==> exists|i: int| 0 <= i < cells@.len() && #[trigger] chordable(dims, cells@, i) && c == cell_coord(dims, i)
            && forall|j: int| 0 <= j < i ==> !#[trigger] chordable(dims, cells@, j),
        !(p is Idle) && !(p is Open) && (exists|j: int| 0 <= j < cells@.len() && #[trigger] chordable(dims, cells@, j)) ==> p is Chord,
        p matches Plan::Safe(c) ==> exists|i: int| 0 <= i < cells@.len() && #[trigger] covered(cells@, i) && c == cell_coord(dims, i) && surely_safe(dims, cells@, i),
        p matches Plan::Mine(c) ==> exists|i: int| 0 <= i < cells@.len() && #[trigger] covered(cells@, i) && c == cell_coord(dims, i) && surely_mine(dims, cells@, i),
        p matches Plan::Likely(c) ==> exists|i: int| 0 <= i < cells@.len() && #[trigger] covered(cells@, i) && c == cell_coord(dims, i),
        p matches Plan::LikelyMine(c) ==> exists|i: int| 0 <= i < cells@.len() && #[trigger] covered(cells@, i) && c == cell_coord(dims, i),
        p matches Plan::Risk(c) ==> exists|i: int| 0 <= i < cells@.len() && #[trigger] covered(cells@, i) && c == cell_coord(dims, i),
        p matches Plan::Random(v) ==> v@.len() > 0 && forall|c: Coord3D| #[trigger] v@.contains(c) ==> exists|i: int| 0 <= i < cells@.len() && covered(cells@, i) && c == cell_coord(dims, i),
        (tier is Novice || tier is Intermediate) ==> !(p is Likely) && !(p is LikelyMine),
        (tier is Novice && hesitate && p is Random) ==> forall|i: int| 0 <= i < cells@.len() && #[trigger] covered(cells@, i) ==> p->Random_0@.contains(cell_coord(dims, i)),
        (exists|j: int| 0 <= j < cells@.len() && #[trigger] covered(cells@, j))
            && (exists|j: int| 0 <= j < cells@.len() && (#[trigger] cells@[j]).is_revealed)
            && !(exists|j: int| 0 <= j < cells@.len() && #[trigger] chordable(dims, cells@, j))
            && tier is Novice && hesitate ==> p is Random,
        (exists|j: int| 0 <= j < cells@.len() && (#[trigger] cells@[j]).is_revealed)
            && !(exists|j: int| 0 <= j < cells@.len() && #[trigger] chordable(dims, cells@, j))
            && !(tier is Novice && hesitate) ==> {
            &&& (exists|c: int| 0 <= c < cells@.len() && #[trigger] plainly_safe(dims, cells@, c)) ==> p is Safe
            &&& !(exists|c: int| 0 <= c < cells@.len() && #[trigger] plainly_safe(dims, cells@, c))
                && (exists|c: int| 0 <= c < cells@.len() && #[trigger] plainly_mine(dims, cells@, c)) ==> p is Mine
        },
        !(tier is Novice)
            && (exists|j: int| 0 <= j < cells@.len() && #[trigger] covered(cells@, j))
            && (exists|j: int| 0 <= j < cells@.len() && (#[trigger] cells@[j]).is_revealed)
            && !(exists|j: int| 0 <= j < cells@.len() && #[trigger] chordable(dims, cells@, j))
            && !(exists|c: int| 0 <= c < cells@.len() && #[trigger] plainly_safe(dims, cells@, c))
            && !(exists|c: int| 0 <= c < cells@.len() && #[trigger] plainly_mine(dims, cells@, c)) ==> deduction_plan(dims, cells@, tier, total_mines, p),
        tier is Novice && !hesitate
            && (exists|j: int| 0 <= j < cells@.len() && #[trigger] covered(cells@, j))
            && (exists|j: int| 0 <= j < cells@.len() && (#[trigger] cells@[j]).is_revealed)
            && !(exists|j: int| 0 <= j < cells@.len() && #[trigger] chordable(dims, cells@, j))
            && !(exists|c: int| 0 <= c < cells@.len() && #[trigger] plainly_safe(dims, cells@, c))
            && !(exists|c: int| 0 <= c < cells@.len() && #[trigger] plainly_mine(dims, cells@, c)) ==>
            exists|e: Seq<Equation>| #[trigger] snapshot_eqs(dims, cells@, e) && least_risk_plan(dims, cells@, e, p),
{
    let n = dims.total_cells();
    let (cov, flags) = snapshot_masks(cells);
    if !any_marked(&cov) {
        proof {
            assert forall|j: int| 0 <= j < cells@.len() implies !#[trigger] covered(cells@, j) by {
                assert(!cov@[j]);
            }
        }
        return Plan::Idle;
    }
    proof {
        let j = choose|j: int| 0 <= j < cov@.len() && #[trigger] cov@[j];
        assert(covered(cells@, j));
    }
    if !any_revealed(cells) {
        return Plan::Open(Coord3D::new(dims.width / 2, dims.height / 2, dims.depth / 2));
    }
    if let Some(i) = find_chord(dims, cells, &cov, &flags) {
        proof {
            lemma_cell_coord(dims, i as int);
        }
        return Plan::Chord(Coord3D::from_index(i, dims.width, dims.height));
    }
    let eqs = snapshot_equations(dims, cells, &cov, &flags);
    let (mut safe, mut mines) = direct_deductions(&eqs, n);
    proof {
        lemma_marks_sound(dims, cells@, eqs@, safe@, mines@);
        lemma_direct_plain(dims, cells@, eqs@, safe@, mines@);
        if exists|c: int| 0 <= c < cells@.len() && #[trigger] plainly_safe(dims, cells@, c) {
            let c = choose|c: int| 0 <= c < cells@.len() && #[trigger] safe@[c];
            assert(safe@[c]);
        }
        if exists|c: int| 0 <= c < cells@.len() && #[trigger] plainly_mine(dims, cells@, c) {
            let c = choose|c: int| 0 <= c < cells@.len() && #[trigger] mines@[c] && !flag_mask(cells@)[c];
            assert(mines@[c] && !flags@[c]);
        }
    }
    if tier == BotTier::Novice && hesitate {
        let v = coords_of(dims, &cov);
        proof {
            assert forall|c: Coord3D| #[trigger] v@.contains(c) implies exists|i: int| 0 <= i < cells@.len() && covered(cells@, i) && c == cell_coord(dims, i) by {
                let i = choose|i: int| 0 <= i < dims.total() && cov@[i] && c == cell_coord(dims, i);
                assert(covered(cells@, i));
            }
            assert forall|i: int| 0 <= i < cells@.len() && #[trigger] covered(cells@, i) implies v@.contains(cell_coord(dims, i)) by {
                assert(cov@[i]);
            }
        }
        return Plan::Random(v);
    }
    if let Some(c) = pick_best_safe_cell(&safe, dims, &cov) {
        return Plan::Safe(c);
    }
    if let Some(i) = first_unflagged(&mines, &flags) {
        proof {
            lemma_cell_coord(dims, i as int);
        }
        return Plan::Mine(Coord3D::from_index(i, dims.width, dims.height));
    }
    if tier == BotTier::Novice {
        let p = plan_by_risk(dims, cells, &eqs, &cov);
        proof {
            assert(snapshot_eqs(dims, cells@, eqs@));
        }
        return p;
    }
    let ghost e = eqs@;
    let ghost safe0 = safe@;
    let ghost mines0 = mines@;
    let (ss, sm, reduced) = solve_subset_replacement(eqs, n);
    let _ = merge_marks(&mut safe, &ss);
    let _ = merge_marks(&mut mines, &sm);
    proof {
        assert(snapshot_eqs(dims, cells@, e));
        assert(subset_result(e, cells@.len() as usize, ss@, sm@, reduced@));
        assert forall|i: int| 0 <= i < cells@.len() implies !(#[trigger] mines0[i]) by {
            if mines0[i] {
                let k = choose|k: int| 0 <= k < e.len() && (#[trigger] e[k]).mines != 0 && e[k].mines == e[k].cells@.len() && e[k].cells@.contains(i as usize);
                assert(e[k].cells@.contains(i as usize));
                assert(covered(cells@, i));
                assert(!(mines0[i] && !flags@[i]));
            }
        }
        assert(safe@ =~= ss@) by {
            assert forall|i: int| 0 <= i < cells@.len() implies safe@[i] == ss@[i] by {
                assert(!safe0[i]);
            }
        }
        assert(mines@ =~= sm@) by {
            assert forall|i: int| 0 <= i < cells@.len() implies mines@[i] == sm@[i] by {
                assert(!mines0[i]);
            }
        }
        assert forall|i: int| 0 <= i < cells@.len() && #[trigger] sm@[i] implies !cells@[i].is_flagged by {
            let k = choose|k: int| 0 <= k < e.len() && (#[trigger] e[k]).cells@.contains(i as usize);
            assert(e[k].cells@.contains(i as usize));
            assert(covered(cells@, i));
        }
        lemma_marks_sound(dims, cells@, e, ss@, sm@);
        assert(sound_for(dims, cells@, safe@, mines@)) by {
            assert forall|i: int| 0 <= i < cells@.len() && #[trigger] safe@[i] implies covered(cells@, i) && surely_safe(dims, cells@, i) by {
                assert(ss@[i] || safe@[i]);
            }
        }
        assert(sound_eqs(dims, cells@, reduced@)) by {
            let nn = cells@.len() as nat;
            assert forall|m: Seq<bool>| #[trigger] consistent(dims, cells@, m) implies meets_all(m, reduced@, nn) by {
                assert(meets_all(m, e, nn));
            }
            assert forall|k: int, x: usize| 0 <= k < reduced@.len() && #[trigger] reduced@[k].cells@.contains(x) implies covered(cells@, x as int) by {
                let q = choose|q: int| 0 <= q < e.len() && (#[trigger] e[q]).cells@.contains(x);
                assert(e[q].cells@.contains(x));
            }
            assert(mines_at_most(e, 255));
        }
    }
    if let Some(c) = pick_best_safe_cell(&safe, dims, &cov) {
        proof {
            let i = choose|i: int| #![trigger safe@[i]] 0 <= i < dims.total() && safe@[i] && c == cell_coord(dims, i);
            assert(ss@[i]);
            assert(marked_plan(dims, cells@, ss@, sm@, Plan::Safe(c)));
            assert(marks_any(cells@, ss@, sm@));
            assert(deduction_plan(dims, cells@, tier, total_mines, Plan::Safe(c)));
        }
        return Plan::Safe(c);
    }
    if let Some(i) = first_unflagged(&mines, &flags) {
        proof {
            lemma_cell_coord(dims, i as int);
        }
        let c = Coord3D::from_index(i, dims.width, dims.height);
        proof {
            assert(sm@[i as int] && !cells@[i as int].is_flagged && c == cell_coord(dims, i as int));
            assert(!exists|j: int| 0 <= j < cells@.len() && #[trigger] ss@[j]) by {
                if exists|j: int| 0 <= j < cells@.len() && #[trigger] ss@[j] {
                    let j = choose|j: int| 0 <= j < cells@.len() && #[trigger] ss@[j];
                    assert(safe@[j]);
                }
            }
            assert(marked_plan(dims, cells@, ss@, sm@, Plan::Mine(c)));
            assert(marks_any(cells@, ss@, sm@));
        }
        return Plan::Mine(c);
    }
    proof {
        assert(!marks_any(cells@, ss@, sm@)) by {
            if exists|i: int| 0 <= i < cells@.len() && #[trigger] sm@[i] && !cells@[i].is_flagged {
                let i = choose|i: int| 0 <= i < cells@.len() && #[trigger] sm@[i] && !cells@[i].is_flagged;
                assert(!(mines@[i] && !flags@[i]));
            }
        }
    }
    if tier == BotTier::Intermediate {
        let p = plan_by_risk(dims, cells, &reduced, &cov);
        proof {
            assert(marked_plan(dims, cells@, ss@, sm@, p));
            assert(deduction_plan(dims, cells@, tier, total_mines, p));
        }
        return p;
    }
    let master = tier == BotTier::Master;
    let p = plan_by_components(dims, cells, &cov, &flags, &reduced, &safe, &mines, master, total_mines);
    proof {
        let (labels, sols) = choose|labels: Seq<usize>, sols: Seq<FrontierSolution>|
            #[trigger] components_run(reduced@, cells@.len() as usize, component_cap(master), labels, sols)
            && sols.last().safe@.len() == cells@.len() && sols.last().mines@.len() == cells@.len()
            && marked_plan(dims, cells@, either(sols.last().safe@, safe@), either(sols.last().mines@, mines@), p)
            && (!marks_any(cells@, either(sols.last().safe@, safe@), either(sols.last().mines@, mines@)) ==>
                guess_rule(dims, cells@, reduced@, sols.last().probs@, sols.last().has_prob@, master, remaining_mines(total_mines, cells@), p));
        assert forall|i: int| 0 <= i < cells@.len() implies !(#[trigger] sm@[i]) by {
            if sm@[i] {
                assert(!cells@[i].is_flagged);
            }
        }
        let fs = sols.last();
        assert(either(fs.safe@, safe@) =~= fs.safe@);
        assert(either(fs.mines@, mines@) =~= fs.mines@);
        assert(component_cap(master) == component_cap(tier is Master));
        assert(master == (tier is Master));
        assert(components_run(reduced@, cells@.len() as usize, component_cap(tier is Master), labels, sols));
        assert(deduction_plan(dims, cells@, tier, total_mines, p));
    }
    p
}

/// The cell at index `i` is one an equation holds that is still covered,
/// and no such cell has a lower average mine ratio over its equations;
/// of equally low ones it comes first.
pub open spec fn least_risk(eqs: Seq<Equation>, cells: Seq<CellSnapshot>, i: int) -> bool {
    &&& 0 <= i < cells.len()
    &&& crate::solver::candidate(eqs, covered_mask(cells), i)
    &&& forall|j: int| 0 <= j < cells.len() && #[trigger] crate::solver::candidate(eqs, covered_mask(cells), j) ==>
        crate::solver::avg_risk(eqs, i) <= crate::solver::avg_risk(eqs, j) && (j < i ==> crate::solver::avg_risk(eqs, i) < crate::solver::avg_risk(eqs, j))
}

/// A guess by average risk over `eqs`: where some covered cell is held by
/// an equation, the plan uncovers one of least average risk; otherwise it
/// picks at random among the covered cells.
pub open spec fn least_risk_plan(dims: Dimensions, cells: Seq<CellSnapshot>, eqs: Seq<Equation>, p: Plan) -> bool {
    &&& (exists|i: int| 0 <= i < cells.len() && #[trigger] crate::solver::candidate(eqs, covered_mask(cells), i)) ==>
        (p matches Plan::Risk(c) && exists|i: int| #[trigger] least_risk(eqs, cells, i) && c == cell_coord(dims, i))
    &&& !(exists|i: int| 0 <= i < cells.len() && #[trigger] crate::solver::candidate(eqs, covered_mask(cells), i)) ==> p is Random
}

/// The covered cell of least average risk on the frontier, or else a random
/// covered cell.
pub fn plan_by_risk(dims: Dimensions, cells: &[CellSnapshot], eqs: &Vec<Equation>, cov: &Vec<bool>) -> (p: Plan)
    requires
        board_snapshot(dims, cells@),
        cov@ == covered_mask(cells@),
        sound_eqs(dims, cells@, eqs@),
        exists|j: int| 0 <= j < cells@.len() && #[trigger] covered(cells@, j),
    ensures
        p matches Plan::Risk(c) ==> exists|i: int| 0 <= i < cells@.len() && #[trigger] covered(cells@, i) && c == cell_coord(dims, i),
        p matches Plan::Random(v) ==> v@.len() > 0 && forall|c: Coord3D| #[trigger] v@.contains(c) <==> exists|i: int| 0 <= i < cells@.len() && covered(cells@, i) && c == cell_coord(dims, i),
        p is Risk || p is Random,
        p is Random <==> forall|i: int| 0 <= i < cells@.len() ==> !crate::solver::candidate(eqs@, cov@, i),
        least_risk_plan(dims, cells@, eqs@, p),
{
    proof {
        assert forall|k: int| 0 <= k < eqs@.len() implies (#[trigger] eqs@[k]).mines <= 0xffff by {
            assert(mines_at_most(eqs@, 255));
        }
    }
    match pick_lowest_risk_boundary(eqs, cov, dims) {
        Some(AiAction::Reveal(c)) => {
            proof {
                let i = choose|i: int| 0 <= i < dims.total() && #[trigger] crate::solver::candidate(eqs@, cov@, i) && AiAction::Reveal(c) == AiAction::Reveal(cell_coord(dims, i))
                    && forall|j: int| 0 <= j < dims.total() && #[trigger] crate::solver::candidate(eqs@, cov@, j) ==> crate::solver::avg_risk(eqs@, i) <= crate::solver::avg_risk(eqs@, j)
                        && (j < i ==> crate::solver::avg_risk(eqs@, i) < crate::solver::avg_risk(eqs@, j));
                assert(cov@[i]);
                assert(covered(cells@, i));
                assert(least_risk(eqs@, cells@, i));
            }
            Plan::Risk(c)
        }
        _ => {
            let v = coords_of(dims, cov);
            proof {
                let j = choose|j: int| 0 <= j < cells@.len() && #[trigger] covered(cells@, j);
                assert(cov@[j]);
                assert forall|c: Coord3D| #[trigger] v@.contains(c) <==> exists|i: int| 0 <= i < cells@.len() && covered(cells@, i) && c == cell_coord(dims, i) by {
                    if v@.contains(c) {
                        let i = choose|i: int| 0 <= i < dims.total() && cov@[i] && c == cell_coord(dims, i);
                        assert(covered(cells@, i));
                    }
                    if exists|i: int| 0 <= i < cells@.len() && covered(cells@, i) && c == cell_coord(dims, i) {
                        let i = choose|i: int| 0 <= i < cells@.len() && covered(cells@, i) && c == cell_coord(dims, i);
                        assert(cov@[i]);
                    }
                }
            }
            Plan::Random(v)
        }
    }
}


/// Two tests that agree on the first `k` indices count alike.
proof fn lemma_count_upto_same(k: nat, f: spec_fn(int) -> bool, g: spec_fn(int) -> bool)
    requires
        forall|i: int| 0 <= i < k ==> #[trigger] f(i) == g(i),
    ensures
        count_upto(k, f) == count_upto(k, g),
    decreases k,
{
    if k > 0 {
        lemma_count_upto_same((k - 1) as nat, f, g);
    }
}

/// How many cells of the snapshot carry a flag.
fn count_flags(flags: &Vec<bool>) -> (r: usize)
    ensures
        r == count_upto(flags@.len(), |i: int| flags@[i]),
        r <= flags@.len(),
{
    let mut r: usize = 0;
    let mut i: usize = 0;
    while i < flags.len()
        invariant
            i <= flags@.len(),
            r <= i,
            r == count_upto(i as nat, |j: int| flags@[j]),
        decreases flags@.len() - i,
    {
        if flags[i] {
            r = r + 1;
        }
        i = i + 1;
    }
    r
}

/// The cell to uncover, or to flag, from the component analysis, or the guess
/// by estimated risk: a covered cell off the frontier when the remaining mines
/// spread over those cells are no riskier than the safest frontier cell (the
/// one with the most covered neighbours), otherwise the least risky frontier
/// cell (for the master, among those within a ten-thousandth of the least,
/// the one with the most covered neighbours).
pub fn plan_by_components(
    dims: Dimensions,
    cells: &[CellSnapshot],
    cov: &Vec<bool>,
    flags: &Vec<bool>,
    reduced: &Vec<Equation>,
    sure_safe: &Vec<bool>,
    sure_mines: &Vec<bool>,
    master: bool,
    total_mines: usize,
) -> (p: Plan)
    requires
        board_snapshot(dims, cells@),
        cov@ == covered_mask(cells@),
        flags@ == flag_mask(cells@),
        sound_eqs(dims, cells@, reduced@),
        sound_for(dims, cells@, sure_safe@, sure_mines@),
        exists|j: int| 0 <= j < cells@.len() && #[trigger] covered(cells@, j),
    ensures
        p matches Plan::Safe(c) ==> exists|i: int| 0 <= i < cells@.len() && #[trigger] covered(cells@, i) && c == cell_coord(dims, i) && surely_safe(dims, cells@, i),
        p matches Plan::Mine(c) ==> exists|i: int| 0 <= i < cells@.len() && #[trigger] covered(cells@, i) && c == cell_coord(dims, i) && surely_mine(dims, cells@, i),
        p matches Plan::Likely(c) ==> exists|i: int| 0 <= i < cells@.len() && #[trigger] covered(cells@, i) && c == cell_coord(dims, i),
        p matches Plan::LikelyMine(c) ==> exists|i: int| 0 <= i < cells@.len() && #[trigger] covered(cells@, i) && c == cell_coord(dims, i),
        p matches Plan::Risk(c) ==> exists|i: int| 0 <= i < cells@.len() && #[trigger] covered(cells@, i) && c == cell_coord(dims, i),
        p matches Plan::Random(v) ==> v@.len() > 0 && forall|c: Coord3D| #[trigger] v@.contains(c) ==> exists|i: int| 0 <= i < cells@.len() && covered(cells@, i) && c == cell_coord(dims, i),
        !(p is Idle) && !(p is Open) && !(p is Chord),
        exists|labels: Seq<usize>, sols: Seq<FrontierSolution>|
            #[trigger] components_run(reduced@, cells@.len() as usize, component_cap(master), labels, sols)
            && sols.last().safe@.len() == cells@.len() && sols.last().mines@.len() == cells@.len()
            && marked_plan(dims, cells@, either(sols.last().safe@, sure_safe@), either(sols.last().mines@, sure_mines@), p)
            && (!marks_any(cells@, either(sols.last().safe@, sure_safe@), either(sols.last().mines@, sure_mines@)) ==>
                guess_rule(dims, cells@, reduced@, sols.last().probs@, sols.last().has_prob@, master, remaining_mines(total_mines, cells@), p)),
{
    let n = dims.total_cells();
    let remaining = total_mines.saturating_sub(count_flags(flags));
    proof {
        lemma_count_upto_same(flags@.len(), |i: int| flags@[i], |i: int| flag_mask(cells@)[i]);
        assert(remaining as nat == remaining_mines(total_mines, cells@));
    }
    let fs = solve_connected_components(reduced, n, master);
    let ghost fs0 = fs;
    proof {
        let (l, so) = choose|l: Seq<usize>, so: Seq<FrontierSolution>| #[trigger] components_run(reduced@, n, component_cap(master), l, so) && so.last() == fs0;
        assert(run_ends(reduced@, n, component_cap(master), l, fs0));
    }
    let ghost labels0 = choose|labels: Seq<usize>| #[trigger] run_ends(reduced@, n, component_cap(master), labels, fs0);
    let ghost sols0 = choose|sols: Seq<FrontierSolution>| #[trigger] components_run(reduced@, n, component_cap(master), labels0, sols) && sols.last() == fs0;
    let ghost run = (labels0, sols0);
    proof {
        assert(components_run(reduced@, n, component_cap(master), run.0, run.1) && run.1.last() == fs0);
    }
    let ghost nn = n as nat;
    let mut all_safe = fs.safe;
    let mut all_mines = fs.mines;
    let mut sure_s = fs.sure_safe;
    let mut sure_m = fs.sure_mines;
    let _ = merge_marks(&mut all_safe, sure_safe);
    let _ = merge_marks(&mut all_mines, sure_mines);
    let _ = merge_marks(&mut sure_s, sure_safe);
    let _ = merge_marks(&mut sure_m, sure_mines);
    proof {
        assert forall|i: int| 0 <= i < n && #[trigger] all_safe@[i] implies covered(cells@, i) by {
            if !sure_safe@[i] {
                let k = choose|k: int| 0 <= k < reduced@.len() && (#[trigger] reduced@[k]).cells@.contains(i as usize);
                assert(reduced@[k].cells@.contains(i as usize));
                assert((i as usize) as int == i);
            }
        }
        assert forall|i: int| 0 <= i < n && #[trigger] all_mines@[i] implies covered(cells@, i) by {
            if !sure_mines@[i] {
                let k = choose|k: int| 0 <= k < reduced@.len() && (#[trigger] reduced@[k]).cells@.contains(i as usize);
                assert(reduced@[k].cells@.contains(i as usize));
                assert((i as usize) as int == i);
            }
        }
        assert forall|i: int| 0 <= i < n && #[trigger] sure_s@[i] implies surely_safe(dims, cells@, i) by {
            if !sure_safe@[i] {
                assert forall|m: Seq<bool>| #[trigger] consistent(dims, cells@, m) implies !m[i] by {
                    assert(meets_all(m, reduced@, nn));
                }
            }
        }
        assert forall|i: int| 0 <= i < n && #[trigger] sure_m@[i] implies surely_mine(dims, cells@, i) by {
            if !sure_mines@[i] {
                assert forall|m: Seq<bool>| #[trigger] consistent(dims, cells@, m) implies m[i] by {
                    assert(meets_all(m, reduced@, nn));
                }
            }
        }
    }
    if let Some(c) = pick_best_safe_cell(&all_safe, dims, cov) {
        proof {
            let i = choose|i: int| #![trigger all_safe@[i]] 0 <= i < dims.total() && all_safe@[i] && c == cell_coord(dims, i)
                && forall|j: int| #![trigger all_safe@[j]] 0 <= j < dims.total() && all_safe@[j] ==> crate::solver::marked_around(dims, cov@, j) <= crate::solver::marked_around(dims, cov@, i)
                    && (j > i ==> crate::solver::marked_around(dims, cov@, j) < crate::solver::marked_around(dims, cov@, i));
            assert(covered(cells@, i));
        }
        proof {
            assert(all_safe@ =~= either(run.1.last().safe@, sure_safe@));
            assert(all_mines@ =~= either(run.1.last().mines@, sure_mines@));
        }
        let idx = cell_index_of(dims, c);
        proof {
            let sf = either(run.1.last().safe@, sure_safe@);
            let mf = either(run.1.last().mines@, sure_mines@);
            let i = choose|i: int| #![trigger all_safe@[i]] 0 <= i < dims.total() && all_safe@[i] && c == cell_coord(dims, i);
            assert(sf[i]);
            assert(marked_plan(dims, cells@, sf, mf, Plan::Safe(c)));
            assert(marked_plan(dims, cells@, sf, mf, Plan::Likely(c)));
            assert(components_run(reduced@, cells@.len() as usize, component_cap(master), run.0, run.1));
        }
        if sure_s[idx] {
            return Plan::Safe(c);
        }
        return Plan::Likely(c);
    }
    proof {
        assert(all_safe@ =~= either(run.1.last().safe@, sure_safe@));
        assert(all_mines@ =~= either(run.1.last().mines@, sure_mines@));
        assert(!exists|i: int| 0 <= i < cells@.len() && #[trigger] all_safe@[i]);
    }
    if let Some(i) = first_unflagged(&all_mines, flags) {
        proof {
            lemma_cell_coord(dims, i as int);
        }
        let c = Coord3D::from_index(i, dims.width, dims.height);
        proof {
            assert(all_mines@[i as int] && !cells@[i as int].is_flagged);
            let sf = either(run.1.last().safe@, sure_safe@);
            let mf = either(run.1.last().mines@, sure_mines@);
            assert(sf =~= all_safe@);
            assert(mf =~= all_mines@);
            lemma_cell_coord(dims, i as int);
            assert(mf[i as int] && !cells@[i as int].is_flagged && c == cell_coord(dims, i as int));
            assert(marked_plan(dims, cells@, sf, mf, Plan::Mine(c)));
            assert(marked_plan(dims, cells@, sf, mf, Plan::LikelyMine(c)));
            assert(components_run(reduced@, cells@.len() as usize, component_cap(master), run.0, run.1));
        }
        if sure_m[i] {
            return Plan::Mine(c);
        }
        return Plan::LikelyMine(c);
    }
    proof {
        assert(!exists|i: int| 0 <= i < cells@.len() && #[trigger] all_mines@[i] && !cells@[i].is_flagged) by {
            if exists|i: int| 0 <= i < cells@.len() && #[trigger] all_mines@[i] && !cells@[i].is_flagged {
                let i = choose|i: int| 0 <= i < cells@.len() && #[trigger] all_mines@[i] && !cells@[i].is_flagged;
                assert(!(all_mines@[i] && !flags@[i]));
            }
        }
    }
    let p = guess_by_risk(dims, cells, cov, reduced, &fs.probs, &fs.has_prob, master, remaining);
    proof {
        assert(run.1.last().probs@ == fs.probs@ && run.1.last().has_prob@ == fs.has_prob@);
        let sf = either(run.1.last().safe@, sure_safe@);
        let mf = either(run.1.last().mines@, sure_mines@);
        assert(sf =~= all_safe@);
        assert(mf =~= all_mines@);
        assert(marked_plan(dims, cells@, sf, mf, p));
        assert(components_run(reduced@, cells@.len() as usize, component_cap(master), run.0, run.1));
    }
    p
}

/// The index of a coordinate of the grid.
fn cell_index_of(dims: Dimensions, c: Coord3D) -> (i: usize)
    requires
        usable(dims),
        exists|j: int| 0 <= j < dims.total() && c == cell_coord(dims, j),
    ensures
        i < dims.total(),
        c == cell_coord(dims, i as int),
{
    proof {
        let j = choose|j: int| 0 <= j < dims.total() && c == cell_coord(dims, j);
        lemma_cell_coord(dims, j);
        lemma_valid_index(dims, c);
    }
    c.to_index(dims.width, dims.height)
}


/// The cell at index `i` has an estimate, and no cell with an estimate has
/// a lower one.
pub open spec fn least_prob(probs: Seq<u64>, has_prob: Seq<bool>, i: int) -> bool {
    &&& 0 <= i < has_prob.len()
    &&& has_prob[i]
    &&& forall|j: int| 0 <= j < has_prob.len() && #[trigger] has_prob[j] ==> probs[i] <= probs[j]
}

/// How many of the first `k` cells are covered and held by no equation of
/// `eqs`.
pub open spec fn interior_count(cells: Seq<CellSnapshot>, eqs: Seq<Equation>, k: int) -> nat
    decreases k,
{
    if k <= 0 {
        0
    } else {
        interior_count(cells, eqs, k - 1) + if covered(cells, k - 1) && !in_support(eqs, (k - 1) as usize) { 1nat } else { 0nat }
    }
}

/// The estimates of the first `k` cells that have one, added up.
pub open spec fn estimate_total(probs: Seq<u64>, has_prob: Seq<bool>, k: int) -> nat
    decreases k,
{
    if k <= 0 {
        0
    } else {
        estimate_total(probs, has_prob, k - 1) + if has_prob[k - 1] { probs[k - 1] as nat } else { 0nat }
    }
}

/// The chance of a mine (parts per billion) in a covered cell that no
/// equation holds, when `nu` such cells share the `remaining` mines less the
/// `est` expected on the frontier: held between one thousandth and 999
/// thousandths; one billion when there is no such cell.
pub open spec fn interior_chance(remaining: nat, est: nat, nu: nat) -> int {
    if nu == 0 {
        PPB as int
    } else {
        let rem = remaining * PPB;
        let um: int = if rem > est { rem - est } else { 0 };
        let q = um / (nu as int);
        let q1 = if q > PPB { PPB as int } else { q };
        if q1 < 1_000_000 { 1_000_000 } else if q1 > 999_000_000 { 999_000_000 } else { q1 }
    }
}

/// The cell at index `i` is covered and held by no equation of `red`, and
/// no such cell has more covered neighbours.
pub open spec fn busiest_interior(dims: Dimensions, cells: Seq<CellSnapshot>, red: Seq<Equation>, i: int) -> bool {
    &&& 0 <= i < cells.len()
    &&& covered(cells, i) && !in_support(red, i as usize)
    &&& forall|j: int| 0 <= j < cells.len() && #[trigger] covered(cells, j) && !in_support(red, j as usize) ==>
        crate::solver::marked_around(dims, covered_mask(cells), j) <= crate::solver::marked_around(dims, covered_mask(cells), i)
}

/// The cell at index `i` has an estimate below `limit`, and no such cell
/// has more covered neighbours.
pub open spec fn busiest_near_least(dims: Dimensions, cells: Seq<CellSnapshot>, probs: Seq<u64>, has_prob: Seq<bool>, limit: int, i: int) -> bool {
    &&& 0 <= i < cells.len()
    &&& has_prob[i] && probs[i] < limit
    &&& forall|j: int| 0 <= j < cells.len() && #[trigger] has_prob[j] && probs[j] < limit ==>
        crate::solver::marked_around(dims, covered_mask(cells), j) <= crate::solver::marked_around(dims, covered_mask(cells), i)
}

/// The guess when nothing is certain, from the estimates `probs` (where
/// `has_prob`) of the cells of the equations `red`: where the covered cells
/// off the equations are no riskier than the least risky estimated cell,
/// one of them; otherwise an estimated cell of least risk (for the master,
/// one within a ten-thousandth of the least); with no estimate at all, a
/// random covered cell.
pub open spec fn guess_rule(dims: Dimensions, cells: Seq<CellSnapshot>, red: Seq<Equation>, probs: Seq<u64>, has_prob: Seq<bool>, master: bool, remaining: nat, p: Plan) -> bool {
    let n = cells.len() as int;
    let nu = interior_count(cells, red, n);
    let share = interior_chance(remaining, estimate_total(probs, has_prob, n), nu);
    &&& (exists|i: int| 0 <= i < n && #[trigger] has_prob[i]) ==> exists|m: int| #[trigger] least_prob(probs, has_prob, m) && {
        let interior_first = nu > 0 && share <= probs[m];
        &&& interior_first ==> (p matches Plan::Risk(c)
            && exists|i: int| #[trigger] busiest_interior(dims, cells, red, i) && c == cell_coord(dims, i))
        &&& !interior_first && !master ==> (p matches Plan::Risk(c)
            && exists|i: int| #[trigger] least_prob(probs, has_prob, i) && c == cell_coord(dims, i))
        &&& !interior_first && master ==> (p matches Plan::Risk(c)
            && exists|i: int| #[trigger] busiest_near_least(dims, cells, probs, has_prob, probs[m] + 100_000, i) && c == cell_coord(dims, i))
    }
    &&& !(exists|i: int| 0 <= i < n && #[trigger] has_prob[i]) ==> p is Random
}

/// The guess by estimated risk described at `plan_by_components`.
fn guess_by_risk(
    dims: Dimensions,
    cells: &[CellSnapshot],
    cov: &Vec<bool>,
    reduced: &Vec<Equation>,
    probs: &Vec<u64>,
    has_prob: &Vec<bool>,
    master: bool,
    remaining: usize,
) -> (p: Plan)
    requires
        board_snapshot(dims, cells@),
        cov@ == covered_mask(cells@),
        sound_eqs(dims, cells@, reduced@),
        probs@.len() == dims.total(),
        has_prob@.len() == dims.total(),
        forall|c: int| 0 <= c < dims.total() && #[trigger] has_prob@[c] ==> in_support(reduced@, c as usize),
        forall|c: int| 0 <= c < dims.total() ==> #[trigger] probs@[c] <= PPB,
        exists|j: int| 0 <= j < cells@.len() && #[trigger] covered(cells@, j),
    ensures
        p matches Plan::Risk(c) ==> exists|i: int| 0 <= i < cells@.len() && #[trigger] covered(cells@, i) && c == cell_coord(dims, i),
        p matches Plan::Random(v) ==> v@.len() > 0 && forall|c: Coord3D| #[trigger] v@.contains(c) ==> exists|i: int| 0 <= i < cells@.len() && covered(cells@, i) && c == cell_coord(dims, i),
        p is Risk || p is Random,
        guess_rule(dims, cells@, reduced@, probs@, has_prob@, master, remaining as nat, p),
{
    let n = dims.total_cells();
    let support = support_mask(reduced, n);
    let mut unlinked: Vec<bool> = Vec::new();
    let mut n_unlinked: usize = 0;
    let mut est_sum: u128 = 0;
    let mut any_prob = false;
    let mut i: usize = 0;
    while i < n
        invariant
            i <= n,
            n == dims.total(),
            cov@.len() == n,
            support@.len() == n,
            probs@.len() == n,
            has_prob@.len() == n,
            forall|c: int| 0 <= c < n ==> #[trigger] probs@[c] <= PPB,
            unlinked@.len() == i,
            forall|c: int| 0 <= c < i ==> (#[trigger] unlinked@[c] <==> cov@[c] && !support@[c]),
            n_unlinked <= i,
            est_sum <= i * PPB,
            cov@ == covered_mask(cells@),
            cells@.len() == n,
            forall|c: int| 0 <= c < n ==> (#[trigger] support@[c] <==> in_support(reduced@, c as usize)),
            n_unlinked == interior_count(cells@, reduced@, i as int),
            est_sum == estimate_total(probs@, has_prob@, i as int),
            any_prob == exists|c: int| 0 <= c < i && #[trigger] has_prob@[c],
            n_unlinked > 0 <==> exists|c: int| 0 <= c < i && #[trigger] unlinked@[c],
        decreases n - i,
    {
        let u = cov[i] && !support[i];
        let ghost before = unlinked@;
        let ghost n0 = n_unlinked;
        unlinked.push(u);
        if u {
            n_unlinked = n_unlinked + 1;
        }
        proof {
            assert(unlinked@[i as int] == u);
            if exists|c: int| 0 <= c < i + 1 && #[trigger] unlinked@[c] {
                let c = choose|c: int| 0 <= c < i + 1 && #[trigger] unlinked@[c];
                if c < i {
                    assert(before[c]);
                    assert(n0 > 0);
                }
            }
            if n_unlinked > 0 && !u {
                let c = choose|c: int| 0 <= c < i && #[trigger] before[c];
                assert(unlinked@[c]);
            }
        }
        if has_prob[i] {
            any_prob = true;
            est_sum = est_sum + probs[i] as u128;
        }
        i = i + 1;
    }
    let unlinked_prob: u64 = if n_unlinked > 0 {
        let rem: u128 = remaining as u128 * PPB as u128;
        let um: u128 = if rem > est_sum { rem - est_sum } else { 0 };
        let q: u128 = um / n_unlinked as u128;
        let q64: u64 = if q > PPB as u128 { PPB } else { q as u64 };
        clamp_u64(q64, 1_000_000, 999_000_000)
    } else {
        PPB
    };
    proof {
        assert(unlinked_prob as int == interior_chance(remaining as nat, est_sum as nat, n_unlinked as nat));
    }
    if any_prob {
        let mut p_min: u64 = PPB;
        let mut best: usize = 0;
        let mut found = false;
        let mut i: usize = 0;
        while i < n
            invariant
                i <= n,
                n == dims.total(),
                probs@.len() == n,
                has_prob@.len() == n,
                found ==> best < n && has_prob@[best as int],
                any_prob == exists|c: int| 0 <= c < n && #[trigger] has_prob@[c],
                found <==> exists|c: int| 0 <= c < i && #[trigger] has_prob@[c],
                found ==> p_min == probs@[best as int],
                found ==> forall|c: int| 0 <= c < i && #[trigger] has_prob@[c] ==> probs@[best as int] <= probs@[c],
            decreases n - i,
        {
            if has_prob[i] && (!found || probs[i] < p_min) {
                p_min = probs[i];
                best = i;
                found = true;
            }
            i = i + 1;
        }
        proof {
            assert(least_prob(probs@, has_prob@, best as int));
            assert forall|m: int| #[trigger] least_prob(probs@, has_prob@, m) implies probs@[m] == p_min by {
                assert(probs@[best as int] <= probs@[m]);
            }
        }
        if n_unlinked > 0 && unlinked_prob <= p_min {
            let mut pick: usize = 0;
            let mut pick_count: usize = 0;
            let mut have = false;
            let mut i: usize = 0;
            while i < n
                invariant
                    i <= n,
                    n == dims.total(),
                    usable(dims),
                    cov@.len() == n,
                    unlinked@.len() == n,
                    have ==> pick < n && unlinked@[pick as int],
                    have <==> exists|c: int| 0 <= c < i && #[trigger] unlinked@[c],
                    have ==> pick_count == crate::solver::marked_around(dims, cov@, pick as int),
                    have ==> forall|c: int| 0 <= c < i && #[trigger] unlinked@[c] ==> crate::solver::marked_around(dims, cov@, c) <= pick_count,
                decreases n - i,
            {
                if unlinked[i] {
                    let cnt = count_marked_around(dims, cov, i);
                    if !have || cnt >= pick_count {
                        pick = i;
                        pick_count = cnt;
                        have = true;
                    }
                }
                i = i + 1;
            }
            proof {
                assert(unlinked@[pick as int] ==> cov@[pick as int]);
                assert(covered(cells@, pick as int));
                lemma_cell_coord(dims, pick as int);
                assert(!in_support(reduced@, pick as usize));
                assert(covered(cells@, pick as int) && !in_support(reduced@, (pick as int) as usize));
                assert forall|j: int| 0 <= j < cells@.len() && #[trigger] covered(cells@, j) && !in_support(reduced@, j as usize) implies
                    crate::solver::marked_around(dims, covered_mask(cells@), j) <= crate::solver::marked_around(dims, covered_mask(cells@), pick as int) by {
                    assert(unlinked@[j]);
                }
                assert(busiest_interior(dims, cells@, reduced@, pick as int));
            }
            return Plan::Risk(Coord3D::from_index(pick, dims.width, dims.height));
        }
        if !master {
            proof {
                lemma_support_covered(dims, cells@, reduced@, best as int);
                lemma_cell_coord(dims, best as int);
            }
            return Plan::Risk(Coord3D::from_index(best, dims.width, dims.height));
        }
        let limit: u128 = p_min as u128 + 100_000;
        let mut choice: usize = best;
        let mut choice_count: usize = 0;
        let mut choice_prob: u64 = p_min;
        let mut have = false;
        let mut i: usize = 0;
        while i < n
            invariant
                i <= n,
                n == dims.total(),
                usable(dims),
                cov@.len() == n,
                probs@.len() == n,
                has_prob@.len() == n,
                best < n && has_prob@[best as int],
                choice < n && has_prob@[choice as int],
                limit == p_min + 100_000,
                (probs@[choice as int] as int) < p_min + 100_000,
                have ==> choice_count == crate::solver::marked_around(dims, cov@, choice as int),
                have ==> forall|c: int| 0 <= c < i && #[trigger] has_prob@[c] && (probs@[c] as int) < p_min + 100_000 ==>
                    crate::solver::marked_around(dims, cov@, c) <= choice_count,
                have <==> exists|c: int| 0 <= c < i && #[trigger] has_prob@[c] && (probs@[c] as int) < p_min + 100_000,
            decreases n - i,
        {
            if has_prob[i] && (probs[i] as u128) < limit {
                let cnt = count_marked_around(dims, cov, i);
                if !have || cnt > choice_count || (cnt == choice_count && probs[i] < choice_prob) {
                    choice = i;
                    choice_count = cnt;
                    choice_prob = probs[i];
                    have = true;
                }
            }
            i = i + 1;
        }
        proof {
            lemma_support_covered(dims, cells@, reduced@, choice as int);
            lemma_cell_coord(dims, choice as int);
            assert(has_prob@[best as int] && (probs@[best as int] as int) < p_min + 100_000);
            assert(busiest_near_least(dims, cells@, probs@, has_prob@, p_min + 100_000, choice as int));
        }
        return Plan::Risk(Coord3D::from_index(choice, dims.width, dims.height));
    }
    if n_unlinked > 0 {
        let v = coords_of(dims, &unlinked);
        proof {
            assert forall|c: Coord3D| #[trigger] v@.contains(c) implies exists|i: int| 0 <= i < cells@.len() && covered(cells@, i) && c == cell_coord(dims, i) by {
                let i = choose|i: int| 0 <= i < dims.total() && unlinked@[i] && c == cell_coord(dims, i);
                assert(cov@[i]);
                assert(covered(cells@, i));
            }
        }
        return Plan::Random(v);
    }
    let v = coords_of(dims, cov);
    proof {
        let j = choose|j: int| 0 <= j < cells@.len() && #[trigger] covered(cells@, j);
        assert(cov@[j]);
        assert forall|c: Coord3D| #[trigger] v@.contains(c) implies exists|i: int| 0 <= i < cells@.len() && covered(cells@, i) && c == cell_coord(dims, i) by {
            let i = choose|i: int| 0 <= i < dims.total() && cov@[i] && c == cell_coord(dims, i);
            assert(covered(cells@, i));
        }
    }
    Plan::Random(v)
}

/// A cell of a sound equation is covered.
proof fn lemma_support_covered(dims: Dimensions, cells: Seq<CellSnapshot>, eqs: Seq<Equation>, i: int)
    requires
        sound_eqs(dims, cells, eqs),
        0 <= i <= usize::MAX,
        in_support(eqs, i as usize),
    ensures
        covered(cells, i),
{
    let k = choose|k: int| 0 <= k < eqs.len() && (#[trigger] eqs[k]).cells@.contains(i as usize);
    assert(eqs[k].cells@.contains(i as usize));
}


/// What the AI may answer on the snapshot `cells`: nothing exactly when no
/// cell is covered; the centre on an untouched board; a chord on the first
/// number that can be chorded, whenever there is one; otherwise a covered
/// cell to uncover or flag (for the lower tiers, a flag only where a mine is
/// certain), as the tier's rules ask.
pub open spec fn ai_may_choose(dims: Dimensions, cells: Seq<CellSnapshot>, tier: BotTier, total_mines: usize, r: Option<AiAction>) -> bool {
    &&& (r is None <==> forall|j: int| 0 <= j < cells.len() ==> !#[trigger] covered(cells, j))
    &&& ((forall|j: int| 0 <= j < cells.len() ==> !(#[trigger] cells[j]).is_revealed) && r is Some ==> r == Some(AiAction::Reveal(centre(dims))))
    &&& (r matches Some(AiAction::Flag(c)) ==> exists|i: int| 0 <= i < cells.len() && #[trigger] covered(cells, i) && c == cell_coord(dims, i))
    &&& (r matches Some(AiAction::Chord(c)) ==> exists|i: int| 0 <= i < cells.len() && #[trigger] chordable(dims, cells, i) && c == cell_coord(dims, i)
        && forall|j: int| 0 <= j < i ==> !#[trigger] chordable(dims, cells, j))
    &&& ((exists|j: int| 0 <= j < cells.len() && #[trigger] chordable(dims, cells, j)) ==> r matches Some(AiAction::Chord(_)))
    &&& (r matches Some(AiAction::Flag(c)) ==> (tier is Novice || tier is Intermediate) ==> exists|i: int| 0 <= i < cells.len() && #[trigger] covered(cells, i) && c == cell_coord(dims, i) && surely_mine(dims, cells, i))
    &&& (r matches Some(AiAction::Reveal(c)) ==> (c == centre(dims) && forall|j: int| 0 <= j < cells.len() ==> !(#[trigger] cells[j]).is_revealed)
        || exists|i: int| 0 <= i < cells.len() && #[trigger] covered(cells, i) && c == cell_coord(dims, i))
    &&& (tier_rules(dims, cells, tier, total_mines, r))
}

/// The next move of an AI player of tier `tier` on a snapshot in index
/// order.
fn decide_ordered(dims: Dimensions, cells: &[CellSnapshot], tier: BotTier, total_mines: usize) -> (r: Option<AiAction>)
    requires
        board_snapshot(dims, cells@),
    ensures
        ai_may_choose(dims, cells@, tier, total_mines, r),
{
    let hesitate = tier == BotTier::Novice && crate::chance::chance_ratio(3, 100);
    let plan = plan_move(dims, cells, tier, total_mines, hesitate);
    proof {
        if exists|j: int| 0 <= j < cells@.len() && #[trigger] chordable(dims, cells@, j) {
            let j = choose|j: int| 0 <= j < cells@.len() && #[trigger] chordable(dims, cells@, j);
            assert(cells@[j].is_revealed);
            let k = choose|k: int| 0 <= k < cells@.len() && covered(cells@, k) && #[trigger] near(dims, j, k);
            assert(covered(cells@, k));
        }
        if plan is Idle {
            assert forall|c: int| 0 <= c < cells@.len() implies !#[trigger] plainly_safe(dims, cells@, c) && !plainly_mine(dims, cells@, c) by {
                assert(!covered(cells@, c));
            }
        }
        if exists|c: int| 0 <= c < cells@.len() && #[trigger] plainly_safe(dims, cells@, c) {
            let c = choose|c: int| 0 <= c < cells@.len() && #[trigger] plainly_safe(dims, cells@, c);
            assert(covered(cells@, c));
        }
        if exists|c: int| 0 <= c < cells@.len() && #[trigger] plainly_mine(dims, cells@, c) {
            let c = choose|c: int| 0 <= c < cells@.len() && #[trigger] plainly_mine(dims, cells@, c);
            assert(covered(cells@, c));
        }
    }
    let ghost gp = plan;
    let r = match plan {
        Plan::Idle => None,
        Plan::Open(c) => Some(AiAction::Reveal(c)),
        Plan::Chord(c) => Some(AiAction::Chord(c)),
        Plan::Safe(c) => Some(AiAction::Reveal(c)),
        Plan::Mine(c) => Some(AiAction::Flag(c)),
        Plan::Likely(c) => Some(AiAction::Reveal(c)),
        Plan::LikelyMine(c) => Some(AiAction::Flag(c)),
        Plan::Risk(c) => Some(AiAction::Reveal(c)),
        Plan::Random(v) => {
            let k = crate::chance::index_below(v.len());
            proof {
                assert(v@.contains(v@[k as int]));
            }
            Some(AiAction::Reveal(v[k]))
        }
    };
    proof {
        if !(tier is Novice) && (exists|j: int| 0 <= j < cells@.len() && #[trigger] covered(cells@, j))
            && (exists|j: int| 0 <= j < cells@.len() && (#[trigger] cells@[j]).is_revealed)
            && !(exists|j: int| 0 <= j < cells@.len() && #[trigger] chordable(dims, cells@, j))
            && !(exists|c: int| 0 <= c < cells@.len() && #[trigger] plainly_safe(dims, cells@, c))
            && !(exists|c: int| 0 <= c < cells@.len() && #[trigger] plainly_mine(dims, cells@, c)) {
            let n = cells@.len() as usize;
            let (e, ss, sm, red) = choose|e: Seq<Equation>, ss: Seq<bool>, sm: Seq<bool>, red: Seq<Equation>|
                #![trigger snapshot_eqs(dims, cells@, e), subset_result(e, n, ss, sm, red)]
                snapshot_eqs(dims, cells@, e) && subset_result(e, n, ss, sm, red)
                && ((tier is Intermediate || marks_any(cells@, ss, sm)) ==> marked_plan(dims, cells@, ss, sm, gp))
                && (!(tier is Novice || tier is Intermediate) && !marks_any(cells@, ss, sm) ==> exists|labels: Seq<usize>, sols: Seq<FrontierSolution>|
                    #[trigger] components_run(red, n, component_cap(tier is Master), labels, sols)
                    && marked_plan(dims, cells@, sols.last().safe@, sols.last().mines@, gp));
            if tier is Intermediate || marks_any(cells@, ss, sm) {
                lemma_marked_move(dims, cells@, ss, sm, gp, r);
            } else {
                let (labels, sols) = choose|labels: Seq<usize>, sols: Seq<FrontierSolution>|
                    #[trigger] components_run(red, n, component_cap(tier is Master), labels, sols)
                    && marked_plan(dims, cells@, sols.last().safe@, sols.last().mines@, gp);
                lemma_marked_move(dims, cells@, sols.last().safe@, sols.last().mines@, gp, r);
                assert(components_run(red, n, component_cap(tier is Master), labels, sols));
            }
            assert(snapshot_eqs(dims, cells@, e) && subset_result(e, n, ss, sm, red));
            assert(deduction_rules(dims, cells@, tier, total_mines, r));
        }
    }
    r
}

/// `cells` holds each position of the grid `dims` exactly once, in any
/// order, on a grid whose sizes fit.
pub open spec fn full_snapshot(dims: Dimensions, cells: Seq<CellSnapshot>) -> bool {
    &&& usable(dims)
    &&& cells.len() == dims.total()
    &&& forall|j: int| 0 <= j < cells.len() ==> dims.valid(#[trigger] cells[j].coord)
    &&& forall|j1: int, j2: int| 0 <= j1 < j2 < cells.len() ==> #[trigger] cells[j1].coord != #[trigger] cells[j2].coord
    &&& forall|i: int| 0 <= i < dims.total() ==> #[trigger] present(dims, cells, i)
}

/// Some cell of `cells` stands at the `i`-th position of the grid.
pub open spec fn present(dims: Dimensions, cells: Seq<CellSnapshot>, i: int) -> bool {
    exists|j: int| 0 <= j < cells.len() && #[trigger] cells[j].coord == cell_coord(dims, i)
}

/// The snapshot `cells` put in index order: at index `i`, the cell whose
/// position is the `i`-th.
pub open spec fn arranged(dims: Dimensions, cells: Seq<CellSnapshot>) -> Seq<CellSnapshot> {
    Seq::new(cells.len(), |i: int| cells[choose|j: int| 0 <= j < cells.len() && cells[j].coord == cell_coord(dims, i)])
}

/// A snapshot in index order is full, and is its own arrangement.
pub proof fn lemma_ordered_is_arranged(dims: Dimensions, cells: Seq<CellSnapshot>)
    requires
        board_snapshot(dims, cells),
    ensures
        full_snapshot(dims, cells),
        arranged(dims, cells) == cells,
{
    assert forall|j: int| 0 <= j < cells.len() implies dims.valid(#[trigger] cells[j].coord) by {
        lemma_cell_coord(dims, j);
    }
    assert forall|j1: int, j2: int| 0 <= j1 < j2 < cells.len() implies #[trigger] cells[j1].coord != #[trigger] cells[j2].coord by {
        lemma_cell_coord(dims, j1);
        lemma_cell_coord(dims, j2);
    }
    assert forall|i: int| 0 <= i < dims.total() implies #[trigger] present(dims, cells, i) by {
        assert(cells[i].coord == cell_coord(dims, i));
    }
    assert forall|i: int| 0 <= i < cells.len() implies #[trigger] arranged(dims, cells)[i] == cells[i] by {
        let j = choose|j: int| 0 <= j < cells.len() && cells[j].coord == cell_coord(dims, i);
        assert(cells[i].coord == cell_coord(dims, i));
        if j != i {
            lemma_cell_coord(dims, j);
            lemma_cell_coord(dims, i);
        }
    }
    assert(arranged(dims, cells) =~= cells);
}

/// An exact copy of a cell snapshot.
fn copy_snapshot(c: &CellSnapshot) -> (r: CellSnapshot)
    ensures
        r == *c,
{
    CellSnapshot {
        coord: c.coord,
        is_revealed: c.is_revealed,
        adjacent_mines: c.adjacent_mines,
        is_flagged: c.is_flagged,
        is_mine: c.is_mine,
        revealed_by: crate::text::clone_opt(&c.revealed_by),
        player_color: crate::text::clone_opt(&c.player_color),
    }
}

/// The snapshot put in index order, when it holds each position of the grid
/// exactly once.
pub fn arrange(dims: Dimensions, cells: &[CellSnapshot]) -> (r: Option<Vec<CellSnapshot>>)
    ensures
        r is Some <==> full_snapshot(dims, cells@),
        r matches Some(v) ==> v@ == arranged(dims, cells@) && board_snapshot(dims, v@),
{
    if dims.width > 0x7fff_ffff || dims.height > 0x7fff_ffff || dims.depth > 0x7fff_ffff {
        return None;
    }
    let area = match dims.width.checked_mul(dims.height) {
        Some(a) => a,
        None => {
            return None;
        }
    };
    let total = match area.checked_mul(dims.depth) {
        Some(t) => t,
        None => {
            proof {
                assert(dims.width * dims.height * dims.depth == area * dims.depth);
            }
            return None;
        }
    };
    proof {
        assert(usable(dims));
    }
    if cells.len() != total {
        return None;
    }
    let w = dims.width;
    let h = dims.height;
    let mut slots: Vec<Option<usize>> = Vec::new();
    let mut i: usize = 0;
    while i < total
        invariant
            i <= total,
            slots@.len() == i,
            forall|k: int| 0 <= k < i ==> #[trigger] slots@[k] is None,
        decreases total - i,
    {
        slots.push(None);
        i = i + 1;
    }
    let mut j: usize = 0;
    while j < total
        invariant
            j <= total,
            total == dims.total(),
            cells@.len() == total,
            usable(dims),
            w == dims.width,
            h == dims.height,
            slots@.len() == total,
            forall|j2: int| 0 <= j2 < j ==> dims.valid(#[trigger] cells@[j2].coord),
            forall|j1: int, j2: int| 0 <= j1 < j2 < j ==> #[trigger] cells@[j1].coord != #[trigger] cells@[j2].coord,
            forall|k: int| 0 <= k < total ==> match #[trigger] slots@[k] {
                Some(q) => q < j && cells@[q as int].coord == cell_coord(dims, k),
                None => forall|j2: int| 0 <= j2 < j ==> #[trigger] cells@[j2].coord != cell_coord(dims, k),
            },
        decreases total - j,
    {
        let c = cells[j].coord;
        if !dims.is_valid_coord(c) {
            return None;
        }
        proof {
            lemma_valid_index(dims, c);
        }
        let k = c.to_index(w, h);
        proof {
            assert(c == cell_coord(dims, k as int));
        }
        match slots[k] {
            Some(q) => {
                proof {
                    assert(cells@[q as int].coord == cells@[j as int].coord);
                }
                return None;
            }
            None => {}
        }
        proof {
            assert forall|j2: int| 0 <= j2 < j implies #[trigger] cells@[j2].coord != c by {
                assert(cells@[j2].coord != cell_coord(dims, k as int));
            }
        }
        let ghost before = slots@;
        slots.set(k, Some(j));
        proof {
            assert forall|k2: int| 0 <= k2 < total implies match #[trigger] slots@[k2] {
                Some(q) => q < j + 1 && cells@[q as int].coord == cell_coord(dims, k2),
                None => forall|j2: int| 0 <= j2 < j + 1 ==> #[trigger] cells@[j2].coord != cell_coord(dims, k2),
            } by {
                if k2 != k as int {
                    assert(slots@[k2] == before[k2]);
                    if slots@[k2] is None {
                        lemma_cell_coord(dims, k2);
                        assert(cell_coord(dims, k2) != c);
                    }
                }
            }
        }
        j = j + 1;
    }
    let mut out: Vec<CellSnapshot> = Vec::new();
    let mut k: usize = 0;
    while k < total
        invariant
            k <= total,
            total == dims.total(),
            cells@.len() == total,
            usable(dims),
            slots@.len() == total,
            forall|j2: int| 0 <= j2 < total ==> dims.valid(#[trigger] cells@[j2].coord),
            forall|j1: int, j2: int| 0 <= j1 < j2 < total ==> #[trigger] cells@[j1].coord != #[trigger] cells@[j2].coord,
            forall|k2: int| 0 <= k2 < total ==> match #[trigger] slots@[k2] {
                Some(q) => q < total && cells@[q as int].coord == cell_coord(dims, k2),
                None => forall|j2: int| 0 <= j2 < total ==> #[trigger] cells@[j2].coord != cell_coord(dims, k2),
            },
            out@.len() == k,
            forall|k2: int| 0 <= k2 < k ==> #[trigger] out@[k2] == arranged(dims, cells@)[k2],
            forall|k2: int| 0 <= k2 < k ==> #[trigger] present(dims, cells@, k2),
        decreases total - k,
    {
        match slots[k] {
            Some(q) => {
                proof {
                    let jj = choose|jj: int| 0 <= jj < cells@.len() && cells@[jj].coord == cell_coord(dims, k as int);
                    if jj != q as int {
                        if jj < q as int {
                            assert(cells@[jj].coord != cells@[q as int].coord);
                        } else {
                            assert(cells@[q as int].coord != cells@[jj].coord);
                        }
                    }
                    assert(arranged(dims, cells@)[k as int] == cells@[q as int]);
                    assert(present(dims, cells@, k as int));
                }
                out.push(copy_snapshot(&cells[q]));
            }
            None => {
                proof {
                    assert(!present(dims, cells@, k as int));
                }
                return None;
            }
        }
        k = k + 1;
    }
    proof {
        assert(out@ =~= arranged(dims, cells@));
        assert forall|i: int| 0 <= i < out@.len() implies (#[trigger] out@[i]).coord == cell_coord(dims, i) by {
            assert(present(dims, cells@, i));
            let q = choose|q: int| 0 <= q < cells@.len() && cells@[q].coord == cell_coord(dims, i);
        }
    }
    Some(out)
}

/// Whether `cells` holds each position of the grid `dims` exactly once.
pub fn is_full_snapshot(dims: Dimensions, cells: &[CellSnapshot]) -> (b: bool)
    ensures
        b == full_snapshot(dims, cells@),
{
    match arrange(dims, cells) {
        Some(_) => true,
        None => false,
    }
}

/// Some cell is covered and some uncovered, no number can be chorded and
/// no number settles a cell on its own: the position where the tiers
/// deduce further or guess.
pub open spec fn past_single_numbers(dims: Dimensions, cells: Seq<CellSnapshot>) -> bool {
    &&& exists|j: int| 0 <= j < cells.len() && #[trigger] covered(cells, j)
    &&& exists|j: int| 0 <= j < cells.len() && (#[trigger] cells[j]).is_revealed
    &&& !exists|j: int| 0 <= j < cells.len() && #[trigger] chordable(dims, cells, j)
    &&& !exists|c: int| 0 <= c < cells.len() && #[trigger] plainly_safe(dims, cells, c)
    &&& !exists|c: int| 0 <= c < cells.len() && #[trigger] plainly_mine(dims, cells, c)
}

/// When the intermediate AI has nothing certain to play, it uncovers a
/// covered cell of the reduced equations whose average mine ratio is no
/// higher than that of any other such cell.
pub proof fn law_intermediate_guess_is_least_risky(dims: Dimensions, cells: Seq<CellSnapshot>, total_mines: usize, r: Option<AiAction>)
    requires
        ai_may_choose(dims, cells, BotTier::Intermediate, total_mines, r),
        past_single_numbers(dims, cells),
    ensures
        exists|eqs: Seq<Equation>, ss: Seq<bool>, sm: Seq<bool>, red: Seq<Equation>|
            #![trigger snapshot_eqs(dims, cells, eqs), subset_result(eqs, cells.len() as usize, ss, sm, red)] {
            &&& snapshot_eqs(dims, cells, eqs)
            &&& subset_result(eqs, cells.len() as usize, ss, sm, red)
            &&& !marks_any(cells, ss, sm) && (exists|j: int| 0 <= j < cells.len() && #[trigger] crate::solver::candidate(red, covered_mask(cells), j)) ==>
                (r matches Some(AiAction::Reveal(c)) && exists|i: int| 0 <= i < cells.len() && c == cell_coord(dims, i)
                    && #[trigger] crate::solver::candidate(red, covered_mask(cells), i)
                    && forall|j: int| 0 <= j < cells.len() && #[trigger] crate::solver::candidate(red, covered_mask(cells), j) ==>
                        crate::solver::avg_risk(red, i) <= crate::solver::avg_risk(red, j))
        },
{
    let n = cells.len() as usize;
    let (e, ss, sm, red) = choose|e: Seq<Equation>, ss: Seq<bool>, sm: Seq<bool>, red: Seq<Equation>|
        #![trigger snapshot_eqs(dims, cells, e), subset_result(e, n, ss, sm, red)]
        snapshot_eqs(dims, cells, e) && subset_result(e, n, ss, sm, red)
        && (!marks_any(cells, ss, sm) ==> least_risk_move(dims, cells, red, r));
    assert(snapshot_eqs(dims, cells, e) && subset_result(e, n, ss, sm, red));
}

/// When the advanced AI has nothing certain to play and the covered cells
/// off the equations are riskier than the least risky estimated cell, it
/// uncovers an estimated cell whose estimate is no higher than that of any
/// other estimated cell.
pub proof fn law_advanced_guess_is_least_likely_mined(dims: Dimensions, cells: Seq<CellSnapshot>, total_mines: usize, r: Option<AiAction>)
    requires
        ai_may_choose(dims, cells, BotTier::Advanced, total_mines, r),
        past_single_numbers(dims, cells),
    ensures
        exists|eqs: Seq<Equation>, ss: Seq<bool>, sm: Seq<bool>, red: Seq<Equation>|
            #![trigger snapshot_eqs(dims, cells, eqs), subset_result(eqs, cells.len() as usize, ss, sm, red)] {
            &&& snapshot_eqs(dims, cells, eqs)
            &&& subset_result(eqs, cells.len() as usize, ss, sm, red)
            &&& !marks_any(cells, ss, sm) ==> exists|labels: Seq<usize>, sols: Seq<FrontierSolution>| {
                let fs = sols.last();
                let n = cells.len() as int;
                let share = interior_chance(remaining_mines(total_mines, cells), estimate_total(fs.probs@, fs.has_prob@, n), interior_count(cells, red, n));
                &&& #[trigger] components_run(red, cells.len() as usize, component_cap(false), labels, sols)
                &&& !marks_any(cells, fs.safe@, fs.mines@) ==> forall|m: int|
                    0 <= m < n && #[trigger] least_prob(fs.probs@, fs.has_prob@, m) && !(interior_count(cells, red, n) > 0 && share <= fs.probs@[m]) ==>
                    (r matches Some(AiAction::Reveal(c)) && exists|i: int| c == cell_coord(dims, i) && #[trigger] least_prob(fs.probs@, fs.has_prob@, i))
            }
        },
{
    let n = cells.len() as usize;
    let (e, ss, sm, red) = choose|e: Seq<Equation>, ss: Seq<bool>, sm: Seq<bool>, red: Seq<Equation>|
        #![trigger snapshot_eqs(dims, cells, e), subset_result(e, n, ss, sm, red)]
        snapshot_eqs(dims, cells, e) && subset_result(e, n, ss, sm, red)
        && (!marks_any(cells, ss, sm) ==> exists|labels: Seq<usize>, sols: Seq<FrontierSolution>|
            #[trigger] components_run(red, n, component_cap(false), labels, sols)
            && (!marks_any(cells, sols.last().safe@, sols.last().mines@) ==> guess_move(dims, cells, red, sols.last().probs@,
                sols.last().has_prob@, false, remaining_mines(total_mines, cells), r)));
    if !marks_any(cells, ss, sm) {
        let (labels, sols) = choose|labels: Seq<usize>, sols: Seq<FrontierSolution>|
            #[trigger] components_run(red, n, component_cap(false), labels, sols)
            && (!marks_any(cells, sols.last().safe@, sols.last().mines@) ==> guess_move(dims, cells, red, sols.last().probs@,
                sols.last().has_prob@, false, remaining_mines(total_mines, cells), r));
        let fs = sols.last();
        let nn = cells.len() as int;
        let share = interior_chance(remaining_mines(total_mines, cells), estimate_total(fs.probs@, fs.has_prob@, nn), interior_count(cells, red, nn));
        if !marks_any(cells, fs.safe@, fs.mines@) {
            assert forall|m: int|
                0 <= m < nn && #[trigger] least_prob(fs.probs@, fs.has_prob@, m) && !(interior_count(cells, red, nn) > 0 && share <= fs.probs@[m]) implies
                (r matches Some(AiAction::Reveal(c)) && exists|i: int| c == cell_coord(dims, i) && #[trigger] least_prob(fs.probs@, fs.has_prob@, i)) by {
                assert(fs.has_prob@[m]);
                let m0 = choose|m0: int| #[trigger] least_prob(fs.probs@, fs.has_prob@, m0) && {
                    let interior_first = interior_count(cells, red, nn) > 0 && share <= fs.probs@[m0];
                    &&& interior_first ==> (r matches Some(AiAction::Reveal(c))
                        && exists|i: int| 0 <= i < nn && #[trigger] covered(cells, i) && !in_support(red, i as usize) && c == cell_coord(dims, i))
                    &&& !interior_first ==> (r matches Some(AiAction::Reveal(c))
                        && exists|i: int| #[trigger] least_prob(fs.probs@, fs.has_prob@, i) && c == cell_coord(dims, i))
                };
                assert(fs.probs@[m0] <= fs.probs@[m]);
                assert(fs.probs@[m] <= fs.probs@[m0]);
            }
        }
        assert(components_run(red, n, component_cap(false), labels, sols));
    }
    assert(snapshot_eqs(dims, cells, e) && subset_result(e, n, ss, sm, red));
}

impl AiSolver {
    /// The next move of an AI player of tier `tier` on what it sees, each
    /// position of the grid once, in any order: none when nothing is left
    /// to uncover; the centre on an untouched board; a chord, a deduced safe
    /// cell or mine, a risk-ranked guess, or (where the tier guesses
    /// blindly) a random covered cell otherwise. A novice hesitates three
    /// times in a hundred and uncovers a random covered cell.
    pub fn decide_action(dims: Dimensions, cells: &[CellSnapshot], tier: BotTier, total_mines: usize) -> (r: Option<AiAction>)
        requires
            full_snapshot(dims, cells@),
        ensures
            ai_may_choose(dims, arranged(dims, cells@), tier, total_mines, r),
    {
        match arrange(dims, cells) {
            Some(v) => decide_ordered(dims, v.as_slice(), tier, total_mines),
            None => None,
        }
    }
}

} // verus!
