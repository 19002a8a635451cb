//! The deduction engine behind the AI players: constraints read off the
//! uncovered numbers, single-constraint deductions, subset reduction, exact
//! model counting on connected components, and guessing by risk.
use vstd::prelude::*;
use crate::topology::{Coord3D, Dimensions, coord_of, lemma_coord_round_trip};
use crate::board::{mines_among, lemma_mines_among_zero, lemma_valid_index, lemma_cell_coord, cell_coord, cell_index};

verus! {

#[derive(Debug, Clone, Copy, PartialEq, Eq, Structural)]
pub enum BotTier {
    Novice,
    Intermediate,
    Advanced,
    Master,
}

impl BotTier {
    pub fn name_en(&self) -> (s: &'static str)
        ensures
            s@ == match *self {
                BotTier::Novice => "Novice"@,
                BotTier::Intermediate => "Intermediate"@,
                BotTier::Advanced => "Advanced"@,
                BotTier::Master => "Master"@,
            },
    {
        match self {
            BotTier::Novice => "Novice",
            BotTier::Intermediate => "Intermediate",
            BotTier::Advanced => "Advanced",
            BotTier::Master => "Master",
        }
    }

    pub fn name_zh(&self) -> (s: &'static str)
        ensures
            s@ == match *self {
                BotTier::Novice => "初级·新手"@,
                BotTier::Intermediate => "中级·进阶"@,
                BotTier::Advanced => "高级·专家"@,
                BotTier::Master => "大师·宗师"@,
            },
    {
        match self {
            BotTier::Novice => "初级·新手",
            BotTier::Intermediate => "中级·进阶",
            BotTier::Advanced => "高级·专家",
            BotTier::Master => "大师·宗师",
        }
    }
}

/// The AI players' move selection.
pub struct AiSolver;

#[derive(Debug, Clone, PartialEq, Eq, Structural)]
pub enum AiAction {
    Reveal(Coord3D),
    Flag(Coord3D),
    Chord(Coord3D),
}

} // verus!

verus! {

/// A constraint read off the board: exactly `mines` of the cells at the
/// linear indices `cells` (strictly increasing) hold a mine.
#[derive(Debug)]
pub struct Equation {
    pub cells: Vec<usize>,
    pub mines: usize,
}

pub open spec fn increasing(s: Seq<usize>) -> bool {
    forall|a: int, b: int| 0 <= a < b < s.len() ==> s[a] < s[b]
}

/// Every element of `s` is below `n`.
pub open spec fn below(s: Seq<usize>, n: nat) -> bool {
    forall|k: int| 0 <= k < s.len() ==> s[k] < n
}

/// How many indices below `n` lie in `s` and hold a mine in `m`.
pub open spec fn tally(m: Seq<bool>, s: Seq<usize>, n: nat) -> nat
    decreases n,
{
    if n == 0 {
        0
    } else {
        tally(m, s, (n - 1) as nat) + if s.contains((n - 1) as usize) && m[n - 1] {
            1nat
        } else {
            0nat
        }
    }
}

/// How many indices below `n` lie in `s`.
pub open spec fn members(s: Seq<usize>, n: nat) -> nat
    decreases n,
{
    if n == 0 {
        0
    } else {
        members(s, (n - 1) as nat) + if s.contains((n - 1) as usize) {
            1nat
        } else {
            0nat
        }
    }
}

/// The mine layout `m` (over `n` cells) meets equation `e`.
pub open spec fn holds(m: Seq<bool>, e: Equation, n: nat) -> bool {
    tally(m, e.cells@, n) == e.mines
}

/// The mine layout `m` meets every equation of `eqs`.
pub open spec fn meets_all(m: Seq<bool>, eqs: Seq<Equation>, n: nat) -> bool {
    forall|k: int| 0 <= k < eqs.len() ==> #[trigger] holds(m, eqs[k], n)
}

/// An equation over the cells below `n`, its cells strictly increasing.
pub open spec fn well_formed(e: Equation, n: nat) -> bool {
    increasing(e.cells@) && below(e.cells@, n)
}

pub open spec fn all_well_formed(eqs: Seq<Equation>, n: nat) -> bool {
    forall|k: int| 0 <= k < eqs.len() ==> #[trigger] well_formed(eqs[k], n)
}

/// In layout `m`, no cell marked in `safe` holds a mine and every cell marked
/// in `mines` holds one.
pub open spec fn marks_hold(m: Seq<bool>, safe: Seq<bool>, mines: Seq<bool>, n: nat) -> bool {
    forall|c: int| #![trigger safe[c]] #![trigger mines[c]] 0 <= c < n ==> (safe[c] ==> !m[c]) && (mines[c] ==> m[c])
}

/// `safe` and `mines` (masks over `n` cells) hold of every layout that meets
/// `eqs`: a cell in `safe` has no mine and a cell in `mines` has one.
pub open spec fn sound_marks(eqs: Seq<Equation>, n: nat, safe: Seq<bool>, mines: Seq<bool>) -> bool {
    forall|m: Seq<bool>|
        #![trigger meets_all(m, eqs, n)]
        m.len() == n && meets_all(m, eqs, n) ==> marks_hold(m, safe, mines, n)
}

/// Every layout that meets `eqs` meets `derived`.
pub open spec fn implied(eqs: Seq<Equation>, derived: Seq<Equation>, n: nat) -> bool {
    forall|m: Seq<bool>|
        #![trigger meets_all(m, eqs, n)]
        m.len() == n && meets_all(m, eqs, n) ==> meets_all(m, derived, n)
}

/// Splitting `b` into the disjoint `a` and `d` splits its tally.
pub proof fn lemma_tally_split(m: Seq<bool>, a: Seq<usize>, b: Seq<usize>, d: Seq<usize>, n: nat)
    requires
        n <= usize::MAX,
        forall|i: usize| i < n ==> (b.contains(i) <==> (a.contains(i) || d.contains(i))),
        forall|i: usize| i < n ==> !(a.contains(i) && d.contains(i)),
    ensures
        tally(m, b, n) == tally(m, a, n) + tally(m, d, n),
        members(b, n) == members(a, n) + members(d, n),
    decreases n,
{
    if n > 0 {
        lemma_tally_split(m, a, b, d, (n - 1) as nat);
        let i = (n - 1) as usize;
        assert(b.contains(i) <==> (a.contains(i) || d.contains(i)));
    }
}

/// The tally is at most the number of members, and equals it exactly when every
/// member holds a mine; it is 0 exactly when no member holds one.
pub proof fn lemma_tally_bounds(m: Seq<bool>, s: Seq<usize>, n: nat)
    requires
        n <= usize::MAX,
    ensures
        tally(m, s, n) <= members(s, n),
        tally(m, s, n) == members(s, n) <==> forall|i: int| 0 <= i < n && #[trigger] s.contains(i as usize) ==> m[i],
        tally(m, s, n) == 0 <==> forall|i: int| 0 <= i < n && #[trigger] s.contains(i as usize) ==> !m[i],
    decreases n,
{
    if n > 0 {
        lemma_tally_bounds(m, s, (n - 1) as nat);
        let j = n - 1;
        if tally(m, s, n) == members(s, n) {
            assert forall|i: int| 0 <= i < n && #[trigger] s.contains(i as usize) implies m[i] by {
                if i < j {
                    assert(tally(m, s, (n - 1) as nat) == members(s, (n - 1) as nat));
                }
            }
        }
        if forall|i: int| 0 <= i < n && #[trigger] s.contains(i as usize) ==> m[i] {
            assert forall|i: int| 0 <= i < j && #[trigger] s.contains(i as usize) implies m[i] by {}
        }
        if tally(m, s, n) == 0 {
            assert forall|i: int| 0 <= i < n && #[trigger] s.contains(i as usize) implies !m[i] by {
                if i < j {
                    assert(tally(m, s, (n - 1) as nat) == 0);
                }
            }
        }
        if forall|i: int| 0 <= i < n && #[trigger] s.contains(i as usize) ==> !m[i] {
            assert forall|i: int| 0 <= i < j && #[trigger] s.contains(i as usize) implies !m[i] by {}
        }
    }
}

/// A strictly increasing sequence below `n` has as many members below `n` as elements.
pub proof fn lemma_members_len(s: Seq<usize>, n: nat)
    requires
        n <= usize::MAX,
        increasing(s),
        below(s, n),
    ensures
        members(s, n) == s.len(),
    decreases n,
{
    if n > 0 {
        let j = (n - 1) as usize;
        if s.len() > 0 && s.last() == j {
            let t = s.drop_last();
            assert(below(t, (n - 1) as nat)) by {
                assert forall|k: int| 0 <= k < t.len() implies t[k] < (n - 1) as nat by {
                    assert(s[k] < s[s.len() - 1]);
                }
            }
            assert(increasing(t));
            lemma_members_len(t, (n - 1) as nat);
            assert forall|i: usize| i < (n - 1) as nat implies (s.contains(i) <==> t.contains(i)) by {
                if s.contains(i) {
                    let k = s.index_of(i);
                    assert(k != s.len() - 1);
                    assert(t[k] == i);
                }
                if t.contains(i) {
                    let k = t.index_of(i);
                    assert(s[k] == i);
                }
            }
            lemma_members_same(s, t, (n - 1) as nat);
            assert(s[s.len() - 1] == j);
            assert(s.contains(j));
            assert(members(s, n) == members(s, (n - 1) as nat) + 1);
        } else {
            assert(!s.contains(j)) by {
                if s.contains(j) {
                    let k = s.index_of(j);
                    if s.len() > 0 {
                        assert(s[k] <= s[s.len() - 1]);
                    }
                }
            }
            assert(below(s, (n - 1) as nat)) by {
                assert forall|k: int| 0 <= k < s.len() implies s[k] < (n - 1) as nat by {
                    if s[k] == j {
                        assert(s.contains(j));
                    }
                }
            }
            lemma_members_len(s, (n - 1) as nat);
            assert(members(s, n) == members(s, (n - 1) as nat));
        }
    } else {
        if s.len() > 0 {
            assert(s[0] < n);
        }
    }
}

/// Two sequences with the same members below `n` count the same.
pub proof fn lemma_members_same(s: Seq<usize>, t: Seq<usize>, n: nat)
    requires
        n <= usize::MAX,
        forall|i: usize| i < n ==> (s.contains(i) <==> t.contains(i)),
    ensures
        members(s, n) == members(t, n),
        forall|m: Seq<bool>| tally(m, s, n) == #[trigger] tally(m, t, n),
    decreases n,
{
    if n > 0 {
        lemma_members_same(s, t, (n - 1) as nat);
        let j = (n - 1) as usize;
        assert(s.contains(j) <==> t.contains(j));
        assert forall|m: Seq<bool>| tally(m, s, n) == #[trigger] tally(m, t, n) by {
            assert(tally(m, s, (n - 1) as nat) == tally(m, t, (n - 1) as nat));
        }
    }
}

/// An exact copy of a cell list.
pub fn copy_cells(v: &Vec<usize>) -> (r: Vec<usize>)
    ensures
        r@ == v@,
{
    let mut r: Vec<usize> = Vec::new();
    let mut i: usize = 0;
    while i < v.len()
        invariant
            i <= v.len(),
            r@ == v@.take(i as int),
        decreases v.len() - i,
    {
        r.push(v[i]);
        proof {
            assert(v@.take(i + 1) == v@.take(i as int).push(v@[i as int]));
        }
        i = i + 1;
    }
    proof {
        assert(v@.take(v.len() as int) == v@);
    }
    r
}

/// Whether `v` holds `x`.
pub fn holds_index(v: &Vec<usize>, x: usize) -> (b: bool)
    ensures
        b == v@.contains(x),
{
    let mut i: usize = 0;
    while i < v.len()
        invariant
            i <= v.len(),
            forall|k: int| 0 <= k < i ==> v@[k] != x,
        decreases v.len() - i,
    {
        if v[i] == x {
            assert(v@[i as int] == x);
            return true;
        }
        i = i + 1;
    }
    false
}

/// Whether two cell lists are equal.
pub fn same_cells(a: &Vec<usize>, b: &Vec<usize>) -> (r: bool)
    ensures
        r == (a@ == b@),
{
    if a.len() != b.len() {
        return false;
    }
    let mut i: usize = 0;
    while i < a.len()
        invariant
            i <= a.len(),
            a.len() == b.len(),
            forall|k: int| 0 <= k < i ==> a@[k] == b@[k],
        decreases a.len() - i,
    {
        if a[i] != b[i] {
            return false;
        }
        i = i + 1;
    }
    assert(a@ =~= b@);
    true
}

/// Whether every cell of `a` is a cell of `b`.
pub fn is_subset(a: &Vec<usize>, b: &Vec<usize>) -> (r: bool)
    ensures
        r == forall|x: usize| #[trigger] a@.contains(x) ==> b@.contains(x),
{
    let mut i: usize = 0;
    while i < a.len()
        invariant
            i <= a.len(),
            forall|k: int| 0 <= k < i ==> b@.contains(#[trigger] a@[k]),
        decreases a.len() - i,
    {
        if !holds_index(b, a[i]) {
            assert(a@.contains(a@[i as int]));
            return false;
        }
        i = i + 1;
    }
    assert forall|x: usize| #[trigger] a@.contains(x) implies b@.contains(x) by {
        let k = a@.index_of(x);
        assert(b@.contains(a@[k]));
    }
    true
}

/// The cells of `b` that are not cells of `a`, in the order of `b`.
pub fn difference(b: &Vec<usize>, a: &Vec<usize>) -> (d: Vec<usize>)
    ensures
        forall|x: usize| #[trigger] d@.contains(x) <==> (b@.contains(x) && !a@.contains(x)),
        increasing(b@) ==> increasing(d@),
        forall|n: nat| below(b@, n) ==> below(d@, n),
        d@.len() <= b@.len(),
{
    let mut d: Vec<usize> = Vec::new();
    let ghost mut pos: Seq<int> = Seq::empty();
    let mut i: usize = 0;
    while i < b.len()
        invariant
            i <= b.len(),
            d@.len() <= i,
            forall|x: usize| #[trigger] d@.contains(x) <==> (b@.take(i as int).contains(x) && !a@.contains(x)),
            forall|k: int| 0 <= k < d@.len() ==> exists|j: int| 0 <= j < i && b@[j] == #[trigger] d@[k],
            pos.len() == d@.len(),
            forall|k: int| 0 <= k < d@.len() ==> 0 <= #[trigger] pos[k] < i && b@[pos[k]] == d@[k],
            forall|k1: int, k2: int| 0 <= k1 < k2 < d@.len() ==> #[trigger] pos[k1] < #[trigger] pos[k2],
        decreases b.len() - i,
    {
        let x = b[i];
        let ghost before = d@;
        if !holds_index(a, x) {
            d.push(x);
            proof {
                pos = pos.push(i as int);
            }
        }
        proof {
            let t = b@.take(i + 1);
            assert(t == b@.take(i as int).push(x));
            assert forall|y: usize| #[trigger] d@.contains(y) <==> (t.contains(y) && !a@.contains(y)) by {
                if d@.contains(y) {
                    let k = d@.index_of(y);
                    if k < before.len() {
                        assert(before[k] == y);
                        assert(before.contains(y));
                        assert(b@.take(i as int).contains(y));
                        let q = b@.take(i as int).index_of(y);
                        assert(t[q] == y);
                    } else {
                        assert(y == x);
                        assert(t[i as int] == y);
                    }
                }
                if t.contains(y) && !a@.contains(y) {
                    let k = t.index_of(y);
                    if k < i {
                        assert(b@.take(i as int)[k] == y);
                        assert(b@.take(i as int).contains(y));
                        assert(before.contains(y));
                        let q = before.index_of(y);
                        assert(d@[q] == y);
                    } else {
                        assert(d@[d@.len() - 1] == y);
                    }
                }
            }
            assert forall|k: int| 0 <= k < d@.len() implies exists|j: int| 0 <= j < i + 1 && b@[j] == #[trigger] d@[k] by {
                if k < before.len() {
                    assert(d@[k] == before[k]);
                    let j = choose|j: int| 0 <= j < i && b@[j] == #[trigger] before[k];
                } else {
                    assert(b@[i as int] == d@[k]);
                }
            }
        }
        i = i + 1;
    }
    proof {
        assert(b@.take(b.len() as int) == b@);
        if increasing(b@) {
            assert forall|k1: int, k2: int| 0 <= k1 < k2 < d@.len() implies d@[k1] < d@[k2] by {
                assert(pos[k1] < pos[k2]);
            }
        }
        assert forall|n: nat| below(b@, n) implies below(d@, n) by {
            assert forall|k: int| 0 <= k < d@.len() implies d@[k] < n by {
                let j = choose|j: int| 0 <= j < b@.len() && b@[j] == #[trigger] d@[k];
            }
        }
    }
    d
}


/// `a` and `b` are the same constraint.
pub open spec fn same_eq(a: Equation, b: Equation) -> bool {
    a.cells@ == b.cells@ && a.mines == b.mines
}

/// No equation of `eqs` needs more than `b` mines.
pub open spec fn mines_at_most(eqs: Seq<Equation>, b: nat) -> bool {
    forall|k: int| 0 <= k < eqs.len() ==> (#[trigger] eqs[k]).mines <= b
}

/// Some equation of `eqs` holds cell `x`.
pub open spec fn in_support(eqs: Seq<Equation>, x: usize) -> bool {
    exists|k: int| 0 <= k < eqs.len() && (#[trigger] eqs[k]).cells@.contains(x)
}

/// Every cell of an equation of `a` is a cell of an equation of `b`.
pub open spec fn within(a: Seq<Equation>, b: Seq<Equation>) -> bool {
    forall|k: int, x: usize| 0 <= k < a.len() && #[trigger] a[k].cells@.contains(x) ==> in_support(b, x)
}

/// `e` is one of the equations of `eqs`.
pub open spec fn listed(e: Equation, eqs: Seq<Equation>) -> bool {
    exists|j: int| 0 <= j < eqs.len() && same_eq(e, #[trigger] eqs[j])
}

/// Whether `list` already holds the equation `(cells, mines)`.
pub fn has_equation(list: &Vec<Equation>, cells: &Vec<usize>, mines: usize) -> (r: bool)
    ensures
        r == exists|k: int| 0 <= k < list@.len() && (#[trigger] list@[k]).cells@ == cells@ && list@[k].mines == mines,
{
    let mut i: usize = 0;
    while i < list.len()
        invariant
            i <= list.len(),
            forall|k: int| 0 <= k < i ==> !((#[trigger] list@[k]).cells@ == cells@ && list@[k].mines == mines),
        decreases list.len() - i,
    {
        if list[i].mines == mines && same_cells(&list[i].cells, cells) {
            assert(list@[i as int].cells@ == cells@ && list@[i as int].mines == mines);
            return true;
        }
        i = i + 1;
    }
    false
}

/// `out` holds, in their order, equations of `eqs` at the places `src`,
/// each the first place of that equation in `eqs`.
pub open spec fn first_places(eqs: Seq<Equation>, out: Seq<Equation>, src: Seq<int>) -> bool {
    &&& src.len() == out.len()
    &&& forall|k1: int, k2: int| 0 <= k1 < k2 < src.len() ==> #[trigger] src[k1] < #[trigger] src[k2]
    &&& forall|k: int| 0 <= k < src.len() ==> 0 <= #[trigger] src[k] < eqs.len() && same_eq(out[k], eqs[src[k]])
        && forall|j: int| 0 <= j < src[k] ==> !same_eq(#[trigger] eqs[j], eqs[src[k]])
}

/// Drops the equations without cells and the repeats of earlier ones.
pub fn dedup_equations(eqs: Vec<Equation>) -> (out: Vec<Equation>)
    ensures
        exists|src: Seq<int>| #[trigger] first_places(eqs@, out@, src),
        forall|k: int| 0 <= k < out@.len() ==> (#[trigger] out@[k]).cells@.len() > 0,
        forall|k: int| 0 <= k < out@.len() ==> listed(#[trigger] out@[k], eqs@),
        forall|j: int| 0 <= j < eqs@.len() && (#[trigger] eqs@[j]).cells@.len() > 0 ==> listed(eqs@[j], out@),
        forall|k1: int, k2: int| 0 <= k1 < k2 < out@.len() ==> !same_eq(#[trigger] out@[k1], #[trigger] out@[k2]),
{
    let mut res: Vec<Equation> = Vec::new();
    let ghost mut src: Seq<int> = Seq::empty();
    let ghost mut dst: Seq<int> = Seq::empty();
    let mut i: usize = 0;
    while i < eqs.len()
        invariant
            i <= eqs.len(),
            src.len() == res@.len(),
            dst.len() == i,
            forall|k: int| 0 <= k < res@.len() ==> (#[trigger] res@[k]).cells@.len() > 0,
            forall|k: int| 0 <= k < res@.len() ==> 0 <= #[trigger] src[k] < i && same_eq(res@[k], eqs@[src[k]]),
            forall|j: int| 0 <= j < i && eqs@[j].cells@.len() > 0 ==> 0 <= #[trigger] dst[j] < res@.len() && same_eq(res@[dst[j]], eqs@[j]),
            forall|k1: int, k2: int| 0 <= k1 < k2 < res@.len() ==> !same_eq(#[trigger] res@[k1], #[trigger] res@[k2]),
            first_places(eqs@, res@, src),
        decreases eqs.len() - i,
    {
        let ghost before = res@;
        if eqs[i].cells.len() > 0 {
            if !has_equation(&res, &eqs[i].cells, eqs[i].mines) {
                res.push(Equation { cells: copy_cells(&eqs[i].cells), mines: eqs[i].mines });
                proof {
                    assert forall|j: int| 0 <= j < i implies !same_eq(#[trigger] eqs@[j], eqs@[i as int]) by {
                        if eqs@[j].cells@.len() > 0 && same_eq(eqs@[j], eqs@[i as int]) {
                            let k = dst[j];
                            assert(same_eq(before[k], eqs@[j]));
                            assert(before[k].cells@ == eqs@[i as int].cells@ && before[k].mines == eqs@[i as int].mines);
                        }
                    }
                    let ns = src.push(i as int);
                    assert forall|k: int| 0 <= k < ns.len() implies 0 <= #[trigger] ns[k] < eqs@.len() && same_eq(res@[k], eqs@[ns[k]])
                        && forall|j: int| 0 <= j < ns[k] ==> !same_eq(#[trigger] eqs@[j], eqs@[ns[k]]) by {
                        if k < src.len() {
                            assert(ns[k] == src[k]);
                            assert(res@[k] == before[k]);
                        }
                    }
                    assert forall|k1: int, k2: int| 0 <= k1 < k2 < ns.len() implies #[trigger] ns[k1] < #[trigger] ns[k2] by {
                        assert(ns[k1] == src[k1]);
                    }
                    src = ns;
                    dst = dst.push((res@.len() - 1) as int);
                    assert forall|k1: int, k2: int| 0 <= k1 < k2 < res@.len() implies !same_eq(#[trigger] res@[k1], #[trigger] res@[k2]) by {
                        assert(res@[k1] == before[k1]);
                        if k2 < before.len() {
                            assert(res@[k2] == before[k2]);
                        } else {
                            assert(!((before[k1]).cells@ == eqs@[i as int].cells@ && before[k1].mines == eqs@[i as int].mines));
                        }
                    }
                }
            } else {
                proof {
                    let k = choose|k: int| 0 <= k < res@.len() && (#[trigger] res@[k]).cells@ == eqs@[i as int].cells@ && res@[k].mines == eqs@[i as int].mines;
                    dst = dst.push(k);
                }
            }
        } else {
            proof {
                dst = dst.push(0);
            }
        }
        i = i + 1;
    }
    proof {
        assert forall|k: int| 0 <= k < res@.len() implies listed(#[trigger] res@[k], eqs@) by {
            let j = src[k];
            assert(same_eq(res@[k], eqs@[j]));
        }
        assert forall|j: int| 0 <= j < eqs@.len() && (#[trigger] eqs@[j]).cells@.len() > 0 implies listed(eqs@[j], res@) by {
            let k = dst[j];
            assert(same_eq(res@[k], eqs@[j]));
            assert(same_eq(eqs@[j], res@[k]));
        }
    }
    res
}

/// A mask over `n` cells with no cell marked.
pub fn empty_mask(n: usize) -> (v: Vec<bool>)
    ensures
        v@.len() == n,
        forall|i: int| 0 <= i < n ==> !(#[trigger] v@[i]),
{
    let mut v: Vec<bool> = Vec::new();
    let mut i: usize = 0;
    while i < n
        invariant
            i <= n,
            v@.len() == i,
            forall|j: int| 0 <= j < i ==> !(#[trigger] v@[j]),
        decreases n - i,
    {
        v.push(false);
        i = i + 1;
    }
    v
}

/// Marks every cell of `cells` in `mask`; says whether a cell was newly marked.
pub fn mark_all(mask: &mut Vec<bool>, cells: &Vec<usize>) -> (changed: bool)
    requires
        forall|k: int| 0 <= k < cells@.len() ==> cells@[k] < old(mask)@.len(),
    ensures
        final(mask)@.len() == old(mask)@.len(),
        forall|i: int| 0 <= i < old(mask)@.len() ==> (#[trigger] final(mask)@[i] <==> (old(mask)@[i] || cells@.contains(i as usize))),
        changed == exists|k: int| 0 <= k < cells@.len() && !old(mask)@[#[trigger] cells@[k] as int],
{
    let mut changed = false;
    let mut t: usize = 0;
    while t < cells.len()
        invariant
            t <= cells.len(),
            mask@.len() == old(mask)@.len(),
            forall|k: int| 0 <= k < cells@.len() ==> cells@[k] < old(mask)@.len(),
            forall|i: int| 0 <= i < old(mask)@.len() ==> (#[trigger] mask@[i] <==> (old(mask)@[i] || cells@.take(t as int).contains(i as usize))),
            changed == exists|k: int| 0 <= k < t && !old(mask)@[#[trigger] cells@[k] as int],
        decreases cells.len() - t,
    {
        let c = cells[t];
        if !mask[c] {
            changed = true;
            proof {
                assert(!old(mask)@[c as int]) by {
                    if old(mask)@[c as int] {
                        assert(mask@[c as int]);
                    }
                }
                assert(!old(mask)@[cells@[t as int] as int]);
            }
        } else {
            proof {
                if !old(mask)@[c as int] {
                    assert(cells@.take(t as int).contains(c));
                    let k = cells@.take(t as int).index_of(c);
                    assert(cells@[k] == c);
                    assert(!old(mask)@[cells@[k] as int]);
                }
            }
        }
        let ghost was = changed;
        mask.set(c, true);
        proof {
            assert forall|i: int| 0 <= i < old(mask)@.len() implies (#[trigger] mask@[i] <==> (old(mask)@[i] || cells@.take(t + 1).contains(i as usize))) by {
                assert(cells@.take(t + 1) == cells@.take(t as int).push(c));
                assert(mask@.len() == mask.len());
                let u = i as usize;
                assert(u as int == i);
                if cells@.take(t + 1).contains(i as usize) && i != c {
                    let k = cells@.take(t + 1).index_of(i as usize);
                    assert(cells@.take(t as int)[k] == i as usize);
                }
                if cells@.take(t as int).contains(i as usize) {
                    let k = cells@.take(t as int).index_of(i as usize);
                    assert(cells@.take(t + 1)[k] == i as usize);
                }
                if i == c {
                    assert(cells@.take(t + 1)[t as int] == c);
                }
            }
        }
        t = t + 1;
    }
    proof {
        assert(cells@.take(cells@.len() as int) == cells@);
    }
    changed
}

/// The cells each equation settles on its own: all of an equation's cells
/// are safe when it needs no mine, all are mines when it needs one for each.
pub fn direct_deductions(equations: &Vec<Equation>, n: usize) -> (r: (Vec<bool>, Vec<bool>))
    requires
        all_well_formed(equations@, n as nat),
    ensures
        r.0@.len() == n,
        r.1@.len() == n,
        forall|c: int| 0 <= c < n ==> (#[trigger] r.0@[c] <==> exists|k: int| 0 <= k < equations@.len() && (#[trigger] equations@[k]).mines == 0 && equations@[k].cells@.contains(c as usize)),
        forall|c: int| 0 <= c < n ==> (#[trigger] r.1@[c] <==> exists|k: int| 0 <= k < equations@.len() && (#[trigger] equations@[k]).mines != 0 && equations@[k].mines == equations@[k].cells@.len() && equations@[k].cells@.contains(c as usize)),
        sound_marks(equations@, n as nat, r.0@, r.1@),
{
    let mut safe = empty_mask(n);
    let mut mines = empty_mask(n);
    let mut i: usize = 0;
    while i < equations.len()
        invariant
            i <= equations.len(),
            all_well_formed(equations@, n as nat),
            safe@.len() == n,
            mines@.len() == n,
            forall|c: int| 0 <= c < n ==> (#[trigger] safe@[c] <==> exists|k: int| 0 <= k < i && (#[trigger] equations@[k]).mines == 0 && equations@[k].cells@.contains(c as usize)),
            forall|c: int| 0 <= c < n ==> (#[trigger] mines@[c] <==> exists|k: int| 0 <= k < i && (#[trigger] equations@[k]).mines != 0 && equations@[k].mines == equations@[k].cells@.len() && equations@[k].cells@.contains(c as usize)),
        decreases equations.len() - i,
    {
        let eq = &equations[i];
        proof {
            assert(well_formed(equations@[i as int], n as nat));
        }
        if eq.mines == 0 {
            let _ = mark_all(&mut safe, &eq.cells);
        } else if eq.mines == eq.cells.len() {
            let _ = mark_all(&mut mines, &eq.cells);
        }
        i = i + 1;
    }
    proof {
        lemma_direct_sound(equations@, n as nat, safe@, mines@);
    }
    (safe, mines)
}

/// Deductions from single equations hold of every layout meeting them.
pub proof fn lemma_direct_sound(eqs: Seq<Equation>, n: nat, safe: Seq<bool>, mines: Seq<bool>)
    requires
        n <= usize::MAX,
        all_well_formed(eqs, n),
        forall|c: int| 0 <= c < n ==> (#[trigger] safe[c] ==> exists|k: int| 0 <= k < eqs.len() && (#[trigger] eqs[k]).mines == 0 && eqs[k].cells@.contains(c as usize)),
        forall|c: int| 0 <= c < n ==> (#[trigger] mines[c] ==> exists|k: int| 0 <= k < eqs.len() && (#[trigger] eqs[k]).mines != 0 && eqs[k].mines == eqs[k].cells@.len() && eqs[k].cells@.contains(c as usize)),
    ensures
        sound_marks(eqs, n, safe, mines),
{
    assert forall|m: Seq<bool>| m.len() == n && #[trigger] meets_all(m, eqs, n) implies forall|c: int|
        0 <= c < n ==> (safe[c] ==> !m[c]) && (mines[c] ==> m[c]) by {
        assert forall|c: int| 0 <= c < n implies (safe[c] ==> !m[c]) && (mines[c] ==> m[c]) by {
            if safe[c] {
                let k = choose|k: int| 0 <= k < eqs.len() && (#[trigger] eqs[k]).mines == 0 && eqs[k].cells@.contains(c as usize);
                assert(holds(m, eqs[k], n));
                lemma_tally_bounds(m, eqs[k].cells@, n);
                assert(eqs[k].cells@.contains((c as int) as usize));
            }
            if mines[c] {
                let k = choose|k: int| 0 <= k < eqs.len() && (#[trigger] eqs[k]).mines != 0 && eqs[k].mines == eqs[k].cells@.len() && eqs[k].cells@.contains(c as usize);
                assert(holds(m, eqs[k], n));
                assert(well_formed(eqs[k], n));
                lemma_tally_bounds(m, eqs[k].cells@, n);
                lemma_members_len(eqs[k].cells@, n);
                assert(eqs[k].cells@.contains((c as int) as usize));
            }
        }
    }
}


/// Some cell of `cells` is marked in `mask`.
pub open spec fn touches(cells: Seq<usize>, mask: Seq<bool>) -> bool {
    exists|k: int| 0 <= k < cells.len() && #[trigger] mask[cells[k] as int]
}

/// An equation with its settled cells taken out: the cells marked in neither
/// mask are kept, and the mine count drops by the cells marked as mines
/// (never below zero).
pub fn simplify_one(eq: &Equation, safe: &Vec<bool>, mines: &Vec<bool>, n: usize) -> (r: (Vec<usize>, usize))
    requires
        well_formed(*eq, n as nat),
        safe@.len() == n,
        mines@.len() == n,
    ensures
        forall|x: usize| #[trigger] r.0@.contains(x) <==> (eq.cells@.contains(x) && !mines@[x as int] && !safe@[x as int]),
        increasing(r.0@),
        below(r.0@, n as nat),
        r.0@.len() <= eq.cells@.len(),
        r.1 <= eq.mines,
        forall|m: Seq<bool>| m.len() == n && marks_hold(m, safe@, mines@, n as nat) && #[trigger] holds(m, *eq, n as nat) ==> tally(m, r.0@, n as nat) == r.1,
        !touches(eq.cells@, safe@) && !touches(eq.cells@, mines@) ==> r.0@ == eq.cells@ && r.1 == eq.mines,
{
    let mut kept: Vec<usize> = Vec::new();
    let mut new_mines: usize = eq.mines;
    let mut count: usize = 0;
    let ghost mut dm: Seq<usize> = Seq::empty();
    let ghost mut ds: Seq<usize> = Seq::empty();
    let ghost cells = eq.cells@;
    let mut t: usize = 0;
    while t < eq.cells.len()
        invariant
            cells == eq.cells@,
            well_formed(*eq, n as nat),
            safe@.len() == n,
            mines@.len() == n,
            t <= cells.len(),
            count == dm.len(),
            count <= t,
            new_mines == if eq.mines >= count { eq.mines - count } else { 0 },
            forall|x: usize| #[trigger] kept@.contains(x) <==> (cells.take(t as int).contains(x) && !mines@[x as int] && !safe@[x as int]),
            forall|x: usize| #[trigger] dm.contains(x) <==> (cells.take(t as int).contains(x) && mines@[x as int]),
            forall|x: usize| #[trigger] ds.contains(x) <==> (cells.take(t as int).contains(x) && !mines@[x as int] && safe@[x as int]),
            increasing(kept@),
            increasing(dm),
            below(kept@, n as nat),
            below(dm, n as nat),
            kept@.len() <= t,
            forall|k: int| 0 <= k < kept@.len() ==> exists|q: int| 0 <= q < t && cells[q] == #[trigger] kept@[k],
            forall|k: int| 0 <= k < dm.len() ==> exists|q: int| 0 <= q < t && cells[q] == #[trigger] dm[k],
            !touches(cells, safe@) && !touches(cells, mines@) ==> kept@ == cells.take(t as int) && count == 0,
        decreases cells.len() - t,
    {
        let c = eq.cells[t];
        let ghost kb = kept@;
        let ghost db = dm;
        let ghost sb = ds;
        proof {
            assert(cells.take(t + 1) == cells.take(t as int).push(c));
            assert(c < n);
            assert forall|k: int| 0 <= k < kb.len() implies kb[k] < c by {
                let q = choose|q: int| 0 <= q < t && cells[q] == #[trigger] kb[k];
            }
            assert forall|k: int| 0 <= k < db.len() implies db[k] < c by {
                let q = choose|q: int| 0 <= q < t && cells[q] == #[trigger] db[k];
            }
        }
        if mines[c] {
            count = count + 1;
            new_mines = if new_mines > 0 { new_mines - 1 } else { 0 };
            proof {
                dm = dm.push(c);
                assert(touches(cells, mines@)) by {
                    assert(mines@[cells[t as int] as int]);
                }
            }
        } else if !safe[c] {
            kept.push(c);
        } else {
            proof {
                ds = ds.push(c);
                assert(touches(cells, safe@)) by {
                    assert(safe@[cells[t as int] as int]);
                }
            }
        }
        proof {
            let tk = cells.take(t + 1);
            assert forall|x: usize| #[trigger] kept@.contains(x) <==> (tk.contains(x) && !mines@[x as int] && !safe@[x as int]) by {
                if kept@.contains(x) {
                    let k = kept@.index_of(x);
                    if k < kb.len() {
                        assert(kb[k] == x);
                        assert(kb.contains(x));
                        let q = cells.take(t as int).index_of(x);
                        assert(tk[q] == x);
                    } else {
                        assert(x == c);
                        assert(tk[t as int] == x);
                    }
                }
                if tk.contains(x) && !mines@[x as int] && !safe@[x as int] {
                    let q = tk.index_of(x);
                    if q < t {
                        assert(cells.take(t as int)[q] == x);
                        assert(kb.contains(x));
                        let k = kb.index_of(x);
                        assert(kept@[k] == x);
                    } else {
                        assert(kept@[kept@.len() - 1] == x);
                    }
                }
            }
            assert forall|x: usize| #[trigger] dm.contains(x) <==> (tk.contains(x) && mines@[x as int]) by {
                if dm.contains(x) {
                    let k = dm.index_of(x);
                    if k < db.len() {
                        assert(db[k] == x);
                        assert(db.contains(x));
                        let q = cells.take(t as int).index_of(x);
                        assert(tk[q] == x);
                    } else {
                        assert(x == c);
                        assert(tk[t as int] == x);
                    }
                }
                if tk.contains(x) && mines@[x as int] {
                    let q = tk.index_of(x);
                    if q < t {
                        assert(cells.take(t as int)[q] == x);
                        assert(db.contains(x));
                        let k = db.index_of(x);
                        assert(dm[k] == x);
                    } else {
                        assert(dm[dm.len() - 1] == x);
                    }
                }
            }
            assert forall|x: usize| #[trigger] ds.contains(x) <==> (tk.contains(x) && !mines@[x as int] && safe@[x as int]) by {
                if ds.contains(x) {
                    let k = ds.index_of(x);
                    if k < sb.len() {
                        assert(sb[k] == x);
                        assert(sb.contains(x));
                        let q = cells.take(t as int).index_of(x);
                        assert(tk[q] == x);
                    } else {
                        assert(x == c);
                        assert(tk[t as int] == x);
                    }
                }
                if tk.contains(x) && !mines@[x as int] && safe@[x as int] {
                    let q = tk.index_of(x);
                    if q < t {
                        assert(cells.take(t as int)[q] == x);
                        assert(sb.contains(x));
                        let k = sb.index_of(x);
                        assert(ds[k] == x);
                    } else {
                        assert(ds[ds.len() - 1] == x);
                    }
                }
            }
            assert forall|k: int| 0 <= k < kept@.len() implies exists|q: int| 0 <= q < t + 1 && cells[q] == #[trigger] kept@[k] by {
                if k < kb.len() {
                    assert(kept@[k] == kb[k]);
                    let q = choose|q: int| 0 <= q < t && cells[q] == #[trigger] kb[k];
                } else {
                    assert(cells[t as int] == kept@[k]);
                }
            }
            assert forall|k: int| 0 <= k < dm.len() implies exists|q: int| 0 <= q < t + 1 && cells[q] == #[trigger] dm[k] by {
                if k < db.len() {
                    assert(dm[k] == db[k]);
                    let q = choose|q: int| 0 <= q < t && cells[q] == #[trigger] db[k];
                } else {
                    assert(cells[t as int] == dm[k]);
                }
            }
        }
        t = t + 1;
    }
    proof {
        assert(cells.take(cells.len() as int) == cells);
        assert forall|m: Seq<bool>| m.len() == n && marks_hold(m, safe@, mines@, n as nat) && #[trigger] holds(m, *eq, n as nat) implies tally(m, kept@, n as nat) == new_mines by {
            let d = dm + ds;
            assert forall|i: usize| i < n implies (cells.contains(i) <==> (kept@.contains(i) || d.contains(i))) by {
                if d.contains(i) {
                    let k = d.index_of(i);
                    if k < dm.len() {
                        assert(dm[k] == i);
                        assert(dm.contains(i));
                    } else {
                        assert(ds[k - dm.len()] == i);
                        assert(ds.contains(i));
                    }
                }
                if dm.contains(i) {
                    let k = dm.index_of(i);
                    assert(d[k] == i);
                }
                if ds.contains(i) {
                    let k = ds.index_of(i);
                    assert(d[dm.len() + k] == i);
                }
            }
            assert forall|i: usize| i < n implies !(kept@.contains(i) && d.contains(i)) by {
                if d.contains(i) {
                    let k = d.index_of(i);
                    if k < dm.len() {
                        assert(dm[k] == i);
                        assert(dm.contains(i));
                    } else {
                        assert(ds[k - dm.len()] == i);
                        assert(ds.contains(i));
                    }
                }
            }
            lemma_tally_split(m, kept@, cells, d, n as nat);
            assert forall|i: usize| i < n implies (d.contains(i) <==> (dm.contains(i) || ds.contains(i))) by {
                if d.contains(i) {
                    let k = d.index_of(i);
                    if k < dm.len() {
                        assert(dm[k] == i);
                    } else {
                        assert(ds[k - dm.len()] == i);
                    }
                }
                if dm.contains(i) {
                    let k = dm.index_of(i);
                    assert(d[k] == i);
                }
                if ds.contains(i) {
                    let k = ds.index_of(i);
                    assert(d[dm.len() + k] == i);
                }
            }
            lemma_tally_split(m, dm, d, ds, n as nat);
            lemma_tally_bounds(m, dm, n as nat);
            lemma_tally_bounds(m, ds, n as nat);
            lemma_members_len(dm, n as nat);
            assert forall|i: int| 0 <= i < n && #[trigger] dm.contains(i as usize) implies m[i] by {
                assert((i as usize) as int == i);
                assert(mines@[i]);
            }
            assert forall|i: int| 0 <= i < n && #[trigger] ds.contains(i as usize) implies !m[i] by {
                assert((i as usize) as int == i);
                assert(safe@[i]);
            }
        }
    }
    (kept, new_mines)
}


/// Every equation with its settled cells taken out; one left without cells
/// is dropped, and a repeat of an earlier result is kept once.
pub fn simplify_all(eqs: &Vec<Equation>, safe: &Vec<bool>, mines: &Vec<bool>, n: usize) -> (out: Vec<Equation>)
    requires
        all_well_formed(eqs@, n as nat),
        safe@.len() == n,
        mines@.len() == n,
    ensures
        all_well_formed(out@, n as nat),
        forall|k: int| 0 <= k < out@.len() ==> (#[trigger] out@[k]).cells@.len() > 0,
        forall|k1: int, k2: int| 0 <= k1 < k2 < out@.len() ==> !same_eq(#[trigger] out@[k1], #[trigger] out@[k2]),
        forall|m: Seq<bool>| m.len() == n && marks_hold(m, safe@, mines@, n as nat) && #[trigger] meets_all(m, eqs@, n as nat) ==> meets_all(m, out@, n as nat),
        untouched(eqs@, safe@, mines@) && distinct(eqs@) ==> out@.len() == eqs@.len() && forall|k: int| 0 <= k < out@.len() ==> same_eq(#[trigger] out@[k], eqs@[k]),
        within(out@, eqs@),
        forall|b: nat| #[trigger] mines_at_most(eqs@, b) ==> mines_at_most(out@, b),
{
    let mut out: Vec<Equation> = Vec::new();
    let mut i: usize = 0;
    while i < eqs.len()
        invariant
            i <= eqs.len(),
            all_well_formed(eqs@, n as nat),
            safe@.len() == n,
            mines@.len() == n,
            all_well_formed(out@, n as nat),
            forall|k: int| 0 <= k < out@.len() ==> (#[trigger] out@[k]).cells@.len() > 0,
            forall|k1: int, k2: int| 0 <= k1 < k2 < out@.len() ==> !same_eq(#[trigger] out@[k1], #[trigger] out@[k2]),
            forall|m: Seq<bool>| m.len() == n && marks_hold(m, safe@, mines@, n as nat) && #[trigger] meets_all(m, eqs@, n as nat) ==> meets_all(m, out@, n as nat),
            untouched(eqs@, safe@, mines@) && distinct(eqs@) ==> out@.len() == i && forall|k: int| 0 <= k < out@.len() ==> same_eq(#[trigger] out@[k], eqs@[k]),
            within(out@, eqs@),
            forall|b: nat| #[trigger] mines_at_most(eqs@, b) ==> mines_at_most(out@, b),
        decreases eqs.len() - i,
    {
        proof {
            assert(well_formed(eqs@[i as int], n as nat));
        }
        let (kept, nm) = simplify_one(&eqs[i], safe, mines, n);
        if kept.len() > 0 {
            if !has_equation(&out, &kept, nm) {
                let ghost before = out@;
                let ghost kc = kept@;
                out.push(Equation { cells: kept, mines: nm });
                proof {
                    assert(out@[out@.len() - 1].cells@ == kc);
                    assert forall|k1: int, k2: int| 0 <= k1 < k2 < out@.len() implies !same_eq(#[trigger] out@[k1], #[trigger] out@[k2]) by {
                        assert(out@[k1] == before[k1]);
                        if k2 < before.len() {
                            assert(out@[k2] == before[k2]);
                        } else {
                            assert(!((before[k1]).cells@ == kc && before[k1].mines == nm));
                        }
                    }
                    assert forall|k: int| 0 <= k < out@.len() implies #[trigger] well_formed(out@[k], n as nat) by {
                        if k < before.len() {
                            assert(out@[k] == before[k]);
                        }
                    }
                    assert forall|b: nat| #[trigger] mines_at_most(eqs@, b) implies mines_at_most(out@, b) by {
                        assert(mines_at_most(before, b));
                        assert(eqs@[i as int].mines <= b);
                        assert forall|k: int| 0 <= k < out@.len() implies (#[trigger] out@[k]).mines <= b by {
                            if k < before.len() {
                                assert(out@[k] == before[k]);
                            }
                        }
                    }
                    assert forall|k: int, x: usize| 0 <= k < out@.len() && #[trigger] out@[k].cells@.contains(x) implies in_support(eqs@, x) by {
                        if k < before.len() {
                            assert(out@[k] == before[k]);
                        } else {
                            assert(eqs@[i as int].cells@.contains(x));
                        }
                    }
                    assert forall|m: Seq<bool>| m.len() == n && marks_hold(m, safe@, mines@, n as nat) && #[trigger] meets_all(m, eqs@, n as nat) implies meets_all(m, out@, n as nat) by {
                        assert(holds(m, eqs@[i as int], n as nat));
                        assert(meets_all(m, before, n as nat));
                        assert forall|k: int| 0 <= k < out@.len() implies #[trigger] holds(m, out@[k], n as nat) by {
                            if k < before.len() {
                                assert(out@[k] == before[k]);
                                assert(holds(m, before[k], n as nat));
                            }
                        }
                    }
                    if untouched(eqs@, safe@, mines@) && distinct(eqs@) {
                        assert(!touches(eqs@[i as int].cells@, safe@));
                        assert(!touches(eqs@[i as int].cells@, mines@));
                        assert forall|k: int| 0 <= k < out@.len() implies same_eq(#[trigger] out@[k], eqs@[k]) by {
                            if k < before.len() {
                                assert(out@[k] == before[k]);
                            }
                        }
                    }
                }
            } else {
                proof {
                    if untouched(eqs@, safe@, mines@) && distinct(eqs@) {
                        assert(!touches(eqs@[i as int].cells@, safe@));
                        assert(!touches(eqs@[i as int].cells@, mines@));
                        let k = choose|k: int| 0 <= k < out@.len() && (#[trigger] out@[k]).cells@ == kept@ && out@[k].mines == nm;
                        assert(same_eq(out@[k], eqs@[k]));
                        assert(same_eq(eqs@[k], eqs@[i as int]));
                        assert(false);
                    }
                }
            }
        } else {
            proof {
                if untouched(eqs@, safe@, mines@) && distinct(eqs@) {
                    assert(!touches(eqs@[i as int].cells@, safe@));
                    assert(!touches(eqs@[i as int].cells@, mines@));
                    assert(eqs@[i as int].cells@.len() > 0);
                }
            }
        }
        i = i + 1;
    }
    out
}

/// No cell of any equation of `eqs` is marked in either mask.
pub open spec fn untouched(eqs: Seq<Equation>, safe: Seq<bool>, mines: Seq<bool>) -> bool {
    forall|k: int| 0 <= k < eqs.len() ==> !touches((#[trigger] eqs[k]).cells@, safe) && !touches(eqs[k].cells@, mines)
}

/// The equations of `eqs` have cells and no two are the same.
pub open spec fn distinct(eqs: Seq<Equation>) -> bool {
    &&& forall|k: int| 0 <= k < eqs.len() ==> (#[trigger] eqs[k]).cells@.len() > 0
    &&& forall|k1: int, k2: int| 0 <= k1 < k2 < eqs.len() ==> !same_eq(#[trigger] eqs[k1], #[trigger] eqs[k2])
}


/// Every cell of `a` is a cell of `b`, and `b` needs at least as many mines.
pub open spec fn covers(a: Equation, b: Equation) -> bool {
    (forall|x: usize| #[trigger] a.cells@.contains(x) ==> b.cells@.contains(x)) && b.mines >= a.mines
}

/// What `b` minus `a` settles is marked: its cells are safe when the two
/// need the same number of mines, and mines when every extra cell must be one.
pub open spec fn settles(a: Equation, b: Equation, safe: Seq<bool>, mines: Seq<bool>) -> bool {
    forall|x: usize| #[trigger] b.cells@.contains(x) && !a.cells@.contains(x) ==> (b.mines - a.mines == 0 ==> safe[x as int]) && (b.mines - a.mines == b.cells@.len() - a.cells@.len() ==> mines[x as int])
}

/// Every pair of distinct equations of `eqs`, one covering the other, has
/// what its difference settles marked.
pub open spec fn subset_marks(eqs: Seq<Equation>, safe: Seq<bool>, mines: Seq<bool>) -> bool {
    forall|i: int, j: int| 0 <= i < eqs.len() && 0 <= j < eqs.len() && i != j && covers(#[trigger] eqs[i], #[trigger] eqs[j]) ==> settles(eqs[i], eqs[j], safe, mines)
}

/// What the difference of two equations, one covering the other, says of a
/// layout meeting both.
pub proof fn lemma_difference_sound(m: Seq<bool>, a: Equation, b: Equation, diff: Seq<usize>, n: nat)
    requires
        n <= usize::MAX,
        m.len() == n,
        well_formed(a, n),
        well_formed(b, n),
        holds(m, a, n),
        holds(m, b, n),
        covers(a, b),
        forall|x: usize| #[trigger] diff.contains(x) <==> (b.cells@.contains(x) && !a.cells@.contains(x)),
        increasing(diff),
        below(diff, n),
    ensures
        tally(m, diff, n) == b.mines - a.mines,
        diff.len() == b.cells@.len() - a.cells@.len(),
        b.mines - a.mines == 0 ==> forall|c: int| 0 <= c < n && #[trigger] diff.contains(c as usize) ==> !m[c],
        b.mines - a.mines == diff.len() ==> forall|c: int| 0 <= c < n && #[trigger] diff.contains(c as usize) ==> m[c],
{
    assert forall|i: usize| i < n implies (b.cells@.contains(i) <==> (a.cells@.contains(i) || diff.contains(i))) by {
        if a.cells@.contains(i) {
            assert(b.cells@.contains(i));
        }
    }
    lemma_tally_split(m, a.cells@, b.cells@, diff, n);
    lemma_members_len(a.cells@, n);
    lemma_members_len(b.cells@, n);
    lemma_members_len(diff, n);
    lemma_tally_bounds(m, diff, n);
}

/// Subset reduction over every ordered pair of distinct equations: where one
/// covers the other, the difference is settled outright when it needs no mine
/// or a mine in every cell, and otherwise becomes a new equation.
pub fn subset_step(eqs: &Vec<Equation>, safe: &mut Vec<bool>, mines: &mut Vec<bool>, n: usize) -> (r: (Vec<Equation>, bool))
    requires
        all_well_formed(eqs@, n as nat),
        old(safe)@.len() == n,
        old(mines)@.len() == n,
    ensures
        final(safe)@.len() == n,
        final(mines)@.len() == n,
        forall|c: int| 0 <= c < n ==> (old(safe)@[c] ==> #[trigger] final(safe)@[c]),
        forall|c: int| 0 <= c < n ==> (old(mines)@[c] ==> #[trigger] final(mines)@[c]),
        all_well_formed(r.0@, n as nat),
        forall|k: int| 0 <= k < r.0@.len() ==> (#[trigger] r.0@[k]).cells@.len() > 0,
        subset_marks(eqs@, final(safe)@, final(mines)@),
        forall|m: Seq<bool>| m.len() == n && marks_hold(m, old(safe)@, old(mines)@, n as nat) && #[trigger] meets_all(m, eqs@, n as nat) ==> marks_hold(m, final(safe)@, final(mines)@, n as nat) && meets_all(m, r.0@, n as nat),
        within(r.0@, eqs@),
        forall|b: nat| #[trigger] mines_at_most(eqs@, b) ==> mines_at_most(r.0@, b),
        forall|c: int| 0 <= c < n ==> (#[trigger] final(safe)@[c] ==> old(safe)@[c] || in_support(eqs@, c as usize)),
        forall|c: int| 0 <= c < n ==> (#[trigger] final(mines)@[c] ==> old(mines)@[c] || in_support(eqs@, c as usize)),
{
    let ghost safe0 = safe@;
    let ghost mines0 = mines@;
    let n_eqs = eqs.len();
    let mut new_equations: Vec<Equation> = Vec::new();
    let mut changed = false;
    let mut i: usize = 0;
    while i < n_eqs
        invariant
            n_eqs == eqs@.len(),
            i <= n_eqs,
            all_well_formed(eqs@, n as nat),
            safe0 == old(safe)@,
            mines0 == old(mines)@,
            safe@.len() == n,
            mines@.len() == n,
            forall|c: int| 0 <= c < n ==> (safe0[c] ==> #[trigger] safe@[c]),
            forall|c: int| 0 <= c < n ==> (mines0[c] ==> #[trigger] mines@[c]),
            all_well_formed(new_equations@, n as nat),
            forall|k: int| 0 <= k < new_equations@.len() ==> (#[trigger] new_equations@[k]).cells@.len() > 0,
            forall|a: int, b: int| 0 <= a < i && 0 <= b < eqs@.len() && a != b && covers(#[trigger] eqs@[a], #[trigger] eqs@[b]) ==> settles(eqs@[a], eqs@[b], safe@, mines@),
            forall|m: Seq<bool>| m.len() == n && marks_hold(m, safe0, mines0, n as nat) && #[trigger] meets_all(m, eqs@, n as nat) ==> marks_hold(m, safe@, mines@, n as nat) && meets_all(m, new_equations@, n as nat),
            within(new_equations@, eqs@),
            forall|b: nat| #[trigger] mines_at_most(eqs@, b) ==> mines_at_most(new_equations@, b),
            forall|c: int| 0 <= c < n ==> (#[trigger] safe@[c] ==> safe0[c] || in_support(eqs@, c as usize)),
            forall|c: int| 0 <= c < n ==> (#[trigger] mines@[c] ==> mines0[c] || in_support(eqs@, c as usize)),
        decreases n_eqs - i,
    {
        let mut j: usize = 0;
        while j < n_eqs
            invariant
                n_eqs == eqs@.len(),
                i < n_eqs,
                j <= n_eqs,
                all_well_formed(eqs@, n as nat),
                safe@.len() == n,
                mines@.len() == n,
                forall|c: int| 0 <= c < n ==> (safe0[c] ==> #[trigger] safe@[c]),
                forall|c: int| 0 <= c < n ==> (mines0[c] ==> #[trigger] mines@[c]),
                all_well_formed(new_equations@, n as nat),
                forall|k: int| 0 <= k < new_equations@.len() ==> (#[trigger] new_equations@[k]).cells@.len() > 0,
                forall|a: int, b: int| ((0 <= a < i && 0 <= b < eqs@.len()) || (a == i && 0 <= b < j)) && a != b && covers(#[trigger] eqs@[a], #[trigger] eqs@[b]) ==> settles(eqs@[a], eqs@[b], safe@, mines@),
                forall|m: Seq<bool>| m.len() == n && marks_hold(m, safe0, mines0, n as nat) && #[trigger] meets_all(m, eqs@, n as nat) ==> marks_hold(m, safe@, mines@, n as nat) && meets_all(m, new_equations@, n as nat),
                within(new_equations@, eqs@),
                forall|b: nat| #[trigger] mines_at_most(eqs@, b) ==> mines_at_most(new_equations@, b),
                forall|c: int| 0 <= c < n ==> (#[trigger] safe@[c] ==> safe0[c] || in_support(eqs@, c as usize)),
                forall|c: int| 0 <= c < n ==> (#[trigger] mines@[c] ==> mines0[c] || in_support(eqs@, c as usize)),
            decreases n_eqs - j,
        {
            if i != j {
                let ea = &eqs[i];
                let eb = &eqs[j];
                proof {
                    assert(well_formed(eqs@[i as int], n as nat));
                    assert(well_formed(eqs@[j as int], n as nat));
                }
                if is_subset(&ea.cells, &eb.cells) && eb.mines >= ea.mines {
                    let diff = difference(&eb.cells, &ea.cells);
                    let dmines = eb.mines - ea.mines;
                    let ghost a_eq = eqs@[i as int];
                    let ghost b_eq = eqs@[j as int];
                    proof {
                        assert(covers(a_eq, b_eq));
                        assert(below(diff@, n as nat));
                        assert forall|m: Seq<bool>| m.len() == n && #[trigger] meets_all(m, eqs@, n as nat) implies tally(m, diff@, n as nat) == dmines && diff@.len() == b_eq.cells@.len() - a_eq.cells@.len() by {
                            assert(holds(m, a_eq, n as nat));
                            assert(holds(m, b_eq, n as nat));
                            lemma_difference_sound(m, a_eq, b_eq, diff@, n as nat);
                        }
                        lemma_members_len(a_eq.cells@, n as nat);
                        lemma_members_len(b_eq.cells@, n as nat);
                        lemma_members_len(diff@, n as nat);
                        assert forall|x: usize| x < n implies (b_eq.cells@.contains(x) <==> (a_eq.cells@.contains(x) || diff@.contains(x))) by {
                            if a_eq.cells@.contains(x) {
                                assert(b_eq.cells@.contains(x));
                            }
                        }
                        lemma_tally_split(Seq::empty(), a_eq.cells@, b_eq.cells@, diff@, n as nat);
                    }
                    if diff.len() > 0 {
                        let ghost sb = safe@;
                        let ghost mb = mines@;
                        if dmines == 0 {
                            if mark_all(safe, &diff) {
                                changed = true;
                            }
                        } else if dmines == diff.len() {
                            if mark_all(mines, &diff) {
                                changed = true;
                            }
                        } else {
                            let ghost ne_before = new_equations@;
                            let ghost dc = diff@;
                            new_equations.push(Equation { cells: diff, mines: dmines });
                            proof {
                                assert(new_equations@[new_equations@.len() - 1].cells@ == dc);
                                assert forall|k: int| 0 <= k < new_equations@.len() implies #[trigger] well_formed(new_equations@[k], n as nat) by {
                                    if k < ne_before.len() {
                                        assert(new_equations@[k] == ne_before[k]);
                                    }
                                }
                                assert forall|k: int| 0 <= k < new_equations@.len() implies (#[trigger] new_equations@[k]).cells@.len() > 0 by {
                                    if k < ne_before.len() {
                                        assert(new_equations@[k] == ne_before[k]);
                                    }
                                }
                            }
                        }
                        proof {
                            assert forall|c: int| 0 <= c < n implies (#[trigger] safe@[c] ==> safe0[c] || in_support(eqs@, c as usize)) by {
                                if safe@[c] && !sb[c] {
                                    assert(diff@.contains(c as usize));
                                    assert(eqs@[j as int].cells@.contains(c as usize));
                                }
                            }
                            assert forall|c: int| 0 <= c < n implies (#[trigger] mines@[c] ==> mines0[c] || in_support(eqs@, c as usize)) by {
                                if mines@[c] && !mb[c] {
                                    assert(diff@.contains(c as usize));
                                    assert(eqs@[j as int].cells@.contains(c as usize));
                                }
                            }
                            assert forall|b: nat| #[trigger] mines_at_most(eqs@, b) implies mines_at_most(new_equations@, b) by {
                                assert(eqs@[j as int].mines <= b);
                                if dmines != 0 && dmines != diff@.len() {
                                    assert forall|k: int| 0 <= k < new_equations@.len() implies (#[trigger] new_equations@[k]).mines <= b by {
                                        if k < new_equations@.len() - 1 {
                                            assert(mines_at_most(new_equations@.drop_last(), b));
                                            assert(new_equations@[k] == new_equations@.drop_last()[k]);
                                        }
                                    }
                                }
                            }
                            assert forall|k: int, x: usize| 0 <= k < new_equations@.len() && #[trigger] new_equations@[k].cells@.contains(x) implies in_support(eqs@, x) by {
                                if k == new_equations@.len() - 1 && dmines != 0 && dmines != diff@.len() {
                                    assert(diff@.contains(x));
                                    assert(eqs@[j as int].cells@.contains(x));
                                }
                            }
                            assert forall|a: int, b: int| ((0 <= a < i && 0 <= b < eqs@.len()) || (a == i && 0 <= b < j)) && a != b && covers(#[trigger] eqs@[a], #[trigger] eqs@[b]) implies settles(eqs@[a], eqs@[b], safe@, mines@) by {
                                assert(settles(eqs@[a], eqs@[b], sb, mb));
                                assert(well_formed(eqs@[b], n as nat));
                                assert forall|x: usize| #[trigger] eqs@[b].cells@.contains(x) && !eqs@[a].cells@.contains(x) implies (eqs@[b].mines - eqs@[a].mines == 0 ==> safe@[x as int]) && (eqs@[b].mines - eqs@[a].mines == eqs@[b].cells@.len() - eqs@[a].cells@.len() ==> mines@[x as int]) by {
                                    let k = eqs@[b].cells@.index_of(x);
                                    assert(x < n);
                                }
                            }
                            assert forall|m: Seq<bool>| m.len() == n && marks_hold(m, safe0, mines0, n as nat) && #[trigger] meets_all(m, eqs@, n as nat) implies marks_hold(m, safe@, mines@, n as nat) && meets_all(m, new_equations@, n as nat) by {
                                assert(marks_hold(m, sb, mb, n as nat));
                                assert(holds(m, a_eq, n as nat));
                                assert(holds(m, b_eq, n as nat));
                                lemma_difference_sound(m, a_eq, b_eq, diff@, n as nat);
                                assert forall|c: int| 0 <= c < n implies (safe@[c] ==> !m[c]) && (mines@[c] ==> m[c]) by {
                                    assert((c as usize) as int == c);
                                    if safe@[c] && !sb[c] {
                                        assert(diff@.contains(c as usize));
                                    }
                                    if mines@[c] && !mb[c] {
                                        assert(diff@.contains(c as usize));
                                    }
                                }
                                assert forall|k: int| 0 <= k < new_equations@.len() implies #[trigger] holds(m, new_equations@[k], n as nat) by {
                                    if dmines != 0 && dmines != diff@.len() && k == new_equations@.len() - 1 {
                                    }
                                }
                            }
                        }
                    }
                    proof {
                        assert(settles(a_eq, b_eq, safe@, mines@)) by {
                            assert forall|x: usize| #[trigger] b_eq.cells@.contains(x) && !a_eq.cells@.contains(x) implies (b_eq.mines - a_eq.mines == 0 ==> safe@[x as int]) && (b_eq.mines - a_eq.mines == b_eq.cells@.len() - a_eq.cells@.len() ==> mines@[x as int]) by {
                                assert(diff@.contains(x));
                            }
                        }
                    }
                }
            }
            j = j + 1;
        }
        i = i + 1;
    }
    (new_equations, changed)
}


/// Adds the marks of `src` to `dst`; says whether a cell was newly marked.
pub fn merge_marks(dst: &mut Vec<bool>, src: &Vec<bool>) -> (changed: bool)
    requires
        old(dst)@.len() == src@.len(),
    ensures
        final(dst)@.len() == old(dst)@.len(),
        forall|c: int| 0 <= c < src@.len() ==> (#[trigger] final(dst)@[c] <==> (old(dst)@[c] || src@[c])),
        changed == exists|c: int| 0 <= c < src@.len() && #[trigger] src@[c] && !old(dst)@[c],
{
    let mut changed = false;
    let mut i: usize = 0;
    while i < src.len()
        invariant
            i <= src@.len(),
            dst@.len() == src@.len(),
            old(dst)@.len() == src@.len(),
            forall|c: int| 0 <= c < i ==> (#[trigger] dst@[c] <==> (old(dst)@[c] || src@[c])),
            forall|c: int| i <= c < src@.len() ==> #[trigger] dst@[c] == old(dst)@[c],
            changed == exists|c: int| 0 <= c < i && #[trigger] src@[c] && !old(dst)@[c],
        decreases src.len() - i,
    {
        if src[i] && !dst[i] {
            changed = true;
        }
        if src[i] {
            dst.set(i, true);
        }
        i = i + 1;
    }
    changed
}

/// No equation of `eqs` settles its cells on its own.
pub open spec fn no_direct(eqs: Seq<Equation>) -> bool {
    forall|k: int| 0 <= k < eqs.len() ==> (#[trigger] eqs[k]).mines != 0 && eqs[k].mines != eqs[k].cells@.len()
}

/// Cell `c` lies in an equation of `eqs` that needs no mine.
pub open spec fn direct_safe(eqs: Seq<Equation>, c: int) -> bool {
    exists|k: int| 0 <= k < eqs.len() && (#[trigger] eqs[k]).mines == 0 && eqs[k].cells@.contains(c as usize)
}

/// Cell `c` lies in an equation of `eqs` that needs a mine in every cell.
pub open spec fn direct_mine(eqs: Seq<Equation>, c: int) -> bool {
    exists|k: int| 0 <= k < eqs.len() && (#[trigger] eqs[k]).mines != 0 && eqs[k].mines == eqs[k].cells@.len() && eqs[k].cells@.contains(c as usize)
}

/// Every layout over `n` cells that meets `e0` meets `eqs` and agrees with
/// both masks.
pub open spec fn sound_state(e0: Seq<Equation>, n: nat, eqs: Seq<Equation>, safe: Seq<bool>, mines: Seq<bool>) -> bool {
    forall|m: Seq<bool>|
        #![trigger meets_all(m, e0, n)]
        m.len() == n && meets_all(m, e0, n) ==> meets_all(m, eqs, n) && marks_hold(m, safe, mines, n)
}

/// What the subset stage gives on `eqs` over `n` cells: masks `ss` and
/// `sm` that are sound, that hold every cell an equation settles on its
/// own, and (when no equation settles anything on its own and none repeats)
/// every cell that the difference of two equations, one inside the other,
/// settles; and equations `red` that follow from `eqs`, over its cells.
pub open spec fn subset_result(eqs: Seq<Equation>, n: usize, ss: Seq<bool>, sm: Seq<bool>, red: Seq<Equation>) -> bool {
    &&& (ss.len() == n)
    &&& (sm.len() == n)
    &&& (all_well_formed(red, n as nat))
    &&& (forall|k: int| 0 <= k < red.len() ==> (#[trigger] red[k]).cells@.len() > 0)
    &&& (sound_marks(eqs, n as nat, ss, sm))
    &&& (implied(eqs, red, n as nat))
    &&& (forall|c: int| 0 <= c < n && #[trigger] direct_safe(eqs, c) ==> ss[c])
    &&& (forall|c: int| 0 <= c < n && #[trigger] direct_mine(eqs, c) ==> sm[c])
    &&& (no_direct(eqs) && distinct(eqs) ==> subset_marks(eqs, ss, sm))
    &&& (within(red, eqs))
    &&& (forall|b: nat| #[trigger] mines_at_most(eqs, b) ==> mines_at_most(red, b))
    &&& (forall|c: int| 0 <= c < n && #[trigger] ss[c] ==> in_support(eqs, c as usize))
    &&& (forall|c: int| 0 <= c < n && #[trigger] sm[c] ==> in_support(eqs, c as usize))
}

/// Up to six passes of direct marking, simplification by what is known, and
/// subset reduction, stopping early after a pass that learns nothing. Gives
/// the safe cells, the mine cells and the reduced equations.
pub fn solve_subset_replacement(eqs: Vec<Equation>, n: usize) -> (r: (Vec<bool>, Vec<bool>, Vec<Equation>))
    requires
        all_well_formed(eqs@, n as nat),
    ensures
        subset_result(eqs@, n, r.0@, r.1@, r.2@),
{
    let ghost e0 = eqs@;
    let mut safe = empty_mask(n);
    let mut mines = empty_mask(n);
    let mut eqs = eqs;
    let mut pass: usize = 0;
    while pass < 6
        invariant
            pass <= 6,
            all_well_formed(e0, n as nat),
            safe@.len() == n,
            mines@.len() == n,
            all_well_formed(eqs@, n as nat),
            pass > 0 ==> forall|k: int| 0 <= k < eqs@.len() ==> (#[trigger] eqs@[k]).cells@.len() > 0,
            pass == 0 ==> eqs@ == e0,
            pass == 0 ==> forall|c: int| 0 <= c < n ==> !(#[trigger] safe@[c]),
            pass == 0 ==> forall|c: int| 0 <= c < n ==> !(#[trigger] mines@[c]),
            sound_state(e0, n as nat, eqs@, safe@, mines@),
            pass > 0 ==> forall|c: int| 0 <= c < n && #[trigger] direct_safe(e0, c) ==> safe@[c],
            pass > 0 ==> forall|c: int| 0 <= c < n && #[trigger] direct_mine(e0, c) ==> mines@[c],
            pass > 0 && no_direct(e0) && distinct(e0) ==> subset_marks(e0, safe@, mines@),
            within(eqs@, e0),
            forall|b: nat| #[trigger] mines_at_most(e0, b) ==> mines_at_most(eqs@, b),
            forall|c: int| 0 <= c < n ==> (#[trigger] safe@[c] ==> in_support(e0, c as usize)),
            forall|c: int| 0 <= c < n ==> (#[trigger] mines@[c] ==> in_support(e0, c as usize)),
        ensures
            pass > 0,
            safe@.len() == n,
            mines@.len() == n,
            all_well_formed(eqs@, n as nat),
            forall|k: int| 0 <= k < eqs@.len() ==> (#[trigger] eqs@[k]).cells@.len() > 0,
            sound_state(e0, n as nat, eqs@, safe@, mines@),
            forall|c: int| 0 <= c < n && #[trigger] direct_safe(e0, c) ==> safe@[c],
            forall|c: int| 0 <= c < n && #[trigger] direct_mine(e0, c) ==> mines@[c],
            no_direct(e0) && distinct(e0) ==> subset_marks(e0, safe@, mines@),
            within(eqs@, e0),
            forall|b: nat| #[trigger] mines_at_most(e0, b) ==> mines_at_most(eqs@, b),
            forall|c: int| 0 <= c < n ==> (#[trigger] safe@[c] ==> in_support(e0, c as usize)),
            forall|c: int| 0 <= c < n ==> (#[trigger] mines@[c] ==> in_support(e0, c as usize)),
        decreases 6 - pass,
    {
        let ghost first = pass == 0;
        let ghost safe_a = safe@;
        let ghost mines_a = mines@;
        let ghost eqs_a = eqs@;
        let mut changed = false;
        let (ds, dm) = direct_deductions(&eqs, n);
        if merge_marks(&mut safe, &ds) {
            changed = true;
        }
        if merge_marks(&mut mines, &dm) {
            changed = true;
        }
        proof {
            assert forall|m: Seq<bool>| m.len() == n && #[trigger] meets_all(m, e0, n as nat) implies meets_all(m, eqs@, n as nat) && marks_hold(m, safe@, mines@, n as nat) by {
                assert(meets_all(m, eqs_a, n as nat) && marks_hold(m, safe_a, mines_a, n as nat));
                assert(marks_hold(m, ds@, dm@, n as nat));
                assert forall|c: int| 0 <= c < n implies (safe@[c] ==> !m[c]) && (mines@[c] ==> m[c]) by {
                    assert(safe@[c] <==> (safe_a[c] || ds@[c]));
                    assert(mines@[c] <==> (mines_a[c] || dm@[c]));
                }
            }
            if first {
                assert forall|c: int| 0 <= c < n && #[trigger] direct_safe(e0, c) implies safe@[c] by {
                    assert(ds@[c]);
                }
                assert forall|c: int| 0 <= c < n && #[trigger] direct_mine(e0, c) implies mines@[c] by {
                    assert(dm@[c]);
                }
                if no_direct(e0) {
                    assert forall|c: int| 0 <= c < n implies !(#[trigger] safe@[c]) && !(#[trigger] mines@[c]) by {
                        assert(pass == 0);
                        assert(safe_a.len() == n);
                        assert(!safe_a[c]);
                        assert(!mines_a[c]);
                        assert(safe@[c] == (safe_a[c] || ds@[c]));
                        assert(mines@[c] == (mines_a[c] || dm@[c]));
                        if ds@[c] {
                            let k = choose|k: int| 0 <= k < eqs_a.len() && (#[trigger] eqs_a[k]).mines == 0 && eqs_a[k].cells@.contains(c as usize);
                            assert(e0[k].mines != 0);
                        }
                        if dm@[c] {
                            let k = choose|k: int| 0 <= k < eqs_a.len() && (#[trigger] eqs_a[k]).mines != 0 && eqs_a[k].mines == eqs_a[k].cells@.len() && eqs_a[k].cells@.contains(c as usize);
                            assert(e0[k].mines != e0[k].cells@.len());
                        }
                    }
                }
            } else {
                assert forall|c: int| 0 <= c < n && #[trigger] direct_safe(e0, c) implies safe@[c] by {
                    assert(safe_a[c]);
                }
                assert forall|c: int| 0 <= c < n && #[trigger] direct_mine(e0, c) implies mines@[c] by {
                    assert(mines_a[c]);
                }
            }
        }
        proof {
            assert forall|c: int| 0 <= c < n implies (#[trigger] safe@[c] ==> in_support(e0, c as usize)) by {
                if safe@[c] && !safe_a[c] {
                    assert(ds@[c]);
                    let k = choose|k: int| 0 <= k < eqs_a.len() && (#[trigger] eqs_a[k]).mines == 0 && eqs_a[k].cells@.contains(c as usize);
                    assert(eqs_a[k].cells@.contains(c as usize));
                }
            }
            assert forall|c: int| 0 <= c < n implies (#[trigger] mines@[c] ==> in_support(e0, c as usize)) by {
                if mines@[c] && !mines_a[c] {
                    assert(dm@[c]);
                    let k = choose|k: int| 0 <= k < eqs_a.len() && (#[trigger] eqs_a[k]).mines != 0 && eqs_a[k].mines == eqs_a[k].cells@.len() && eqs_a[k].cells@.contains(c as usize);
                    assert(eqs_a[k].cells@.contains(c as usize));
                }
            }
        }
        let simplified = simplify_all(&eqs, &safe, &mines, n);
        proof {
            assert forall|k: int, x: usize| 0 <= k < simplified@.len() && #[trigger] simplified@[k].cells@.contains(x) implies in_support(e0, x) by {
                assert(in_support(eqs@, x));
                let q = choose|q: int| 0 <= q < eqs@.len() && (#[trigger] eqs@[q]).cells@.contains(x);
            }
        }
        proof {
            if first && no_direct(e0) && distinct(e0) {
                lemma_untouched(e0, safe@, mines@, n as nat);
            }
            assert forall|m: Seq<bool>| m.len() == n && #[trigger] meets_all(m, e0, n as nat) implies meets_all(m, simplified@, n as nat) && marks_hold(m, safe@, mines@, n as nat) by {
                assert(meets_all(m, eqs@, n as nat));
            }
        }
        eqs = simplified;
        let ghost safe_b = safe@;
        let ghost mines_b = mines@;
        let (new_eqs, ch) = subset_step(&eqs, &mut safe, &mut mines, n);
        if ch {
            changed = true;
        }
        proof {
            assert forall|c: int| 0 <= c < n implies (#[trigger] safe@[c] ==> in_support(e0, c as usize)) by {
                if safe@[c] && !safe_b[c] {
                    assert(in_support(eqs@, c as usize));
                    let q = choose|q: int| 0 <= q < eqs@.len() && (#[trigger] eqs@[q]).cells@.contains(c as usize);
                }
            }
            assert forall|c: int| 0 <= c < n implies (#[trigger] mines@[c] ==> in_support(e0, c as usize)) by {
                if mines@[c] && !mines_b[c] {
                    assert(in_support(eqs@, c as usize));
                    let q = choose|q: int| 0 <= q < eqs@.len() && (#[trigger] eqs@[q]).cells@.contains(c as usize);
                }
            }
            assert forall|k: int, x: usize| 0 <= k < new_eqs@.len() && #[trigger] new_eqs@[k].cells@.contains(x) implies in_support(e0, x) by {
                assert(in_support(eqs@, x));
                let q = choose|q: int| 0 <= q < eqs@.len() && (#[trigger] eqs@[q]).cells@.contains(x);
            }
        }
        proof {
            assert forall|m: Seq<bool>| m.len() == n && #[trigger] meets_all(m, e0, n as nat) implies meets_all(m, eqs@, n as nat) && marks_hold(m, safe@, mines@, n as nat) && meets_all(m, new_eqs@, n as nat) by {
                assert(meets_all(m, eqs@, n as nat) && marks_hold(m, safe_b, mines_b, n as nat));
            }
            assert forall|c: int| 0 <= c < n && #[trigger] direct_safe(e0, c) implies safe@[c] by {
                assert(safe_b[c]);
            }
            assert forall|c: int| 0 <= c < n && #[trigger] direct_mine(e0, c) implies mines@[c] by {
                assert(mines_b[c]);
            }
            if no_direct(e0) && distinct(e0) {
                if first {
                    assert forall|i: int, j: int| 0 <= i < e0.len() && 0 <= j < e0.len() && i != j && covers(#[trigger] e0[i], #[trigger] e0[j]) implies settles(e0[i], e0[j], safe@, mines@) by {
                        assert(same_eq(eqs@[i], e0[i]));
                        assert(same_eq(eqs@[j], e0[j]));
                        assert(covers(eqs@[i], eqs@[j]));
                        assert(settles(eqs@[i], eqs@[j], safe@, mines@));
                    }
                } else {
                    assert forall|i: int, j: int| 0 <= i < e0.len() && 0 <= j < e0.len() && i != j && covers(#[trigger] e0[i], #[trigger] e0[j]) implies settles(e0[i], e0[j], safe@, mines@) by {
                        assert(settles(e0[i], e0[j], safe_a, mines_a));
                        assert(well_formed(e0[j], n as nat));
                        assert forall|x: usize| #[trigger] e0[j].cells@.contains(x) && !e0[i].cells@.contains(x) implies (e0[j].mines - e0[i].mines == 0 ==> safe@[x as int]) && (e0[j].mines - e0[i].mines == e0[j].cells@.len() - e0[i].cells@.len() ==> mines@[x as int]) by {
                            let q = e0[j].cells@.index_of(x);
                            assert(x < n);
                            assert(safe_a[x as int] ==> safe_b[x as int]);
                            assert(mines_a[x as int] ==> mines_b[x as int]);
                        }
                    }
                }
            }
        }
        let mut k: usize = 0;
        while k < new_eqs.len()
            invariant
                k <= new_eqs@.len(),
                all_well_formed(eqs@, n as nat),
                all_well_formed(new_eqs@, n as nat),
                forall|q: int| 0 <= q < new_eqs@.len() ==> (#[trigger] new_eqs@[q]).cells@.len() > 0,
                forall|q: int| 0 <= q < eqs@.len() ==> (#[trigger] eqs@[q]).cells@.len() > 0,
                forall|m: Seq<bool>| m.len() == n && #[trigger] meets_all(m, e0, n as nat) ==> meets_all(m, eqs@, n as nat) && marks_hold(m, safe@, mines@, n as nat) && meets_all(m, new_eqs@, n as nat),
                within(eqs@, e0),
                within(new_eqs@, e0),
                forall|b: nat| #[trigger] mines_at_most(e0, b) ==> mines_at_most(eqs@, b),
                forall|b: nat| #[trigger] mines_at_most(e0, b) ==> mines_at_most(new_eqs@, b),
            decreases new_eqs@.len() - k,
        {
            if !has_equation(&eqs, &new_eqs[k].cells, new_eqs[k].mines) {
                let ghost before = eqs@;
                let cells = copy_cells(&new_eqs[k].cells);
                let ghost cc = cells@;
                eqs.push(Equation { cells: cells, mines: new_eqs[k].mines });
                changed = true;
                proof {
                    assert(eqs@[eqs@.len() - 1].cells@ == cc);
                    assert(well_formed(new_eqs@[k as int], n as nat));
                    assert forall|q: int| 0 <= q < eqs@.len() implies #[trigger] well_formed(eqs@[q], n as nat) by {
                        if q < before.len() {
                            assert(eqs@[q] == before[q]);
                        }
                    }
                    assert forall|q: int| 0 <= q < eqs@.len() implies (#[trigger] eqs@[q]).cells@.len() > 0 by {
                        if q < before.len() {
                            assert(eqs@[q] == before[q]);
                        }
                    }
                    assert forall|b: nat| #[trigger] mines_at_most(e0, b) implies mines_at_most(eqs@, b) by {
                        assert(mines_at_most(before, b));
                        assert(mines_at_most(new_eqs@, b));
                        assert(new_eqs@[k as int].mines <= b);
                        assert forall|q: int| 0 <= q < eqs@.len() implies (#[trigger] eqs@[q]).mines <= b by {
                            if q < before.len() {
                                assert(eqs@[q] == before[q]);
                            }
                        }
                    }
                    assert forall|q: int, x: usize| 0 <= q < eqs@.len() && #[trigger] eqs@[q].cells@.contains(x) implies in_support(e0, x) by {
                        if q < before.len() {
                            assert(eqs@[q] == before[q]);
                        } else {
                            assert(new_eqs@[k as int].cells@.contains(x));
                        }
                    }
                    assert forall|m: Seq<bool>| m.len() == n && #[trigger] meets_all(m, e0, n as nat) implies meets_all(m, eqs@, n as nat) && marks_hold(m, safe@, mines@, n as nat) && meets_all(m, new_eqs@, n as nat) by {
                        assert(meets_all(m, before, n as nat));
                        assert(holds(m, new_eqs@[k as int], n as nat));
                        assert forall|q: int| 0 <= q < eqs@.len() implies #[trigger] holds(m, eqs@[q], n as nat) by {
                            if q < before.len() {
                                assert(eqs@[q] == before[q]);
                                assert(holds(m, before[q], n as nat));
                            }
                        }
                    }
                }
            }
            k = k + 1;
        }
        pass = pass + 1;
        if !changed {
            break;
        }
    }
    proof {
        assert forall|m: Seq<bool>| m.len() == n && #[trigger] meets_all(m, e0, n as nat) implies marks_hold(m, safe@, mines@, n as nat) by {}
        assert forall|m: Seq<bool>| m.len() == n && #[trigger] meets_all(m, e0, n as nat) implies meets_all(m, eqs@, n as nat) by {}
    }
    (safe, mines, eqs)
}


/// With no cell marked, no equation touches a mark.
pub proof fn lemma_untouched(eqs: Seq<Equation>, safe: Seq<bool>, mines: Seq<bool>, n: nat)
    requires
        all_well_formed(eqs, n),
        forall|c: int| 0 <= c < n ==> !(#[trigger] safe[c]),
        forall|c: int| 0 <= c < n ==> !(#[trigger] mines[c]),
    ensures
        untouched(eqs, safe, mines),
{
    assert forall|k: int| 0 <= k < eqs.len() implies !touches((#[trigger] eqs[k]).cells@, safe) && !touches(eqs[k].cells@, mines) by {
        assert(well_formed(eqs[k], n));
        let cells = eqs[k].cells@;
        assert forall|q: int| 0 <= q < cells.len() implies !(#[trigger] safe[cells[q] as int]) by {
            assert(cells[q] < n);
            let c = cells[q] as int;
            assert(0 <= c < n);
            assert(!safe[c]);
        }
        assert forall|q: int| 0 <= q < cells.len() implies !(#[trigger] mines[cells[q] as int]) by {
            assert(cells[q] < n);
            let c = cells[q] as int;
            assert(0 <= c < n);
            assert(!mines[c]);
        }
    }
}


/// How many neighbours of the cell at index `i` are marked in `mask`.
pub open spec fn marked_around(dims: Dimensions, mask: Seq<bool>, i: int) -> nat {
    mines_among(mask, dims.neighbor_list(cell_coord(dims, i)), dims.width as int, dims.height as int)
}

/// A grid whose cell count and layer fit a `usize` and whose sides fit an `i32`.
pub open spec fn usable(dims: Dimensions) -> bool {
    dims.fits_usize() && dims.fits_i32()
}

/// How many neighbours of the cell at index `i` are marked in `mask`.
pub fn count_marked_around(dims: Dimensions, mask: &Vec<bool>, i: usize) -> (r: usize)
    requires
        usable(dims),
        i < dims.total(),
        mask@.len() == dims.total(),
    ensures
        r == marked_around(dims, mask@, i as int),
{
    let w = dims.width;
    let h = dims.height;
    proof {
        lemma_cell_coord(dims, i as int);
    }
    let coord = Coord3D::from_index(i, w, h);
    proof {
        dims.lemma_neighbors_valid(coord);
        dims.lemma_neighbor_prefix(coord, 27);
        assert(coord.x < w && coord.y < h && coord.z < dims.depth);
    }
    let neighbors = coord.neighbors_26(dims);
    let mut count: usize = 0;
    let mut t: usize = 0;
    while t < neighbors.len()
        invariant
            t <= neighbors.len() <= 27,
            neighbors@ == dims.neighbor_list(coord),
            coord == cell_coord(dims, i as int),
            forall|n: Coord3D| #[trigger] dims.is_neighbor(coord, n) ==> dims.valid(n),
            mask@.len() == dims.total(),
            usable(dims),
            w == dims.width,
            h == dims.height,
            count == mines_among(mask@, neighbors@.take(t as int), w as int, h as int),
            count <= t,
        decreases neighbors.len() - t,
    {
        let n = neighbors[t];
        proof {
            assert(neighbors@.contains(n));
            assert(dims.is_neighbor(coord, n));
            lemma_valid_index(dims, n);
            assert(neighbors@.take(t + 1).drop_last() == neighbors@.take(t as int));
        }
        let n_idx = n.to_index(w, h);
        if mask[n_idx] {
            count = count + 1;
        }
        t = t + 1;
    }
    proof {
        assert(neighbors@.take(neighbors@.len() as int) == neighbors@);
        dims.lemma_neighbor_prefix(coord, 27);
    }
    count
}

/// Among the cells marked safe, the one with the most covered neighbours;
/// of several such, the one with the highest index.
pub fn pick_best_safe_cell(safe: &Vec<bool>, dims: Dimensions, unrevealed: &Vec<bool>) -> (r: Option<Coord3D>)
    requires
        usable(dims),
        safe@.len() == dims.total(),
        unrevealed@.len() == dims.total(),
    ensures
        r is None <==> forall|i: int| 0 <= i < dims.total() ==> !(#[trigger] safe@[i]),
        r matches Some(c) ==> exists|i: int| #![trigger safe@[i]] 0 <= i < dims.total() && safe@[i] && c == cell_coord(dims, i)
            && forall|j: int| #![trigger safe@[j]] 0 <= j < dims.total() && safe@[j] ==> marked_around(dims, unrevealed@, j) <= marked_around(dims, unrevealed@, i)
                && (j > i ==> marked_around(dims, unrevealed@, j) < marked_around(dims, unrevealed@, i)),
{
    let total = dims.total_cells();
    let mut best: Option<usize> = None;
    let mut max_frontier: usize = 0;
    let mut i: usize = 0;
    while i < total
        invariant
            i <= total,
            total == dims.total(),
            usable(dims),
            safe@.len() == total,
            unrevealed@.len() == total,
            best is None <==> forall|j: int| 0 <= j < i ==> !(#[trigger] safe@[j]),
            best matches Some(b) ==> b < i && safe@[b as int] && max_frontier == marked_around(dims, unrevealed@, b as int)
                && forall|j: int| #![trigger safe@[j]] 0 <= j < i && safe@[j] ==> marked_around(dims, unrevealed@, j) <= max_frontier
                    && (j > b ==> marked_around(dims, unrevealed@, j) < max_frontier),
        decreases total - i,
    {
        if safe[i] {
            let f = count_marked_around(dims, unrevealed, i);
            if best.is_none() || f >= max_frontier {
                max_frontier = f;
                best = Some(i);
            }
        }
        i = i + 1;
    }
    match best {
        None => None,
        Some(b) => {
            proof {
                lemma_cell_coord(dims, b as int);
            }
            Some(Coord3D::from_index(b, dims.width, dims.height))
        }
    }
}

/// The unit in which risks are measured: one over the least common multiple
/// of 1 to 26, so that a mine ratio over at most 26 cells is whole.
pub const RISK_SCALE: u128 = 26771144400;

/// The risk an equation spreads over each of its cells, in units of
/// `1 / RISK_SCALE`.
pub open spec fn risk_term(e: Equation) -> int {
    if e.cells@.len() == 0 {
        0
    } else {
        (e.mines * RISK_SCALE) / (e.cells@.len() as int)
    }
}

/// The risks of the equations of `eqs` that hold cell `c`, added up.
pub open spec fn risk_sum(eqs: Seq<Equation>, c: int) -> int
    decreases eqs.len(),
{
    if eqs.len() == 0 {
        0
    } else {
        risk_sum(eqs.drop_last(), c) + if eqs.last().cells@.contains(c as usize) {
            risk_term(eqs.last())
        } else {
            0
        }
    }
}

/// How many equations of `eqs` hold cell `c`.
pub open spec fn risk_count(eqs: Seq<Equation>, c: int) -> nat
    decreases eqs.len(),
{
    if eqs.len() == 0 {
        0
    } else {
        risk_count(eqs.drop_last(), c) + if eqs.last().cells@.contains(c as usize) {
            1nat
        } else {
            0nat
        }
    }
}

/// The average risk of cell `c` over the equations that hold it.
pub open spec fn avg_risk(eqs: Seq<Equation>, c: int) -> int {
    risk_sum(eqs, c) / (risk_count(eqs, c) as int)
}

/// A cell that some equation holds and that is still covered.
pub open spec fn candidate(eqs: Seq<Equation>, unrevealed: Seq<bool>, c: int) -> bool {
    unrevealed[c] && risk_count(eqs, c) > 0
}

proof fn lemma_risk_bounds(eqs: Seq<Equation>, c: int)
    requires
        forall|k: int| 0 <= k < eqs.len() ==> (#[trigger] eqs[k]).mines <= 0xffff,
    ensures
        0 <= risk_sum(eqs, c) <= eqs.len() * 0x10000 * RISK_SCALE,
        risk_count(eqs, c) <= eqs.len(),
    decreases eqs.len(),
{
    if eqs.len() > 0 {
        let e = eqs.last();
        assert(eqs.drop_last().len() == eqs.len() - 1);
        assert forall|k: int| 0 <= k < eqs.drop_last().len() implies (#[trigger] eqs.drop_last()[k]).mines <= 0xffff by {
            assert(eqs.drop_last()[k] == eqs[k]);
        }
        lemma_risk_bounds(eqs.drop_last(), c);
        assert(e.mines <= 0xffff);
        if e.cells@.len() > 0 {
            assert(0 <= risk_term(e) <= 0x10000 * RISK_SCALE) by (nonlinear_arith)
                requires
                    risk_term(e) == (e.mines * RISK_SCALE) / (e.cells@.len() as int),
                    e.cells@.len() > 0,
                    0 <= e.mines <= 0xffff;
        }
        assert((eqs.len() - 1) * 0x10000 * RISK_SCALE + 0x10000 * RISK_SCALE == eqs.len() * 0x10000 * RISK_SCALE) by (nonlinear_arith);
    }
}

/// Among the covered cells that some equation holds, the one whose average
/// mine ratio over those equations is least; of several such, the one with
/// the lowest index. Ratios are measured in units of `1 / RISK_SCALE`.
pub fn pick_lowest_risk_boundary(equations: &Vec<Equation>, unrevealed: &Vec<bool>, dims: Dimensions) -> (r: Option<AiAction>)
    requires
        usable(dims),
        unrevealed@.len() == dims.total(),
        all_well_formed(equations@, dims.total() as nat),
        forall|k: int| 0 <= k < equations@.len() ==> (#[trigger] equations@[k]).mines <= 0xffff,
    ensures
        r is None <==> forall|i: int| 0 <= i < dims.total() ==> !candidate(equations@, unrevealed@, i),
        r matches Some(a) ==> exists|i: int| 0 <= i < dims.total() && #[trigger] candidate(equations@, unrevealed@, i) && a == AiAction::Reveal(cell_coord(dims, i))
            && forall|j: int| 0 <= j < dims.total() && #[trigger] candidate(equations@, unrevealed@, j) ==> avg_risk(equations@, i) <= avg_risk(equations@, j)
                && (j < i ==> avg_risk(equations@, i) < avg_risk(equations@, j)),
{
    let total = dims.total_cells();
    let mut sums: Vec<u128> = Vec::new();
    let mut counts: Vec<usize> = Vec::new();
    let mut i: usize = 0;
    while i < total
        invariant
            i <= total,
            sums@.len() == i,
            counts@.len() == i,
            forall|c: int| 0 <= c < i ==> #[trigger] sums@[c] == 0,
            forall|c: int| 0 <= c < i ==> #[trigger] counts@[c] == 0,
        decreases total - i,
    {
        sums.push(0);
        counts.push(0);
        i = i + 1;
    }
    let ghost eqs = equations@;
    let mut k: usize = 0;
    while k < equations.len()
        invariant
            k <= equations@.len(),
            eqs == equations@,
            total == dims.total(),
            sums@.len() == total,
            counts@.len() == total,
            all_well_formed(eqs, total as nat),
            forall|q: int| 0 <= q < eqs.len() ==> (#[trigger] eqs[q]).mines <= 0xffff,
            forall|c: int| 0 <= c < total ==> #[trigger] sums@[c] == risk_sum(eqs.take(k as int), c),
            forall|c: int| 0 <= c < total ==> #[trigger] counts@[c] == risk_count(eqs.take(k as int), c),
        decreases equations@.len() - k,
    {
        let e = &equations[k];
        let len = e.cells.len();
        proof {
            assert(well_formed(eqs[k as int], total as nat));
            assert(eqs.take(k + 1).drop_last() == eqs.take(k as int));
            assert(eqs.take(k + 1).last() == eqs[k as int]);
            assert forall|q: int| 0 <= q < eqs.take(k + 1).len() implies (#[trigger] eqs.take(k + 1)[q]).mines <= 0xffff by {
                assert(eqs.take(k + 1)[q] == eqs[q]);
            }
            assert forall|c: int| 0 <= c < total implies #[trigger] risk_sum(eqs.take(k + 1), c) <= (k + 1) * 0x10000 * RISK_SCALE && risk_count(eqs.take(k + 1), c) <= k + 1 by {
                lemma_risk_bounds(eqs.take(k + 1), c);
            }
            assert((k + 1) * 0x10000 * RISK_SCALE <= 0x10000000000000000 * 0x10000 * RISK_SCALE) by (nonlinear_arith)
                requires k + 1 <= 0x10000000000000000;
        }
        if len > 0 {
            let term: u128 = (e.mines as u128) * RISK_SCALE / (len as u128);
            proof {
                assert(term == risk_term(eqs[k as int]));
            }
            let mut t: usize = 0;
            while t < len
                invariant
                    t <= len,
                    len == e.cells@.len(),
                    *e == eqs[k as int],
                    well_formed(*e, total as nat),
                    k < eqs.len(),
                    eqs.len() <= usize::MAX,
                    total == dims.total(),
                    sums@.len() == total,
                    counts@.len() == total,
                    term == risk_term(*e),
                    eqs.take(k + 1).drop_last() == eqs.take(k as int),
                    eqs.take(k + 1).last() == eqs[k as int],
                    eqs.take(k + 1).len() > 0,
                    forall|c: int| 0 <= c < total ==> #[trigger] risk_sum(eqs.take(k + 1), c) <= (k + 1) * 0x10000 * RISK_SCALE && risk_count(eqs.take(k + 1), c) <= k + 1,
                    (k + 1) * 0x10000 * RISK_SCALE <= 0x10000000000000000 * 0x10000 * RISK_SCALE,
                    forall|c: int| 0 <= c < total ==> #[trigger] sums@[c] == risk_sum(eqs.take(k as int), c) + if e.cells@.take(t as int).contains(c as usize) { term as int } else { 0 },
                    forall|c: int| 0 <= c < total ==> #[trigger] counts@[c] == risk_count(eqs.take(k as int), c) + if e.cells@.take(t as int).contains(c as usize) { 1int } else { 0 },
                decreases len - t,
            {
                let c = e.cells[t];
                proof {
                    assert(c < total);
                    assert(!e.cells@.take(t as int).contains(c)) by {
                        if e.cells@.take(t as int).contains(c) {
                            let q = e.cells@.take(t as int).index_of(c);
                            assert(e.cells@[q] == c);
                            assert(e.cells@[q] < e.cells@[t as int]);
                        }
                    }
                    assert(e.cells@.contains(c));
                    assert(risk_sum(eqs.take(k + 1), c as int) == risk_sum(eqs.take(k as int), c as int) + term);
                    assert(risk_count(eqs.take(k + 1), c as int) == risk_count(eqs.take(k as int), c as int) + 1);
                }
                let old_sum = sums[c];
                let old_count = counts[c];
                sums.set(c, old_sum + term);
                counts.set(c, old_count + 1);
                proof {
                    assert(e.cells@.take(t + 1) == e.cells@.take(t as int).push(c));
                    assert forall|x: int| 0 <= x < total implies #[trigger] sums@[x] == risk_sum(eqs.take(k as int), x) + if e.cells@.take(t + 1).contains(x as usize) { term as int } else { 0 } by {
                        assert((x as usize) as int == x);
                        if x != c {
                            if e.cells@.take(t + 1).contains(x as usize) {
                                let q = e.cells@.take(t + 1).index_of(x as usize);
                                assert(e.cells@.take(t as int)[q] == x as usize);
                            }
                            if e.cells@.take(t as int).contains(x as usize) {
                                let q = e.cells@.take(t as int).index_of(x as usize);
                                assert(e.cells@.take(t + 1)[q] == x as usize);
                            }
                        } else {
                            assert(e.cells@.take(t + 1)[t as int] == c);
                        }
                    }
                    assert forall|x: int| 0 <= x < total implies #[trigger] counts@[x] == risk_count(eqs.take(k as int), x) + if e.cells@.take(t + 1).contains(x as usize) { 1int } else { 0 } by {
                        assert((x as usize) as int == x);
                        if x != c {
                            if e.cells@.take(t + 1).contains(x as usize) {
                                let q = e.cells@.take(t + 1).index_of(x as usize);
                                assert(e.cells@.take(t as int)[q] == x as usize);
                            }
                            if e.cells@.take(t as int).contains(x as usize) {
                                let q = e.cells@.take(t as int).index_of(x as usize);
                                assert(e.cells@.take(t + 1)[q] == x as usize);
                            }
                        } else {
                            assert(e.cells@.take(t + 1)[t as int] == c);
                        }
                    }
                }
                t = t + 1;
            }
            proof {
                assert(e.cells@.take(len as int) == e.cells@);
            }
        } else {
            proof {
                assert forall|c: int| 0 <= c < total implies #[trigger] sums@[c] == risk_sum(eqs.take(k + 1), c) by {
                    assert(!e.cells@.contains(c as usize));
                }
                assert forall|c: int| 0 <= c < total implies #[trigger] counts@[c] == risk_count(eqs.take(k + 1), c) by {
                    assert(!e.cells@.contains(c as usize));
                }
            }
        }
        k = k + 1;
    }
    proof {
        assert(eqs.take(eqs.len() as int) == eqs);
    }
    let mut best: Option<usize> = None;
    let mut best_avg: u128 = 0;
    let mut i: usize = 0;
    while i < total
        invariant
            i <= total,
            total == dims.total(),
            usable(dims),
            eqs == equations@,
            sums@.len() == total,
            counts@.len() == total,
            unrevealed@.len() == total,
            forall|c: int| 0 <= c < total ==> #[trigger] sums@[c] == risk_sum(eqs, c),
            forall|c: int| 0 <= c < total ==> #[trigger] counts@[c] == risk_count(eqs, c),
            best is None <==> forall|j: int| 0 <= j < i ==> !candidate(eqs, unrevealed@, j),
            best matches Some(b) ==> b < i && candidate(eqs, unrevealed@, b as int) && best_avg == avg_risk(eqs, b as int)
                && forall|j: int| 0 <= j < i && #[trigger] candidate(eqs, unrevealed@, j) ==> best_avg <= avg_risk(eqs, j) && (j < b ==> best_avg < avg_risk(eqs, j)),
        decreases total - i,
    {
        if unrevealed[i] && counts[i] > 0 {
            let avg = sums[i] / (counts[i] as u128);
            proof {
                assert(sums@[i as int] == risk_sum(eqs, i as int));
                assert(avg == avg_risk(eqs, i as int));
            }
            if best.is_none() || avg < best_avg {
                best_avg = avg;
                best = Some(i);
            }
        }
        proof {
            assert(candidate(eqs, unrevealed@, i as int) <==> (unrevealed@[i as int] && counts@[i as int] > 0));
        }
        i = i + 1;
    }
    match best {
        None => None,
        Some(b) => {
            proof {
                lemma_cell_coord(dims, b as int);
            }
            Some(AiAction::Reveal(Coord3D::from_index(b, dims.width, dims.height)))
        }
    }
}

} // verus!
