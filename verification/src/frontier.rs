//! The stronger AI players' analysis of the frontier: the cells of the
//! equations are split into groups that no equation links, and each group is
//! solved exactly, by counting its models when it is small and by integer
//! elimination when it is large.
use vstd::prelude::*;
use crate::solver::{Equation, tally, increasing, below, well_formed, all_well_formed, holds, meets_all, in_support, lemma_tally_split, copy_cells, empty_mask};
use crate::elim::clamp_u64;
use crate::decide::count_upto;
use crate::tank::{LocalEq, ones, satisfies, local_wf, models, models_with, search, lemma_with_le, MODEL_CAP};
use crate::elim::{dot, row_holds, rows_hold, shaped, follows, lemma_dot_bump, reduce_rows, bound_analysis, column_estimates, PPB, reduced_form, bound_safe, bound_mine, column_estimate};

verus! {

/// Every equation of `eqs` has all its cells under one label.
pub open spec fn labels_closed(eqs: Seq<Equation>, labels: Seq<usize>) -> bool {
    forall|k: int, x: usize, y: usize|
        0 <= k < eqs.len() && #[trigger] eqs[k].cells@.contains(x) && #[trigger] eqs[k].cells@.contains(y) ==> labels[x as int] == labels[y as int]
}

/// The sum of the labels, which each pass of merging lowers.
pub open spec fn label_sum(labels: Seq<usize>) -> nat
    decreases labels.len(),
{
    if labels.len() == 0 {
        0
    } else {
        label_sum(labels.drop_last()) + labels.last() as nat
    }
}

proof fn lemma_label_sum_update(labels: Seq<usize>, i: int, v: usize)
    requires
        0 <= i < labels.len(),
    ensures
        label_sum(labels.update(i, v)) + labels[i] == label_sum(labels) + v,
    decreases labels.len(),
{
    if i < labels.len() - 1 {
        assert(labels.update(i, v).drop_last() == labels.drop_last().update(i, v));
        lemma_label_sum_update(labels.drop_last(), i, v);
    } else {
        assert(labels.update(i, v).drop_last() == labels.drop_last());
    }
}

/// One pass of merging: each equation moves all its cells to the least label
/// among them. Says whether a label changed.
fn merge_pass(eqs: &Vec<Equation>, labels: &mut Vec<usize>) -> (changed: bool)
    requires
        all_well_formed(eqs@, old(labels)@.len() as nat),
    ensures
        final(labels)@.len() == old(labels)@.len(),
        changed ==> label_sum(final(labels)@) < label_sum(old(labels)@),
        !changed ==> final(labels)@ == old(labels)@ && labels_closed(eqs@, final(labels)@),
{
    let mut changed = false;
    let mut k: usize = 0;
    while k < eqs.len()
        invariant
            k <= eqs@.len(),
            labels@.len() == old(labels)@.len(),
            all_well_formed(eqs@, labels@.len() as nat),
            changed ==> label_sum(labels@) < label_sum(old(labels)@),
            !changed ==> labels@ == old(labels)@,
            !changed ==> forall|q: int, x: usize, y: usize|
                0 <= q < k && #[trigger] eqs@[q].cells@.contains(x) && #[trigger] eqs@[q].cells@.contains(y) ==> labels@[x as int] == labels@[y as int],
        decreases eqs@.len() - k,
    {
        let cells = &eqs[k].cells;
        proof {
            assert(well_formed(eqs@[k as int], labels@.len() as nat));
        }
        if cells.len() > 0 {
            let mut low = labels[cells[0]];
            let mut t: usize = 1;
            while t < cells.len()
                invariant
                    1 <= t <= cells@.len(),
                    *cells == eqs@[k as int].cells,
                    well_formed(eqs@[k as int], labels@.len() as nat),
                    forall|q: int| 0 <= q < t ==> low <= #[trigger] labels@[cells@[q] as int],
                    exists|q: int| 0 <= q < t && low == #[trigger] labels@[cells@[q] as int],
                decreases cells@.len() - t,
            {
                if labels[cells[t]] < low {
                    low = labels[cells[t]];
                }
                t = t + 1;
            }
            let ghost before = labels@;
            let ghost ch0 = changed;
            let mut t: usize = 0;
            while t < cells.len()
                invariant
                    t <= cells@.len(),
                    *cells == eqs@[k as int].cells,
                    well_formed(eqs@[k as int], labels@.len() as nat),
                    labels@.len() == before.len(),
                    forall|q: int| 0 <= q < cells@.len() ==> low <= #[trigger] before[cells@[q] as int],
                    forall|i: int| 0 <= i < labels@.len() ==> #[trigger] labels@[i] <= before[i],
                    label_sum(labels@) <= label_sum(before),
                    changed ==> (ch0 || label_sum(labels@) < label_sum(before)),
                    ch0 ==> changed,
                    !changed ==> labels@ == before,
                    increasing(cells@),
                    forall|q: int| t <= q < cells@.len() ==> #[trigger] labels@[cells@[q] as int] == before[cells@[q] as int],
                    forall|q: int| 0 <= q < t ==> #[trigger] labels@[cells@[q] as int] == low,
                decreases cells@.len() - t,
            {
                let c = cells[t];
                if labels[c] != low {
                    proof {
                        lemma_label_sum_update(labels@, c as int, low);
                        assert(labels@[cells@[t as int] as int] == before[cells@[t as int] as int]);
                        assert(low <= before[cells@[t as int] as int]);
                    }
                    labels.set(c, low);
                    changed = true;
                }
                proof {
                    assert forall|q: int| 0 <= q < t + 1 implies #[trigger] labels@[cells@[q] as int] == low by {
                        if q < t {
                            assert(cells@[q] < cells@[t as int]);
                        }
                    }
                    assert forall|q: int| t + 1 <= q < cells@.len() implies #[trigger] labels@[cells@[q] as int] == before[cells@[q] as int] by {
                        assert(cells@[q] > cells@[t as int]);
                    }
                }
                t = t + 1;
            }
            proof {
                if !changed {
                    assert forall|q: int, x: usize, y: usize|
                        0 <= q < k + 1 && #[trigger] eqs@[q].cells@.contains(x) && #[trigger] eqs@[q].cells@.contains(y) implies labels@[x as int] == labels@[y as int] by {
                        if q == k {
                            let a = cells@.index_of(x);
                            let b = cells@.index_of(y);
                            assert(labels@[cells@[a] as int] == low);
                            assert(labels@[cells@[b] as int] == low);
                        }
                    }
                }
            }
        } else {
            proof {
                assert forall|q: int, x: usize, y: usize|
                    0 <= q < k + 1 && #[trigger] eqs@[q].cells@.contains(x) && #[trigger] eqs@[q].cells@.contains(y) implies (!changed ==> labels@[x as int] == labels@[y as int]) by {
                    if q == k {
                        assert(cells@.len() == 0);
                    }
                }
            }
        }
        k = k + 1;
    }
    changed
}

/// Labels such that the cells of each equation share one: merged from each
/// cell's own index until nothing changes.
pub fn component_labels(eqs: &Vec<Equation>, n: usize) -> (labels: Vec<usize>)
    requires
        all_well_formed(eqs@, n as nat),
    ensures
        labels@.len() == n,
        labels_closed(eqs@, labels@),
{
    let mut labels: Vec<usize> = Vec::new();
    let mut i: usize = 0;
    while i < n
        invariant
            i <= n,
            labels@.len() == i,
        decreases n - i,
    {
        labels.push(i);
        i = i + 1;
    }
    loop
        invariant
            labels@.len() == n,
            all_well_formed(eqs@, n as nat),
        ensures
            labels@.len() == n,
            labels_closed(eqs@, labels@),
        decreases label_sum(labels@),
    {
        let changed = merge_pass(eqs, &mut labels);
        if !changed {
            break;
        }
    }
    labels
}


/// The tally of one cell.
proof fn lemma_tally_single(m: Seq<bool>, x: usize, n: nat)
    requires
        n <= usize::MAX,
    ensures
        tally(m, seq![x], n) == if x < n && m[x as int] { 1nat } else { 0nat },
    decreases n,
{
    if n > 0 {
        lemma_tally_single(m, x, (n - 1) as nat);
        assert(seq![x].contains((n - 1) as usize) <==> x == n - 1) by {
            if seq![x].contains((n - 1) as usize) {
                assert(seq![x][0] == x);
            }
            if x == n - 1 {
                assert(seq![x][0] == x);
            }
        }
    }
}

/// Over a strictly increasing list of cells below `n`, the count of marked
/// cells is the tally.
pub proof fn lemma_ones_tally(m: Seq<bool>, s: Seq<usize>, n: nat)
    requires
        n <= usize::MAX,
        increasing(s),
        below(s, n),
    ensures
        ones(m, s) == tally(m, s, n),
    decreases s.len(),
{
    if s.len() == 0 {
        assert forall|i: usize| i < n implies !(s.contains(i)) by {}
        lemma_tally_split(m, s, s, s, n);
    } else {
        let t = s.drop_last();
        let x = s.last();
        assert(increasing(t));
        assert(below(t, n));
        lemma_ones_tally(m, t, n);
        let d = seq![x];
        assert forall|i: usize| i < n implies (s.contains(i) <==> (t.contains(i) || d.contains(i))) by {
            if s.contains(i) {
                let q = s.index_of(i);
                if q < s.len() - 1 {
                    assert(t[q] == i);
                } else {
                    assert(d[0] == i);
                }
            }
            if t.contains(i) {
                let q = t.index_of(i);
                assert(s[q] == i);
            }
            if d.contains(i) {
                assert(d[0] == i);
                assert(s[s.len() - 1] == i);
            }
        }
        assert forall|i: usize| i < n implies !(t.contains(i) && d.contains(i)) by {
            if t.contains(i) && d.contains(i) {
                let q = t.index_of(i);
                assert(d[0] == i);
                assert(s[q] < s[s.len() - 1]);
            }
        }
        lemma_tally_split(m, t, s, d, n);
        lemma_tally_single(m, x, n);
    }
}

/// Counting through a renumbering that keeps the marks counts the same.
pub proof fn lemma_ones_map(a: Seq<bool>, la: Seq<usize>, m: Seq<bool>, gs: Seq<usize>)
    requires
        la.len() == gs.len(),
        forall|t: int| 0 <= t < la.len() ==> a[#[trigger] la[t] as int] == m[gs[t] as int],
    ensures
        ones(a, la) == ones(m, gs),
    decreases la.len(),
{
    if la.len() > 0 {
        assert forall|t: int| 0 <= t < la.drop_last().len() implies a[#[trigger] la.drop_last()[t] as int] == m[gs.drop_last()[t] as int] by {
            assert(la.drop_last()[t] == la[t]);
            assert(gs.drop_last()[t] == gs[t]);
        }
        lemma_ones_map(a, la.drop_last(), m, gs.drop_last());
        assert(a[la[la.len() - 1] as int] == m[gs[gs.len() - 1] as int]);
    }
}

/// A model with a mine on cell `v` is counted among those with a mine there,
/// and a model without one among the others.
pub proof fn lemma_model_counted(a: Seq<bool>, i: nat, k: nat, eqs: Seq<LocalEq>, v: int)
    requires
        a.len() == k,
        i <= k,
        satisfies(a, eqs),
    ensures
        a[v] ==> models_with(a.take(i as int), k, eqs, v) >= 1,
        !a[v] ==> models(a.take(i as int), k, eqs) >= models_with(a.take(i as int), k, eqs, v) + 1,
    decreases k - i,
{
    if i == k {
        assert(a.take(i as int) == a);
    } else {
        lemma_model_counted(a, i + 1, k, eqs, v);
        let p = a.take(i as int);
        assert(a.take((i + 1) as int) == p.push(a[i as int]));
        lemma_with_le(p.push(false), k, eqs, v);
        lemma_with_le(p.push(true), k, eqs, v);
    }
}

/// The position of `x` in `v`, which holds it.
/// The first place of `x` in `order`.
pub open spec fn first_pos(order: Seq<usize>, x: usize) -> int {
    choose|i: int| 0 <= i < order.len() && order[i] == x && forall|j: int| 0 <= j < i ==> order[j] != x
}

/// A place of `x` with no `x` before it is its first place.
proof fn lemma_first_pos(order: Seq<usize>, x: usize, i: int)
    requires
        0 <= i < order.len(),
        order[i] == x,
        forall|j: int| 0 <= j < i ==> order[j] != x,
    ensures
        first_pos(order, x) == i,
{
    let c = first_pos(order, x);
    assert(0 <= c < order.len() && order[c] == x && forall|j: int| 0 <= j < c ==> order[j] != x);
    if c < i {
        assert(order[c] != x);
    } else if c > i {
        assert(order[i] != x);
    }
}

/// The cells of an equation as their places in `order`.
pub open spec fn places(order: Seq<usize>, cells: Seq<usize>) -> Seq<usize> {
    Seq::new(cells.len(), |t: int| first_pos(order, cells[t]) as usize)
}

/// Marks `a`, one per cell of `order`, meet every equation of `eqs`.
pub open spec fn fits(a: Seq<bool>, order: Seq<usize>, eqs: Seq<Equation>) -> bool {
    forall|e: int| 0 <= e < eqs.len() ==> ones(a, places(order, (#[trigger] eqs[e]).cells@)) == eqs[e].mines
}

/// The number of ways to mark the cells of `order` that extend `p` and meet
/// every equation of `eqs`.
pub open spec fn component_models(p: Seq<bool>, order: Seq<usize>, eqs: Seq<Equation>) -> nat
    decreases order.len() - p.len(),
{
    if p.len() >= order.len() {
        if fits(p, order, eqs) { 1 } else { 0 }
    } else {
        component_models(p.push(false), order, eqs) + component_models(p.push(true), order, eqs)
    }
}

/// The number of those ways that mark the cell at place `v`.
pub open spec fn component_models_with(p: Seq<bool>, order: Seq<usize>, eqs: Seq<Equation>, v: int) -> nat
    decreases order.len() - p.len(),
{
    if p.len() >= order.len() {
        if fits(p, order, eqs) && p[v] { 1 } else { 0 }
    } else {
        component_models_with(p.push(false), order, eqs, v) + component_models_with(p.push(true), order, eqs, v)
    }
}

/// Counting models of the local equations is counting the ways to mark the
/// component, when the local equations are the equations' cells by place.
proof fn lemma_models_agree(p: Seq<bool>, leqs: Seq<LocalEq>, order: Seq<usize>, eqs: Seq<Equation>, v: int)
    requires
        p.len() <= order.len(),
        leqs.len() == eqs.len(),
        forall|e: int| 0 <= e < eqs.len() ==> (#[trigger] leqs[e]).vars@ == places(order, eqs[e].cells@) && leqs[e].mines == eqs[e].mines,
    ensures
        models(p, order.len(), leqs) == component_models(p, order, eqs),
        models_with(p, order.len(), leqs, v) == component_models_with(p, order, eqs, v),
    decreases order.len() - p.len(),
{
    if p.len() >= order.len() {
        assert(satisfies(p, leqs) == fits(p, order, eqs)) by {
            if satisfies(p, leqs) {
                assert forall|e: int| 0 <= e < eqs.len() implies ones(p, places(order, (#[trigger] eqs[e]).cells@)) == eqs[e].mines by {
                    assert(ones(p, leqs[e].vars@) == leqs[e].mines);
                }
            }
            if fits(p, order, eqs) {
                assert forall|e: int| 0 <= e < leqs.len() implies ones(p, (#[trigger] leqs[e]).vars@) == leqs[e].mines by {
                    assert(ones(p, places(order, eqs[e].cells@)) == eqs[e].mines);
                }
            }
        }
    } else {
        lemma_models_agree(p.push(false), leqs, order, eqs, v);
        lemma_models_agree(p.push(true), leqs, order, eqs, v);
    }
}

fn position_of(v: &Vec<usize>, x: usize) -> (p: usize)
    requires
        v@.contains(x),
    ensures
        p < v@.len(),
        v@[p as int] == x,
        p == first_pos(v@, x),
{
    let mut i: usize = 0;
    while i < v.len()
        invariant
            i <= v@.len(),
            v@.contains(x),
            forall|q: int| 0 <= q < i ==> v@[q] != x,
        decreases v@.len() - i,
    {
        if v[i] == x {
            proof {
                lemma_first_pos(v@, x, i as int);
            }
            return i;
        }
        i = i + 1;
    }
    proof {
        let q = v@.index_of(x);
        assert(v@[q] == x);
    }
    0
}

/// How many of the equations hold cell `x`.
fn frequency(eqs: &Vec<Equation>, x: usize) -> (f: usize)
    ensures
        f == count_upto(eqs@.len(), |q: int| eqs@[q].cells@.contains(x)),
        f <= eqs@.len(),
{
    let mut f: usize = 0;
    let mut k: usize = 0;
    while k < eqs.len()
        invariant
            k <= eqs@.len(),
            f <= k,
            f == count_upto(k as nat, |q: int| eqs@[q].cells@.contains(x)),
        decreases eqs@.len() - k,
    {
        if holds_cell(&eqs[k].cells, x) {
            f = f + 1;
        }
        k = k + 1;
    }
    f
}

/// Whether `v` holds `x`.
fn holds_cell(v: &Vec<usize>, x: usize) -> (b: bool)
    ensures
        b == v@.contains(x),
{
    let mut i: usize = 0;
    while i < v.len()
        invariant
            i <= v@.len(),
            forall|q: int| 0 <= q < i ==> v@[q] != x,
        decreases v@.len() - i,
    {
        if v[i] == x {
            assert(v@[i as int] == x);
            return true;
        }
        i = i + 1;
    }
    false
}

/// The cells of `vars`, most constrained first: in decreasing order of how
/// many equations hold them, and in their given order among equals.
pub fn order_by_frequency(vars: &Vec<usize>, eqs: &Vec<Equation>) -> (ordered: Vec<usize>)
    ensures
        forall|x: usize| #[trigger] vars@.contains(x) ==> ordered@.contains(x),
        forall|x: usize| #[trigger] ordered@.contains(x) ==> vars@.contains(x),
{
    let mut freqs: Vec<usize> = Vec::new();
    let mut top: usize = 0;
    let mut i: usize = 0;
    while i < vars.len()
        invariant
            i <= vars@.len(),
            freqs@.len() == i,
            forall|q: int| 0 <= q < i ==> #[trigger] freqs@[q] <= top,
        decreases vars@.len() - i,
    {
        let f = frequency(eqs, vars[i]);
        if f > top {
            top = f;
        }
        freqs.push(f);
        i = i + 1;
    }
    let mut ordered: Vec<usize> = Vec::new();
    let mut level: u128 = top as u128 + 1;
    while level > 0
        invariant
            level <= top + 1,
            freqs@.len() == vars@.len(),
            forall|q: int| 0 <= q < vars@.len() ==> #[trigger] freqs@[q] <= top,
            forall|q: int| 0 <= q < vars@.len() && #[trigger] freqs@[q] >= level ==> ordered@.contains(vars@[q]),
            forall|x: usize| #[trigger] ordered@.contains(x) ==> vars@.contains(x),
        decreases level,
    {
        level = level - 1;
        let mut q: usize = 0;
        while q < vars.len()
            invariant
                q <= vars@.len(),
                freqs@.len() == vars@.len(),
                forall|r: int| 0 <= r < vars@.len() && #[trigger] freqs@[r] >= level + 1 ==> ordered@.contains(vars@[r]),
                forall|r: int| 0 <= r < q && #[trigger] freqs@[r] == level ==> ordered@.contains(vars@[r]),
                forall|x: usize| #[trigger] ordered@.contains(x) ==> vars@.contains(x),
            decreases vars@.len() - q,
        {
            if freqs[q] as u128 == level {
                let ghost before = ordered@;
                ordered.push(vars[q]);
                proof {
                    assert forall|x: usize| #[trigger] ordered@.contains(x) implies vars@.contains(x) by {
                        let j = ordered@.index_of(x);
                        if j < before.len() {
                            assert(before[j] == x);
                            assert(before.contains(x));
                        } else {
                            assert(vars@[q as int] == x);
                        }
                    }
                    assert forall|r: int| 0 <= r < vars@.len() && #[trigger] freqs@[r] >= level + 1 implies ordered@.contains(vars@[r]) by {
                        assert(before.contains(vars@[r]));
                        let j = before.index_of(vars@[r]);
                        assert(ordered@[j] == vars@[r]);
                    }
                    assert forall|r: int| 0 <= r < q + 1 && #[trigger] freqs@[r] == level implies ordered@.contains(vars@[r]) by {
                        if r < q {
                            assert(before.contains(vars@[r]));
                            let j = before.index_of(vars@[r]);
                            assert(ordered@[j] == vars@[r]);
                        } else {
                            assert(ordered@[before.len() as int] == vars@[r]);
                        }
                    }
                }
            }
            q = q + 1;
        }
    }
    proof {
        assert forall|x: usize| #[trigger] vars@.contains(x) implies ordered@.contains(x) by {
            let q = vars@.index_of(x);
            assert(freqs@[q] >= 0);
        }
    }
    ordered
}

/// Every cell of every equation of `eqs` is one of `vars`.
pub open spec fn closed_over(eqs: Seq<Equation>, vars: Seq<usize>) -> bool {
    forall|k: int, x: usize| 0 <= k < eqs.len() && #[trigger] eqs[k].cells@.contains(x) ==> vars.contains(x)
}

/// What counting the models of a component finds: `ordered` lists the
/// component's cells `vars`, `count` models were found (at most the cap), and
/// `mc` has, per listed cell, the models with a mine there; below the cap
/// these are the exact counts.
pub open spec fn counted(vars: Seq<usize>, ceqs: Seq<Equation>, n: usize, ordered: Seq<usize>, count: u64, mc: Seq<u64>) -> bool {
    &&& (forall|x: usize| #[trigger] vars.contains(x) ==> ordered.contains(x))
    &&& (forall|x: usize| #[trigger] ordered.contains(x) ==> vars.contains(x))
    &&& (mc.len() == ordered.len())
    &&& (count <= MODEL_CAP)
    &&& (forall|t: int| 0 <= t < mc.len() ==> #[trigger] mc[t] <= count)
    &&& (count < MODEL_CAP ==> forall|m: Seq<bool>, t: int|
        m.len() == n && #[trigger] meets_all(m, ceqs, n as nat) && 0 <= t < ordered.len() ==>
            (#[trigger] mc[t] == 0 ==> !m[ordered[t] as int]) && (mc[t] == count ==> m[ordered[t] as int]))
    &&& (count < MODEL_CAP ==> count == component_models(Seq::empty(), ordered, ceqs))
    &&& (count < MODEL_CAP ==> forall|t: int| 0 <= t < mc.len() ==> #[trigger] mc[t] == component_models_with(Seq::empty(), ordered, ceqs, t))
}

/// Exact model counting on one component: the cells in the order searched,
/// the models found (at most the cap) and, per cell, the models found with a
/// mine there. Below the cap the counts are exact, so a cell that no model
/// mines is safe, and a cell that every model mines holds a mine, in every
/// layout meeting the equations.
pub fn solve_component_backtracking(vars: &Vec<usize>, ceqs: &Vec<Equation>, n: usize) -> (r: (Vec<usize>, u64, Vec<u64>))
    requires
        all_well_formed(ceqs@, n as nat),
        closed_over(ceqs@, vars@),
    ensures
        counted(vars@, ceqs@, n, r.0@, r.1, r.2@),
{
    let ordered = order_by_frequency(vars, ceqs);
    let k = ordered.len();
    let mut leqs: Vec<LocalEq> = Vec::new();
    let mut q: usize = 0;
    while q < ceqs.len()
        invariant
            q <= ceqs@.len(),
            k == ordered@.len(),
            all_well_formed(ceqs@, n as nat),
            closed_over(ceqs@, vars@),
            forall|x: usize| #[trigger] vars@.contains(x) ==> ordered@.contains(x),
            leqs@.len() == q,
            local_wf(leqs@, k as nat),
            forall|e: int| 0 <= e < q ==> (#[trigger] leqs@[e]).mines == ceqs@[e].mines && leqs@[e].vars@.len() == ceqs@[e].cells@.len()
                && forall|t: int| 0 <= t < leqs@[e].vars@.len() ==> ordered@[#[trigger] leqs@[e].vars@[t] as int] == ceqs@[e].cells@[t],
            forall|e: int| 0 <= e < q ==> (#[trigger] leqs@[e]).vars@ == places(ordered@, ceqs@[e].cells@),
        decreases ceqs@.len() - q,
    {
        let cells = &ceqs[q].cells;
        let mut lv: Vec<usize> = Vec::new();
        let mut t: usize = 0;
        while t < cells.len()
            invariant
                t <= cells@.len(),
                *cells == ceqs@[q as int].cells,
                q < ceqs@.len(),
                k == ordered@.len(),
                closed_over(ceqs@, vars@),
                forall|x: usize| #[trigger] vars@.contains(x) ==> ordered@.contains(x),
                lv@.len() == t,
                forall|u: int| 0 <= u < t ==> #[trigger] lv@[u] < k && ordered@[lv@[u] as int] == cells@[u],
                forall|u: int| 0 <= u < t ==> #[trigger] lv@[u] == first_pos(ordered@, cells@[u]),
            decreases cells@.len() - t,
        {
            proof {
                assert(ceqs@[q as int].cells@.contains(cells@[t as int]));
                assert(vars@.contains(cells@[t as int]));
            }
            let pos = position_of(&ordered, cells[t]);
            lv.push(pos);
            t = t + 1;
        }
        let ghost before = leqs@;
        let ghost lvs = lv@;
        leqs.push(LocalEq { vars: lv, mines: ceqs[q].mines });
        proof {
            assert(leqs@[q as int].vars@ == lvs);
            assert(lvs =~= places(ordered@, ceqs@[q as int].cells@));
            assert forall|e: int| 0 <= e < q + 1 implies (#[trigger] leqs@[e]).vars@ == places(ordered@, ceqs@[e].cells@) by {
                if e < q {
                    assert(leqs@[e] == before[e]);
                }
            }
            assert forall|e: int, t2: int| 0 <= e < leqs@.len() && 0 <= t2 < (#[trigger] leqs@[e]).vars@.len() implies #[trigger] leqs@[e].vars@[t2] < k by {
                if e < q {
                    assert(leqs@[e] == before[e]);
                }
            }
            assert forall|e: int| 0 <= e < q + 1 implies (#[trigger] leqs@[e]).mines == ceqs@[e].mines && leqs@[e].vars@.len() == ceqs@[e].cells@.len()
                && forall|t2: int| 0 <= t2 < leqs@[e].vars@.len() ==> ordered@[#[trigger] leqs@[e].vars@[t2] as int] == ceqs@[e].cells@[t2] by {
                if e < q {
                    assert(leqs@[e] == before[e]);
                }
            }
        }
        q = q + 1;
    }
    let mut a: Vec<bool> = Vec::new();
    let mut mc: Vec<u64> = Vec::new();
    let mut i: usize = 0;
    while i < k
        invariant
            i <= k,
            a@.len() == i,
            mc@.len() == i,
            forall|v: int| 0 <= v < i ==> #[trigger] mc@[v] == 0,
        decreases k - i,
    {
        a.push(false);
        mc.push(0);
        i = i + 1;
    }
    let mut count: u64 = 0;
    let ghost a0 = a@;
    let ghost mc0 = mc@;
    search(0, &mut a, &leqs, &mut count, &mut mc);
    proof {
        assert(a0.take(0) == Seq::<bool>::empty());
        if count < MODEL_CAP {
            let e0 = Seq::<bool>::empty();
            assert(count == models(e0, k as nat, leqs@));
            assert forall|m: Seq<bool>, t: int|
                m.len() == n && #[trigger] meets_all(m, ceqs@, n as nat) && 0 <= t < ordered@.len() implies
                    (#[trigger] mc@[t] == 0 ==> !m[ordered@[t] as int]) && (mc@[t] == count ==> m[ordered@[t] as int]) by {
                let am = Seq::new(k as nat, |u: int| m[ordered@[u] as int]);
                assert(satisfies(am, leqs@)) by {
                    assert forall|e: int| 0 <= e < leqs@.len() implies ones(am, (#[trigger] leqs@[e]).vars@) == leqs@[e].mines by {
                        let ce = ceqs@[e];
                        assert(holds(m, ce, n as nat));
                        assert(well_formed(ce, n as nat));
                        assert forall|u: int| 0 <= u < leqs@[e].vars@.len() implies am[#[trigger] leqs@[e].vars@[u] as int] == m[ce.cells@[u] as int] by {
                            assert(ordered@[leqs@[e].vars@[u] as int] == ce.cells@[u]);
                        }
                        lemma_ones_map(am, leqs@[e].vars@, m, ce.cells@);
                        lemma_ones_tally(m, ce.cells@, n as nat);
                    }
                }
                assert(am.take(0) == e0);
                lemma_model_counted(am, 0, k as nat, leqs@, t);
                assert(mc@[t] == mc0[t] + models_with(e0, k as nat, leqs@, t));
            }
            lemma_models_agree(e0, leqs@, ordered@, ceqs@, 0);
            assert forall|t: int| 0 <= t < mc@.len() implies #[trigger] mc@[t] == component_models_with(e0, ordered@, ceqs@, t) by {
                lemma_models_agree(e0, leqs@, ordered@, ceqs@, t);
                assert(mc@[t] == mc0[t] + models_with(e0, k as nat, leqs@, t));
            }
        }
    }
    (ordered, count, mc)
}


/// The marks of layout `m` on the cells `vars`, in their order.
pub open spec fn project(m: Seq<bool>, vars: Seq<usize>) -> Seq<bool> {
    Seq::new(vars.len(), |j: int| m[vars[j] as int])
}

/// Layout `m` agrees with the marks, given per cell of `vars`.
pub open spec fn agrees(m: Seq<bool>, vars: Seq<usize>, safe: Seq<bool>, mines: Seq<bool>) -> bool {
    forall|c: int| #![trigger safe[c]] #![trigger mines[c]] 0 <= c < vars.len() ==> (safe[c] ==> !m[vars[c] as int]) && (mines[c] ==> m[vars[c] as int])
}

/// How many of the first `t` of `cells` have their first place in `vars` at
/// `u`.
pub open spec fn hits(vars: Seq<usize>, cells: Seq<usize>, u: int, t: int) -> nat
    decreases t,
{
    if t <= 0 {
        0
    } else {
        hits(vars, cells, u, t - 1) + if first_pos(vars, cells[t - 1]) == u { 1nat } else { 0nat }
    }
}

/// The row of equation `e` over the cells `vars`: in the column of each
/// cell of `vars`, how many of the equation's cells are that one (one, for
/// cells listed once), and its mine count last.
pub open spec fn eq_row(vars: Seq<usize>, e: Equation) -> Seq<i128> {
    Seq::new((vars.len() + 1) as nat, |u: int| if u < vars.len() { hits(vars, e.cells@, u, e.cells@.len() as int) as i128 } else { e.mines as i128 })
}

/// The rows `rows` are those of the equations `eqs` over the cells `vars`.
pub open spec fn rows_of(vars: Seq<usize>, eqs: Seq<Equation>, rows: Seq<Vec<i128>>) -> bool {
    &&& rows.len() == eqs.len()
    &&& forall|q: int| 0 <= q < eqs.len() ==> (#[trigger] rows[q])@ == eq_row(vars, eqs[q])
}

/// The row of an equation over the cells `vars`: a one in the column of each
/// of its cells, and its mine count last.
#[verifier::rlimit(40)]
fn equation_row(vars: &Vec<usize>, e: &Equation, n: usize) -> (row: Vec<i128>)
    requires
        well_formed(*e, n as nat),
        forall|x: usize| #[trigger] e.cells@.contains(x) ==> vars@.contains(x),
    ensures
        row@.len() == vars@.len() + 1,
        row@ == eq_row(vars@, *e),
        forall|m: Seq<bool>| m.len() == n && #[trigger] holds(m, *e, n as nat) ==>
            row_holds(row@, project(m, vars@), vars@.len() as nat),
{
    let k = vars.len();
    let mut row: Vec<i128> = Vec::new();
    let mut j: usize = 0;
    while j < k
        invariant
            j <= k,
            k == vars@.len(),
            row@.len() == j,
            forall|u: int| 0 <= u < j ==> #[trigger] row@[u] == 0,
        decreases k - j,
    {
        row.push(0);
        j = j + 1;
    }
    row.push(0);
    proof {
        assert forall|a: Seq<bool>| a.len() == k implies #[trigger] dot(row@, a, k as nat) == ones(a, Seq::<usize>::empty()) by {
            lemma_dot_zero(row@, a, k as nat);
        }
    }
    let ghost mut lpos: Seq<usize> = Seq::empty();
    let mut t: usize = 0;
    while t < e.cells.len()
        invariant
            t <= e.cells@.len(),
            k == vars@.len(),
            row@.len() == k + 1,
            well_formed(*e, n as nat),
            forall|x: usize| #[trigger] e.cells@.contains(x) ==> vars@.contains(x),
            forall|u: int| 0 <= u < row@.len() ==> 0 <= #[trigger] row@[u] <= t,
            forall|u: int| 0 <= u < k ==> #[trigger] row@[u] == hits(vars@, e.cells@, u, t as int),
            row@[k as int] == 0,
            lpos.len() == t,
            forall|u: int| 0 <= u < t ==> #[trigger] lpos[u] < k && vars@[lpos[u] as int] == e.cells@[u],
            forall|a: Seq<bool>| a.len() == k ==> #[trigger] dot(row@, a, k as nat) == ones(a, lpos),
        decreases e.cells@.len() - t,
    {
        proof {
            assert(e.cells@.contains(e.cells@[t as int]));
        }
        let pos = position_of(vars, e.cells[t]);
        let old_v = row[pos];
        let ghost before = row@;
        row.set(pos, old_v + 1);
        proof {
            assert forall|a: Seq<bool>| a.len() == k implies #[trigger] dot(row@, a, k as nat) == ones(a, lpos.push(pos)) by {
                lemma_dot_bump(before, a, pos as int, (old_v + 1) as i128, k as nat);
                assert(lpos.push(pos).drop_last() == lpos);
            }
            lpos = lpos.push(pos);
        }
        t = t + 1;
    }
    let ghost hist = row@;
    let last = e.mines as i128;
    row.set(k, last);
    proof {
        assert(row@ =~= eq_row(vars@, *e));
        assert forall|m: Seq<bool>| m.len() == n && #[trigger] holds(m, *e, n as nat) implies
            row_holds(row@, project(m, vars@), k as nat) by {
            let a = project(m, vars@);
            assert forall|j: nat| j <= k implies #[trigger] dot(row@, a, j) == dot(hist, a, j) by {
                lemma_dot_prefix_same(row@, hist, a, j);
            }
            assert forall|u: int| 0 <= u < lpos.len() implies a[#[trigger] lpos[u] as int] == m[e.cells@[u] as int] by {}
            lemma_ones_map(a, lpos, m, e.cells@);
            lemma_ones_tally(m, e.cells@, n as nat);
        }
    }
    row
}

/// A row of zeros sums to zero.
proof fn lemma_dot_zero(x: Seq<i128>, a: Seq<bool>, j: nat)
    requires
        j <= x.len(),
        forall|u: int| 0 <= u < j ==> #[trigger] x[u] == 0,
    ensures
        dot(x, a, j) == 0,
    decreases j,
{
    if j > 0 {
        lemma_dot_zero(x, a, (j - 1) as nat);
    }
}

/// Sums over columns that two rows share agree.
proof fn lemma_dot_prefix_same(x: Seq<i128>, y: Seq<i128>, a: Seq<bool>, j: nat)
    requires
        forall|u: int| 0 <= u < j ==> #[trigger] x[u] == y[u],
    ensures
        dot(x, a, j) == dot(y, a, j),
    decreases j,
{
    if j > 0 {
        lemma_dot_prefix_same(x, y, a, (j - 1) as nat);
    }
}

/// What elimination on a component finds: nothing exactly when it has no
/// cell or no equation; otherwise, per cell of `vars`, whether it is settled
/// safe or a mine and its estimated chance of a mine (parts per billion):
/// the bound rule and the column estimates on a reduction of the
/// component's rows, true of every layout meeting the equations.
pub open spec fn eliminated(vars: Seq<usize>, ceqs: Seq<Equation>, n: usize, r: Option<(Seq<bool>, Seq<bool>, Seq<u64>)>) -> bool {
    &&& (r is None <==> (vars.len() == 0 || ceqs.len() == 0))
    &&& (r matches Some((safe, mines, est)) ==> {
        &&& safe.len() == vars.len() && mines.len() == vars.len() && est.len() == vars.len()
        &&& forall|c: int| 0 <= c < vars.len() ==> #[trigger] est[c] <= PPB
        &&& forall|m: Seq<bool>| m.len() == n && #[trigger] meets_all(m, ceqs, n as nat) ==> agrees(m, vars, safe, mines)
        &&& exists|base: Seq<Vec<i128>>, rs: Seq<Vec<i128>>| {
            &&& rows_of(vars, ceqs, base)
            &&& #[trigger] reduced_form(base, rs, vars.len() as nat)
            &&& forall|c: int| 0 <= c < vars.len() ==> {
                &&& (#[trigger] safe[c] <==> bound_safe(rs, vars.len() as nat, c, rs.len() as int))
                &&& (mines[c] <==> bound_mine(rs, vars.len() as nat, c, rs.len() as int))
                &&& est[c] == if safe[c] { 0 } else if mines[c] { PPB as int } else { column_estimate(rs, vars.len() as int, c) }
            }
        }
    })
}

/// Elimination on one component: per cell of `vars`, whether the reduced
/// equations settle it safe or a mine, and its estimated chance of a mine in
/// parts per billion; `None` when there is no equation.
pub fn solve_component_gaussian(vars: &Vec<usize>, ceqs: &Vec<Equation>, n: usize) -> (r: Option<(Vec<bool>, Vec<bool>, Vec<u64>)>)
    requires
        all_well_formed(ceqs@, n as nat),
        closed_over(ceqs@, vars@),
    ensures
        eliminated(vars@, ceqs@, n, match r { Some((a, b, c)) => Some((a@, b@, c@)), None => None }),
{
    let k = vars.len();
    if k == 0 || ceqs.len() == 0 {
        return None;
    }
    let mut rows: Vec<Vec<i128>> = Vec::new();
    let mut q: usize = 0;
    while q < ceqs.len()
        invariant
            q <= ceqs@.len(),
            k == vars@.len(),
            all_well_formed(ceqs@, n as nat),
            closed_over(ceqs@, vars@),
            rows@.len() == q,
            shaped(rows@, k as nat),
            forall|u: int| 0 <= u < q ==> (#[trigger] rows@[u])@ == eq_row(vars@, ceqs@[u]),
            forall|m: Seq<bool>| m.len() == n && #[trigger] meets_all(m, ceqs@, n as nat) ==>
                forall|u: int| 0 <= u < q ==> #[trigger] row_holds(rows@[u]@, project(m, vars@), k as nat),
        decreases ceqs@.len() - q,
    {
        proof {
            assert(well_formed(ceqs@[q as int], n as nat));
            assert forall|x: usize| #[trigger] ceqs@[q as int].cells@.contains(x) implies vars@.contains(x) by {}
        }
        let row = equation_row(vars, &ceqs[q], n);
        let ghost before = rows@;
        rows.push(row);
        proof {
            assert forall|u: int| 0 <= u < rows@.len() implies (#[trigger] rows@[u])@.len() == k + 1 by {
                if u < q {
                    assert(rows@[u] == before[u]);
                }
            }
            assert forall|m: Seq<bool>| m.len() == n && #[trigger] meets_all(m, ceqs@, n as nat) implies
                forall|u: int| 0 <= u < q + 1 ==> #[trigger] row_holds(rows@[u]@, project(m, vars@), k as nat) by {
                assert(holds(m, ceqs@[q as int], n as nat));
                assert forall|u: int| 0 <= u < q + 1 implies #[trigger] row_holds(rows@[u]@, project(m, vars@), k as nat) by {
                    if u < q {
                        assert(rows@[u] == before[u]);
                    }
                }
            }
        }
        q = q + 1;
    }
    let ghost rows0 = rows@;
    let reduced = reduce_rows(rows, k);
    let (safe, mines) = bound_analysis(&reduced, k);
    let est = column_estimates(&reduced, k, &safe, &mines);
    proof {
        assert(rows_of(vars@, ceqs@, rows0));
        assert(reduced_form(rows0, reduced@, k as nat));
        assert forall|m: Seq<bool>| m.len() == n && #[trigger] meets_all(m, ceqs@, n as nat) implies agrees(m, vars@, safe@, mines@) by {
            let a = project(m, vars@);
            assert(a.len() == k);
            assert forall|u: int| 0 <= u < rows0.len() implies #[trigger] row_holds(rows0[u]@, a, k as nat) by {}
            assert(rows_hold(rows0, a, k as nat));
            assert(rows_hold(reduced@, a, k as nat));
            assert forall|c: int| 0 <= c < vars@.len() implies (safe@[c] ==> !m[vars@[c] as int]) && (mines@[c] ==> m[vars@[c] as int]) by {
                assert(a[c] == m[vars@[c] as int]);
                assert(0 <= c < k);
                assert(safe@[c] ==> !a[c]);
                assert(mines@[c] ==> a[c]);
            }
        }
        assert forall|c: int| 0 <= c < vars@.len() implies #[trigger] est@[c] <= PPB by {
            if !safe@[c] && !mines@[c] {
                assert(est@[c] <= 990_000_000);
            }
        }
    }
    Some((safe, mines, est))
}


/// What the component analysis found, per cell: marked safe or mine by the
/// counting or the elimination, the part of those marks that is certain, and
/// the estimated chance of a mine (parts per billion) where there is one.
#[derive(Debug)]
pub struct FrontierSolution {
    pub safe: Vec<bool>,
    pub mines: Vec<bool>,
    pub sure_safe: Vec<bool>,
    pub sure_mines: Vec<bool>,
    pub probs: Vec<u64>,
    pub has_prob: Vec<bool>,
}

impl FrontierSolution {
    /// Masks and estimates over `n` cells, and what they promise of every
    /// layout meeting `eqs`.
    pub open spec fn sound(self, eqs: Seq<Equation>, n: nat) -> bool {
        &&& self.safe@.len() == n
        &&& self.mines@.len() == n
        &&& self.sure_safe@.len() == n
        &&& self.sure_mines@.len() == n
        &&& self.probs@.len() == n
        &&& self.has_prob@.len() == n
        &&& forall|c: int| 0 <= c < n && #[trigger] self.sure_safe@[c] ==> self.safe@[c]
        &&& forall|c: int| 0 <= c < n && #[trigger] self.sure_mines@[c] ==> self.mines@[c]
        &&& forall|c: int| 0 <= c < n && #[trigger] self.safe@[c] ==> in_support(eqs, c as usize)
        &&& forall|c: int| 0 <= c < n && #[trigger] self.mines@[c] ==> in_support(eqs, c as usize)
        &&& forall|c: int| 0 <= c < n && #[trigger] self.has_prob@[c] ==> in_support(eqs, c as usize)
        &&& forall|c: int| 0 <= c < n ==> #[trigger] self.probs@[c] <= PPB
        &&& forall|m: Seq<bool>| m.len() == n && #[trigger] meets_all(m, eqs, n) ==> forall|c: int|
            #![trigger self.sure_safe@[c]] #![trigger self.sure_mines@[c]]
            0 <= c < n ==> (self.sure_safe@[c] ==> !m[c]) && (self.sure_mines@[c] ==> m[c])
    }
}

/// Which cells some equation holds.
pub fn support_mask(eqs: &Vec<Equation>, n: usize) -> (v: Vec<bool>)
    requires
        all_well_formed(eqs@, n as nat),
    ensures
        v@.len() == n,
        forall|c: int| 0 <= c < n ==> (#[trigger] v@[c] <==> in_support(eqs@, c as usize)),
{
    let mut v = empty_mask(n);
    let mut k: usize = 0;
    while k < eqs.len()
        invariant
            k <= eqs@.len(),
            all_well_formed(eqs@, n as nat),
            v@.len() == n,
            forall|c: int| 0 <= c < n ==> (#[trigger] v@[c] <==> exists|q: int| 0 <= q < k && (#[trigger] eqs@[q]).cells@.contains(c as usize)),
        decreases eqs@.len() - k,
    {
        proof {
            assert(well_formed(eqs@[k as int], n as nat));
        }
        let _ = crate::solver::mark_all(&mut v, &eqs[k].cells);
        proof {
            assert forall|c: int| 0 <= c < n implies (#[trigger] v@[c] <==> exists|q: int| 0 <= q < k + 1 && (#[trigger] eqs@[q]).cells@.contains(c as usize)) by {
                if eqs@[k as int].cells@.contains(c as usize) {
                    assert(exists|q: int| 0 <= q < k + 1 && (#[trigger] eqs@[q]).cells@.contains(c as usize));
                }
            }
        }
        k = k + 1;
    }
    v
}

/// Equation `e` as its cells and its mine count.
pub open spec fn eq_view(e: Equation) -> (Seq<usize>, usize) {
    (e.cells@, e.mines)
}

/// Whether an equation, as cells and mine count, has a first cell labelled
/// `lab`.
pub open spec fn first_labelled(labels: Seq<usize>, lab: usize) -> spec_fn((Seq<usize>, usize)) -> bool {
    |v: (Seq<usize>, usize)| v.0.len() > 0 && labels[v.0[0] as int] == lab
}

/// The equations of `eqs` whose first cell is labelled `lab`, in their
/// order, as cells and mine counts.
pub open spec fn labelled_eqs(eqs: Seq<Equation>, labels: Seq<usize>, lab: usize) -> Seq<(Seq<usize>, usize)> {
    eqs.map_values(|e: Equation| eq_view(e)).filter(first_labelled(labels, lab))
}

/// `after` is `before` with the component of cells `vars` and equations
/// `ceqs` solved and recorded: by counting its models when it has at most
/// `max_bt` cells (nothing is recorded when no model was found), by
/// elimination otherwise.
pub open spec fn component_solved(before: FrontierSolution, after: FrontierSolution, vars: Seq<usize>, ceqs: Seq<Equation>, n: usize, max_bt: nat) -> bool {
    &&& vars.len() <= max_bt ==> exists|ordered: Seq<usize>, count: u64, mc: Seq<u64>| #[trigger] counted(vars, ceqs, n, ordered, count, mc)
        && (count > 0 ==> counts_recorded(before, after, ordered, count, mc, ordered.len() as int))
        && (count == 0 ==> after == before)
    &&& vars.len() > max_bt ==> exists|r: Option<(Seq<bool>, Seq<bool>, Seq<u64>)>| #[trigger] eliminated(vars, ceqs, n, r)
        && match r {
            Some((sf, mi, est)) => settled_recorded(before, after, vars, sf, mi, est, vars.len() as int),
            None => after == before,
        }
}

/// Cell `c0` is the first cell of the equations (in index order) with its
/// label.
pub open spec fn opens_component(eqs: Seq<Equation>, n: usize, labels: Seq<usize>, c0: int) -> bool {
    &&& in_support(eqs, c0 as usize)
    &&& labels[c0] < n
    &&& !exists|c1: int| 0 <= c1 < c0 && in_support(eqs, c1 as usize) && #[trigger] labels[c1] == labels[c0]
}

/// The step at cell `c0`: where `c0` opens a component, its cells (those of
/// the equations with its label) and its equations (those whose first cell
/// has its label) are solved into `after`; elsewhere nothing changes.
pub open spec fn component_step(eqs: Seq<Equation>, n: usize, labels: Seq<usize>, max_bt: nat, before: FrontierSolution, after: FrontierSolution, c0: int) -> bool {
    &&& !opens_component(eqs, n, labels, c0) ==> after == before
    &&& opens_component(eqs, n, labels, c0) ==> exists|vars: Seq<usize>, ceqs: Seq<Equation>| {
        &&& #[trigger] component_solved(before, after, vars, ceqs, n, max_bt)
        &&& forall|y: usize| #[trigger] vars.contains(y) <==> (y < n && in_support(eqs, y) && labels[y as int] == labels[c0])
        &&& ceqs.map_values(|e: Equation| eq_view(e)) == labelled_eqs(eqs, labels, labels[c0])
    }
}

/// The most cells a component may have to be solved by counting its
/// models: 18 for the master tier, 14 for the others.
pub open spec fn component_cap(is_master: bool) -> nat {
    if is_master { 18 } else { 14 }
}

/// A solution over `n` cells with nothing marked and no estimate.
pub open spec fn blank(sol: FrontierSolution, n: usize) -> bool {
    &&& sol.safe@ == Seq::new(n as nat, |i: int| false)
    &&& sol.mines@ == Seq::new(n as nat, |i: int| false)
    &&& sol.sure_safe@ == Seq::new(n as nat, |i: int| false)
    &&& sol.sure_mines@ == Seq::new(n as nat, |i: int| false)
    &&& sol.has_prob@ == Seq::new(n as nat, |i: int| false)
    &&& sol.probs@ == Seq::new(n as nat, |i: int| 0u64)
}

/// `sols` is the run of the component search over `eqs` (with component
/// labels `labels`): it starts blank, and each cell's step solves the
/// component that cell opens.
pub open spec fn components_run(eqs: Seq<Equation>, n: usize, max_bt: nat, labels: Seq<usize>, sols: Seq<FrontierSolution>) -> bool {
    &&& labels.len() == n
    &&& labels_closed(eqs, labels)
    &&& sols.len() == n + 1
    &&& blank(sols[0], n)
    &&& forall|c0: int| 0 <= c0 < n ==> #[trigger] component_step(eqs, n, labels, max_bt, sols[c0], sols[c0 + 1], c0)
}

/// Splits the cells of the equations into groups that no equation links and
/// solves each: by counting models when it has at most 18 cells (master) or
/// 14 (others), and by elimination otherwise.
pub fn solve_connected_components(eqs: &Vec<Equation>, n: usize, is_master: bool) -> (r: FrontierSolution)
    requires
        all_well_formed(eqs@, n as nat),
    ensures
        r.sound(eqs@, n as nat),
        exists|labels: Seq<usize>, sols: Seq<FrontierSolution>| #[trigger] components_run(eqs@, n, component_cap(is_master), labels, sols)
            && sols.last() == r,
{
    let labels = component_labels(eqs, n);
    let in_vars = support_mask(eqs, n);
    let mut probs: Vec<u64> = Vec::new();
    let mut z: usize = 0;
    while z < n
        invariant
            z <= n,
            probs@.len() == z,
            forall|c: int| 0 <= c < z ==> #[trigger] probs@[c] == 0,
        decreases n - z,
    {
        probs.push(0);
        z = z + 1;
    }
    let mut sol = FrontierSolution {
        safe: empty_mask(n),
        mines: empty_mask(n),
        sure_safe: empty_mask(n),
        sure_mines: empty_mask(n),
        probs: probs,
        has_prob: empty_mask(n),
    };
    let mut seen = empty_mask(n);
    let max_bt: usize = if is_master { 18 } else { 14 };
    proof {
        assert(blank(sol, n)) by {
            assert(sol.safe@ =~= Seq::new(n as nat, |i: int| false));
            assert(sol.mines@ =~= Seq::new(n as nat, |i: int| false));
            assert(sol.sure_safe@ =~= Seq::new(n as nat, |i: int| false));
            assert(sol.sure_mines@ =~= Seq::new(n as nat, |i: int| false));
            assert(sol.has_prob@ =~= Seq::new(n as nat, |i: int| false));
            assert(sol.probs@ =~= Seq::new(n as nat, |i: int| 0u64));
        }
    }
    let ghost mut sols: Seq<FrontierSolution> = seq![sol];
    let mut c0: usize = 0;
    while c0 < n
        invariant
            c0 <= n,
            max_bt == component_cap(is_master),
            sols.len() == c0 + 1,
            sols[c0 as int] == sol,
            blank(sols[0], n),
            forall|c: int| 0 <= c < c0 ==> #[trigger] component_step(eqs@, n, labels@, max_bt as nat, sols[c], sols[c + 1], c),
            forall|l: int| 0 <= l < n ==> (#[trigger] seen@[l] <==> exists|c1: int| 0 <= c1 < c0 && in_support(eqs@, c1 as usize) && #[trigger] labels@[c1] == l),
            labels@.len() == n,
            labels_closed(eqs@, labels@),
            in_vars@.len() == n,
            forall|c: int| 0 <= c < n ==> (#[trigger] in_vars@[c] <==> in_support(eqs@, c as usize)),
            seen@.len() == n,
            all_well_formed(eqs@, n as nat),
            sol.sound(eqs@, n as nat),
        decreases n - c0,
    {
        let lab = labels[c0];
        let ghost before = sol;
        let ghost seen0 = seen@;
        if in_vars[c0] && lab < n && !seen[lab] {
            seen.set(lab, true);
            let mut vars: Vec<usize> = Vec::new();
            let mut x: usize = 0;
            while x < n
                invariant
                    x <= n,
                    labels@.len() == n,
                    in_vars@.len() == n,
                    forall|y: usize| #[trigger] vars@.contains(y) <==> (y < x && in_vars@[y as int] && labels@[y as int] == lab),
                    forall|t: int| 0 <= t < vars@.len() ==> #[trigger] vars@[t] < x,
                decreases n - x,
            {
                if in_vars[x] && labels[x] == lab {
                    let ghost before = vars@;
                    vars.push(x);
                    proof {
                        assert forall|y: usize| #[trigger] vars@.contains(y) <==> (y < x + 1 && in_vars@[y as int] && labels@[y as int] == lab) by {
                            if vars@.contains(y) && y != x {
                                let t = vars@.index_of(y);
                                assert(vars@[before.len() as int] == x);
                                assert(t < before.len());
                                assert(before[t] == y);
                                assert(before.contains(y));
                            }
                            if y < x && in_vars@[y as int] && labels@[y as int] == lab {
                                assert(before.contains(y));
                                let t = before.index_of(y);
                                assert(vars@[t] == y);
                            }
                            if y == x {
                                assert(vars@[before.len() as int] == y);
                            }
                        }
                    }
                }
                x = x + 1;
            }
            let mut ceqs: Vec<Equation> = Vec::new();
            let mut q: usize = 0;
            while q < eqs.len()
                invariant
                    q <= eqs@.len(),
                    all_well_formed(eqs@, n as nat),
                    labels@.len() == n,
                    labels_closed(eqs@, labels@),
                    in_vars@.len() == n,
                    forall|c: int| 0 <= c < n ==> (#[trigger] in_vars@[c] <==> in_support(eqs@, c as usize)),
                    forall|y: usize| #[trigger] vars@.contains(y) <==> (y < n && in_vars@[y as int] && labels@[y as int] == lab),
                    all_well_formed(ceqs@, n as nat),
                    closed_over(ceqs@, vars@),
                    forall|e: int| 0 <= e < ceqs@.len() ==> exists|j: int| 0 <= j < eqs@.len() && (#[trigger] ceqs@[e]).cells@ == eqs@[j].cells@ && ceqs@[e].mines == eqs@[j].mines,
                    ceqs@.map_values(|e: Equation| eq_view(e)) == eqs@.take(q as int).map_values(|e: Equation| eq_view(e)).filter(first_labelled(labels@, lab)),
                decreases eqs@.len() - q,
            {
                let cells = &eqs[q].cells;
                proof {
                    assert(well_formed(eqs@[q as int], n as nat));
                }
                let ghost c_before = ceqs@;
                proof {
                    let t1 = eqs@.take(q + 1).map_values(|e: Equation| eq_view(e));
                    assert(t1.drop_last() =~= eqs@.take(q as int).map_values(|e: Equation| eq_view(e)));
                    assert(t1.last() == eq_view(eqs@[q as int]));
                    reveal_with_fuel(Seq::<(Seq<usize>, usize)>::filter, 1);
                    assert(t1.filter(first_labelled(labels@, lab)) == if first_labelled(labels@, lab)(eq_view(eqs@[q as int])) {
                        t1.drop_last().filter(first_labelled(labels@, lab)).push(eq_view(eqs@[q as int]))
                    } else {
                        t1.drop_last().filter(first_labelled(labels@, lab))
                    });
                }
                if cells.len() > 0 && labels[cells[0]] == lab {
                    let ghost before = ceqs@;
                    let cc = copy_cells(cells);
                    let ghost ccv = cc@;
                    ceqs.push(Equation { cells: cc, mines: eqs[q].mines });
                    proof {
                        assert(ceqs@[ceqs@.len() - 1].cells@ == ccv);
                        assert forall|e: int| 0 <= e < ceqs@.len() implies #[trigger] well_formed(ceqs@[e], n as nat) by {
                            if e < before.len() {
                                assert(ceqs@[e] == before[e]);
                            }
                        }
                        assert forall|e: int, y: usize| 0 <= e < ceqs@.len() && #[trigger] ceqs@[e].cells@.contains(y) implies vars@.contains(y) by {
                            if e < before.len() {
                                assert(ceqs@[e] == before[e]);
                            } else {
                                assert(eqs@[q as int].cells@.contains(y));
                                assert(eqs@[q as int].cells@.contains(cells@[0]));
                                assert(labels@[y as int] == labels@[cells@[0] as int]);
                                let kk = eqs@[q as int].cells@.index_of(y);
                                assert(y < n);
                                assert(in_support(eqs@, y));
                                assert(in_vars@[y as int]);
                            }
                        }
                        assert forall|e: int| 0 <= e < ceqs@.len() implies exists|j: int| 0 <= j < eqs@.len() && (#[trigger] ceqs@[e]).cells@ == eqs@[j].cells@ && ceqs@[e].mines == eqs@[j].mines by {
                            if e < before.len() {
                                assert(ceqs@[e] == before[e]);
                            } else {
                                assert(ceqs@[e].cells@ == eqs@[q as int].cells@);
                            }
                        }
                        assert(ceqs@.map_values(|e: Equation| eq_view(e)) =~= before.map_values(|e: Equation| eq_view(e)).push(eq_view(eqs@[q as int])));
                    }
                }
                q = q + 1;
            }
            proof {
                assert forall|m: Seq<bool>| m.len() == n && #[trigger] meets_all(m, eqs@, n as nat) implies meets_all(m, ceqs@, n as nat) by {
                    assert forall|e: int| 0 <= e < ceqs@.len() implies #[trigger] holds(m, ceqs@[e], n as nat) by {
                        let j = choose|j: int| 0 <= j < eqs@.len() && (#[trigger] ceqs@[e]).cells@ == eqs@[j].cells@ && ceqs@[e].mines == eqs@[j].mines;
                        assert(holds(m, eqs@[j], n as nat));
                    }
                }
                assert forall|y: usize| #[trigger] vars@.contains(y) implies y < n && in_support(eqs@, y) by {
                    assert(in_vars@[y as int]);
                }
            }
            proof {
                assert(eqs@.take(eqs@.len() as int) =~= eqs@);
            }
            if vars.len() <= max_bt {
                let (ordered, count, mc) = solve_component_backtracking(&vars, &ceqs, n);
                if count > 0 {
                    record_counts(&mut sol, &ordered, count, &mc, eqs, &ceqs, n);
                }
                proof {
                    assert(counted(vars@, ceqs@, n, ordered@, count, mc@));
                }
            } else {
                let g = solve_component_gaussian(&vars, &ceqs, n);
                let ghost g0 = g;
                let ghost gv: Option<(Seq<bool>, Seq<bool>, Seq<u64>)> = match g0 { Some((a, b, c)) => Some((a@, b@, c@)), None => None };
                proof {
                    assert(eliminated(vars@, ceqs@, n, gv));
                }
                match g {
                    Some((s, mi, est)) => {
                        record_elimination(&mut sol, &vars, &s, &mi, &est, eqs, &ceqs, n);
                    }
                    None => {}
                }
            }
            proof {
                assert(component_solved(before, sol, vars@, ceqs@, n, max_bt as nat));
                assert(opens_component(eqs@, n, labels@, c0 as int));
                assert(component_step(eqs@, n, labels@, max_bt as nat, before, sol, c0 as int));
            }
        } else {
            proof {
                if opens_component(eqs@, n, labels@, c0 as int) {
                    assert(!seen0[lab as int]);
                }
                assert(component_step(eqs@, n, labels@, max_bt as nat, before, sol, c0 as int));
            }
        }
        proof {
            let ns = sols.push(sol);
            assert forall|c: int| 0 <= c < c0 + 1 implies #[trigger] component_step(eqs@, n, labels@, max_bt as nat, ns[c], ns[c + 1], c) by {
                if c < c0 {
                    assert(ns[c] == sols[c]);
                    assert(ns[c + 1] == sols[c + 1]);
                } else {
                    assert(ns[c] == before);
                    assert(ns[c + 1] == sol);
                }
            }
            assert forall|l: int| 0 <= l < n implies (#[trigger] seen@[l] <==> exists|c1: int| 0 <= c1 < c0 + 1 && in_support(eqs@, c1 as usize) && #[trigger] labels@[c1] == l) by {
                if exists|c1: int| 0 <= c1 < c0 + 1 && in_support(eqs@, c1 as usize) && #[trigger] labels@[c1] == l {
                    let c1 = choose|c1: int| 0 <= c1 < c0 + 1 && in_support(eqs@, c1 as usize) && #[trigger] labels@[c1] == l;
                    if c1 < c0 {
                        assert(seen0[l]);
                    }
                }
                if seen0[l] {
                    let c1 = choose|c1: int| 0 <= c1 < c0 && in_support(eqs@, c1 as usize) && #[trigger] labels@[c1] == l;
                    assert(0 <= c1 < c0 + 1 && in_support(eqs@, c1 as usize) && labels@[c1] == l);
                }
            }
            sols = ns;
        }
        c0 = c0 + 1;
    }
    proof {
        assert(components_run(eqs@, n, max_bt as nat, labels@, sols));
    }
    sol
}

/// Some place of `order` before `t` lists cell `c`.
pub open spec fn listed_before(order: Seq<usize>, c: int, t: int) -> bool {
    exists|u: int| 0 <= u < t && order[u] as int == c
}

/// Some place of `order` before `t` lists cell `c` with value `target` in `vals`.
pub open spec fn some_count(order: Seq<usize>, c: int, t: int, vals: Seq<u64>, target: u64) -> bool {
    exists|u: int| 0 <= u < t && order[u] as int == c && #[trigger] vals[u] == target
}

/// Some place of `order` before `t` lists cell `c` and is marked in `marks`.
pub open spec fn some_mark(order: Seq<usize>, c: int, t: int, marks: Seq<bool>) -> bool {
    exists|u: int| 0 <= u < t && order[u] as int == c && #[trigger] marks[u]
}

/// The last place before `t` where `order` lists cell `c`.
pub open spec fn last_place(order: Seq<usize>, c: int, t: int) -> int {
    choose|u: int| 0 <= u < t && order[u] as int == c && forall|v: int| u < v < t ==> order[v] as int != c
}

/// The last place of `c` before `t + 1` is `t` when `t` lists it, and the
/// last one before `t` otherwise.
proof fn lemma_last_place(order: Seq<usize>, c: int, t: int)
    requires
        0 <= t < order.len(),
        order[t] as int == c || listed_before(order, c, t),
    ensures
        order[t] as int == c ==> last_place(order, c, t + 1) == t,
        order[t] as int != c ==> last_place(order, c, t + 1) == last_place(order, c, t),
        listed_before(order, c, t + 1),
{
    if order[t] as int == c {
        assert(0 <= t < t + 1 && order[t] as int == c && forall|v: int| t < v < t + 1 ==> order[v] as int != c);
        let u = last_place(order, c, t + 1);
        if u < t {
            assert(order[t] as int != c);
        }
    } else {
        let w = last_place(order, c, t);
        let u0 = choose|u: int| 0 <= u < t && order[u] as int == c;
        lemma_last_exists(order, c, t, u0);
        assert(0 <= w < t && order[w] as int == c && forall|v: int| w < v < t ==> order[v] as int != c);
        assert(0 <= w < t + 1 && order[w] as int == c && forall|v: int| w < v < t + 1 ==> order[v] as int != c);
        let u = last_place(order, c, t + 1);
        if u < w {
            assert(order[w] as int != c);
        } else if u > w {
            assert(order[u] as int != c);
        }
    }
}

/// A cell listed before `t` has a last place before `t`.
proof fn lemma_last_exists(order: Seq<usize>, c: int, t: int, u0: int)
    requires
        0 <= u0 < t <= order.len(),
        order[u0] as int == c,
    ensures
        exists|u: int| 0 <= u < t && order[u] as int == c && forall|v: int| u < v < t ==> order[v] as int != c,
    decreases t - u0,
{
    if exists|v: int| u0 < v < t && order[v] as int == c {
        let v = choose|v: int| u0 < v < t && order[v] as int == c;
        lemma_last_exists(order, c, t, v);
    } else {
        assert(forall|v: int| u0 < v < t ==> order[v] as int != c);
    }
}

/// The share of counted models that mine a cell, in parts per billion: 0
/// when none does, one billion when all do, and otherwise held between one
/// thousandth and 999 thousandths.
pub open spec fn model_share(cnt: u64, count: u64) -> int {
    if cnt == 0 {
        0
    } else if cnt == count {
        PPB as int
    } else {
        let p = (cnt * PPB) / (count as int);
        if p < 1_000_000 { 1_000_000 } else if p > 999_000_000 { 999_000_000 } else { p }
    }
}

/// The solution `after` is `before` with the counts `mc` (out of `count`
/// models) of the cells listed in `order` before place `t` recorded.
pub open spec fn counts_recorded(before: FrontierSolution, after: FrontierSolution, order: Seq<usize>, count: u64, mc: Seq<u64>, t: int) -> bool {
    &&& after.safe@.len() == before.safe@.len()
    &&& after.sure_safe@.len() == before.sure_safe@.len()
    &&& after.mines@.len() == before.mines@.len()
    &&& after.sure_mines@.len() == before.sure_mines@.len()
    &&& after.probs@.len() == before.probs@.len()
    &&& after.has_prob@.len() == before.has_prob@.len()
    &&& forall|c: int| 0 <= c < before.safe@.len() ==> #[trigger] cell_counted(before, after, order, count, mc, t, c)
}

/// Cell `c` of `after` is that of `before` with the counts `mc` (out of
/// `count` models) of the places of `order` before `t` recorded.
pub open spec fn cell_counted(before: FrontierSolution, after: FrontierSolution, order: Seq<usize>, count: u64, mc: Seq<u64>, t: int, c: int) -> bool {
    &&& after.safe@[c] == (before.safe@[c] || some_count(order, c, t, mc, 0))
    &&& after.sure_safe@[c] == (before.sure_safe@[c] || (count < MODEL_CAP && some_count(order, c, t, mc, 0)))
    &&& after.mines@[c] == (before.mines@[c] || some_count(order, c, t, mc, count))
    &&& after.sure_mines@[c] == (before.sure_mines@[c] || (count < MODEL_CAP && some_count(order, c, t, mc, count)))
    &&& after.has_prob@[c] == (before.has_prob@[c] || listed_before(order, c, t))
    &&& after.probs@[c] == if listed_before(order, c, t) { model_share(mc[last_place(order, c, t)], count) } else { before.probs@[c] as int }
}

/// The solution `after` is `before` with what elimination settled (`s`,
/// `mi`) and estimated (`est`) for the cells listed in `vars` before place
/// `t` recorded.
pub open spec fn settled_recorded(before: FrontierSolution, after: FrontierSolution, vars: Seq<usize>, s: Seq<bool>, mi: Seq<bool>, est: Seq<u64>, t: int) -> bool {
    &&& after.safe@.len() == before.safe@.len()
    &&& after.sure_safe@.len() == before.sure_safe@.len()
    &&& after.mines@.len() == before.mines@.len()
    &&& after.sure_mines@.len() == before.sure_mines@.len()
    &&& after.probs@.len() == before.probs@.len()
    &&& after.has_prob@.len() == before.has_prob@.len()
    &&& forall|c: int| 0 <= c < before.safe@.len() ==> #[trigger] cell_settled(before, after, vars, s, mi, est, t, c)
}

/// Cell `c` of `after` is that of `before` with what elimination settled
/// (`s`, `mi`) and estimated (`est`) for the places of `vars` before `t`
/// recorded.
pub open spec fn cell_settled(before: FrontierSolution, after: FrontierSolution, vars: Seq<usize>, s: Seq<bool>, mi: Seq<bool>, est: Seq<u64>, t: int, c: int) -> bool {
    &&& after.safe@[c] == (before.safe@[c] || some_mark(vars, c, t, s))
    &&& after.sure_safe@[c] == (before.sure_safe@[c] || some_mark(vars, c, t, s))
    &&& after.mines@[c] == (before.mines@[c] || some_mark(vars, c, t, mi))
    &&& after.sure_mines@[c] == (before.sure_mines@[c] || some_mark(vars, c, t, mi))
    &&& after.has_prob@[c] == (before.has_prob@[c] || listed_before(vars, c, t))
    &&& after.probs@[c] == if listed_before(vars, c, t) { est[last_place(vars, c, t)] as int } else { before.probs@[c] as int }
}

/// Records the counts of one component: a cell no counted model mines is
/// marked safe, one every counted model mines is marked a mine, both for
/// certain when the counting stayed below the cap; every cell gets the share
/// of models that mine it (parts per billion), held between one thousandth
/// and 999 thousandths unless it is settled.
fn record_counts(sol: &mut FrontierSolution, ordered: &Vec<usize>, count: u64, mc: &Vec<u64>, eqs: &Vec<Equation>, ceqs: &Vec<Equation>, n: usize)
    requires
        old(sol).sound(eqs@, n as nat),
        0 < count <= MODEL_CAP,
        mc@.len() == ordered@.len(),
        forall|t: int| 0 <= t < mc@.len() ==> #[trigger] mc@[t] <= count,
        forall|y: usize| #[trigger] ordered@.contains(y) ==> y < n && in_support(eqs@, y),
        forall|m: Seq<bool>| m.len() == n && #[trigger] meets_all(m, eqs@, n as nat) ==> meets_all(m, ceqs@, n as nat),
        count < MODEL_CAP ==> forall|m: Seq<bool>, t: int|
            m.len() == n && #[trigger] meets_all(m, ceqs@, n as nat) && 0 <= t < ordered@.len() ==>
                (#[trigger] mc@[t] == 0 ==> !m[ordered@[t] as int]) && (mc@[t] == count ==> m[ordered@[t] as int]),
    ensures
        final(sol).sound(eqs@, n as nat),
        counts_recorded(*old(sol), *final(sol), ordered@, count, mc@, ordered@.len() as int),
{
    let ghost sol0 = *sol;
    let mut t: usize = 0;
    while t < ordered.len()
        invariant
            t <= ordered@.len(),
            sol.sound(eqs@, n as nat),
            sol0.sound(eqs@, n as nat),
            counts_recorded(sol0, *sol, ordered@, count, mc@, t as int),
            0 < count <= MODEL_CAP,
            mc@.len() == ordered@.len(),
            forall|u: int| 0 <= u < mc@.len() ==> #[trigger] mc@[u] <= count,
            forall|y: usize| #[trigger] ordered@.contains(y) ==> y < n && in_support(eqs@, y),
            forall|m: Seq<bool>| m.len() == n && #[trigger] meets_all(m, eqs@, n as nat) ==> meets_all(m, ceqs@, n as nat),
            count < MODEL_CAP ==> forall|m: Seq<bool>, u: int|
                m.len() == n && #[trigger] meets_all(m, ceqs@, n as nat) && 0 <= u < ordered@.len() ==>
                    (#[trigger] mc@[u] == 0 ==> !m[ordered@[u] as int]) && (mc@[u] == count ==> m[ordered@[u] as int]),
        decreases ordered@.len() - t,
    {
        let x = ordered[t];
        proof {
            assert(ordered@.contains(x));
        }
        let cnt = mc[t];
        let ghost before = *sol;
        let exact = count < MODEL_CAP;
        if cnt == 0 {
            sol.safe.set(x, true);
            if exact {
                sol.sure_safe.set(x, true);
            }
            sol.probs.set(x, 0);
        } else if cnt == count {
            sol.mines.set(x, true);
            if exact {
                sol.sure_mines.set(x, true);
            }
            sol.probs.set(x, PPB);
        } else {
            proof {
                assert(cnt as u128 * PPB as u128 <= 5000 * 1_000_000_000) by (nonlinear_arith)
                    requires cnt <= 5000;
            }
            let p = (cnt as u128 * PPB as u128 / count as u128) as u64;
            sol.probs.set(x, clamp_u64(p, 1_000_000, 999_000_000));
        }
        sol.has_prob.set(x, true);
        proof {
            lemma_count_step(sol0, before, *sol, ordered@, count, mc@, t as int);
            let nn = n as nat;
            assert forall|m: Seq<bool>| m.len() == n && #[trigger] meets_all(m, eqs@, nn) implies forall|c: int|
                #![trigger sol.sure_safe@[c]] #![trigger sol.sure_mines@[c]]
                0 <= c < n ==> (sol.sure_safe@[c] ==> !m[c]) && (sol.sure_mines@[c] ==> m[c]) by {
                assert(meets_all(m, ceqs@, nn));
                assert forall|c: int| #![trigger sol.sure_safe@[c]] #![trigger sol.sure_mines@[c]] 0 <= c < n implies (sol.sure_safe@[c] ==> !m[c]) && (sol.sure_mines@[c] ==> m[c]) by {
                    if c == x as int {
                        if exact {
                            assert((mc@[t as int] == 0 ==> !m[ordered@[t as int] as int]) && (mc@[t as int] == count ==> m[ordered@[t as int] as int]));
                        }
                        assert(before.sure_safe@[c] ==> !m[c]);
                        assert(before.sure_mines@[c] ==> m[c]);
                    } else {
                        assert(sol.sure_safe@[c] == before.sure_safe@[c]);
                        assert(sol.sure_mines@[c] == before.sure_mines@[c]);
                        assert(before.sure_safe@[c] ==> !m[c]);
                        assert(before.sure_mines@[c] ==> m[c]);
                    }
                }
            }
        }
        t = t + 1;
    }
}

/// Whether a place before `t + 1` lists `c` (with a given count, or
/// marked): one before `t`, or `t` itself.
proof fn lemma_place_step(order: Seq<usize>, c: int, t: int, vals: Seq<u64>, target: u64, marks: Seq<bool>)
    requires
        0 <= t < order.len(),
    ensures
        some_count(order, c, t + 1, vals, target) == (some_count(order, c, t, vals, target) || (order[t] as int == c && vals[t] == target)),
        some_mark(order, c, t + 1, marks) == (some_mark(order, c, t, marks) || (order[t] as int == c && marks[t])),
        listed_before(order, c, t + 1) == (listed_before(order, c, t) || order[t] as int == c),
{
    if some_count(order, c, t + 1, vals, target) {
        let u = choose|u: int| 0 <= u < t + 1 && order[u] as int == c && #[trigger] vals[u] == target;
        if u < t {
            assert(some_count(order, c, t, vals, target));
        }
    }
    if some_count(order, c, t, vals, target) {
        let u = choose|u: int| 0 <= u < t && order[u] as int == c && #[trigger] vals[u] == target;
        assert(some_count(order, c, t + 1, vals, target));
    }
    if order[t] as int == c && vals[t] == target {
        assert(some_count(order, c, t + 1, vals, target));
    }
    if some_mark(order, c, t + 1, marks) {
        let u = choose|u: int| 0 <= u < t + 1 && order[u] as int == c && #[trigger] marks[u];
        if u < t {
            assert(some_mark(order, c, t, marks));
        }
    }
    if some_mark(order, c, t, marks) {
        let u = choose|u: int| 0 <= u < t && order[u] as int == c && #[trigger] marks[u];
        assert(some_mark(order, c, t + 1, marks));
    }
    if order[t] as int == c && marks[t] {
        assert(some_mark(order, c, t + 1, marks));
    }
    if listed_before(order, c, t + 1) {
        let u = choose|u: int| 0 <= u < t + 1 && order[u] as int == c;
        if u < t {
            assert(listed_before(order, c, t));
        }
    }
    if order[t] as int == c {
        assert(listed_before(order, c, t + 1));
    }
    if listed_before(order, c, t) {
        let u = choose|u: int| 0 <= u < t && order[u] as int == c;
        assert(listed_before(order, c, t + 1));
    }
}

/// One recorded cell more keeps what `counts_recorded` says.
#[verifier::rlimit(40)]
proof fn lemma_count_step(sol0: FrontierSolution, before: FrontierSolution, after: FrontierSolution, order: Seq<usize>, count: u64, mc: Seq<u64>, t: int)
    requires
        0 <= t < order.len(),
        mc.len() == order.len(),
        0 < count,
        (order[t] as int) < before.safe@.len(),
        counts_recorded(sol0, before, order, count, mc, t),
        sol0.sure_safe@.len() == sol0.safe@.len(),
        sol0.mines@.len() == sol0.safe@.len(),
        sol0.sure_mines@.len() == sol0.safe@.len(),
        sol0.probs@.len() == sol0.safe@.len(),
        sol0.has_prob@.len() == sol0.safe@.len(),
        ({
            let x = order[t] as int;
            let cnt = mc[t];
            &&& after.safe@ == if cnt == 0 { before.safe@.update(x, true) } else { before.safe@ }
            &&& after.sure_safe@ == if cnt == 0 && count < MODEL_CAP { before.sure_safe@.update(x, true) } else { before.sure_safe@ }
            &&& after.mines@ == if cnt != 0 && cnt == count { before.mines@.update(x, true) } else { before.mines@ }
            &&& after.sure_mines@ == if cnt != 0 && cnt == count && count < MODEL_CAP { before.sure_mines@.update(x, true) } else { before.sure_mines@ }
            &&& after.probs@ == before.probs@.update(x, model_share(cnt, count) as u64)
            &&& after.has_prob@ == before.has_prob@.update(x, true)
        }),
    ensures
        counts_recorded(sol0, after, order, count, mc, t + 1),
{
    let x = order[t] as int;
    assert forall|c: int| 0 <= c < sol0.safe@.len() implies #[trigger] cell_counted(sol0, after, order, count, mc, t + 1, c) by {
        assert(cell_counted(sol0, before, order, count, mc, t, c));
        lemma_place_step(order, c, t, mc, 0, Seq::<bool>::empty());
        lemma_place_step(order, c, t, mc, count, Seq::<bool>::empty());
        assert(before.safe@[c] == (sol0.safe@[c] || some_count(order, c, t, mc, 0)));
        assert(before.sure_safe@[c] == (sol0.sure_safe@[c] || (count < MODEL_CAP && some_count(order, c, t, mc, 0))));
        assert(before.mines@[c] == (sol0.mines@[c] || some_count(order, c, t, mc, count)));
        assert(before.sure_mines@[c] == (sol0.sure_mines@[c] || (count < MODEL_CAP && some_count(order, c, t, mc, count))));
        assert(some_count(order, c, t + 1, mc, count) == (some_count(order, c, t, mc, count) || (x == c && mc[t] == count)));
        assert(some_count(order, c, t + 1, mc, 0) == (some_count(order, c, t, mc, 0) || (x == c && mc[t] == 0)));
        if c == x || listed_before(order, c, t) {
            lemma_last_place(order, c, t);
        }
        let cnt = mc[t];
        if c == x {
            assert(0 <= model_share(cnt, count) <= PPB) by {
                if cnt != 0 && cnt != count {
                    assert((cnt * PPB) / (count as int) >= 0) by (nonlinear_arith)
                        requires count > 0;
                }
            }
        }
        assert(after.safe@[c] == (sol0.safe@[c] || some_count(order, c, t + 1, mc, 0)));
        assert(after.sure_safe@[c] == (sol0.sure_safe@[c] || (count < MODEL_CAP && some_count(order, c, t + 1, mc, 0))));
        assert(after.mines@[c] == (sol0.mines@[c] || some_count(order, c, t + 1, mc, count)));
        assert(after.sure_mines@[c] == (sol0.sure_mines@[c] || (count < MODEL_CAP && some_count(order, c, t + 1, mc, count))));
        assert(after.has_prob@[c] == (sol0.has_prob@[c] || listed_before(order, c, t + 1)));
        assert(after.probs@[c] == if listed_before(order, c, t + 1) { model_share(mc[last_place(order, c, t + 1)], count) } else { sol0.probs@[c] as int });
    }
    assert(after.safe@.len() == sol0.safe@.len());
    assert(after.sure_safe@.len() == sol0.sure_safe@.len());
    assert(after.mines@.len() == sol0.mines@.len());
    assert(after.sure_mines@.len() == sol0.sure_mines@.len());
    assert(after.probs@.len() == sol0.probs@.len());
    assert(after.has_prob@.len() == sol0.has_prob@.len());
}

/// Records what elimination settled on one component, for certain, and its
/// estimates.
fn record_elimination(sol: &mut FrontierSolution, vars: &Vec<usize>, s: &Vec<bool>, mi: &Vec<bool>, est: &Vec<u64>, eqs: &Vec<Equation>, ceqs: &Vec<Equation>, n: usize)
    requires
        old(sol).sound(eqs@, n as nat),
        s@.len() == vars@.len(),
        mi@.len() == vars@.len(),
        est@.len() == vars@.len(),
        forall|c: int| 0 <= c < vars@.len() ==> #[trigger] est@[c] <= PPB,
        forall|y: usize| #[trigger] vars@.contains(y) ==> y < n && in_support(eqs@, y),
        forall|m: Seq<bool>| m.len() == n && #[trigger] meets_all(m, eqs@, n as nat) ==> meets_all(m, ceqs@, n as nat),
        forall|m: Seq<bool>| m.len() == n && #[trigger] meets_all(m, ceqs@, n as nat) ==> agrees(m, vars@, s@, mi@),
    ensures
        final(sol).sound(eqs@, n as nat),
        settled_recorded(*old(sol), *final(sol), vars@, s@, mi@, est@, vars@.len() as int),
{
    let ghost sol0 = *sol;
    let mut t: usize = 0;
    while t < vars.len()
        invariant
            t <= vars@.len(),
            sol.sound(eqs@, n as nat),
            sol0.sound(eqs@, n as nat),
            settled_recorded(sol0, *sol, vars@, s@, mi@, est@, t as int),
            s@.len() == vars@.len(),
            mi@.len() == vars@.len(),
            est@.len() == vars@.len(),
            forall|c: int| 0 <= c < vars@.len() ==> #[trigger] est@[c] <= PPB,
            forall|y: usize| #[trigger] vars@.contains(y) ==> y < n && in_support(eqs@, y),
            forall|m: Seq<bool>| m.len() == n && #[trigger] meets_all(m, eqs@, n as nat) ==> meets_all(m, ceqs@, n as nat),
            forall|m: Seq<bool>| m.len() == n && #[trigger] meets_all(m, ceqs@, n as nat) ==> agrees(m, vars@, s@, mi@),
        decreases vars@.len() - t,
    {
        let x = vars[t];
        proof {
            assert(vars@.contains(x));
        }
        let ghost before = *sol;
        if s[t] {
            sol.safe.set(x, true);
            sol.sure_safe.set(x, true);
        }
        if mi[t] {
            sol.mines.set(x, true);
            sol.sure_mines.set(x, true);
        }
        sol.probs.set(x, est[t]);
        sol.has_prob.set(x, true);
        proof {
            lemma_settle_step(sol0, before, *sol, vars@, s@, mi@, est@, t as int);
            let nn = n as nat;
            assert forall|m: Seq<bool>| m.len() == n && #[trigger] meets_all(m, eqs@, nn) implies forall|c: int|
                #![trigger sol.sure_safe@[c]] #![trigger sol.sure_mines@[c]]
                0 <= c < n ==> (sol.sure_safe@[c] ==> !m[c]) && (sol.sure_mines@[c] ==> m[c]) by {
                assert(meets_all(m, ceqs@, nn));
                assert(agrees(m, vars@, s@, mi@));
                assert forall|c: int| #![trigger sol.sure_safe@[c]] #![trigger sol.sure_mines@[c]] 0 <= c < n implies (sol.sure_safe@[c] ==> !m[c]) && (sol.sure_mines@[c] ==> m[c]) by {
                    if c == x as int {
                        assert(s@[t as int] ==> !m[vars@[t as int] as int]);
                        assert(mi@[t as int] ==> m[vars@[t as int] as int]);
                        assert(before.sure_safe@[c] ==> !m[c]);
                        assert(before.sure_mines@[c] ==> m[c]);
                    } else {
                        assert(before.sure_safe@[c] ==> !m[c]);
                        assert(before.sure_mines@[c] ==> m[c]);
                    }
                }
            }
        }
        t = t + 1;
    }
}

/// One recorded cell more keeps what `settled_recorded` says.
#[verifier::rlimit(40)]
proof fn lemma_settle_step(sol0: FrontierSolution, before: FrontierSolution, after: FrontierSolution, vars: Seq<usize>, s: Seq<bool>, mi: Seq<bool>, est: Seq<u64>, t: int)
    requires
        0 <= t < vars.len(),
        s.len() == vars.len(),
        mi.len() == vars.len(),
        est.len() == vars.len(),
        (vars[t] as int) < before.safe@.len(),
        settled_recorded(sol0, before, vars, s, mi, est, t),
        sol0.sure_safe@.len() == sol0.safe@.len(),
        sol0.mines@.len() == sol0.safe@.len(),
        sol0.sure_mines@.len() == sol0.safe@.len(),
        sol0.probs@.len() == sol0.safe@.len(),
        sol0.has_prob@.len() == sol0.safe@.len(),
        ({
            let x = vars[t] as int;
            &&& after.safe@ == if s[t] { before.safe@.update(x, true) } else { before.safe@ }
            &&& after.sure_safe@ == if s[t] { before.sure_safe@.update(x, true) } else { before.sure_safe@ }
            &&& after.mines@ == if mi[t] { before.mines@.update(x, true) } else { before.mines@ }
            &&& after.sure_mines@ == if mi[t] { before.sure_mines@.update(x, true) } else { before.sure_mines@ }
            &&& after.probs@ == before.probs@.update(x, est[t])
            &&& after.has_prob@ == before.has_prob@.update(x, true)
        }),
    ensures
        settled_recorded(sol0, after, vars, s, mi, est, t + 1),
{
    let x = vars[t] as int;
    assert forall|c: int| 0 <= c < sol0.safe@.len() implies #[trigger] cell_settled(sol0, after, vars, s, mi, est, t + 1, c) by {
        assert(cell_settled(sol0, before, vars, s, mi, est, t, c));
        lemma_place_step(vars, c, t, Seq::<u64>::empty(), 0, s);
        lemma_place_step(vars, c, t, Seq::<u64>::empty(), 0, mi);
        if c == x || listed_before(vars, c, t) {
            lemma_last_place(vars, c, t);
        }
    }
    assert(after.safe@.len() == sol0.safe@.len());
    assert(after.sure_safe@.len() == sol0.sure_safe@.len());
    assert(after.mines@.len() == sol0.mines@.len());
    assert(after.sure_mines@.len() == sol0.sure_mines@.len());
    assert(after.probs@.len() == sol0.probs@.len());
    assert(after.has_prob@.len() == sol0.has_prob@.len());
}

} // verus!
