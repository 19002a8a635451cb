//! Exact model counting on a small set of cells: every assignment of mine or
//! no mine to the cells is tried by depth-first search (no mine first), with
//! branches cut as soon as an equation can no longer be met, until a cap on
//! the number of models found.
use vstd::prelude::*;

verus! {

/// An equation over the cells of a component, numbered from 0: exactly
/// `mines` of the cells `vars` hold a mine.
#[derive(Debug)]
pub struct LocalEq {
    pub vars: Vec<usize>,
    pub mines: usize,
}

/// How many of the cells `s` are marked in `a`.
pub open spec fn ones(a: Seq<bool>, s: Seq<usize>) -> nat
    decreases s.len(),
{
    if s.len() == 0 {
        0
    } else {
        ones(a, s.drop_last()) + if a[s.last() as int] { 1nat } else { 0nat }
    }
}

/// How many of the cells `s` are below `idx` and marked in `a`.
pub open spec fn assigned(a: Seq<bool>, s: Seq<usize>, idx: nat) -> nat
    decreases s.len(),
{
    if s.len() == 0 {
        0
    } else {
        assigned(a, s.drop_last(), idx) + if s.last() < idx && a[s.last() as int] { 1nat } else { 0nat }
    }
}

/// How many of the cells `s` are at or above `idx`.
pub open spec fn unassigned(s: Seq<usize>, idx: nat) -> nat
    decreases s.len(),
{
    if s.len() == 0 {
        0
    } else {
        unassigned(s.drop_last(), idx) + if s.last() >= idx { 1nat } else { 0nat }
    }
}

/// The full assignment `a` meets every equation.
pub open spec fn satisfies(a: Seq<bool>, eqs: Seq<LocalEq>) -> bool {
    forall|e: int| 0 <= e < eqs.len() ==> ones(a, (#[trigger] eqs[e]).vars@) == eqs[e].mines
}

/// Every equation speaks of cells below `k`.
pub open spec fn local_wf(eqs: Seq<LocalEq>, k: nat) -> bool {
    forall|e: int, t: int| 0 <= e < eqs.len() && 0 <= t < (#[trigger] eqs[e]).vars@.len() ==> #[trigger] eqs[e].vars@[t] < k
}

/// The number of assignments of all `k` cells that extend `p` and meet every
/// equation.
pub open spec fn models(p: Seq<bool>, k: nat, eqs: Seq<LocalEq>) -> nat
    decreases k - p.len(),
{
    if p.len() >= k {
        if satisfies(p, eqs) { 1 } else { 0 }
    } else {
        models(p.push(false), k, eqs) + models(p.push(true), k, eqs)
    }
}

/// The number of those assignments that put a mine on cell `v`.
pub open spec fn models_with(p: Seq<bool>, k: nat, eqs: Seq<LocalEq>, v: int) -> nat
    decreases k - p.len(),
{
    if p.len() >= k {
        if satisfies(p, eqs) && p[v] { 1 } else { 0 }
    } else {
        models_with(p.push(false), k, eqs, v) + models_with(p.push(true), k, eqs, v)
    }
}

/// The models with a mine on a cell are among the models.
pub proof fn lemma_with_le(p: Seq<bool>, k: nat, eqs: Seq<LocalEq>, v: int)
    ensures
        models_with(p, k, eqs, v) <= models(p, k, eqs),
    decreases k - p.len(),
{
    if p.len() < k {
        lemma_with_le(p.push(false), k, eqs, v);
        lemma_with_le(p.push(true), k, eqs, v);
    }
}

/// Equation `e` can no longer be met once the cells below `idx` are fixed as in `a`.
pub open spec fn dead(a: Seq<bool>, e: LocalEq, idx: nat) -> bool {
    assigned(a, e.vars@, idx) > e.mines || assigned(a, e.vars@, idx) + unassigned(e.vars@, idx) < e.mines
}

/// Fixing more cells of an assignment leaves the fixed part of each count.
pub proof fn lemma_ones_between(a: Seq<bool>, s: Seq<usize>, idx: nat)
    requires
        forall|t: int| 0 <= t < s.len() ==> #[trigger] s[t] < a.len(),
    ensures
        assigned(a, s, idx) <= ones(a, s) <= assigned(a, s, idx) + unassigned(s, idx),
        idx >= a.len() ==> ones(a, s) == assigned(a, s, idx) && unassigned(s, idx) == 0,
    decreases s.len(),
{
    if s.len() > 0 {
        assert forall|t: int| 0 <= t < s.drop_last().len() implies #[trigger] s.drop_last()[t] < a.len() by {
            assert(s.drop_last()[t] == s[t]);
        }
        lemma_ones_between(a, s.drop_last(), idx);
        assert(s[s.len() - 1] < a.len());
    }
}

/// Two assignments that agree below `idx` fix the same part of each count.
pub proof fn lemma_assigned_prefix(a: Seq<bool>, b: Seq<bool>, s: Seq<usize>, idx: nat)
    requires
        idx <= a.len(),
        idx <= b.len(),
        a.take(idx as int) == b.take(idx as int),
    ensures
        assigned(a, s, idx) == assigned(b, s, idx),
    decreases s.len(),
{
    if s.len() > 0 {
        lemma_assigned_prefix(a, b, s.drop_last(), idx);
        let x = s.last();
        if x < idx {
            assert(a.take(idx as int)[x as int] == a[x as int]);
            assert(b.take(idx as int)[x as int] == b[x as int]);
        }
    }
}

/// Once an equation is dead, no assignment extending the fixed cells is a model.
pub proof fn lemma_dead_no_models(q: Seq<bool>, p: Seq<bool>, k: nat, eqs: Seq<LocalEq>, e: int, idx: nat, v: int)
    requires
        local_wf(eqs, k),
        0 <= e < eqs.len(),
        idx <= q.len(),
        idx <= p.len() <= k,
        p.take(idx as int) == q.take(idx as int),
        dead(q, eqs[e], idx),
    ensures
        models(p, k, eqs) == 0,
        models_with(p, k, eqs, v) == 0,
    decreases k - p.len(),
{
    if p.len() >= k {
        let s = eqs[e].vars@;
        assert forall|t: int| 0 <= t < s.len() implies #[trigger] s[t] < p.len() by {
            assert(eqs[e].vars@[t] < k);
        }
        lemma_ones_between(p, s, idx);
        lemma_assigned_prefix(p, q, s, idx);
        assert(!satisfies(p, eqs)) by {
            assert(ones(p, eqs[e].vars@) != eqs[e].mines);
        }
    } else {
        assert(p.push(false).take(idx as int) == p.take(idx as int));
        assert(p.push(true).take(idx as int) == p.take(idx as int));
        lemma_dead_no_models(q, p.push(false), k, eqs, e, idx, v);
        lemma_dead_no_models(q, p.push(true), k, eqs, e, idx, v);
    }
}

/// Whether some equation is dead with the cells below `idx` fixed as in `a`.
pub fn any_dead(a: &Vec<bool>, eqs: &Vec<LocalEq>, idx: usize) -> (r: bool)
    requires
        local_wf(eqs@, a@.len() as nat),
        idx <= a@.len(),
    ensures
        r == exists|e: int| 0 <= e < eqs@.len() && #[trigger] dead(a@, eqs@[e], idx as nat),
{
    let mut e: usize = 0;
    while e < eqs.len()
        invariant
            e <= eqs@.len(),
            local_wf(eqs@, a@.len() as nat),
            idx <= a@.len(),
            forall|f: int| 0 <= f < e ==> !#[trigger] dead(a@, eqs@[f], idx as nat),
        decreases eqs@.len() - e,
    {
        let vars = &eqs[e].vars;
        let mut am: usize = 0;
        let mut un: usize = 0;
        let mut t: usize = 0;
        while t < vars.len()
            invariant
                t <= vars@.len(),
                *vars == eqs@[e as int].vars,
                e < eqs@.len(),
                local_wf(eqs@, a@.len() as nat),
                am == assigned(a@, vars@.take(t as int), idx as nat),
                un == unassigned(vars@.take(t as int), idx as nat),
                am + un <= t,
            decreases vars@.len() - t,
        {
            let v = vars[t];
            proof {
                assert(vars@.take(t + 1).drop_last() == vars@.take(t as int));
                assert(eqs@[e as int].vars@[t as int] < a@.len());
            }
            if v < idx {
                if a[v] {
                    am = am + 1;
                }
            } else {
                un = un + 1;
            }
            t = t + 1;
        }
        proof {
            assert(vars@.take(vars@.len() as int) == vars@);
        }
        if am > eqs[e].mines || am + un < eqs[e].mines {
            proof {
                assert(dead(a@, eqs@[e as int], idx as nat));
            }
            return true;
        }
        e = e + 1;
    }
    false
}

/// The cap on the models counted.
pub const MODEL_CAP: u64 = 5000;

/// Depth-first search over the cells from `idx` on, the cells below `idx`
/// fixed as in `a`: counts the models found in `count` and, for each cell, the
/// models with a mine there in `mine_counts`, stopping once `count` reaches
/// the cap.
pub fn search(idx: usize, a: &mut Vec<bool>, eqs: &Vec<LocalEq>, count: &mut u64, mine_counts: &mut Vec<u64>)
    requires
        idx <= old(a)@.len(),
        old(mine_counts)@.len() == old(a)@.len(),
        local_wf(eqs@, old(a)@.len() as nat),
        *old(count) <= MODEL_CAP,
        forall|v: int| 0 <= v < old(a)@.len() ==> #[trigger] old(mine_counts)@[v] <= *old(count),
    ensures
        final(a)@.len() == old(a)@.len(),
        final(a)@.take(idx as int) == old(a)@.take(idx as int),
        final(mine_counts)@.len() == old(mine_counts)@.len(),
        *final(count) <= MODEL_CAP,
        forall|v: int| 0 <= v < old(a)@.len() ==> #[trigger] final(mine_counts)@[v] <= *final(count),
        *old(count) >= MODEL_CAP ==> *final(count) == *old(count) && final(mine_counts)@ == old(mine_counts)@,
        *old(count) < MODEL_CAP ==> *final(count) == if *old(count) + models(old(a)@.take(idx as int), old(a)@.len() as nat, eqs@) <= MODEL_CAP {
            *old(count) + models(old(a)@.take(idx as int), old(a)@.len() as nat, eqs@)
        } else {
            MODEL_CAP as int
        },
        *old(count) + models(old(a)@.take(idx as int), old(a)@.len() as nat, eqs@) <= MODEL_CAP ==> forall|v: int| 0 <= v < old(a)@.len() ==>
            #[trigger] final(mine_counts)@[v] == old(mine_counts)@[v] + models_with(old(a)@.take(idx as int), old(a)@.len() as nat, eqs@, v),
    decreases old(a)@.len() - idx,
{
    let ghost k = a@.len() as nat;
    let ghost p = a@.take(idx as int);
    if *count >= MODEL_CAP {
        proof {
            assert forall|v: int| 0 <= v < k implies models_with(p, k, eqs@, v) <= models(p, k, eqs@) by {
                lemma_with_le(p, k, eqs@, v);
            }
        }
        return;
    }
    if any_dead(a, eqs, idx) {
        proof {
            assert(p.take(idx as int) == a@.take(idx as int));
            let e = choose|e: int| 0 <= e < eqs@.len() && #[trigger] dead(a@, eqs@[e], idx as nat);
            assert forall|v: int| 0 <= v < k implies models_with(p, k, eqs@, v) == 0 by {
                lemma_dead_no_models(a@, p, k, eqs@, e, idx as nat, v);
            }
            lemma_dead_no_models(a@, p, k, eqs@, e, idx as nat, 0);
        }
        return;
    }
    if idx == a.len() {
        proof {
            assert(p == a@);
            assert(satisfies(a@, eqs@)) by {
                assert forall|e: int| 0 <= e < eqs@.len() implies ones(a@, (#[trigger] eqs@[e]).vars@) == eqs@[e].mines by {
                    assert(!dead(a@, eqs@[e], idx as nat));
                    assert forall|t: int| 0 <= t < eqs@[e].vars@.len() implies #[trigger] eqs@[e].vars@[t] < a@.len() by {}
                    lemma_ones_between(a@, eqs@[e].vars@, idx as nat);
                }
            }
        }
        *count = *count + 1;
        let mut i: usize = 0;
        while i < a.len()
            invariant
                i <= a@.len(),
                a@ == p,
                p.len() == k,
                satisfies(p, eqs@),
                mine_counts@.len() == k,
                *count <= MODEL_CAP,
                forall|v: int| 0 <= v < i ==> #[trigger] mine_counts@[v] == old(mine_counts)@[v] + if p[v] { 1int } else { 0 },
                forall|v: int| i <= v < k ==> #[trigger] mine_counts@[v] == old(mine_counts)@[v],
                forall|v: int| 0 <= v < k ==> #[trigger] old(mine_counts)@[v] < *count,
            decreases a@.len() - i,
        {
            if a[i] {
                let c = mine_counts[i];
                mine_counts.set(i, c + 1);
            }
            i = i + 1;
        }
        return;
    }
    let ghost c0 = *count;
    let ghost mc0 = mine_counts@;
    a.set(idx, false);
    proof {
        assert(a@.take(idx as int) == p);
        assert(a@.take(idx + 1) == p.push(false));
    }
    search(idx + 1, a, eqs, count, mine_counts);
    let ghost c1 = *count;
    let ghost mc1 = mine_counts@;
    proof {
        assert(a@.take(idx as int) == a@.take(idx + 1).take(idx as int));
        assert(a@.take(idx as int) == p);
    }
    a.set(idx, true);
    proof {
        assert(a@.take(idx as int) == p);
        assert(a@.take(idx + 1) == p.push(true));
    }
    search(idx + 1, a, eqs, count, mine_counts);
    proof {
        assert(a@.take(idx as int) == a@.take(idx + 1).take(idx as int));
        assert(a@.take(idx as int) == p);
        assert(models(p, k, eqs@) == models(p.push(false), k, eqs@) + models(p.push(true), k, eqs@));
        assert forall|v: int| 0 <= v < k implies models_with(p, k, eqs@, v) == models_with(p.push(false), k, eqs@, v) + models_with(p.push(true), k, eqs@, v) by {}
    }
}

} // verus!
