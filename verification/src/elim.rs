//! Integer elimination on the equations of a component: each row stands for
//! "the sum of the coefficients of the cells holding a mine equals the last
//! entry", and every row operation keeps rows that hold of an assignment
//! holding of it.
use vstd::prelude::*;

verus! {

/// The sum of the coefficients of the first `j` columns of `row` whose cell
/// is marked in `a`.
pub open spec fn dot(row: Seq<i128>, a: Seq<bool>, j: nat) -> int
    decreases j,
{
    if j == 0 {
        0
    } else {
        dot(row, a, (j - 1) as nat) + if a[j - 1] { row[j - 1] as int } else { 0 }
    }
}

/// Row `row` (over `k` cells and a right-hand side) holds of assignment `a`.
pub open spec fn row_holds(row: Seq<i128>, a: Seq<bool>, k: nat) -> bool {
    dot(row, a, k) == row[k as int]
}

/// Every row of `rows` holds of `a`.
pub open spec fn rows_hold(rows: Seq<Vec<i128>>, a: Seq<bool>, k: nat) -> bool {
    forall|r: int| 0 <= r < rows.len() ==> #[trigger] row_holds(rows[r]@, a, k)
}

/// Each row has `k` coefficients and a right-hand side.
pub open spec fn shaped(rows: Seq<Vec<i128>>, k: nat) -> bool {
    forall|r: int| 0 <= r < rows.len() ==> (#[trigger] rows[r])@.len() == k + 1
}

/// Rows `rows` hold of every assignment of which `base` holds.
pub open spec fn follows(base: Seq<Vec<i128>>, rows: Seq<Vec<i128>>, k: nat) -> bool {
    forall|a: Seq<bool>| a.len() == k && #[trigger] rows_hold(base, a, k) ==> rows_hold(rows, a, k)
}

/// A combination of rows is the combination of their sums.
pub proof fn lemma_dot_combine(x: Seq<i128>, y: Seq<i128>, z: Seq<i128>, c: int, d: int, a: Seq<bool>, j: nat)
    requires
        j <= x.len(),
        j <= y.len(),
        j <= z.len(),
        forall|t: int| 0 <= t < j ==> #[trigger] z[t] == c * x[t] - d * y[t],
    ensures
        dot(z, a, j) == c * dot(x, a, j) - d * dot(y, a, j),
    decreases j,
{
    if j > 0 {
        lemma_dot_combine(x, y, z, c, d, a, (j - 1) as nat);
        let t = j - 1;
        assert(z[t] == c * x[t] - d * y[t]);
        let dx = dot(x, a, (j - 1) as nat);
        let dy = dot(y, a, (j - 1) as nat);
        if a[t] {
            assert(c * (dx + x[t]) - d * (dy + y[t]) == (c * dx - d * dy) + (c * x[t] - d * y[t])) by (nonlinear_arith);
        }
    }
}

/// Dividing a row by a common factor divides its sum.
pub proof fn lemma_dot_divide(x: Seq<i128>, z: Seq<i128>, g: int, a: Seq<bool>, j: nat)
    requires
        j <= x.len(),
        j <= z.len(),
        forall|t: int| 0 <= t < j ==> #[trigger] x[t] == g * z[t],
    ensures
        dot(x, a, j) == g * dot(z, a, j),
    decreases j,
{
    if j > 0 {
        lemma_dot_divide(x, z, g, a, (j - 1) as nat);
        let t = j - 1;
        if a[t] {
            assert(g * dot(z, a, (j - 1) as nat) + g * z[t] == g * (dot(z, a, (j - 1) as nat) + z[t])) by (nonlinear_arith);
        }
    }
}

/// A sum of coefficients lies between the sum of the negative ones and the
/// sum of the positive ones; it reaches the positive sum only when every
/// cell with a positive coefficient is marked and none with a negative one,
/// and the negative sum only the other way round.
pub open spec fn pos_sum(row: Seq<i128>, j: nat) -> int
    decreases j,
{
    if j == 0 { 0 } else { pos_sum(row, (j - 1) as nat) + if row[j - 1] > 0 { row[j - 1] as int } else { 0 } }
}

pub open spec fn neg_sum(row: Seq<i128>, j: nat) -> int
    decreases j,
{
    if j == 0 { 0 } else { neg_sum(row, (j - 1) as nat) + if row[j - 1] < 0 { row[j - 1] as int } else { 0 } }
}

pub proof fn lemma_dot_bounds(row: Seq<i128>, a: Seq<bool>, j: nat)
    requires
        j <= row.len(),
    ensures
        neg_sum(row, j) <= dot(row, a, j) <= pos_sum(row, j),
        dot(row, a, j) == pos_sum(row, j) ==> forall|t: int| 0 <= t < j ==> (row[t] > 0 ==> #[trigger] a[t]) && (row[t] < 0 ==> !a[t]),
        dot(row, a, j) == neg_sum(row, j) ==> forall|t: int| 0 <= t < j ==> (row[t] > 0 ==> !#[trigger] a[t]) && (row[t] < 0 ==> a[t]),
    decreases j,
{
    if j > 0 {
        lemma_dot_bounds(row, a, (j - 1) as nat);
    }
}

/// A copy of a row.
fn copy_row(v: &Vec<i128>) -> (r: Vec<i128>)
    ensures
        r@ == v@,
{
    let mut r: Vec<i128> = Vec::new();
    let mut i: usize = 0;
    while i < v.len()
        invariant
            i <= v@.len(),
            r@ == v@.take(i as int),
        decreases v@.len() - i,
    {
        r.push(v[i]);
        proof {
            assert(v@.take(i + 1) == v@.take(i as int).push(v@[i as int]));
        }
        i = i + 1;
    }
    proof {
        assert(v@.take(v@.len() as int) == v@);
    }
    r
}

/// `c * xt - d * yt` and both its products fit an `i128`.
pub open spec fn entry_fits(c: i128, xt: i128, d: i128, yt: i128) -> bool {
    &&& i128::MIN <= c * xt <= i128::MAX
    &&& i128::MIN <= d * yt <= i128::MAX
    &&& i128::MIN <= c * xt - d * yt <= i128::MAX
}

/// `c * x - d * y`, entry by entry, or `None` where an entry overflows.
fn combine(x: &Vec<i128>, y: &Vec<i128>, c: i128, d: i128) -> (r: Option<Vec<i128>>)
    requires
        x@.len() == y@.len(),
    ensures
        r is Some <==> forall|t: int| 0 <= t < x@.len() ==> #[trigger] entry_fits(c, x@[t], d, y@[t]),
        r matches Some(z) ==> z@.len() == x@.len() && forall|t: int| 0 <= t < x@.len() ==> #[trigger] z@[t] == c * x@[t] - d * y@[t],
{
    let mut z: Vec<i128> = Vec::new();
    let mut t: usize = 0;
    while t < x.len()
        invariant
            t <= x@.len(),
            x@.len() == y@.len(),
            z@.len() == t,
            forall|u: int| 0 <= u < t ==> #[trigger] z@[u] == c * x@[u] - d * y@[u],
            forall|u: int| 0 <= u < t ==> #[trigger] entry_fits(c, x@[u], d, y@[u]),
        decreases x@.len() - t,
    {
        let p = c.checked_mul(x[t]);
        let q = d.checked_mul(y[t]);
        match (p, q) {
            (Some(p), Some(q)) => {
                match p.checked_sub(q) {
                    Some(v) => z.push(v),
                    None => {
                        proof {
                            assert(!entry_fits(c, x@[t as int], d, y@[t as int]));
                        }
                        return None;
                    }
                }
            }
            _ => {
                proof {
                    assert(!entry_fits(c, x@[t as int], d, y@[t as int]));
                }
                return None;
            }
        }
        t = t + 1;
    }
    Some(z)
}

fn abs_u128(v: i128) -> (r: u128)
    ensures
        r == if v < 0 { -v } else { v as int },
{
    if v < 0 {
        if v == i128::MIN {
            (i128::MAX as u128) + 1
        } else {
            (-v) as u128
        }
    } else {
        v as u128
    }
}

/// The greatest common divisor, by Euclid's steps.
pub open spec fn gcd(a: nat, b: nat) -> nat
    decreases b,
{
    if b == 0 {
        a
    } else {
        gcd(b, a % b)
    }
}

fn gcd_u128(a: u128, b: u128) -> (g: u128)
    ensures
        g == gcd(a as nat, b as nat),
    decreases b,
{
    if b == 0 {
        a
    } else {
        gcd_u128(b, a % b)
    }
}

/// The greatest common divisor of the magnitudes of the first `t` entries.
pub open spec fn row_gcd(x: Seq<i128>, t: int) -> nat
    decreases t,
{
    if t <= 0 {
        0
    } else {
        let v = x[t - 1] as int;
        gcd(row_gcd(x, t - 1), (if v < 0 { -v } else { v }) as nat)
    }
}

/// The row divided by the greatest common divisor of its entries when that
/// divides every entry and is above 1, the row itself otherwise.
fn divide_common(x: Vec<i128>, k: usize) -> (r: Vec<i128>)
    requires
        x@.len() == k + 1,
    ensures
        r@.len() == x@.len(),
        forall|a: Seq<bool>| a.len() == k && #[trigger] row_holds(x@, a, k as nat) ==> row_holds(r@, a, k as nat),
        ({
            let g = row_gcd(x@, x@.len() as int);
            if 1 < g <= i128::MAX && forall|u: int| 0 <= u < x@.len() ==> (#[trigger] x@[u] as int) % (g as int) == 0 {
                forall|u: int| 0 <= u < x@.len() ==> #[trigger] x@[u] == g * r@[u]
            } else {
                r@ == x@
            }
        }),
{
    let mut g: u128 = 0;
    let mut t: usize = 0;
    while t < x.len()
        invariant
            t <= x@.len(),
            g == row_gcd(x@, t as int),
        decreases x@.len() - t,
    {
        g = gcd_u128(g, abs_u128(x[t]));
        t = t + 1;
    }
    let ghost gg = g as int;
    let mut r = x;
    if g > 1 && g <= i128::MAX as u128 {
        let gi = g as i128;
        let mut divisible = true;
        let mut z: Vec<i128> = Vec::new();
        let mut t: usize = 0;
        while t < r.len()
            invariant
                t <= r@.len(),
                r@ == x@,
                gi > 1,
                gi == gg,
                z@.len() == t,
                divisible == forall|u: int| 0 <= u < t ==> (#[trigger] r@[u] as int) % (gi as int) == 0,
                divisible ==> forall|u: int| 0 <= u < t ==> #[trigger] r@[u] == gi * z@[u],
            decreases r@.len() - t,
        {
            let v = r[t];
            proof {
                vstd::arithmetic::div_mod::lemma_fundamental_div_mod(v as int, gi as int);
                vstd::arithmetic::div_mod::lemma_mod_bound(v as int, gi as int);
                assert(i128::MIN <= (v as int) / (gi as int) <= i128::MAX) by (nonlinear_arith)
                    requires gi > 1, i128::MIN <= v <= i128::MAX,
                        v == gi * ((v as int) / (gi as int)) + (v as int) % (gi as int),
                        0 <= (v as int) % (gi as int) < gi;
            }
            let w = match v.checked_div_euclid(gi) {
                Some(w) => w,
                None => 0,
            };
            match w.checked_mul(gi) {
                Some(back) => {
                    if back != v {
                        proof {
                            if (v as int) % (gi as int) == 0 {
                                assert(w as int == (v as int) / (gi as int));
                                assert(w * gi == gi * w) by (nonlinear_arith);
                                assert(back == v);
                            }
                        }
                        divisible = false;
                    } else {
                        proof {
                            assert(v == gi * w) by (nonlinear_arith)
                                requires back == w * gi, back == v;
                            assert((v as int) % (gi as int) == 0) by {
                                vstd::arithmetic::div_mod::lemma_mod_multiples_basic(w as int, gi as int);
                                assert(w * gi == gi * w) by (nonlinear_arith);
                            }
                        }
                    }
                }
                None => {
                    proof {
                        if (v as int) % (gi as int) == 0 {
                            assert(w as int == (v as int) / (gi as int));
                            assert(w * gi == gi * w) by (nonlinear_arith);
                            assert(w * gi == v);
                        }
                    }
                    divisible = false;
                }
            }
            z.push(w);
            t = t + 1;
        }
        if divisible {
            proof {
                assert forall|a: Seq<bool>| a.len() == k && #[trigger] row_holds(r@, a, k as nat) implies row_holds(z@, a, k as nat) by {
                    lemma_dot_divide(r@, z@, gi as int, a, k as nat);
                    assert(r@[k as int] == gi * z@[k as int]);
                    assert(dot(z@, a, k as nat) == z@[k as int]) by (nonlinear_arith)
                        requires gi > 1, gi * dot(z@, a, k as nat) == gi * z@[k as int];
                }
            }
            r = z;
        }
    }
    r
}

/// The row with every entry negated, unless an entry cannot be.
fn negate(r: &Vec<i128>, k: usize) -> (z: Option<Vec<i128>>)
    requires
        r@.len() == k + 1,
    ensures
        z is None <==> exists|u: int| 0 <= u < r@.len() && #[trigger] r@[u] == i128::MIN,
        z matches Some(v) ==> v@.len() == r@.len() && (forall|u: int| 0 <= u < r@.len() ==> #[trigger] v@[u] == 0 - r@[u])
            && forall|a: Seq<bool>| a.len() == k && #[trigger] row_holds(r@, a, k as nat) ==> row_holds(v@, a, k as nat),
{
    let mut ok = true;
    let mut t: usize = 0;
    while t < r.len()
        invariant
            t <= r@.len(),
            ok == forall|u: int| 0 <= u < t ==> #[trigger] r@[u] != i128::MIN,
        decreases r@.len() - t,
    {
        if r[t] == i128::MIN {
            ok = false;
        }
        t = t + 1;
    }
    if !ok {
        return None;
    }
    let mut z: Vec<i128> = Vec::new();
    let mut t: usize = 0;
    while t < r.len()
        invariant
            t <= r@.len(),
            forall|u: int| 0 <= u < r@.len() ==> #[trigger] r@[u] != i128::MIN,
            z@.len() == t,
            forall|u: int| 0 <= u < t ==> #[trigger] z@[u] == 0 - r@[u],
        decreases r@.len() - t,
    {
        let v = r[t];
        z.push(0 - v);
        t = t + 1;
    }
    proof {
        assert forall|a: Seq<bool>| a.len() == k && #[trigger] row_holds(r@, a, k as nat) implies row_holds(z@, a, k as nat) by {
            assert forall|u: int| 0 <= u < k + 1 implies #[trigger] z@[u] == 0 * r@[u] - 1 * r@[u] by {}
            lemma_dot_combine(r@, r@, z@, 0, 1, a, k as nat);
        }
    }
    Some(z)
}


/// Adding one to a coefficient adds the cell's mark to the sum.
pub proof fn lemma_dot_bump(row: Seq<i128>, a: Seq<bool>, c: int, v: i128, j: nat)
    requires
        0 <= c < row.len(),
        j <= row.len(),
        v == row[c] + 1,
    ensures
        dot(row.update(c, v), a, j) == dot(row, a, j) + if c < j && a[c] { 1int } else { 0 },
    decreases j,
{
    if j > 0 {
        lemma_dot_bump(row, a, c, v, (j - 1) as nat);
    }
}

/// Rows `rows` with rows `i` and `r` exchanged.
fn swap_rows(rows: &mut Vec<Vec<i128>>, i: usize, r: usize, k: usize)
    requires
        i < old(rows)@.len(),
        r < old(rows)@.len(),
        shaped(old(rows)@, k as nat),
    ensures
        final(rows)@.len() == old(rows)@.len(),
        shaped(final(rows)@, k as nat),
        forall|a: Seq<bool>| a.len() == k && #[trigger] rows_hold(old(rows)@, a, k as nat) ==> rows_hold(final(rows)@, a, k as nat),
        final(rows)@[r as int]@ == old(rows)@[i as int]@,
        final(rows)@[i as int]@ == old(rows)@[r as int]@,
        forall|q: int| 0 <= q < old(rows)@.len() && q != i && q != r ==> #[trigger] final(rows)@[q] == old(rows)@[q],
{
    let ri = copy_row(&rows[i]);
    let rr = copy_row(&rows[r]);
    let ghost before = rows@;
    rows.set(i, rr);
    rows.set(r, ri);
    proof {
        assert forall|a: Seq<bool>| a.len() == k && #[trigger] rows_hold(before, a, k as nat) implies rows_hold(rows@, a, k as nat) by {
            assert forall|q: int| 0 <= q < rows@.len() implies #[trigger] row_holds(rows@[q]@, a, k as nat) by {
                if q == r as int {
                    assert(row_holds(before[i as int]@, a, k as nat));
                } else if q == i as int {
                    assert(row_holds(before[r as int]@, a, k as nat));
                } else {
                    assert(row_holds(before[q]@, a, k as nat));
                }
            }
        }
        assert forall|q: int| 0 <= q < rows@.len() implies (#[trigger] rows@[q])@.len() == k + 1 by {
            if q != r as int && q != i as int {
                assert(rows@[q] == before[q]);
            }
        }
    }
}

/// The first column from `lead` on with a non-zero entry in a row from `r`
/// on, scanning column by column, and that row; `None` when there is none.
fn find_pivot(rows: &Vec<Vec<i128>>, r: usize, lead: usize, k: usize) -> (p: Option<(usize, usize)>)
    requires
        shaped(rows@, k as nat),
        r < rows@.len(),
        lead <= k,
    ensures
        p is None <==> forall|i: int, col: int| r <= i < rows@.len() && lead <= col < k ==> #[trigger] rows@[i]@[col] == 0,
        p matches Some((i, col)) ==> r <= i < rows@.len() && lead <= col < k && rows@[i as int]@[col as int] != 0
            && (forall|i2: int, c2: int| r <= i2 < rows@.len() && lead <= c2 < col ==> #[trigger] rows@[i2]@[c2] == 0)
            && (forall|i2: int| r <= i2 < i ==> #[trigger] rows@[i2]@[col as int] == 0),
{
    let mut col = lead;
    while col < k
        invariant
            lead <= col <= k,
            shaped(rows@, k as nat),
            r < rows@.len(),
            forall|i2: int, c2: int| r <= i2 < rows@.len() && lead <= c2 < col ==> #[trigger] rows@[i2]@[c2] == 0,
        decreases k - col,
    {
        let mut i = r;
        while i < rows.len()
            invariant
                r <= i <= rows@.len(),
                lead <= col < k,
                shaped(rows@, k as nat),
                forall|i2: int, c2: int| r <= i2 < rows@.len() && lead <= c2 < col ==> #[trigger] rows@[i2]@[c2] == 0,
                forall|i2: int| r <= i2 < i ==> #[trigger] rows@[i2]@[col as int] == 0,
            decreases rows@.len() - i,
        {
            proof {
                assert(rows@[i as int]@.len() == k + 1);
            }
            let v = rows[i][col];
            if v != 0 {
                proof {
                    assert(v == rows@[i as int]@[col as int]);
                }
                return Some((i, col));
            }
            i = i + 1;
        }
        col = col + 1;
    }
    None
}

/// One past the last pivot column of `piv`: where the search for the next
/// pivot starts.
pub open spec fn after_pivots(piv: Seq<int>) -> int {
    if piv.len() == 0 { 0 } else { piv.last() + 1 }
}

/// Row `q` of `rows` has a positive entry in column `piv[q]`, every other
/// row a zero there, and the pivot columns increase.
pub open spec fn pivots_placed(rows: Seq<Vec<i128>>, k: nat, piv: Seq<int>) -> bool {
    &&& piv.len() <= rows.len()
    &&& forall|q: int| 0 <= q < piv.len() ==> 0 <= #[trigger] piv[q] < k && rows[q]@[piv[q]] > 0
    &&& forall|q1: int, q2: int| 0 <= q1 < q2 < piv.len() ==> #[trigger] piv[q1] < #[trigger] piv[q2]
    &&& forall|q: int, j: int| 0 <= q < piv.len() && 0 <= j < rows.len() && j != q ==> #[trigger] rows[j]@[piv[q]] == 0
}

/// Rows from `from` on are zero in every column before `col`.
pub open spec fn zero_below(rows: Seq<Vec<i128>>, from: int, col: int) -> bool {
    forall|j: int, c: int| from <= j < rows.len() && 0 <= c < col ==> #[trigger] rows[j]@[c] == 0
}

/// `rows` is in reduced echelon form as far as the pivots `piv` go.
pub open spec fn echelon_upto(rows: Seq<Vec<i128>>, k: nat, piv: Seq<int>) -> bool {
    pivots_placed(rows, k, piv) && zero_below(rows, piv.len() as int, after_pivots(piv))
}

/// Elimination cannot go on at row `np`: its first non-zero column `col`
/// (the rows below being zero before it) is negative and holds an entry that
/// has no negation, or is positive and clearing it from another row would
/// overflow an entry.
pub open spec fn stalled(rows: Seq<Vec<i128>>, k: nat, np: int) -> bool {
    &&& 0 <= np < rows.len()
    &&& exists|col: int| {
        &&& 0 <= col < k
        &&& zero_below(rows, np, col)
        &&& #[trigger] rows[np]@[col] != 0
        &&& rows[np]@[col] < 0 ==> exists|u: int| 0 <= u <= k && #[trigger] rows[np]@[u] == i128::MIN
        &&& rows[np]@[col] > 0 ==> exists|j: int| 0 <= j < rows.len() && j != np && #[trigger] rows[j]@[col] != 0
            && !(forall|t: int| 0 <= t <= k ==> #[trigger] entry_fits(rows[np]@[col], rows[j]@[t], rows[j]@[col], rows[np]@[t]))
    }
}

/// Every row from `np` on is zero in its `k` coefficients.
pub open spec fn cleared_from(rows: Seq<Vec<i128>>, k: nat, np: int) -> bool {
    zero_below(rows, np, k as int)
}

/// A row scaled down by a positive factor (or kept) keeps its zeros and
/// its positive entries.
proof fn lemma_scaled_down(x: Seq<i128>, y: Seq<i128>, g: int)
    requires
        x.len() == y.len(),
        (1 < g && forall|u: int| 0 <= u < x.len() ==> #[trigger] x[u] == g * y[u]) || y == x,
    ensures
        forall|u: int| 0 <= u < x.len() ==> (#[trigger] x[u] == 0 ==> y[u] == 0) && (x[u] > 0 ==> y[u] > 0),
{
    assert forall|u: int| 0 <= u < x.len() implies (#[trigger] x[u] == 0 ==> y[u] == 0) && (x[u] > 0 ==> y[u] > 0) by {
        if y != x {
            let xu = x[u] as int;
            let yu = y[u] as int;
            assert(xu == g * yu);
            assert((xu == 0 ==> yu == 0) && (xu > 0 ==> yu > 0)) by (nonlinear_arith)
                requires xu == g * yu, g > 1;
        }
    }
}

/// Clearing column `col` of row `j` with the pivot row `r` keeps the
/// pivots placed so far and the zeros below them, and zeroes that entry.
proof fn lemma_clear_step(b1: Seq<Vec<i128>>, b2: Seq<Vec<i128>>, k: nat, piv: Seq<int>, r: int, col: int, j: int, z: Seq<i128>)
    requires
        b1.len() == b2.len(),
        shaped(b1, k),
        0 <= r < b1.len(),
        0 <= j < b1.len(),
        j != r,
        0 <= col < k,
        piv.len() == r,
        pivots_placed(b1, k, piv),
        forall|q: int| 0 <= q < piv.len() ==> #[trigger] piv[q] < col,
        zero_below(b1, r, col),
        b1[r]@[col] > 0,
        z.len() == k + 1,
        forall|t: int| 0 <= t <= k ==> #[trigger] z[t] == b1[r]@[col] * b1[j]@[t] - b1[j]@[col] * b1[r]@[t],
        b2[j]@.len() == k + 1,
        forall|u: int| 0 <= u <= k ==> (#[trigger] z[u] == 0 ==> b2[j]@[u] == 0) && (z[u] > 0 ==> b2[j]@[u] > 0),
        forall|q: int| 0 <= q < b1.len() && q != j ==> #[trigger] b2[q] == b1[q],
    ensures
        pivots_placed(b2, k, piv),
        zero_below(b2, r, col),
        b2[j]@[col] == 0,
{
    let p = b1[r]@[col] as int;
    let f = b1[j]@[col] as int;
    assert(z[col] == 0) by {
        assert(p * f - f * p == 0) by (nonlinear_arith);
    }
    assert forall|q: int| 0 <= q < piv.len() implies 0 <= #[trigger] piv[q] < k && b2[q]@[piv[q]] > 0 by {
        assert(b1[q]@[piv[q]] > 0);
        if q == j {
            let c = piv[q];
            assert(b1[r]@[c] == 0);
            let a = b1[j]@[c] as int;
            assert(z[c] == p * a - f * 0);
            assert(p * a - f * 0 > 0) by (nonlinear_arith)
                requires p > 0, a > 0;
        }
    }
    assert forall|q: int, j2: int| 0 <= q < piv.len() && 0 <= j2 < b2.len() && j2 != q implies #[trigger] b2[j2]@[piv[q]] == 0 by {
        let c = piv[q];
        assert(b1[r]@[c] == 0);
        if j2 == j {
            assert(b1[j]@[c] == 0);
            assert(z[c] == p * 0 - f * 0);
            assert(p * 0 - f * 0 == 0) by (nonlinear_arith);
        } else {
            assert(b1[j2]@[c] == 0);
        }
    }
    assert forall|j2: int, c: int| r <= j2 < b2.len() && 0 <= c < col implies #[trigger] b2[j2]@[c] == 0 by {
        assert(b1[j2]@[c] == 0);
        if j2 == j {
            assert(b1[r]@[c] == 0);
            assert(z[c] == p * 0 - f * 0);
            assert(p * 0 - f * 0 == 0) by (nonlinear_arith);
        }
    }
}

/// `rs` is what elimination makes of `base` (rows over `k` cells): as many
/// rows of the same shape, holding of every assignment `base` holds of, in
/// reduced echelon form as far as its pivots go, and either with a pivot in
/// every row, or zero below the pivots, or stalled on an overflow.
pub open spec fn reduced_form(base: Seq<Vec<i128>>, rs: Seq<Vec<i128>>, k: nat) -> bool {
    &&& shaped(rs, k)
    &&& rs.len() == base.len()
    &&& follows(base, rs, k)
    &&& exists|piv: Seq<int>| #[trigger] echelon_upto(rs, k, piv) && (piv.len() == rs.len()
        || cleared_from(rs, k, piv.len() as int) || stalled(rs, k, piv.len() as int))
}

/// Reduces the rows towards reduced row echelon form, as the elimination with
/// a pivot scaled to one would: column by column, a row with a non-zero entry
/// is moved up, made to have a positive pivot, and cleared from every other
/// row; entries are kept whole by scaling, and each row is divided by the
/// common divisor of its entries. Stops early where an entry would overflow.
pub fn reduce_rows(rows: Vec<Vec<i128>>, k: usize) -> (r: Vec<Vec<i128>>)
    requires
        shaped(rows@, k as nat),
    ensures
        reduced_form(rows@, r@, k as nat),
{
    let ghost base = rows@;
    let mut rows = rows;
    let n_eqs = rows.len();
    let mut lead: usize = 0;
    let mut r: usize = 0;
    let mut stuck = false;
    let ghost mut piv: Seq<int> = Seq::empty();
    while r < n_eqs && lead < k && !stuck
        invariant
            r <= n_eqs,
            lead <= k,
            rows@.len() == n_eqs,
            n_eqs == base.len(),
            shaped(rows@, k as nat),
            follows(base, rows@, k as nat),
            piv.len() == r,
            echelon_upto(rows@, k as nat, piv),
            lead == after_pivots(piv),
            stuck ==> cleared_from(rows@, k as nat, r as int) || stalled(rows@, k as nat, r as int),
        decreases n_eqs - r + if stuck { 0int } else { 1int },
    {
        match find_pivot(&rows, r, lead, k) {
            None => {
                stuck = true;
            }
            Some((i, col)) => {
                let ghost b0 = rows@;
                swap_rows(&mut rows, i, r, k);
                proof {
                    assert(rows@[r as int]@[col as int] != 0);
                    lemma_after_swap(b0, rows@, k as nat, piv, r as int, i as int, lead as int, col as int);
                }
                if rows[r][col] < 0 {
                    match negate(&rows[r], k) {
                        Some(z) => {
                            let ghost b1 = rows@;
                            rows.set(r, z);
                            proof {
                                lemma_replace_row(base, b1, rows@, r as int, k as nat);
                                lemma_after_negate(b1, rows@, k as nat, piv, r as int, col as int);
                            }
                        }
                        None => {
                            proof {
                                assert(zero_below(rows@, r as int, col as int) && rows@[r as int]@[col as int] != 0);
                            }
                            stuck = true;
                        }
                    }
                }
                if !stuck {
                    let ghost prow = rows@[r as int];
                    let mut j: usize = 0;
                    while j < n_eqs && !stuck
                        invariant
                            j <= n_eqs,
                            r < n_eqs,
                            col < k,
                            rows@.len() == n_eqs,
                            n_eqs == base.len(),
                            shaped(rows@, k as nat),
                            follows(base, rows@, k as nat),
                            piv.len() == r,
                            pivots_placed(rows@, k as nat, piv),
                            forall|q: int| 0 <= q < piv.len() ==> #[trigger] piv[q] < col,
                            zero_below(rows@, r as int, col as int),
                            rows@[r as int] == prow,
                            prow@[col as int] > 0,
                            !stuck ==> forall|j2: int| 0 <= j2 < j && j2 != r ==> #[trigger] rows@[j2]@[col as int] == 0,
                            stuck ==> stalled(rows@, k as nat, r as int),
                        decreases n_eqs - j,
                    {
                        if j != r {
                            proof {
                                assert(rows@[j as int]@.len() == k + 1);
                                assert(rows@[r as int]@.len() == k + 1);
                            }
                            let f = rows[j][col];
                            if f != 0 {
                                let p = rows[r][col];
                                match combine(&rows[j], &rows[r], p, f) {
                                    Some(z) => {
                                        let ghost b1 = rows@;
                                        proof {
                                            assert forall|a: Seq<bool>| a.len() == k && row_holds(b1[j as int]@, a, k as nat) && row_holds(b1[r as int]@, a, k as nat) implies #[trigger] row_holds(z@, a, k as nat) by {
                                                lemma_dot_combine(b1[j as int]@, b1[r as int]@, z@, p as int, f as int, a, k as nat);
                                                assert(z@[k as int] == p * b1[j as int]@[k as int] - f * b1[r as int]@[k as int]);
                                            }
                                        }
                                        let ghost zz = z@;
                                        let z2 = divide_common(z, k);
                                        let ghost zz2 = z2@;
                                        rows.set(j, z2);
                                        proof {
                                            assert forall|a: Seq<bool>| a.len() == k && #[trigger] rows_hold(base, a, k as nat) implies rows_hold(rows@, a, k as nat) by {
                                                assert(rows_hold(b1, a, k as nat));
                                                assert(row_holds(b1[j as int]@, a, k as nat));
                                                assert(row_holds(b1[r as int]@, a, k as nat));
                                                assert forall|q: int| 0 <= q < rows@.len() implies #[trigger] row_holds(rows@[q]@, a, k as nat) by {
                                                    if q != j as int {
                                                        assert(row_holds(b1[q]@, a, k as nat));
                                                    } else {
                                                        assert(row_holds(zz, a, k as nat));
                                                        assert(row_holds(zz2, a, k as nat));
                                                        assert(rows@[q]@ == zz2);
                                                    }
                                                }
                                            }
                                            assert forall|q: int| 0 <= q < rows@.len() implies (#[trigger] rows@[q])@.len() == k + 1 by {
                                                if q != j as int {
                                                    assert(rows@[q] == b1[q]);
                                                }
                                            }
                                            lemma_scaled_down(zz, zz2, row_gcd(zz, zz.len() as int) as int);
                                            assert forall|q: int| 0 <= q < b1.len() && q != j ==> #[trigger] rows@[q] == b1[q] by {}
                                            lemma_clear_step(b1, rows@, k as nat, piv, r as int, col as int, j as int, zz);
                                        }
                                    }
                                    None => {
                                        proof {
                                            let jj = j as int;
                                            let cc = col as int;
                                            assert(rows@[jj]@[cc] != 0);
                                            assert(zero_below(rows@, r as int, cc) && rows@[r as int]@[cc] != 0);
                                        }
                                        stuck = true;
                                    }
                                }
                            }
                        }
                        j = j + 1;
                    }
                    if !stuck {
                        proof {
                            lemma_new_pivot(rows@, k as nat, piv, r as int, col as int);
                            piv = piv.push(col as int);
                        }
                        lead = col + 1;
                        r = r + 1;
                    }
                }
            }
        }
    }
    proof {
        if !stuck && r < n_eqs {
            assert(cleared_from(rows@, k as nat, r as int));
        }
        assert(echelon_upto(rows@, k as nat, piv));
    }
    rows
}

/// After the pivot row `i` is moved up to row `r`, the pivots placed so far
/// stay placed and the rows from `r` on are zero before column `col`.
proof fn lemma_after_swap(b0: Seq<Vec<i128>>, b1: Seq<Vec<i128>>, k: nat, piv: Seq<int>, r: int, i: int, lead: int, col: int)
    requires
        piv.len() == r,
        echelon_upto(b0, k, piv),
        lead == after_pivots(piv),
        r <= i < b0.len(),
        lead <= col < k,
        forall|i2: int, c2: int| r <= i2 < b0.len() && lead <= c2 < col ==> #[trigger] b0[i2]@[c2] == 0,
        b1.len() == b0.len(),
        b1[r]@ == b0[i]@,
        b1[i]@ == b0[r]@,
        forall|q: int| 0 <= q < b0.len() && q != i && q != r ==> #[trigger] b1[q] == b0[q],
    ensures
        pivots_placed(b1, k, piv),
        zero_below(b1, r, col),
        forall|q: int| 0 <= q < piv.len() ==> #[trigger] piv[q] < col,
{
    assert forall|q: int| 0 <= q < piv.len() implies #[trigger] piv[q] < col by {
        if q < piv.len() - 1 {
            assert(piv[q] < piv[piv.len() - 1]);
        }
    }
    assert forall|q: int| 0 <= q < piv.len() implies 0 <= #[trigger] piv[q] < k && b1[q]@[piv[q]] > 0 by {
        assert(b1[q] == b0[q]);
        assert(b0[q]@[piv[q]] > 0);
    }
    assert forall|q: int, j: int| 0 <= q < piv.len() && 0 <= j < b1.len() && j != q implies #[trigger] b1[j]@[piv[q]] == 0 by {
        if j == r {
            assert(b0[i]@[piv[q]] == 0);
        } else if j == i {
            assert(b0[r]@[piv[q]] == 0);
        } else {
            assert(b0[j]@[piv[q]] == 0);
        }
    }
    assert forall|j: int, c: int| r <= j < b1.len() && 0 <= c < col implies #[trigger] b1[j]@[c] == 0 by {
        let src = if j == r { i } else if j == i { r } else { j };
        assert(b1[j]@ == b0[src]@);
        assert(b0[src]@[c] == 0);
    }
}

/// Negating the pivot row keeps the pivots placed so far and the zeros
/// before column `col`, and makes its entry there positive.
proof fn lemma_after_negate(b1: Seq<Vec<i128>>, b2: Seq<Vec<i128>>, k: nat, piv: Seq<int>, r: int, col: int)
    requires
        piv.len() == r,
        0 <= r < b1.len(),
        0 <= col < k,
        shaped(b1, k),
        pivots_placed(b1, k, piv),
        zero_below(b1, r, col),
        b1[r]@[col] < 0,
        b2.len() == b1.len(),
        b2[r]@.len() == k + 1,
        forall|u: int| 0 <= u <= k ==> #[trigger] b2[r]@[u] == 0 - b1[r]@[u],
        forall|q: int| 0 <= q < b1.len() && q != r ==> #[trigger] b2[q] == b1[q],
    ensures
        pivots_placed(b2, k, piv),
        zero_below(b2, r, col),
        b2[r]@[col] > 0,
{
    assert(b1[r]@.len() == k + 1);
    assert forall|q: int| 0 <= q < piv.len() implies 0 <= #[trigger] piv[q] < k && b2[q]@[piv[q]] > 0 by {
        assert(b2[q] == b1[q]);
    }
    assert forall|q: int, j: int| 0 <= q < piv.len() && 0 <= j < b2.len() && j != q implies #[trigger] b2[j]@[piv[q]] == 0 by {
        assert(b1[j]@[piv[q]] == 0);
        if j != r {
            assert(b2[j] == b1[j]);
        }
    }
    assert forall|j: int, c: int| r <= j < b2.len() && 0 <= c < col implies #[trigger] b2[j]@[c] == 0 by {
        assert(b1[j]@[c] == 0);
        if j != r {
            assert(b2[j] == b1[j]);
        }
    }
}

/// A pivot row with a positive entry in column `col`, cleared from every
/// other row, extends the echelon form by that pivot.
proof fn lemma_new_pivot(rows: Seq<Vec<i128>>, k: nat, piv: Seq<int>, r: int, col: int)
    requires
        piv.len() == r,
        0 <= r < rows.len(),
        0 <= col < k,
        pivots_placed(rows, k, piv),
        forall|q: int| 0 <= q < piv.len() ==> #[trigger] piv[q] < col,
        zero_below(rows, r, col),
        rows[r]@[col] > 0,
        forall|j2: int| 0 <= j2 < rows.len() && j2 != r ==> #[trigger] rows[j2]@[col] == 0,
    ensures
        echelon_upto(rows, k, piv.push(col)),
{
    let np = piv.push(col);
    assert forall|q: int| 0 <= q < np.len() implies 0 <= #[trigger] np[q] < k && rows[q]@[np[q]] > 0 by {
        if q < r {
            assert(np[q] == piv[q]);
        }
    }
    assert forall|q1: int, q2: int| 0 <= q1 < q2 < np.len() implies #[trigger] np[q1] < #[trigger] np[q2] by {
        assert(np[q1] == piv[q1]);
        if q2 < r {
            assert(np[q2] == piv[q2]);
        }
    }
    assert forall|q: int, j: int| 0 <= q < np.len() && 0 <= j < rows.len() && j != q implies #[trigger] rows[j]@[np[q]] == 0 by {
        if q < r {
            assert(np[q] == piv[q]);
        }
    }
    assert(after_pivots(np) == col + 1);
    assert forall|j: int, c: int| r + 1 <= j < rows.len() && 0 <= c < col + 1 implies #[trigger] rows[j]@[c] == 0 by {
        if c < col {
            assert(rows[j]@[c] == 0);
        }
    }
}

/// Replacing a row by one that holds whenever it held keeps what follows.
proof fn lemma_replace_row(base: Seq<Vec<i128>>, b1: Seq<Vec<i128>>, b2: Seq<Vec<i128>>, r: int, k: nat)
    requires
        follows(base, b1, k),
        b2.len() == b1.len(),
        0 <= r < b1.len(),
        forall|q: int| 0 <= q < b1.len() && q != r ==> #[trigger] b2[q] == b1[q],
        forall|a: Seq<bool>| a.len() == k && #[trigger] row_holds(b1[r]@, a, k) ==> row_holds(b2[r]@, a, k),
    ensures
        follows(base, b2, k),
{
    assert forall|a: Seq<bool>| a.len() == k && #[trigger] rows_hold(base, a, k) implies rows_hold(b2, a, k) by {
        assert(rows_hold(b1, a, k));
        assert(row_holds(b1[r]@, a, k));
        assert forall|q: int| 0 <= q < b2.len() implies #[trigger] row_holds(b2[q]@, a, k) by {
            if q != r {
                assert(row_holds(b1[q]@, a, k));
            }
        }
    }
}


/// One in parts per billion.
pub const PPB: u64 = 1_000_000_000;

/// Row `row` (over `k` cells) can be read for bounds: it has a non-zero
/// coefficient and neither the sum of its positive coefficients nor that of
/// its negative ones overflows.
pub open spec fn readable(row: Seq<i128>, k: nat) -> bool {
    &&& exists|u: int| 0 <= u < k && #[trigger] row[u] != 0
    &&& pos_sum(row, k) <= i128::MAX
    &&& neg_sum(row, k) >= i128::MIN
}

/// Row `row` settles cell `c` as safe: its positive coefficients add up to
/// its right-hand side and `c`'s is negative, or its negative ones do and
/// `c`'s is positive.
pub open spec fn row_settles_safe(row: Seq<i128>, k: nat, c: int) -> bool {
    readable(row, k) && ((pos_sum(row, k) == row[k as int] && row[c] < 0) || (neg_sum(row, k) == row[k as int] && row[c] > 0))
}

/// Row `row` settles cell `c` as a mine: its positive coefficients add up
/// to its right-hand side and `c`'s is positive, or its negative ones do and
/// `c`'s is negative.
pub open spec fn row_settles_mine(row: Seq<i128>, k: nat, c: int) -> bool {
    readable(row, k) && ((pos_sum(row, k) == row[k as int] && row[c] > 0) || (neg_sum(row, k) == row[k as int] && row[c] < 0))
}

/// Some row before `upto` settles cell `c` as safe.
pub open spec fn bound_safe(rows: Seq<Vec<i128>>, k: nat, c: int, upto: int) -> bool {
    exists|q: int| 0 <= q < upto && #[trigger] row_settles_safe(rows[q]@, k, c)
}

/// Some row before `upto` settles cell `c` as a mine.
pub open spec fn bound_mine(rows: Seq<Vec<i128>>, k: nat, c: int, upto: int) -> bool {
    exists|q: int| 0 <= q < upto && #[trigger] row_settles_mine(rows[q]@, k, c)
}

/// What the rows settle: where the positive coefficients of a row add up to
/// its right-hand side, every cell with a positive coefficient holds a mine
/// and every cell with a negative one is safe; where the negative ones do,
/// the other way round. Rows whose sums would overflow are passed over.
pub fn bound_analysis(rows: &Vec<Vec<i128>>, k: usize) -> (r: (Vec<bool>, Vec<bool>))
    requires
        shaped(rows@, k as nat),
    ensures
        r.0@.len() == k,
        r.1@.len() == k,
        forall|c: int| 0 <= c < k ==> (#[trigger] r.0@[c] <==> bound_safe(rows@, k as nat, c, rows@.len() as int)),
        forall|c: int| 0 <= c < k ==> (#[trigger] r.1@[c] <==> bound_mine(rows@, k as nat, c, rows@.len() as int)),
        forall|a: Seq<bool>| a.len() == k && #[trigger] rows_hold(rows@, a, k as nat) ==> forall|c: int|
            0 <= c < k ==> (r.0@[c] ==> !a[c]) && (r.1@[c] ==> a[c]),
{
    let mut safe: Vec<bool> = Vec::new();
    let mut mines: Vec<bool> = Vec::new();
    let mut c: usize = 0;
    while c < k
        invariant
            c <= k,
            safe@.len() == c,
            mines@.len() == c,
            forall|u: int| 0 <= u < c ==> !(#[trigger] safe@[u]) && !mines@[u],
        decreases k - c,
    {
        safe.push(false);
        mines.push(false);
        c = c + 1;
    }
    proof {
        assert forall|c: int| 0 <= c < k implies (#[trigger] safe@[c] <==> bound_safe(rows@, k as nat, c, 0)) by {
            assert(!safe@[c]);
        }
        assert forall|c: int| 0 <= c < k implies (#[trigger] mines@[c] <==> bound_mine(rows@, k as nat, c, 0)) by {
            assert(!safe@[c] && !mines@[c]);
        }
    }
    let mut q: usize = 0;
    while q < rows.len()
        invariant
            q <= rows@.len(),
            shaped(rows@, k as nat),
            safe@.len() == k,
            mines@.len() == k,
            forall|c: int| 0 <= c < k ==> (#[trigger] safe@[c] <==> bound_safe(rows@, k as nat, c, q as int)),
            forall|c: int| 0 <= c < k ==> (#[trigger] mines@[c] <==> bound_mine(rows@, k as nat, c, q as int)),
            forall|a: Seq<bool>| a.len() == k && #[trigger] rows_hold(rows@, a, k as nat) ==> forall|c: int|
                0 <= c < k ==> (safe@[c] ==> !a[c]) && (mines@[c] ==> a[c]),
        decreases rows@.len() - q,
    {
        let row = &rows[q];
        let ghost rw = row@;
        let ghost s0 = safe@;
        let ghost m0 = mines@;
        proof {
            assert(row@.len() == k + 1);
        }
        let mut pos: i128 = 0;
        let mut neg: i128 = 0;
        let mut any = false;
        let mut overflow = false;
        let mut t: usize = 0;
        while t < k
            invariant
                t <= k,
                row@.len() == k + 1,
                !overflow ==> pos == pos_sum(row@, t as nat) && neg == neg_sum(row@, t as nat),
                overflow <==> !(pos_sum(row@, t as nat) <= i128::MAX && neg_sum(row@, t as nat) >= i128::MIN),
                any == exists|u: int| 0 <= u < t && #[trigger] row@[u] != 0,
            decreases k - t,
        {
            let v = row[t];
            if v != 0 {
                any = true;
            }
            if v > 0 {
                match pos.checked_add(v) {
                    Some(s) => pos = s,
                    None => overflow = true,
                }
            } else if v < 0 {
                match neg.checked_add(v) {
                    Some(s) => neg = s,
                    None => overflow = true,
                }
            }
            t = t + 1;
        }
        let rhs = row[k];
        let ok = any && !overflow;
        proof {
            assert(ok == readable(rw, k as nat));
        }
        let up = ok && pos == rhs;
        let down = ok && neg == rhs;
        if up {
            let mut t: usize = 0;
            while t < k
                invariant
                    t <= k,
                    rw.len() == k + 1,
                    row@ == rw,
                    safe@.len() == k,
                    mines@.len() == k,
                    s0.len() == k,
                    m0.len() == k,
                    forall|u: int| 0 <= u < k ==> (#[trigger] safe@[u] == (s0[u] || (u < t && rw[u] < 0))),
                    forall|u: int| 0 <= u < k ==> (#[trigger] mines@[u] == (m0[u] || (u < t && rw[u] > 0))),
                decreases k - t,
            {
                if row[t] > 0 {
                    mines.set(t, true);
                } else if row[t] < 0 {
                    safe.set(t, true);
                }
                t = t + 1;
            }
        }
        let ghost s1 = safe@;
        let ghost m1 = mines@;
        if down {
            let mut t: usize = 0;
            while t < k
                invariant
                    t <= k,
                    rw.len() == k + 1,
                    row@ == rw,
                    safe@.len() == k,
                    mines@.len() == k,
                    s1.len() == k,
                    m1.len() == k,
                    forall|u: int| 0 <= u < k ==> (#[trigger] safe@[u] == (s1[u] || (u < t && rw[u] > 0))),
                    forall|u: int| 0 <= u < k ==> (#[trigger] mines@[u] == (m1[u] || (u < t && rw[u] < 0))),
                decreases k - t,
            {
                if row[t] > 0 {
                    safe.set(t, true);
                } else if row[t] < 0 {
                    mines.set(t, true);
                }
                t = t + 1;
            }
        }
        proof {
            assert forall|c: int| 0 <= c < k implies (#[trigger] safe@[c] <==> bound_safe(rows@, k as nat, c, q + 1)) by {
                assert(safe@[c] == (s0[c] || (up && rw[c] < 0) || (down && rw[c] > 0)));
                assert((up && rw[c] < 0) || (down && rw[c] > 0) <==> row_settles_safe(rw, k as nat, c));
                if bound_safe(rows@, k as nat, c, q + 1) {
                    let q2 = choose|q2: int| 0 <= q2 < q + 1 && #[trigger] row_settles_safe(rows@[q2]@, k as nat, c);
                    if q2 < q {
                        assert(bound_safe(rows@, k as nat, c, q as int));
                    }
                }
                if bound_safe(rows@, k as nat, c, q as int) {
                    let q2 = choose|q2: int| 0 <= q2 < q && #[trigger] row_settles_safe(rows@[q2]@, k as nat, c);
                    assert(row_settles_safe(rows@[q2]@, k as nat, c));
                }
                if row_settles_safe(rw, k as nat, c) {
                    assert(row_settles_safe(rows@[q as int]@, k as nat, c));
                }
            }
            assert forall|c: int| 0 <= c < k implies (#[trigger] mines@[c] <==> bound_mine(rows@, k as nat, c, q + 1)) by {
                assert(mines@[c] == (m0[c] || (up && rw[c] > 0) || (down && rw[c] < 0)));
                assert((up && rw[c] > 0) || (down && rw[c] < 0) <==> row_settles_mine(rw, k as nat, c));
                if bound_mine(rows@, k as nat, c, q + 1) {
                    let q2 = choose|q2: int| 0 <= q2 < q + 1 && #[trigger] row_settles_mine(rows@[q2]@, k as nat, c);
                    if q2 < q {
                        assert(bound_mine(rows@, k as nat, c, q as int));
                    }
                }
                if bound_mine(rows@, k as nat, c, q as int) {
                    let q2 = choose|q2: int| 0 <= q2 < q && #[trigger] row_settles_mine(rows@[q2]@, k as nat, c);
                    assert(row_settles_mine(rows@[q2]@, k as nat, c));
                }
                if row_settles_mine(rw, k as nat, c) {
                    assert(row_settles_mine(rows@[q as int]@, k as nat, c));
                }
            }
            assert forall|a: Seq<bool>| a.len() == k && #[trigger] rows_hold(rows@, a, k as nat) implies forall|c: int|
                0 <= c < k ==> (safe@[c] ==> !a[c]) && (mines@[c] ==> a[c]) by {
                assert(row_holds(rows@[q as int]@, a, k as nat));
                lemma_dot_bounds(rw, a, k as nat);
                assert forall|c: int| 0 <= c < k implies (safe@[c] ==> !a[c]) && (mines@[c] ==> a[c]) by {
                    assert(safe@[c] == (s0[c] || (up && rw[c] < 0) || (down && rw[c] > 0)));
                    assert(mines@[c] == (m0[c] || (up && rw[c] > 0) || (down && rw[c] < 0)));
                }
            }
        }
        q = q + 1;
    }
    (safe, mines)
}

/// The first non-zero coefficient of `row` from column `from` on (before
/// column `k`), or 1 when there is none.
pub open spec fn first_nonzero(row: Seq<i128>, from: int, k: int) -> int
    decreases k - from,
{
    if from >= k {
        1
    } else if row[from] != 0 {
        row[from] as int
    } else {
        first_nonzero(row, from + 1, k)
    }
}

/// The chance of a mine that a reduced row suggests for column `col`, in
/// parts per billion: none when the column is not in the row or the row's
/// right-hand side does not lie between 0 and its first coefficient; 0 when
/// the right-hand side is 0 or of the other sign than the column's
/// coefficient; otherwise the right-hand side over the coefficient (in
/// magnitude), at most one billion; none when that product overflows.
pub open spec fn row_suggestion(row: Seq<i128>, k: int, col: int) -> Option<int> {
    let coeff = row[col] as int;
    let rhs = row[k] as int;
    let s = first_nonzero(row, 0, k);
    let ar = if rhs < 0 { -rhs } else { rhs };
    let ac = if coeff < 0 { -coeff } else { coeff };
    if coeff == 0 {
        None
    } else if !(if s > 0 { 0 <= rhs <= s } else { s <= rhs <= 0 }) {
        None
    } else if rhs == 0 || (rhs > 0) != (coeff > 0) {
        Some(0)
    } else if ar >= ac {
        Some(PPB as int)
    } else if ar * PPB > u128::MAX {
        None
    } else {
        Some((ar * PPB) / ac)
    }
}

/// The suggestion for column `col` of the first row from `q` on that makes one.
pub open spec fn first_suggestion(rows: Seq<Vec<i128>>, k: int, col: int, q: int) -> Option<int>
    decreases rows.len() - q,
{
    if q >= rows.len() {
        None
    } else {
        match row_suggestion(rows[q]@, k, col) {
            Some(v) => Some(v),
            None => first_suggestion(rows, k, col, q + 1),
        }
    }
}

/// The estimate of an unsettled column: the first row's suggestion, or 0.3
/// without one, held between one and ninety-nine hundredths.
pub open spec fn column_estimate(rows: Seq<Vec<i128>>, k: int, col: int) -> int {
    let e = match first_suggestion(rows, k, col, 0) {
        Some(v) => v,
        None => 300_000_000,
    };
    if e < 10_000_000 { 10_000_000 } else if e > 990_000_000 { 990_000_000 } else { e }
}

/// The first non-zero coefficient of a row, or 1 when it has none.
fn row_scale(row: &Vec<i128>, k: usize) -> (s: i128)
    requires
        row@.len() == k + 1,
    ensures
        s != 0,
        s == first_nonzero(row@, 0, k as int),
{
    let mut t: usize = 0;
    while t < k
        invariant
            t <= k,
            row@.len() == k + 1,
            first_nonzero(row@, 0, k as int) == first_nonzero(row@, t as int, k as int),
        decreases k - t,
    {
        if row[t] != 0 {
            return row[t];
        }
        t = t + 1;
    }
    1
}

/// `v` held between `lo` and `hi`.
pub fn clamp_u64(v: u64, lo: u64, hi: u64) -> (r: u64)
    requires
        lo <= hi,
    ensures
        r == if v < lo { lo } else if v > hi { hi } else { v },
{
    if v < lo {
        lo
    } else if v > hi {
        hi
    } else {
        v
    }
}

/// The estimate a row gives for a column: its right-hand side over the
/// column's coefficient, in parts per billion, where the right-hand side over
/// the row's first coefficient lies between 0 and 1; `None` otherwise.
fn row_estimate(row: &Vec<i128>, k: usize, col: usize) -> (e: Option<u64>)
    requires
        row@.len() == k + 1,
        col < k,
    ensures
        match e {
            Some(v) => row_suggestion(row@, k as int, col as int) == Some(v as int),
            None => row_suggestion(row@, k as int, col as int) is None,
        },
{
    let coeff = row[col];
    if coeff == 0 {
        return None;
    }
    let rhs = row[k];
    let s = row_scale(row, k);
    let in_range = if s > 0 { 0 <= rhs && rhs <= s } else { s <= rhs && rhs <= 0 };
    if !in_range {
        return None;
    }
    if rhs == 0 {
        return Some(0);
    }
    if (rhs > 0) != (coeff > 0) {
        return Some(0);
    }
    let ar = abs_u128(rhs);
    let ac = abs_u128(coeff);
    if ar >= ac {
        return Some(PPB);
    }
    proof {
        let a = ar as int;
        let c = ac as int;
        assert((a * PPB) / c <= PPB) by (nonlinear_arith)
            requires 0 <= a < c;
    }
    match ar.checked_mul(PPB as u128) {
        Some(x) => {
            let qv = x / ac;
            if qv <= PPB as u128 {
                Some(qv as u64)
            } else {
                Some(PPB)
            }
        }
        None => None,
    }
}

/// Per column, the estimated chance of a mine in parts per billion: 0 for a
/// settled safe cell, one billion for a settled mine, and otherwise the
/// estimate of the first row that gives one (0.3 when none does), held
/// between one and ninety-nine hundredths.
pub fn column_estimates(rows: &Vec<Vec<i128>>, k: usize, safe: &Vec<bool>, mines: &Vec<bool>) -> (est: Vec<u64>)
    requires
        shaped(rows@, k as nat),
        safe@.len() == k,
        mines@.len() == k,
    ensures
        est@.len() == k,
        forall|c: int| 0 <= c < k ==> #[trigger] est@[c] == if safe@[c] { 0 } else if mines@[c] { PPB as int } else { column_estimate(rows@, k as int, c) },
        forall|c: int| 0 <= c < k && !safe@[c] && !mines@[c] ==> 10_000_000 <= #[trigger] est@[c] <= 990_000_000,
{
    let mut est: Vec<u64> = Vec::new();
    let mut c: usize = 0;
    while c < k
        invariant
            c <= k,
            shaped(rows@, k as nat),
            safe@.len() == k,
            mines@.len() == k,
            est@.len() == c,
            forall|u: int| 0 <= u < c ==> #[trigger] est@[u] == if safe@[u] { 0 } else if mines@[u] { PPB as int } else { column_estimate(rows@, k as int, u) },
            forall|u: int| 0 <= u < c && !safe@[u] && !mines@[u] ==> 10_000_000 <= #[trigger] est@[u] <= 990_000_000,
        decreases k - c,
    {
        if safe[c] {
            est.push(0);
        } else if mines[c] {
            est.push(PPB);
        } else {
            let mut e: u64 = 300_000_000;
            let mut q: usize = 0;
            let mut found = false;
            while q < rows.len() && !found
                invariant
                    q <= rows@.len(),
                    shaped(rows@, k as nat),
                    c < k,
                    !found ==> e == 300_000_000 && first_suggestion(rows@, k as int, c as int, 0) == first_suggestion(rows@, k as int, c as int, q as int),
                    found ==> first_suggestion(rows@, k as int, c as int, 0) == Some(e as int),
                decreases rows@.len() - q, if found { 0int } else { 1int },
            {
                proof {
                    assert(rows@[q as int]@.len() == k + 1);
                }
                match row_estimate(&rows[q], k, c) {
                    Some(v) => {
                        e = v;
                        found = true;
                    }
                    None => {
                        q = q + 1;
                    }
                }
            }
            est.push(clamp_u64(e, 10_000_000, 990_000_000));
        }
        c = c + 1;
    }
    est
}

} // verus!
