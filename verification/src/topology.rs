//! The 3D Möbius-strip grid: coordinates, linear indexing and the
//! 26-neighbourhood with the X-seam that inverts Y and Z.
use vstd::prelude::*;
use vstd::arithmetic::div_mod::lemma_fundamental_div_mod_converse;

verus! {

/// A cell position on the grid.
#[derive(Debug, Clone, Copy, PartialEq, Eq, Hash, Structural)]
pub struct Coord3D {
    pub x: usize,
    pub y: usize,
    pub z: usize,
}

/// Linear index of `(x, y, z)` in a grid of the given width and height.
pub open spec fn index_of(x: int, y: int, z: int, width: int, height: int) -> int {
    z * (width * height) + y * width + x
}

/// The coordinate stored at a linear index.
pub open spec fn coord_of(index: int, width: int, height: int) -> Coord3D {
    let area = width * height;
    let rem = index % area;
    Coord3D { x: (rem % width) as usize, y: (rem / width) as usize, z: (index / area) as usize }
}

impl Coord3D {
    pub fn new(x: usize, y: usize, z: usize) -> (c: Self)
        ensures
            c == (Coord3D { x, y, z }),
    {
        Coord3D { x, y, z }
    }

    pub open spec fn index(self, width: int, height: int) -> int {
        index_of(self.x as int, self.y as int, self.z as int, width, height)
    }

    /// Coordinates that can take a step of -1, 0 or +1 in 32-bit signed arithmetic.
    pub open spec fn fits_i32(self) -> bool {
        &&& self.x < i32::MAX
        &&& self.y < i32::MAX
        &&& self.z < i32::MAX
    }

    pub fn to_index(&self, width: usize, height: usize) -> (idx: usize)
        requires
            width * height <= usize::MAX,
            self.index(width as int, height as int) <= usize::MAX,
        ensures
            idx == self.index(width as int, height as int),
    {
        let area = width * height;
        assert(self.z * area >= 0 && self.y * width >= 0) by (nonlinear_arith);
        self.z * area + self.y * width + self.x
    }

    pub fn neighbors_26(&self, dims: Dimensions) -> (v: Vec<Coord3D>)
        requires
            dims.fits_i32(),
            self.fits_i32(),
        ensures
            v@ == dims.neighbor_list(*self),
    {
        dims.get_neighbors(*self)
    }

    pub fn from_index(index: usize, width: usize, height: usize) -> (c: Self)
        requires
            0 < width * height <= usize::MAX,
        ensures
            c == coord_of(index as int, width as int, height as int),
    {
        let area = width * height;
        assert(width > 0) by (nonlinear_arith)
            requires 0 < width * height, width >= 0, height >= 0;
        let z = index / area;
        let rem = index % area;
        let y = rem / width;
        let x = rem % width;
        Coord3D { x, y, z }
    }
}

/// Converting a coordinate inside the width and height to its index and back
/// gives the coordinate again.
pub proof fn lemma_index_round_trip(c: Coord3D, width: int, height: int)
    requires
        width > 0,
        height > 0,
        c.x < width,
        c.y < height,
    ensures
        coord_of(c.index(width, height), width, height) == c,
{
    let a = width * height;
    let r = c.y * width + c.x;
    assert(0 <= r < a) by (nonlinear_arith)
        requires 0 <= c.x < width, 0 <= c.y < height, a == width * height, r == c.y * width + c.x;
    assert(c.index(width, height) == c.z * a + r);
    lemma_fundamental_div_mod_converse(c.index(width, height), a, c.z as int, r);
    lemma_fundamental_div_mod_converse(r, width, c.y as int, c.x as int);
}

/// Converting an index to its coordinate and back gives the index again; the
/// coordinate lies inside the width and height, and inside the depth when the
/// index is below the number of cells.
pub proof fn lemma_coord_round_trip(index: int, width: int, height: int, depth: int)
    requires
        width > 0,
        height > 0,
        width <= usize::MAX,
        height <= usize::MAX,
        0 <= index <= usize::MAX,
    ensures
        coord_of(index, width, height).index(width, height) == index,
        coord_of(index, width, height).x < width,
        coord_of(index, width, height).y < height,
        index < width * height * depth ==> coord_of(index, width, height).z < depth,
{
    let a = width * height;
    assert(a > 0) by (nonlinear_arith) requires width > 0, height > 0, a == width * height;
    let q = index / a;
    let r = index % a;
    vstd::arithmetic::div_mod::lemma_fundamental_div_mod(index, a);
    assert(0 <= r < a);
    assert(0 <= q <= index) by (nonlinear_arith) requires a > 0, index >= 0, q == index / a;
    vstd::arithmetic::div_mod::lemma_fundamental_div_mod(r, width);
    let y = r / width;
    let x = r % width;
    assert(0 <= x < width);
    assert(0 <= y < height) by (nonlinear_arith)
        requires 0 <= r < a, a == width * height, width > 0, y == r / width;
    assert(q * a == a * q) by (nonlinear_arith);
    assert(y * width == width * y) by (nonlinear_arith);
    let c = coord_of(index, width, height);
    assert(c.x == x && c.y == y && c.z == q);
    if index < width * height * depth {
        assert(q < depth) by (nonlinear_arith)
            requires index < width * height * depth, a == width * height, a > 0, q == index / a, index >= 0;
    }
}

/// Width, height and depth of the grid.
#[derive(Debug, Clone, Copy, PartialEq, Eq, Structural)]
pub struct Dimensions {
    pub width: usize,
    pub height: usize,
    pub depth: usize,
}

impl Dimensions {
    pub fn new(width: usize, height: usize, depth: usize) -> (d: Self)
        ensures
            d == (Dimensions { width, height, depth }),
    {
        Dimensions { width, height, depth }
    }

    pub open spec fn total(self) -> int {
        self.width * self.height * self.depth
    }

    /// The cell count, and the area of one layer, fit a `usize`.
    pub open spec fn fits_usize(self) -> bool {
        &&& self.width * self.height <= usize::MAX
        &&& self.total() <= usize::MAX
    }

    /// Every dimension is a non-negative 32-bit signed value.
    pub open spec fn fits_i32(self) -> bool {
        &&& self.width <= i32::MAX
        &&& self.height <= i32::MAX
        &&& self.depth <= i32::MAX
    }

    pub open spec fn valid(self, c: Coord3D) -> bool {
        c.x < self.width && c.y < self.height && c.z < self.depth
    }

    pub fn total_cells(&self) -> (n: usize)
        requires
            self.fits_usize(),
        ensures
            n == self.total(),
    {
        self.width * self.height * self.depth
    }

    pub fn is_valid_coord(&self, coord: Coord3D) -> (b: bool)
        ensures
            b == self.valid(coord),
    {
        coord.x < self.width && coord.y < self.height && coord.z < self.depth
    }

    /// Where a step of `(dx, dy, dz)` from `base` lands. Crossing the right edge
    /// of X lands on column 0 and crossing the left edge lands on the last column,
    /// in both cases with Y and Z mirrored; Y and Z do not wrap, so a step that
    /// leaves them has no target.
    pub open spec fn step(self, base: Coord3D, dx: int, dy: int, dz: int) -> Option<Coord3D> {
        let tx = base.x + dx;
        let ty = base.y + dy;
        let tz = base.z + dz;
        let w = self.width as int;
        let h = self.height as int;
        let d = self.depth as int;
        let fx = if tx >= w { 0 } else if tx < 0 { w - 1 } else { tx };
        let fy = if tx >= w || tx < 0 { (h - 1) - ty } else { ty };
        let fz = if tx >= w || tx < 0 { (d - 1) - tz } else { tz };
        if 0 <= fy < h && 0 <= fz < d {
            Some(Coord3D { x: fx as usize, y: fy as usize, z: fz as usize })
        } else {
            None
        }
    }

    /// The step tried in position `k` (0 to 26) of the scan: X varies fastest,
    /// Z slowest, each over -1, 0, +1; position 13 is the null step.
    pub open spec fn scan_step(self, c: Coord3D, k: int) -> Option<Coord3D> {
        self.step(c, k % 3 - 1, (k / 3) % 3 - 1, k / 9 - 1)
    }

    /// The neighbours found by the first `k` positions of the scan, each kept once,
    /// in order of first appearance.
    pub open spec fn neighbor_prefix(self, c: Coord3D, k: nat) -> Seq<Coord3D>
        decreases k,
    {
        if k == 0 {
            Seq::empty()
        } else {
            let prev = self.neighbor_prefix(c, (k - 1) as nat);
            let j = k - 1;
            if j == 13 {
                prev
            } else {
                match self.scan_step(c, j) {
                    Some(m) => if prev.contains(m) {
                        prev
                    } else {
                        prev.push(m)
                    },
                    None => prev,
                }
            }
        }
    }

    /// The 26-neighbourhood of `c`, without repeats.
    pub open spec fn neighbor_list(self, c: Coord3D) -> Seq<Coord3D> {
        self.neighbor_prefix(c, 27)
    }

    /// `n` is among the neighbours of `c`.
    pub open spec fn is_neighbor(self, c: Coord3D, n: Coord3D) -> bool {
        self.neighbor_list(c).contains(n)
    }

    pub fn map_neighbor(&self, base: Coord3D, dx: i32, dy: i32, dz: i32) -> (r: Option<Coord3D>)
        requires
            self.fits_i32(),
            base.x <= i32::MAX,
            base.y <= i32::MAX,
            base.z <= i32::MAX,
            i32::MIN <= base.x + dx <= i32::MAX,
            i32::MIN <= base.y + dy <= i32::MAX,
            i32::MIN <= base.z + dz <= i32::MAX,
            (base.x + dx >= self.width || base.x + dx < 0) ==> {
                &&& i32::MIN <= (self.height - 1) - (base.y + dy) <= i32::MAX
                &&& i32::MIN <= (self.depth - 1) - (base.z + dz) <= i32::MAX
            },
        ensures
            r == self.step(base, dx as int, dy as int, dz as int),
    {
        let target_x = base.x as i32 + dx;
        let tentative_y = base.y as i32 + dy;
        let tentative_z = base.z as i32 + dz;

        let (final_x, final_y, final_z) = if target_x >= self.width as i32 {
            // The right edge: column 0, with Y and Z mirrored.
            (0i32, (self.height as i32 - 1) - tentative_y, (self.depth as i32 - 1) - tentative_z)
        } else if target_x < 0 {
            // The left edge: the last column, with Y and Z mirrored.
            (self.width as i32 - 1, (self.height as i32 - 1) - tentative_y, (self.depth as i32 - 1) - tentative_z)
        } else {
            (target_x, tentative_y, tentative_z)
        };

        if final_y >= 0 && (final_y as usize) < self.height && final_z >= 0 && (final_z as usize)
            < self.depth {
            Some(Coord3D { x: final_x as usize, y: final_y as usize, z: final_z as usize })
        } else {
            None
        }
    }

    /// The 26-neighbourhood of `coord` under the Möbius rules, each neighbour
    /// listed once (on small grids several steps can land on the same cell).
    pub fn get_neighbors(&self, coord: Coord3D) -> (v: Vec<Coord3D>)
        requires
            self.fits_i32(),
            coord.fits_i32(),
        ensures
            v@ == self.neighbor_list(coord),
    {
        let mut neighbors: Vec<Coord3D> = Vec::new();
        let mut k: usize = 0;
        while k < 27
            invariant
                k <= 27,
                self.fits_i32(),
                coord.fits_i32(),
                neighbors@ == self.neighbor_prefix(coord, k as nat),
            decreases 27 - k,
        {
            if k != 13 {
                let dx = (k % 3) as i32 - 1;
                let dy = ((k / 3) % 3) as i32 - 1;
                let dz = (k / 9) as i32 - 1;
                let mapped = self.map_neighbor(coord, dx, dy, dz);
                if let Some(m) = mapped {
                    if !contains_coord(&neighbors, m) {
                        neighbors.push(m);
                    }
                }
            }
            k = k + 1;
        }
        neighbors
    }
}

/// Position in the neighbour scan of the step `(dx, dy, dz)`.
pub open spec fn scan_position(dx: int, dy: int, dz: int) -> int {
    (dx + 1) + 3 * (dy + 1) + 9 * (dz + 1)
}

pub open spec fn unit(v: int) -> bool {
    -1 <= v <= 1
}

proof fn lemma_scan_position_steps(dx: int, dy: int, dz: int)
    requires
        unit(dx),
        unit(dy),
        unit(dz),
    ensures
        ({
            let k = scan_position(dx, dy, dz);
            &&& 0 <= k < 27
            &&& k % 3 - 1 == dx
            &&& (k / 3) % 3 - 1 == dy
            &&& k / 9 - 1 == dz
        }),
{
    let k = scan_position(dx, dy, dz);
    lemma_fundamental_div_mod_converse(k, 3, (dy + 1) + 3 * (dz + 1), dx + 1);
    lemma_fundamental_div_mod_converse(k / 3, 3, dz + 1, dy + 1);
    lemma_fundamental_div_mod_converse(k, 9, dz + 1, (dx + 1) + 3 * (dy + 1));
}

proof fn lemma_scan_steps_of_position(k: int)
    requires
        0 <= k < 27,
    ensures
        unit(k % 3 - 1),
        unit((k / 3) % 3 - 1),
        unit(k / 9 - 1),
        k == scan_position(k % 3 - 1, (k / 3) % 3 - 1, k / 9 - 1),
{
    vstd::arithmetic::div_mod::lemma_fundamental_div_mod(k, 3);
    vstd::arithmetic::div_mod::lemma_fundamental_div_mod(k / 3, 3);
    vstd::arithmetic::div_mod::lemma_fundamental_div_mod(k, 9);
    assert(0 <= k / 3 < 9);
    assert(k / 9 == (k / 3) / 3) by {
        lemma_fundamental_div_mod_converse(k, 9, (k / 3) / 3, (k % 3) + 3 * ((k / 3) % 3));
    }
}

impl Dimensions {
    /// The scan up to position `k` lists each target once, and lists exactly the
    /// targets of the non-null steps among the first `k`.
    pub proof fn lemma_neighbor_prefix(self, c: Coord3D, k: nat)
        requires
            k <= 27,
        ensures
            self.neighbor_prefix(c, k).no_duplicates(),
            self.neighbor_prefix(c, k).len() <= if k > 13 { k - 1 } else { k as int },
            forall|m: Coord3D|
                self.neighbor_prefix(c, k).contains(m) <==> exists|j: int|
                    0 <= j < k && j != 13 && #[trigger] self.scan_step(c, j) == Some(m),
        decreases k,
    {
        if k > 0 {
            self.lemma_neighbor_prefix(c, (k - 1) as nat);
            let prev = self.neighbor_prefix(c, (k - 1) as nat);
            let j = k - 1;
            assert forall|m: Coord3D|
                self.neighbor_prefix(c, k).contains(m) <==> exists|i: int|
                    0 <= i < k && i != 13 && #[trigger] self.scan_step(c, i) == Some(m) by {
                if self.neighbor_prefix(c, k).contains(m) {
                    if !prev.contains(m) {
                        assert(self.scan_step(c, j as int) == Some(m));
                    }
                }
                if exists|i: int| 0 <= i < k && i != 13 && #[trigger] self.scan_step(c, i) == Some(
                    m,
                ) {
                    let i = choose|i: int|
                        0 <= i < k && i != 13 && #[trigger] self.scan_step(c, i) == Some(m);
                    if i < j {
                        assert(prev.contains(m));
                        if j != 13 {
                            if let Some(mm) = self.scan_step(c, j as int) {
                                if !prev.contains(mm) {
                                    assert(prev.push(mm)[prev.index_of(m)] == m);
                                }
                            }
                        }
                    } else {
                        if !prev.contains(m) {
                            assert(self.neighbor_prefix(c, k).last() == m);
                        }
                    }
                }
            }
        }
    }

    /// A cell away from every edge has all 26 neighbours.
    pub proof fn lemma_interior_has_26(self, c: Coord3D)
        requires
            0 < c.x && c.x + 1 < self.width,
            0 < c.y && c.y + 1 < self.height,
            0 < c.z && c.z + 1 < self.depth,
        ensures
            self.neighbor_list(c).len() == 26,
    {
        self.lemma_interior_prefix(c, 27);
    }

    /// Away from the edges, every non-null step of the scan adds a new
    /// neighbour.
    proof fn lemma_interior_prefix(self, c: Coord3D, k: nat)
        requires
            0 < c.x && c.x + 1 < self.width,
            0 < c.y && c.y + 1 < self.height,
            0 < c.z && c.z + 1 < self.depth,
            k <= 27,
        ensures
            self.neighbor_prefix(c, k).len() == if k > 13 { k - 1 } else { k as int },
        decreases k,
    {
        if k > 0 {
            self.lemma_interior_prefix(c, (k - 1) as nat);
            let j = k - 1;
            if j != 13 {
                lemma_scan_steps_of_position(j);
                let m = Coord3D {
                    x: (c.x + (j % 3 - 1)) as usize,
                    y: (c.y + ((j / 3) % 3 - 1)) as usize,
                    z: (c.z + (j / 9 - 1)) as usize,
                };
                assert(self.scan_step(c, j) == Some(m));
                self.lemma_neighbor_prefix(c, (k - 1) as nat);
                let prev = self.neighbor_prefix(c, (k - 1) as nat);
                if prev.contains(m) {
                    let i = choose|i: int| 0 <= i < k - 1 && i != 13 && #[trigger] self.scan_step(c, i) == Some(m);
                    lemma_scan_steps_of_position(i);
                    assert(self.scan_step(c, i) == Some(Coord3D {
                        x: (c.x + (i % 3 - 1)) as usize,
                        y: (c.y + ((i / 3) % 3 - 1)) as usize,
                        z: (c.z + (i / 9 - 1)) as usize,
                    }));
                    assert(i % 3 == j % 3 && (i / 3) % 3 == (j / 3) % 3 && i / 9 == j / 9);
                    assert(false);
                }
            }
        }
    }

    /// A cell has at most 26 neighbours, each listed once.
    pub proof fn lemma_neighbor_count(self, c: Coord3D)
        ensures
            self.neighbor_list(c).len() <= 26,
            self.neighbor_list(c).no_duplicates(),
    {
        self.lemma_neighbor_prefix(c, 27);
    }

    /// Every neighbour of a coordinate lies on the grid.
    pub proof fn lemma_neighbors_valid(self, c: Coord3D)
        requires
            self.width >= 1,
        ensures
            forall|n: Coord3D| #[trigger] self.is_neighbor(c, n) ==> self.valid(n),
    {
        self.lemma_neighbor_prefix(c, 27);
        assert forall|n: Coord3D| #[trigger] self.is_neighbor(c, n) implies self.valid(n) by {
            let j = choose|j: int| 0 <= j < 27 && j != 13 && #[trigger] self.scan_step(c, j) == Some(n);
        }
    }

    /// Being neighbours is symmetric: if `n` is a neighbour of `c`, then `c` is a
    /// neighbour of `n`, also across the Möbius seam.
    pub proof fn lemma_neighbor_symmetric(self, c: Coord3D, n: Coord3D)
        requires
            self.valid(c),
            self.is_neighbor(c, n),
        ensures
            self.is_neighbor(n, c),
    {
        self.lemma_neighbor_prefix(c, 27);
        self.lemma_neighbor_prefix(n, 27);
        let j = choose|j: int| 0 <= j < 27 && j != 13 && #[trigger] self.scan_step(c, j) == Some(n);
        lemma_scan_steps_of_position(j);
        let dx = j % 3 - 1;
        let dy = (j / 3) % 3 - 1;
        let dz = j / 9 - 1;
        let tx = c.x + dx;
        let (ex, ey, ez) = if tx >= self.width {
            (-1, dy, dz)
        } else if tx < 0 {
            (1, dy, dz)
        } else {
            (-dx, -dy, -dz)
        };
        lemma_scan_position_steps(ex, ey, ez);
        let k = scan_position(ex, ey, ez);
        assert(k != 13);
        assert(self.scan_step(n, k) == Some(c));
    }
}

/// Whether `v` holds `c`.
pub fn contains_coord(v: &Vec<Coord3D>, c: Coord3D) -> (b: bool)
    ensures
        b == v@.contains(c),
{
    let mut i: usize = 0;
    while i < v.len()
        invariant
            i <= v.len(),
            forall|j: int| 0 <= j < i ==> v@[j] != c,
        decreases v.len() - i,
    {
        if v[i] == c {
            assert(v@[i as int] == c);
            return true;
        }
        i = i + 1;
    }
    false
}

} // verus!
