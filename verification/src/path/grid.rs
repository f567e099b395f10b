use vstd::prelude::*;

verus! {

/// Row-major cell index of `(x, z)` in a grid `width` cells wide.
pub open spec fn cell_index(width: nat, x: int, z: int) -> int {
    z * width + x
}

/// Every in-range cell has an index inside the grid, and distinct in-range
/// cells have distinct indices.
pub proof fn lemma_cell_index(width: nat, height: nat, x: int, z: int)
    requires
        0 <= x < width,
        0 <= z < height,
    ensures
        0 <= cell_index(width, x, z) < width * height,
{
    assert(0 <= z * width) by (nonlinear_arith)
        requires
            0 <= z,
    ;
    assert(z * width + x < width * height) by (nonlinear_arith)
        requires
            0 <= x < width,
            0 <= z < height,
    ;
}

pub proof fn lemma_cell_index_injective(width: nat, x1: int, z1: int, x2: int, z2: int)
    requires
        0 <= x1 < width,
        0 <= x2 < width,
        0 <= z1,
        0 <= z2,
        cell_index(width, x1, z1) == cell_index(width, x2, z2),
    ensures
        x1 == x2,
        z1 == z2,
{
    if z1 < z2 {
        assert(z1 * width + width <= z2 * width) by (nonlinear_arith)
            requires
                z1 < z2,
        ;
    } else if z2 < z1 {
        assert(z2 * width + width <= z1 * width) by (nonlinear_arith)
            requires
                z2 < z1,
        ;
    }
}

/// Walkability grid used by the path finder. Cells outside the grid count
/// as blocked.
#[derive(Debug, Clone)]
pub struct PathGrid {
    width: usize,
    height: usize,
    blocked: Vec<bool>,
}

impl PathGrid {
    /// Width in cells.
    pub closed spec fn spec_width(&self) -> nat {
        self.width as nat
    }

    /// Height in cells.
    pub closed spec fn spec_height(&self) -> nat {
        self.height as nat
    }

    /// The grid's internal invariant: one flag per cell.
    pub closed spec fn wf(&self) -> bool {
        self.blocked@.len() == self.width * self.height
    }

    /// Bounds test exactly as the grid performs it: coordinates are compared
    /// against the dimensions converted to `i32`.
    pub open spec fn spec_in_bounds(&self, x: int, z: int) -> bool {
        &&& 0 <= x
        &&& 0 <= z
        &&& x < (self.spec_width() as i32) as int
        &&& z < (self.spec_height() as i32) as int
    }

    /// The stored flag of an in-bounds cell.
    pub closed spec fn spec_flag(&self, x: int, z: int) -> bool {
        self.blocked@[cell_index(self.width as nat, x, z)]
    }

    /// Out-of-bounds cells are blocked; in-bounds cells report their flag.
    pub open spec fn spec_blocked(&self, x: int, z: int) -> bool {
        !self.spec_in_bounds(x, z) || self.spec_flag(x, z)
    }

    /// A cell that is in bounds lies inside the grid's dimensions.
    pub proof fn lemma_in_bounds_within(&self, x: int, z: int)
        requires
            self.spec_in_bounds(x, z),
        ensures
            0 <= x < self.spec_width(),
            0 <= z < self.spec_height(),
            x + 1 <= i32::MAX,
            z + 1 <= i32::MAX,
    {
    }

    /// On a grid whose sides fit in `i32`, a cell is in bounds exactly when
    /// it lies inside the grid's width and height.
    pub proof fn lemma_in_bounds_iff(&self, x: int, z: int)
        requires
            self.spec_width() <= i32::MAX,
            self.spec_height() <= i32::MAX,
        ensures
            self.spec_in_bounds(x, z) <==> (0 <= x < self.spec_width() && 0 <= z < self.spec_height()),
    {
    }

    pub fn new(width: usize, height: usize) -> (grid: Self)
        requires
            width * height <= usize::MAX,
        ensures
            grid.wf(),
            grid.spec_width() == width,
            grid.spec_height() == height,
            width <= i32::MAX && height <= i32::MAX ==> forall|x: int, z: int|
                #[trigger] grid.spec_in_bounds(x, z) <==> (0 <= x < width && 0 <= z < height),
            forall|x: int, z: int| grid.spec_in_bounds(x, z) ==> !#[trigger] grid.spec_flag(x, z),
            forall|x: int, z: int| grid.spec_in_bounds(x, z) ==> !#[trigger] grid.spec_blocked(x, z),
    {
        let grid = PathGrid { width, height, blocked: vec![false; width * height] };
        assert forall|x: int, z: int| grid.spec_in_bounds(x, z) implies !#[trigger] grid.spec_flag(
            x,
            z,
        ) by {
            lemma_cell_index(width as nat, height as nat, x, z);
        }
        grid
    }

    /// Number of cells, one walkability flag each.
    pub(crate) fn cell_count(&self) -> (n: usize)
        requires
            self.wf(),
        ensures
            n == self.spec_width() * self.spec_height(),
    {
        self.blocked.len()
    }

    pub(crate) fn width(&self) -> (w: usize)
        ensures
            w == self.spec_width(),
    {
        self.width
    }

    pub fn in_bounds(&self, x: i32, z: i32) -> (r: bool)
        ensures
            r == self.spec_in_bounds(x as int, z as int),
    {
        x >= 0 && z >= 0 && x < self.width as i32 && z < self.height as i32
    }

    pub fn is_blocked(&self, x: i32, z: i32) -> (r: bool)
        requires
            self.wf(),
        ensures
            r == self.spec_blocked(x as int, z as int),
    {
        if !self.in_bounds(x, z) {
            return true;
        }
        let n = self.blocked.len();
        proof {
            lemma_cell_index(self.width as nat, self.height as nat, x as int, z as int);
        }
        self.blocked[z as usize * self.width + x as usize]
    }

    pub fn set_blocked(&mut self, x: i32, z: i32, blocked: bool)
        requires
            old(self).wf(),
        ensures
            final(self).wf(),
            final(self).spec_width() == old(self).spec_width(),
            final(self).spec_height() == old(self).spec_height(),
            forall|a: int, b: int|
                #![trigger final(self).spec_in_bounds(a, b)]
                final(self).spec_in_bounds(a, b) == old(self).spec_in_bounds(a, b),
            forall|a: int, b: int|
                #![trigger final(self).spec_flag(a, b)]
                old(self).spec_in_bounds(a, b) ==> final(self).spec_flag(a, b) == if a == x && b
                    == z {
                    blocked
                } else {
                    old(self).spec_flag(a, b)
                },
    {
        if !self.in_bounds(x, z) {
            return;
        }
        let n = self.blocked.len();
        proof {
            lemma_cell_index(self.width as nat, self.height as nat, x as int, z as int);
        }
        let idx = z as usize * self.width + x as usize;
        self.blocked.set(idx, blocked);
        proof {
            assert forall|a: int, b: int| old(self).spec_in_bounds(a, b) implies #[trigger] self.spec_flag(
                a,
                b,
            ) == if a == x && b == z {
                blocked
            } else {
                old(self).spec_flag(a, b)
            } by {
                lemma_cell_index(self.width as nat, self.height as nat, a, b);
                if cell_index(self.width as nat, a, b) == idx {
                    lemma_cell_index_injective(self.width as nat, a, b, x as int, z as int);
                }
            }
        }
    }
}

} // verus!
