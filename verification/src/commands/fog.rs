//! Which corners of a cell the fog of war covers.
use vstd::prelude::*;

verus! {

/// Per-cell fog of a `width` by `height` map, row by row from the south.
pub struct FogGrid {
    width: usize,
    height: usize,
    fog: Vec<bool>,
}

impl FogGrid {
    pub closed spec fn spec_width(&self) -> int {
        self.width as int
    }

    pub closed spec fn spec_height(&self) -> int {
        self.height as int
    }

    pub closed spec fn spec_fog(&self) -> Seq<bool> {
        self.fog@
    }

    /// The cell is on the map and fogged.
    pub open spec fn fogged(&self, x: int, z: int) -> bool {
        0 <= x < self.spec_width() && 0 <= z < self.spec_height() && self.spec_fog()[z * self.spec_width() + x]
    }

    /// A grid whose fog list does not have one entry per cell is refused.
    pub fn new(width: usize, height: usize, fog: Vec<bool>) -> (r: Option<Self>)
        ensures
            r is Some <==> fog@.len() == width * height,
            r matches Some(g) ==> g.spec_width() == width && g.spec_height() == height && g.spec_fog() == fog@,
    {
        let len = fog.len();
        match width.checked_mul(height) {
            Some(n) => {
                if fog.len() == n {
                    Some(FogGrid { width, height, fog })
                } else {
                    None
                }
            },
            None => {
                proof {
                    assert(len == fog@.len());
                }
                None
            },
        }
    }

    /// Whether any cell is fogged.
    pub fn any_fog(&self) -> (r: bool)
        ensures
            r == exists|i: int| 0 <= i < self.spec_fog().len() && self.spec_fog()[i],
    {
        let mut i: usize = 0;
        while i < self.fog.len()
            invariant
                i <= self.fog@.len(),
                forall|j: int| 0 <= j < i ==> !self.fog@[j],
            decreases self.fog.len() - i,
        {
            if self.fog[i] {
                proof {
                    assert(self.fog@[i as int]);
                    assert(self.spec_fog()[i as int]);
                }
                return true;
            }
            i += 1;
        }
        false
    }

    /// Whether the cell at `(x, z)` is on the map and fogged.
    pub fn fogged_at(&self, x: i32, z: i32) -> (r: bool)
        requires
            self.spec_fog().len() == self.spec_width() * self.spec_height(),
        ensures
            r == self.fogged(x as int, z as int),
    {
        if x < 0 || z < 0 {
            return false;
        }
        let len = self.fog.len();
        let xu = x as usize;
        let zu = z as usize;
        if xu >= self.width || zu >= self.height {
            return false;
        }
        proof {
            assert(zu * self.width + xu < self.width * self.height) by (nonlinear_arith)
                requires
                    xu < self.width,
                    zu < self.height,
            ;
            assert(len == self.fog@.len());
            assert(zu * self.width <= zu * self.width + xu);
        }
        self.fog[zu * self.width + xu]
    }

    /// Which of a cell's nine mesh vertices fog covers. The vertices run
    /// round the cell from the south edge's middle: south, south-west, west,
    /// north-west, north, north-east, east, south-east, then the centre. A
    /// fogged cell is covered whole; otherwise fog on a side covers that
    /// side's three vertices, and fog on a corner that corner's vertex.
    pub open spec fn covered(&self, x: int, z: int, v: int) -> bool {
        self.fogged(x, z) || if v == 0 {
            self.fogged(x, z - 1) || self.fogged(x - 1, z) || self.fogged(x - 1, z - 1)
        } else if v == 1 {
            self.fogged(x - 1, z)
        } else if v == 2 {
            self.fogged(x, z + 1) || self.fogged(x - 1, z) || self.fogged(x - 1, z + 1)
        } else if v == 3 {
            self.fogged(x, z + 1)
        } else if v == 4 {
            self.fogged(x, z + 1) || self.fogged(x + 1, z) || self.fogged(x + 1, z + 1)
        } else if v == 5 {
            self.fogged(x + 1, z)
        } else if v == 6 {
            self.fogged(x, z - 1) || self.fogged(x + 1, z) || self.fogged(x + 1, z - 1)
        } else if v == 7 {
            self.fogged(x, z - 1)
        } else {
            false
        }
    }

    /// The fog cover of each of the cell's nine vertices.
    pub fn fog_covered_vertices(&self, x: usize, z: usize) -> (r: [bool; 9])
        requires
            self.spec_fog().len() == self.spec_width() * self.spec_height(),
            x < self.spec_width() <= i32::MAX,
            z < self.spec_height() <= i32::MAX,
        ensures
            forall|v: int| 0 <= v < 9 ==> r@[v] == self.covered(x as int, z as int, v),
    {
        let xi = x as i32;
        let zi = z as i32;
        if self.fogged_at(xi, zi) {
            return [true; 9];
        }
        let n = self.fogged_at(xi, zi + 1);
        let s = self.fogged_at(xi, zi - 1);
        let e = self.fogged_at(xi + 1, zi);
        let w = self.fogged_at(xi - 1, zi);
        let sw = self.fogged_at(xi - 1, zi - 1);
        let nw = self.fogged_at(xi - 1, zi + 1);
        let ne = self.fogged_at(xi + 1, zi + 1);
        let se = self.fogged_at(xi + 1, zi - 1);
        [s || w || sw, w, n || w || nw, n, n || e || ne, e, s || e || se, s, false]
    }
}

} // verus!
