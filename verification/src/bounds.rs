//! Axis-aligned boxes on the integer grid of a point cloud.
//!
//! A point record stores its position as three integers; the header's scale
//! and offset turn them into world coordinates. All spatial decisions of the
//! library are taken on that grid, where they are exact.

use vstd::prelude::*;

verus! {

/// A closed axis-aligned box: both faces belong to it on every axis.
#[derive(Clone, Copy, Debug, PartialEq, Eq, Structural)]
pub struct Bounds {
    pub min_x: i64,
    pub min_y: i64,
    pub min_z: i64,
    pub max_x: i64,
    pub max_y: i64,
    pub max_z: i64,
}

impl Default for Bounds {
    /// The box that holds no point and that any `expand` replaces.
    fn default() -> (b: Bounds)
        ensures
            b == Bounds::spec_empty(),
    {
        Bounds {
            min_x: i64::MAX,
            min_y: i64::MAX,
            min_z: i64::MAX,
            max_x: i64::MIN,
            max_y: i64::MIN,
            max_z: i64::MIN,
        }
    }
}

impl Bounds {
    /// The box whose lower faces lie at the top of the grid and whose upper
    /// faces lie at its bottom.
    pub open spec fn spec_empty() -> Bounds {
        Bounds {
            min_x: i64::MAX,
            min_y: i64::MAX,
            min_z: i64::MAX,
            max_x: i64::MIN,
            max_y: i64::MIN,
            max_z: i64::MIN,
        }
    }

    /// No lower face lies above its upper face.
    pub open spec fn valid(self) -> bool {
        self.min_x <= self.max_x && self.min_y <= self.max_y && self.min_z <= self.max_z
    }

    /// The point lies in the box, faces included.
    pub open spec fn contains(self, x: int, y: int, z: int) -> bool {
        self.min_x <= x <= self.max_x && self.min_y <= y <= self.max_y && self.min_z <= z
            <= self.max_z
    }

    /// The two boxes overlap on every axis, faces included.
    pub open spec fn overlaps(self, r: Bounds) -> bool {
        &&& self.max_x >= r.min_x
        &&& self.max_y >= r.min_y
        &&& self.max_z >= r.min_z
        &&& self.min_x <= r.max_x
        &&& self.min_y <= r.max_y
        &&& self.min_z <= r.max_z
    }

    /// Every face of `self` lies within `outer`.
    pub open spec fn within(self, outer: Bounds) -> bool {
        &&& outer.min_x <= self.min_x
        &&& outer.min_y <= self.min_y
        &&& outer.min_z <= self.min_z
        &&& self.max_x <= outer.max_x
        &&& self.max_y <= outer.max_y
        &&& self.max_z <= outer.max_z
    }

    /// The smallest box whose faces lie beyond those of both.
    pub open spec fn join(self, r: Bounds) -> Bounds {
        Bounds {
            min_x: if r.min_x < self.min_x { r.min_x } else { self.min_x },
            min_y: if r.min_y < self.min_y { r.min_y } else { self.min_y },
            min_z: if r.min_z < self.min_z { r.min_z } else { self.min_z },
            max_x: if r.max_x > self.max_x { r.max_x } else { self.max_x },
            max_y: if r.max_y > self.max_y { r.max_y } else { self.max_y },
            max_z: if r.max_z > self.max_z { r.max_z } else { self.max_z },
        }
    }

    /// The box that holds exactly one point.
    pub open spec fn point(x: i64, y: i64, z: i64) -> Bounds {
        Bounds { min_x: x, min_y: y, min_z: z, max_x: x, max_y: y, max_z: z }
    }

    /// All three sides have the length of the side along x.
    pub open spec fn cubic(self) -> bool {
        &&& self.max_y - self.min_y == self.max_x - self.min_x
        &&& self.max_z - self.min_z == self.max_x - self.min_x
    }

    /// The longest of the three sides.
    pub open spec fn longest_side(self) -> int {
        let dx = self.max_x - self.min_x;
        let dy = self.max_y - self.min_y;
        let dz = self.max_z - self.min_z;
        if dx >= dy && dx >= dz {
            dx
        } else if dy >= dz {
            dy
        } else {
            dz
        }
    }

    /// The lower face of a side of length `side` centred on `[lo, hi]`, the
    /// centre rounded down to the grid.
    pub open spec fn centred_low(lo: int, hi: int, side: int) -> int {
        (lo + hi - side) / 2
    }

    pub fn new(min_x: i64, min_y: i64, min_z: i64, max_x: i64, max_y: i64, max_z: i64) -> (b:
        Bounds)
        ensures
            b == (Bounds { min_x, min_y, min_z, max_x, max_y, max_z }),
    {
        Bounds { min_x, min_y, min_z, max_x, max_y, max_z }
    }

    /// Makes the box empty again.
    pub fn reset(&mut self)
        ensures
            *final(self) == Bounds::spec_empty(),
    {
        self.min_x = i64::MAX;
        self.min_y = i64::MAX;
        self.min_z = i64::MAX;
        self.max_x = i64::MIN;
        self.max_y = i64::MIN;
        self.max_z = i64::MIN;
    }

    /// The smallest box around both.
    pub fn sum(a: Bounds, b: &Bounds) -> (r: Bounds)
        ensures
            r == a.join(*b),
    {
        let mut a = a;
        a.expand(b);
        a
    }

    /// Grows the box until it holds `r` too.
    pub fn expand(&mut self, r: &Bounds)
        ensures
            *final(self) == old(self).join(*r),
    {
        if r.min_x < self.min_x {
            self.min_x = r.min_x;
        }
        if r.min_y < self.min_y {
            self.min_y = r.min_y;
        }
        if r.min_z < self.min_z {
            self.min_z = r.min_z;
        }
        if r.max_x > self.max_x {
            self.max_x = r.max_x;
        }
        if r.max_y > self.max_y {
            self.max_y = r.max_y;
        }
        if r.max_z > self.max_z {
            self.max_z = r.max_z;
        }
    }

    /// Grows the box until it holds the point.
    pub fn expand_xyz(&mut self, x: i64, y: i64, z: i64)
        ensures
            *final(self) == old(self).join(Bounds::point(x, y, z)),
    {
        if x < self.min_x {
            self.min_x = x;
        }
        if y < self.min_y {
            self.min_y = y;
        }
        if z < self.min_z {
            self.min_z = z;
        }
        if x > self.max_x {
            self.max_x = x;
        }
        if y > self.max_y {
            self.max_y = y;
        }
        if z > self.max_z {
            self.max_z = z;
        }
    }

    /// Whether the two closed boxes share a point on every axis.
    pub fn intersects(&self, r: &Bounds) -> (hit: bool)
        ensures
            hit == self.overlaps(*r),
    {
        if self.max_x < r.min_x {
            return false;
        }
        if self.max_y < r.min_y {
            return false;
        }
        if self.max_z < r.min_z {
            return false;
        }
        if self.min_x > r.max_x {
            return false;
        }
        if self.min_y > r.max_y {
            return false;
        }
        if self.min_z > r.max_z {
            return false;
        }
        true
    }

    /// Whether the point lies in the closed box.
    pub fn contains_point(&self, x: i64, y: i64, z: i64) -> (inside: bool)
        ensures
            inside == self.contains(x as int, y as int, z as int),
    {
        !(self.max_x < x || self.max_y < y || self.max_z < z || self.min_x > x || self.min_y > y
            || self.min_z > z)
    }

    /// The cube around the box: each side as long as the longest side of
    /// the box, centred on the box. `None` where the cube leaves the grid.
    pub open spec fn spec_cube(self) -> Option<Bounds> {
        let side = self.longest_side();
        let lx = Bounds::centred_low(self.min_x as int, self.max_x as int, side);
        let ly = Bounds::centred_low(self.min_y as int, self.max_y as int, side);
        let lz = Bounds::centred_low(self.min_z as int, self.max_z as int, side);
        if i64::MIN <= lx && lx + side <= i64::MAX && i64::MIN <= ly && ly + side <= i64::MAX
            && i64::MIN <= lz && lz + side <= i64::MAX {
            Some(
                Bounds {
                    min_x: lx as i64,
                    min_y: ly as i64,
                    min_z: lz as i64,
                    max_x: (lx + side) as i64,
                    max_y: (ly + side) as i64,
                    max_z: (lz + side) as i64,
                },
            )
        } else {
            None
        }
    }

    /// The cube around the box; `None` where the cube leaves the grid.
    pub fn cube(&self) -> (r: Option<Bounds>)
        requires
            self.valid(),
        ensures
            r == self.spec_cube(),
            r is Some ==> r->0.valid() && r->0.cubic() && self.within(r->0),
    {
        let dx: i128 = self.max_x as i128 - self.min_x as i128;
        let dy: i128 = self.max_y as i128 - self.min_y as i128;
        let dz: i128 = self.max_z as i128 - self.min_z as i128;
        let side: i128 = if dx >= dy && dx >= dz {
            dx
        } else if dy >= dz {
            dy
        } else {
            dz
        };
        let lx: i128 = Self::low_face(self.min_x, self.max_x, side);
        let ly: i128 = Self::low_face(self.min_y, self.max_y, side);
        let lz: i128 = Self::low_face(self.min_z, self.max_z, side);
        if lx < i64::MIN as i128 || lx + side > i64::MAX as i128 || ly < i64::MIN as i128 || ly
            + side > i64::MAX as i128 || lz < i64::MIN as i128 || lz + side > i64::MAX as i128 {
            return None;
        }
        Some(
            Bounds {
                min_x: lx as i64,
                min_y: ly as i64,
                min_z: lz as i64,
                max_x: (lx + side) as i64,
                max_y: (ly + side) as i64,
                max_z: (lz + side) as i64,
            },
        )
    }

    fn low_face(lo: i64, hi: i64, side: i128) -> (r: i128)
        requires
            lo <= hi,
            hi - lo <= side < 0x1_0000_0000_0000_0000,
        ensures
            r == Bounds::centred_low(lo as int, hi as int, side as int),
            r <= lo,
            r + side >= hi,
    {
        let s: i128 = lo as i128 + hi as i128 - side;
        // Euclidean division rounds towards minus infinity for a positive divisor.
        if s >= 0 {
            s / 2
        } else {
            -((1 - s) / 2)
        }
    }
}

/// Two boxes intersect whichever of them is asked.
pub proof fn lemma_intersects_commutes(a: Bounds, b: Bounds)
    ensures
        a.overlaps(b) == b.overlaps(a),
{
}

/// A box whose lower faces are not above its upper faces intersects itself.
pub proof fn lemma_intersects_reflexive(a: Bounds)
    requires
        a.valid(),
    ensures
        a.overlaps(a),
{
}

/// What intersects a box intersects every box around it.
pub proof fn lemma_intersects_grows(a: Bounds, inner: Bounds, outer: Bounds)
    requires
        inner.within(outer),
        a.overlaps(inner),
    ensures
        a.overlaps(outer),
{
}

} // verus!
