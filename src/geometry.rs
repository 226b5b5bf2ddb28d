//! Axis-aligned regions of the two-dimensional integer lattice.
use vstd::prelude::*;

verus! {

/// One of the two lattice axes.
#[derive(Clone, Copy, PartialEq, Eq, Structural, Debug)]
pub enum Axis {
    I,
    J,
}

/// The region `[i0, i1) x [j0, j1)` of the lattice. Its points are ordered
/// row by row: `i` is the slow index and `j` the fast one.
#[derive(Clone, Copy, PartialEq, Eq, Structural, Debug)]
pub struct IndexSpace {
    pub i0: i64,
    pub i1: i64,
    pub j0: i64,
    pub j1: i64,
}

/// A rectangle is the region that identifies a patch; it is the same data as
/// an index space.
pub type Rectangle = IndexSpace;

/// Where a sub-rectangle sits inside a buffer shaped like a containing
/// rectangle: the offset of its first cell, the container's extent and the
/// sub-rectangle's own extent, per axis.
#[derive(Clone, Copy, Debug)]
pub struct MemoryRegion {
    pub start: (usize, usize),
    pub shape: (usize, usize),
    pub count: (usize, usize),
}

impl MemoryRegion {
    /// The region lies inside its container.
    pub open spec fn fits(self) -> bool {
        self.start.0 + self.count.0 <= self.shape.0 && self.start.1 + self.count.1 <= self.shape.1
    }
}

/// The index space `[i0, i1) x [j0, j1)`.
pub fn range2d(i0: i64, i1: i64, j0: i64, j1: i64) -> (r: IndexSpace)
    requires
        i0 <= i1,
        j0 <= j1,
        i1 - i0 <= usize::MAX,
        j1 - j0 <= usize::MAX,
        (i1 - i0) * (j1 - j0) <= usize::MAX,
    ensures
        r == (IndexSpace { i0, i1, j0, j1 }),
        r.wf(),
{
    IndexSpace { i0, i1, j0, j1 }
}

pub open spec fn min(a: int, b: int) -> int {
    if a <= b { a } else { b }
}

pub open spec fn max(a: int, b: int) -> int {
    if a >= b { a } else { b }
}

impl IndexSpace {
    /// Extent along the `i` axis.
    pub open spec fn ni(self) -> int {
        self.i1 - self.i0
    }

    /// Extent along the `j` axis.
    pub open spec fn nj(self) -> int {
        self.j1 - self.j0
    }

    /// Number of lattice points.
    pub open spec fn size(self) -> int {
        self.ni() * self.nj()
    }

    /// Non-negative extents, and a point count that a machine word holds.
    pub open spec fn wf(self) -> bool {
        &&& self.i0 <= self.i1
        &&& self.j0 <= self.j1
        &&& self.ni() <= usize::MAX
        &&& self.nj() <= usize::MAX
        &&& self.size() <= usize::MAX
    }

    pub open spec fn has(self, p: (int, int)) -> bool {
        self.i0 <= p.0 < self.i1 && self.j0 <= p.1 < self.j1
    }

    /// The position of point `p` in the row-by-row order.
    pub open spec fn offset(self, p: (int, int)) -> int {
        (p.0 - self.i0) * self.nj() + (p.1 - self.j0)
    }

    /// The `k`-th point in the row-by-row order.
    pub open spec fn point(self, k: int) -> (int, int) {
        (self.i0 + k / self.nj(), self.j0 + k % self.nj())
    }

    /// Every point of `other` is a point of `self`.
    pub open spec fn includes(self, other: IndexSpace) -> bool {
        self.i0 <= other.i0 && other.i1 <= self.i1 && self.j0 <= other.j0 && other.j1 <= self.j1
    }

    /// The common part of two regions, when it holds at least one point.
    pub open spec fn meet(self, other: IndexSpace) -> Option<IndexSpace> {
        let i0 = max(self.i0 as int, other.i0 as int);
        let i1 = min(self.i1 as int, other.i1 as int);
        let j0 = max(self.j0 as int, other.j0 as int);
        let j1 = min(self.j1 as int, other.j1 as int);
        if i0 < i1 && j0 < j1 {
            Some(IndexSpace { i0: i0 as i64, i1: i1 as i64, j0: j0 as i64, j1: j1 as i64 })
        } else {
            None
        }
    }

    pub open spec fn extended(self, n: int) -> IndexSpace {
        IndexSpace {
            i0: (self.i0 - n) as i64,
            i1: (self.i1 + n) as i64,
            j0: (self.j0 - n) as i64,
            j1: (self.j1 + n) as i64,
        }
    }

    /// The `n`-wide strip at the lower end of `axis`.
    pub open spec fn lower_strip(self, n: int, axis: Axis) -> IndexSpace {
        match axis {
            Axis::I => IndexSpace { i1: (self.i0 + n) as i64, ..self },
            Axis::J => IndexSpace { j1: (self.j0 + n) as i64, ..self },
        }
    }

    /// The `n`-wide strip at the upper end of `axis`.
    pub open spec fn upper_strip(self, n: int, axis: Axis) -> IndexSpace {
        match axis {
            Axis::I => IndexSpace { i0: (self.i1 - n) as i64, ..self },
            Axis::J => IndexSpace { j0: (self.j1 - n) as i64, ..self },
        }
    }

    /// Where `self` sits inside a buffer laid out over `container`.
    pub open spec fn region_in(self, container: IndexSpace) -> MemoryRegion {
        MemoryRegion {
            start: ((self.i0 - container.i0) as usize, (self.j0 - container.j0) as usize),
            shape: (container.ni() as usize, container.nj() as usize),
            count: (self.ni() as usize, self.nj() as usize),
        }
    }
}

impl IndexSpace {
    /// Number of lattice points.
    pub fn len(&self) -> (r: usize)
        requires
            self.wf(),
        ensures
            r == self.size(),
    {
        let ni = (self.i1 as i128 - self.i0 as i128) as usize;
        let nj = (self.j1 as i128 - self.j0 as i128) as usize;
        ni * nj
    }

    /// Whether every point of `other` is a point of `self`.
    pub fn contains_space(&self, other: &IndexSpace) -> (r: bool)
        ensures
            r == self.includes(*other),
    {
        self.i0 <= other.i0 && other.i1 <= self.i1 && self.j0 <= other.j0 && other.j1 <= self.j1
    }

    /// The overlap of two regions; `None` when they share no point.
    pub fn intersect(&self, other: &IndexSpace) -> (r: Option<IndexSpace>)
        requires
            self.wf(),
            other.wf(),
        ensures
            r == self.meet(*other),
            r matches Some(o) ==> o.wf() && self.includes(o) && other.includes(o),
            forall|p: (int, int)| #[trigger]
                self.has(p) && other.has(p) <==> (r matches Some(o) && o.has(p)),
    {
        let i0 = if self.i0 >= other.i0 { self.i0 } else { other.i0 };
        let i1 = if self.i1 <= other.i1 { self.i1 } else { other.i1 };
        let j0 = if self.j0 >= other.j0 { self.j0 } else { other.j0 };
        let j1 = if self.j1 <= other.j1 { self.j1 } else { other.j1 };
        if i0 < i1 && j0 < j1 {
            let o = IndexSpace { i0, i1, j0, j1 };
            proof {
                assert(0 <= o.ni() <= self.ni());
                assert(0 <= o.nj() <= self.nj());
                assert(o.ni() * o.nj() <= self.ni() * self.nj()) by (nonlinear_arith)
                    requires
                        0 <= o.ni() <= self.ni(),
                        0 <= o.nj() <= self.nj(),
                ;
            }
            Some(o)
        } else {
            None
        }
    }

    /// The region padded by `n` cells in every direction.
    pub fn extend_all(&self, n: i64) -> (r: IndexSpace)
        requires
            self.extended(n as int).wf(),
            i64::MIN <= self.i0 - n <= i64::MAX,
            i64::MIN <= self.i1 + n <= i64::MAX,
            i64::MIN <= self.j0 - n <= i64::MAX,
            i64::MIN <= self.j1 + n <= i64::MAX,
        ensures
            r == self.extended(n as int),
    {
        IndexSpace { i0: self.i0 - n, i1: self.i1 + n, j0: self.j0 - n, j1: self.j1 + n }
    }

    /// The `n`-wide strip at the lower end of `axis`.
    pub fn keep_lower(&self, n: i64, axis: Axis) -> (r: IndexSpace)
        requires
            self.wf(),
            0 <= n,
            axis == Axis::I ==> n <= self.ni(),
            axis == Axis::J ==> n <= self.nj(),
        ensures
            r == self.lower_strip(n as int, axis),
            r.wf(),
            self.includes(r),
    {
        let r = match axis {
            Axis::I => IndexSpace { i1: self.i0 + n, ..*self },
            Axis::J => IndexSpace { j1: self.j0 + n, ..*self },
        };
        proof {
            assert(r.ni() * r.nj() <= self.ni() * self.nj()) by (nonlinear_arith)
                requires
                    0 <= r.ni() <= self.ni(),
                    0 <= r.nj() <= self.nj(),
            ;
        }
        r
    }

    /// The `n`-wide strip at the upper end of `axis`.
    pub fn keep_upper(&self, n: i64, axis: Axis) -> (r: IndexSpace)
        requires
            self.wf(),
            0 <= n,
            axis == Axis::I ==> n <= self.ni(),
            axis == Axis::J ==> n <= self.nj(),
        ensures
            r == self.upper_strip(n as int, axis),
            r.wf(),
            self.includes(r),
    {
        let r = match axis {
            Axis::I => IndexSpace { i0: self.i1 - n, ..*self },
            Axis::J => IndexSpace { j0: self.j1 - n, ..*self },
        };
        proof {
            assert(r.ni() * r.nj() <= self.ni() * self.nj()) by (nonlinear_arith)
                requires
                    0 <= r.ni() <= self.ni(),
                    0 <= r.nj() <= self.nj(),
            ;
        }
        r
    }

    /// Where `self` sits inside a buffer laid out over `container`.
    pub fn memory_region_in(&self, container: &IndexSpace) -> (r: MemoryRegion)
        requires
            self.wf(),
            container.wf(),
            container.includes(*self),
        ensures
            r == self.region_in(*container),
            r.fits(),
    {
        MemoryRegion {
            start: (
                (self.i0 as i128 - container.i0 as i128) as usize,
                (self.j0 as i128 - container.j0 as i128) as usize,
            ),
            shape: (
                (container.i1 as i128 - container.i0 as i128) as usize,
                (container.j1 as i128 - container.j0 as i128) as usize,
            ),
            count: (
                (self.i1 as i128 - self.i0 as i128) as usize,
                (self.j1 as i128 - self.j0 as i128) as usize,
            ),
        }
    }
}

} // verus!
