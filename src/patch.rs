//! Patches: a rectangle of the lattice, a number of fields per point, and the
//! storage that holds them.
use crate::buffer::{block_copied, cidx, copy_block, in_block, lemma_cidx, lemma_cidx_onto, zero_vec, Buffer, Device, DeviceBuffer};
use crate::geometry::{IndexSpace, Rectangle};
use vstd::array::array_as_slice;
use vstd::prelude::*;
use vstd::slice::slice_to_vec;

verus! {

/// Field data over a rectangle of the lattice. Storage is point-major: the
/// `num_fields` values of one point (its zone) are contiguous, and zones come
/// in the row-by-row order of the rectangle. Values are held as the 64-bit
/// patterns of the simulation's numbers; the patch never interprets them.
#[derive(Clone)]
pub struct Patch {
    rect: Rectangle,
    num_fields: usize,
    data: Buffer,
}

/// Why an overlap copy was refused.
#[derive(Clone, Copy, PartialEq, Eq, Structural, Debug)]
pub enum CopyError {
    /// The two patches hold different numbers of fields.
    FieldCountMismatch,
    /// The two index spaces share no point.
    NoOverlap,
}

impl Patch {
    /// The region of the lattice that the patch covers.
    pub closed spec fn space(&self) -> IndexSpace {
        self.rect
    }

    /// The number of values stored at each point.
    pub closed spec fn fields(&self) -> nat {
        self.num_fields as nat
    }

    /// The stored values, in storage order.
    pub closed spec fn values(&self) -> Seq<u64> {
        self.data@
    }

    /// The device that holds the storage, or `None` for host memory.
    pub closed spec fn residency(&self) -> Option<Device> {
        self.data.residency()
    }

    /// The storage holds exactly one zone per point of a well-formed space.
    pub open spec fn wf(&self) -> bool {
        &&& self.space().wf()
        &&& self.values().len() == self.space().size() * self.fields()
    }

    /// Value `q` at point `p`.
    pub open spec fn at(&self, p: (int, int), q: int) -> u64 {
        self.values()[cidx(
            self.space().nj(),
            self.fields() as int,
            p.0 - self.space().i0,
            p.1 - self.space().j0,
            q,
        )]
    }

    /// `self` is `old` after the values of `src` have been copied in wherever
    /// the two index spaces overlap; the rest of `old` is kept.
    pub open spec fn copied_from(&self, src: Patch, old: Patch) -> bool {
        &&& self.wf()
        &&& self.same_shape(&old)
        &&& forall|p: (int, int), q: int|
            old.space().has(p) && 0 <= q < old.fields() ==> #[trigger] self.at(p, q) == if src.space().has(p) {
                src.at(p, q)
            } else {
                old.at(p, q)
            }
    }

    /// `self` is the part of `src` over `sub`, on the same residency.
    pub open spec fn extracted_from(&self, src: Patch, sub: IndexSpace) -> bool {
        &&& self.wf()
        &&& self.space() == sub
        &&& self.fields() == src.fields()
        &&& self.residency() == src.residency()
        &&& forall|p: (int, int), q: int|
            sub.has(p) && 0 <= q < src.fields() ==> #[trigger] self.at(p, q) == src.at(p, q)
    }

    /// `self` holds the values of `src` over the same space, on `to`.
    pub open spec fn migrated_from(&self, src: Patch, to: Option<Device>) -> bool {
        &&& self.wf()
        &&& self.space() == src.space()
        &&& self.fields() == src.fields()
        &&& self.residency() == to
        &&& self.values() == src.values()
    }

    /// Same space, fields and residency.
    pub open spec fn same_shape(&self, other: &Patch) -> bool {
        &&& self.space() == other.space()
        &&& self.fields() == other.fields()
        &&& self.residency() == other.residency()
    }

    /// Generates a patch in host memory of zeros over the given index space.
    pub fn zeros(num_fields: usize, space: &IndexSpace) -> (r: Patch)
        requires
            space.wf(),
            space.size() * num_fields <= usize::MAX,
        ensures
            r.wf(),
            r.space() == *space,
            r.fields() == num_fields,
            r.residency() == None::<Device>,
            r.values() == Seq::new((space.size() * num_fields) as nat, |k: int| 0u64),
    {
        Patch { rect: *space, num_fields, data: Buffer::host_zeros(space.len() * num_fields) }
    }

    /// Copies the part of `self` over `overlap` into `target`, which lives on
    /// the same residency.
    fn copy_region(&self, target: &mut Patch, overlap: &IndexSpace)
        requires
            self.wf(),
            old(target).wf(),
            self.fields() == old(target).fields(),
            self.residency() == old(target).residency(),
            overlap.wf(),
            self.space().includes(*overlap),
            old(target).space().includes(*overlap),
        ensures
            final(target).wf(),
            final(target).same_shape(old(target)),
            forall|p: (int, int), q: int|
                final(target).space().has(p) && 0 <= q < final(target).fields() ==> #[trigger] final(target).at(p, q) == if overlap.has(p) {
                    self.at(p, q)
                } else {
                    old(target).at(p, q)
                },
    {
        let src_reg = overlap.memory_region_in(&self.rect);
        let dst_reg = overlap.memory_region_in(&target.rect);
        let nq = self.num_fields;
        let ghost t0 = *target;
        proof {
            assert(src_reg.shape.0 * src_reg.shape.1 == self.rect.size());
            assert(dst_reg.shape.0 * dst_reg.shape.1 == target.rect.size());
        }
        match (&self.data, &mut target.data) {
            (Buffer::Host(src), Buffer::Host(dst)) => {
                copy_block(dst, &dst_reg, src.as_slice(), &src_reg, nq);
            },
            (Buffer::Device(src), Buffer::Device(dst)) => {
                dst.memcpy_3d(&dst_reg, src, &src_reg, nq);
            },
            _ => {},
        }
        proof {
            assert(block_copied(target.data@, t0.data@, dst_reg, self.data@, src_reg, nq as int));
            assert forall|p: (int, int), q: int|
                target.space().has(p) && 0 <= q < target.fields() implies #[trigger] target.at(p, q)
                == if overlap.has(p) {
                    self.at(p, q)
                } else {
                    t0.at(p, q)
                } by {
                let r = p.0 - t0.rect.i0;
                let c = p.1 - t0.rect.j0;
                assert(in_block(dst_reg, r, c) == overlap.has(p));
            }
        }
    }
}

impl Patch {
    /// The index space of this patch.
    pub fn index_space(&self) -> (r: IndexSpace)
        ensures
            r == self.space(),
    {
        self.rect
    }

    /// The rectangle of this patch.
    pub fn rect(&self) -> (r: Rectangle)
        ensures
            r == self.space(),
    {
        self.rect
    }

    /// The number of values stored at each point.
    pub fn num_fields(&self) -> (r: usize)
        ensures
            r == self.fields(),
    {
        self.num_fields
    }

    /// The device where the data lives, or `None` when it lives on the host.
    pub fn device(&self) -> (r: Option<Device>)
        ensures
            r == self.residency(),
    {
        self.data.device()
    }

    /// The data as a slice, when it lives on the host.
    pub fn as_slice(&self) -> (r: Option<&[u64]>)
        ensures
            self.residency() is None <==> r is Some,
            r matches Some(s) ==> s@ == self.values(),
    {
        self.data.as_slice()
    }

    /// The data as a device allocation, when it lives on a device.
    pub fn as_device_buffer(&self) -> (r: Option<&DeviceBuffer>)
        ensures
            self.residency() is Some <==> r is Some,
            r matches Some(d) ==> d@ == self.values() && self.residency() == Some(d.owner()),
    {
        self.data.as_device_buffer()
    }

    /// A deep copy of this patch on `device`, from wherever it lives now.
    pub fn to_device(&self, device: Device) -> (r: Patch)
        requires
            self.wf(),
        ensures
            r.migrated_from(*self, Some(device)),
    {
        Patch { rect: self.rect, num_fields: self.num_fields, data: self.data.to_device(device) }
    }

    /// This patch on `device`; nothing is copied when it already lives there.
    pub fn into_device(self, device: Device) -> (r: Patch)
        requires
            self.wf(),
        ensures
            r.migrated_from(self, Some(device)),
    {
        Patch { rect: self.rect, num_fields: self.num_fields, data: self.data.into_device(device) }
    }

    /// A deep copy of this patch in host memory, from wherever it lives now.
    pub fn to_host(&self) -> (r: Patch)
        requires
            self.wf(),
        ensures
            r.migrated_from(*self, None),
    {
        Patch { rect: self.rect, num_fields: self.num_fields, data: self.data.to_host() }
    }

    /// This patch in host memory; nothing is copied when it already lives
    /// there.
    pub fn into_host(self) -> (r: Patch)
        requires
            self.wf(),
        ensures
            r.migrated_from(self, None),
    {
        Patch { rect: self.rect, num_fields: self.num_fields, data: self.data.into_host() }
    }

    /// This patch on `device` when it is `Some`, in host memory otherwise.
    pub fn on(self, device: Option<Device>) -> (r: Patch)
        requires
            self.wf(),
        ensures
            r.migrated_from(self, device),
    {
        match device {
            Some(d) => self.into_device(d),
            None => self.into_host(),
        }
    }

    /// A new patch over `dst_space`, a part of this patch's space, with the
    /// same values there and on the same residency.
    pub fn extract(&self, dst_space: &IndexSpace) -> (r: Patch)
        requires
            self.wf(),
            dst_space.wf(),
            self.space().includes(*dst_space),
        ensures
            r.extracted_from(*self, *dst_space),
            *dst_space == self.space() ==> r.values() == self.values(),
    {
        let src_len = self.data.len();
        proof {
            assert(dst_space.size() * self.num_fields <= self.rect.size() * self.num_fields) by (nonlinear_arith)
                requires
                    0 <= dst_space.ni() <= self.rect.ni(),
                    0 <= dst_space.nj() <= self.rect.nj(),
            ;
            // The extracted storage is no larger than the source's.
            assert(dst_space.size() * self.num_fields <= src_len);
        }
        let len = dst_space.len() * self.num_fields;
        let mut result = Patch {
            rect: *dst_space,
            num_fields: self.num_fields,
            data: Buffer::zeros_on(self.data.device(), len),
        };
        self.copy_region(&mut result, dst_space);
        proof {
            if *dst_space == self.space() {
                lemma_values_ext(result, *self);
            }
        }
        result
    }

    /// Copies values from this patch into `target` wherever their index
    /// spaces overlap; the rest of `target` is untouched. When the two live
    /// on different residencies, only the overlap is extracted and moved to
    /// the target's residency before it is copied in.
    pub fn copy_into(&self, target: &mut Patch)
        requires
            self.wf(),
            old(target).wf(),
            self.fields() == old(target).fields(),
            self.space().meet(old(target).space()) is Some,
        ensures
            final(target).copied_from(*self, *old(target)),
    {
        let ghost t0 = *target;
        match self.rect.intersect(&target.rect) {
            Some(overlap) => {
                let here = self.data.device();
                let there = target.data.device();
                if here == there {
                    self.copy_region(target, &overlap);
                } else {
                    let extracted = self.extract(&overlap);
                    let staged = extracted.on(there);
                    assert forall|p: (int, int), q: int|
                        overlap.has(p) && 0 <= q < self.fields() implies #[trigger] staged.at(p, q)
                        == self.at(p, q) by {
                        assert(extracted.at(p, q) == self.at(p, q));
                    }
                    staged.copy_region(target, &overlap);
                }
                assert forall|p: (int, int), q: int|
                    t0.space().has(p) && 0 <= q < t0.fields() implies #[trigger] target.at(p, q)
                    == if self.space().has(p) {
                    self.at(p, q)
                } else {
                    t0.at(p, q)
                } by {
                    assert(self.space().has(p) && t0.space().has(p) <==> overlap.has(p));
                }
            },
            None => {},
        }
    }

    /// Like `copy_into`, but refuses patches that hold different numbers of
    /// fields, or whose index spaces share no point, and leaves `target`
    /// untouched then.
    pub fn try_copy_into(&self, target: &mut Patch) -> (r: Result<(), CopyError>)
        requires
            self.wf(),
            old(target).wf(),
        ensures
            r == if self.fields() != old(target).fields() {
                Err(CopyError::FieldCountMismatch)
            } else if self.space().meet(old(target).space()) is None {
                Err(CopyError::NoOverlap)
            } else {
                Ok(())
            },
            r is Ok ==> final(target).copied_from(*self, *old(target)),
            r is Err ==> *final(target) == *old(target),
    {
        if self.num_fields != target.num_fields {
            return Err(CopyError::FieldCountMismatch);
        }
        if self.rect.intersect(&target.rect).is_none() {
            return Err(CopyError::NoOverlap);
        }
        self.copy_into(target);
        Ok(())
    }

    /// Like `extract`, but returns `None` when `dst_space` is not contained
    /// in this patch's space.
    pub fn try_extract(&self, dst_space: &IndexSpace) -> (r: Option<Patch>)
        requires
            self.wf(),
            dst_space.wf(),
        ensures
            r is Some <==> self.space().includes(*dst_space),
            r matches Some(e) ==> e.extracted_from(*self, *dst_space),
    {
        if self.rect.contains_space(dst_space) {
            Some(self.extract(dst_space))
        } else {
            None
        }
    }
}

/// The `(r, c)`-th cell of `space`, as a lattice point.
pub open spec fn cell_point(space: IndexSpace, r: int, c: int) -> (i64, i64) {
    ((space.i0 + r) as i64, (space.j0 + c) as i64)
}

/// The zone of cell `(r, c)` holds what `f` returned there, recorded in `outs`.
spec fn cell_ok<F: Fn((i64, i64)) -> Vec<u64>>(
    f: F,
    data: Seq<u64>,
    outs: Map<(int, int), Vec<u64>>,
    space: IndexSpace,
    nf: int,
    r: int,
    c: int,
) -> bool {
    &&& outs.contains_key((r, c))
    &&& f.ensures((cell_point(space, r, c),), outs[(r, c)])
    &&& forall|q: int| 0 <= q < nf ==> #[trigger] data[cidx(space.nj(), nf, r, c, q)] == outs[(r, c)]@[q]
}

/// Every cell before `(a, b)` in row-by-row order has been filled.
spec fn filled<F: Fn((i64, i64)) -> Vec<u64>>(
    f: F,
    data: Seq<u64>,
    outs: Map<(int, int), Vec<u64>>,
    space: IndexSpace,
    nf: int,
    a: int,
    b: int,
) -> bool {
    forall|r: int, c: int|
        0 <= r < space.ni() && 0 <= c < space.nj() && (r < a || (r == a && c < b)) ==> #[trigger] cell_ok(
            f,
            data,
            outs,
            space,
            nf,
            r,
            c,
        )
}

impl Patch {
    /// The values at point `p`.
    pub open spec fn zone(&self, p: (int, int)) -> Seq<u64> {
        Seq::new(self.fields(), |q: int| self.at(p, q))
    }

    /// Generates a patch in host memory covering `space`, whose zone at each
    /// point is what `f` returns there. `f` is called once per point, in the
    /// row-by-row order of `space`.
    pub fn from_slice_function<F>(space: &IndexSpace, num_fields: usize, f: F) -> (r: Patch) where
        F: Fn((i64, i64)) -> Vec<u64>,
        requires
            space.wf(),
            space.size() * num_fields <= usize::MAX,
            forall|i: i64, j: i64| space.has((i as int, j as int)) ==> f.requires(((i, j),)),
            forall|a: (i64, i64), v: Vec<u64>| f.ensures((a,), v) ==> v@.len() == num_fields,
        ensures
            r.wf(),
            r.space() == *space,
            r.fields() == num_fields,
            r.residency() == None::<Device>,
            forall|i: i64, j: i64| #[trigger]
                space.has((i as int, j as int)) ==> exists|v: Vec<u64>|
                    f.ensures(((i, j),), v) && r.zone((i as int, j as int)) == v@,
    {
        let ni = (space.i1 as i128 - space.i0 as i128) as usize;
        let nj = (space.j1 as i128 - space.j0 as i128) as usize;
        let total = space.len() * num_fields;
        let mut data = zero_vec(total);
        let ghost mut outs: Map<(int, int), Vec<u64>> = Map::empty();
        let mut a: usize = 0;
        while a < ni
            invariant
                space.wf(),
                ni == space.ni(),
                nj == space.nj(),
                total == space.size() * num_fields,
                data@.len() == total,
                0 <= a <= ni,
                forall|i: i64, j: i64| space.has((i as int, j as int)) ==> f.requires(((i, j),)),
                forall|a: (i64, i64), v: Vec<u64>| f.ensures((a,), v) ==> v@.len() == num_fields,
                filled(f, data@, outs, *space, num_fields as int, a as int, 0),
            decreases ni - a,
        {
            let mut b: usize = 0;
            while b < nj
                invariant
                    space.wf(),
                    ni == space.ni(),
                    nj == space.nj(),
                    total == space.size() * num_fields,
                    data@.len() == total,
                    0 <= a < ni,
                    0 <= b <= nj,
                    forall|i: i64, j: i64| space.has((i as int, j as int)) ==> f.requires(((i, j),)),
                    forall|a: (i64, i64), v: Vec<u64>| f.ensures((a,), v) ==> v@.len() == num_fields,
                    filled(f, data@, outs, *space, num_fields as int, a as int, b as int),
                decreases nj - b,
            {
                let i = (space.i0 as i128 + a as i128) as i64;
                let j = (space.j0 as i128 + b as i128) as i64;
                assert(space.has((i as int, j as int)));
                let v = f((i, j));
                let mut k: usize = 0;
                while k < num_fields
                    invariant
                        space.wf(),
                        ni == space.ni(),
                        nj == space.nj(),
                        total == space.size() * num_fields,
                        data@.len() == total,
                        0 <= a < ni,
                        0 <= b < nj,
                        0 <= k <= num_fields,
                        v@.len() == num_fields,
                        filled(f, data@, outs, *space, num_fields as int, a as int, b as int),
                        forall|q: int|
                            0 <= q < k ==> #[trigger] data@[cidx(nj as int, num_fields as int, a as int, b as int, q)]
                                == v@[q],
                    decreases num_fields - k,
                {
                    proof {
                        lemma_cidx(ni as int, nj as int, num_fields as int, a as int, b as int, k as int, a as int, b as int, k as int);
                        assert(a * nj <= a * nj + b);
                        assert((a * nj + b) * num_fields <= cidx(nj as int, num_fields as int, a as int, b as int, k as int));
                        assert(a * nj + b <= (a * nj + b) * num_fields) by (nonlinear_arith)
                            requires
                                0 <= a * nj + b,
                                0 <= k < num_fields,
                        ;
                    }
                    let idx = (a * nj + b) * num_fields + k;
                    let ghost before_set = data@;
                    data.set(idx, v[k]);
                    proof {
                        assert forall|r: int, c: int, q: int|
                            0 <= r < ni && 0 <= c < nj && 0 <= q < num_fields && (r != a || c != b || q != k) implies
                            #[trigger] data@[cidx(nj as int, num_fields as int, r, c, q)] == before_set[cidx(
                                nj as int,
                                num_fields as int,
                                r,
                                c,
                                q,
                            )] by {
                            lemma_cidx(ni as int, nj as int, num_fields as int, r, c, q, a as int, b as int, k as int);
                        }
                        assert forall|r: int, c: int|
                            0 <= r < ni && 0 <= c < nj && (r < a || (r == a && c < b)) implies #[trigger] cell_ok(
                                f,
                                data@,
                                outs,
                                *space,
                                num_fields as int,
                                r,
                                c,
                            ) by {
                            assert(cell_ok(f, before_set, outs, *space, num_fields as int, r, c));
                        }
                    }
                    k = k + 1;
                }
                proof {
                    assert(cell_point(*space, a as int, b as int) == (i, j));
                    let outs0 = outs;
                    outs = outs.insert((a as int, b as int), v);
                    assert forall|r: int, c: int|
                        0 <= r < ni && 0 <= c < nj && (r < a || (r == a && c < b + 1)) implies #[trigger] cell_ok(
                            f,
                            data@,
                            outs,
                            *space,
                            num_fields as int,
                            r,
                            c,
                        ) by {
                        if r != a || c != b {
                            assert(cell_ok(f, data@, outs0, *space, num_fields as int, r, c));
                        }
                    }
                }
                b = b + 1;
            }
            assert forall|r: int, c: int|
                0 <= r < ni && 0 <= c < nj && (r < a + 1 || (r == a + 1 && c < 0)) implies #[trigger] cell_ok(
                    f,
                    data@,
                    outs,
                    *space,
                    num_fields as int,
                    r,
                    c,
                ) by {
                assert(r < a || (r == a && c < b));
            }
            a = a + 1;
        }
        let r = Patch { rect: *space, num_fields, data: Buffer::Host(data) };
        proof {
            assert forall|i: i64, j: i64| #[trigger]
                space.has((i as int, j as int)) implies exists|v: Vec<u64>|
                    f.ensures(((i, j),), v) && r.zone((i as int, j as int)) == v@ by {
                let rr = i - space.i0;
                let cc = j - space.j0;
                assert(cell_point(*space, rr, cc) == (i, j));
                assert(rr < a || (rr == a && cc < 0));
                assert(cell_ok(f, data@, outs, *space, num_fields as int, rr, cc));
                let v = outs[(rr, cc)];
                assert(r.zone((i as int, j as int)) =~= v@);
            }
        }
        r
    }
}

impl Patch {
    /// Generates a patch in host memory covering `space`, with `NUM_FIELDS`
    /// values at each point taken from the array that `f` returns there.
    pub fn from_vector_function<F, const NUM_FIELDS: usize>(space: &IndexSpace, f: F) -> (r: Patch) where
        F: Fn((i64, i64)) -> [u64; NUM_FIELDS],
        requires
            space.wf(),
            space.size() * NUM_FIELDS <= usize::MAX,
            forall|i: i64, j: i64| space.has((i as int, j as int)) ==> f.requires(((i, j),)),
        ensures
            r.wf(),
            r.space() == *space,
            r.fields() == NUM_FIELDS,
            r.residency() == None::<Device>,
            forall|i: i64, j: i64| #[trigger]
                space.has((i as int, j as int)) ==> exists|v: [u64; NUM_FIELDS]|
                    f.ensures(((i, j),), v) && r.zone((i as int, j as int)) == v@,
    {
        let fr = &f;
        let g = move |p: (i64, i64)| -> (v: Vec<u64>)
            requires
                fr.requires((p,)),
            ensures
                exists|a: [u64; NUM_FIELDS]| fr.ensures((p,), a) && v@ == a@,
            {
                let a = fr(p);
                slice_to_vec(array_as_slice(&a))
            };
        proof {
            assert forall|p: (i64, i64), v: Vec<u64>| g.ensures((p,), v) implies v@.len() == NUM_FIELDS by {
                let a = choose|a: [u64; NUM_FIELDS]| f.ensures((p,), a) && v@ == a@;
                assert(a@.len() == NUM_FIELDS);
            }
        }
        let r = Patch::from_slice_function(space, NUM_FIELDS, g);
        proof {
            assert forall|i: i64, j: i64| #[trigger]
                space.has((i as int, j as int)) implies exists|v: [u64; NUM_FIELDS]|
                    f.ensures(((i, j),), v) && r.zone((i as int, j as int)) == v@ by {
                let w = choose|w: Vec<u64>| g.ensures(((i, j),), w) && r.zone((i as int, j as int)) == w@;
                let a = choose|a: [u64; NUM_FIELDS]| f.ensures(((i, j),), a) && w@ == a@;
                assert(f.ensures(((i, j),), a) && r.zone((i as int, j as int)) == a@);
            }
        }
        r
    }

    /// Generates a one-field patch in host memory covering `space`, with the
    /// value at each point that `f` returns there.
    pub fn from_scalar_function<F>(space: &IndexSpace, f: F) -> (r: Patch) where
        F: Fn((i64, i64)) -> u64,
        requires
            space.wf(),
            forall|i: i64, j: i64| space.has((i as int, j as int)) ==> f.requires(((i, j),)),
        ensures
            r.wf(),
            r.space() == *space,
            r.fields() == 1,
            r.residency() == None::<Device>,
            forall|i: i64, j: i64| #[trigger]
                space.has((i as int, j as int)) ==> f.ensures(((i, j),), r.at((i as int, j as int), 0)),
    {
        let fr = &f;
        let g = move |p: (i64, i64)| -> (v: Vec<u64>)
            requires
                fr.requires((p,)),
            ensures
                v@.len() == 1,
                fr.ensures((p,), v@[0]),
            {
                let x = fr(p);
                let mut v: Vec<u64> = Vec::new();
                v.push(x);
                v
            };
        let r = Patch::from_slice_function(space, 1, g);
        proof {
            assert forall|i: i64, j: i64| #[trigger]
                space.has((i as int, j as int)) implies f.ensures(((i, j),), r.at((i as int, j as int), 0)) by {
                let w = choose|w: Vec<u64>| g.ensures(((i, j),), w) && r.zone((i as int, j as int)) == w@;
                assert(r.zone((i as int, j as int))[0] == r.at((i as int, j as int), 0));
            }
        }
        r
    }

    /// Overwrites the part of this patch that lies in `subset` with what `f`
    /// returns at each point there; the rest is untouched.
    pub fn map_mut<F>(&mut self, subset: &IndexSpace, f: F) where
        F: Fn((i64, i64)) -> Vec<u64>,
        requires
            old(self).wf(),
            subset.wf(),
            subset.size() * old(self).fields() <= usize::MAX,
            subset.meet(old(self).space()) is Some,
            forall|i: i64, j: i64| subset.has((i as int, j as int)) ==> f.requires(((i, j),)),
            forall|a: (i64, i64), v: Vec<u64>| f.ensures((a,), v) ==> v@.len() == old(self).fields(),
        ensures
            final(self).wf(),
            final(self).same_shape(old(self)),
            forall|i: i64, j: i64| #[trigger]
                old(self).space().has((i as int, j as int)) ==> if subset.has((i as int, j as int)) {
                    exists|v: Vec<u64>| f.ensures(((i, j),), v) && final(self).zone((i as int, j as int)) == v@
                } else {
                    final(self).zone((i as int, j as int)) == old(self).zone((i as int, j as int))
                },
    {
        let ghost s0 = *self;
        let tmp = Patch::from_slice_function(subset, self.num_fields, f);
        tmp.copy_into(self);
        proof {
            assert forall|i: i64, j: i64| #[trigger]
                s0.space().has((i as int, j as int)) implies if subset.has((i as int, j as int)) {
                    exists|v: Vec<u64>| f.ensures(((i, j),), v) && self.zone((i as int, j as int)) == v@
                } else {
                    self.zone((i as int, j as int)) == s0.zone((i as int, j as int))
                } by {
                let p = (i as int, j as int);
                if subset.has(p) {
                    assert(self.zone(p) =~= tmp.zone(p));
                } else {
                    assert(self.zone(p) =~= s0.zone(p));
                }
            }
        }
    }

    /// Rebuilds a host patch over `space` from its values in storage order, as
    /// a checkpoint holds them; `None` when their number does not fit.
    pub fn from_host_data(space: &IndexSpace, num_fields: usize, data: Vec<u64>) -> (r: Option<Patch>)
        requires
            space.wf(),
        ensures
            r is Some <==> data@.len() == space.size() * num_fields,
            r matches Some(p) ==> {
                &&& p.wf()
                &&& p.space() == *space
                &&& p.fields() == num_fields
                &&& p.residency() == None::<Device>
                &&& p.values() == data@
            },
    {
        let n = space.len();
        let dl = data.len();
        let fits = match n.checked_mul(num_fields) {
            Some(t) => t == dl,
            None => false,
        };
        if fits {
            Some(Patch { rect: *space, num_fields, data: Buffer::Host(data) })
        } else {
            None
        }
    }
}

/// Two patches over the same space with the same fields and the same value at
/// every point hold the same storage contents.
pub proof fn lemma_values_ext(a: Patch, b: Patch)
    requires
        a.wf(),
        b.wf(),
        a.space() == b.space(),
        a.fields() == b.fields(),
        forall|p: (int, int), q: int| a.space().has(p) && 0 <= q < a.fields() ==> #[trigger] a.at(p, q) == b.at(p, q),
    ensures
        a.values() == b.values(),
{
    let s = a.space();
    let nf = a.fields() as int;
    assert forall|k: int| 0 <= k < a.values().len() implies a.values()[k] == b.values()[k] by {
        lemma_cidx_onto(s.ni(), s.nj(), nf, k);
        let r = (k / nf) / s.nj();
        let c = (k / nf) % s.nj();
        let q = k % nf;
        let p = (s.i0 + r, s.j0 + c);
        assert(s.has(p));
        assert(a.at(p, q) == b.at(p, q));
    }
    assert(a.values() =~= b.values());
}

/// Extracting a patch's whole space reproduces its stored values exactly.
pub proof fn lemma_whole_extract(src: Patch, e: Patch)
    requires
        src.wf(),
        e.extracted_from(src, src.space()),
    ensures
        e.values() == src.values(),
{
    lemma_values_ext(e, src);
}

/// Copying one source into two targets that cover the same space with the
/// same fields and values leaves the two targets with the same values, each
/// on whatever residency it lives: the result does not depend on the transfer
/// path that the copy took.
pub proof fn lemma_copy_independent_of_residency(src: Patch, a0: Patch, a1: Patch, b0: Patch, b1: Patch)
    requires
        src.wf(),
        a0.wf(),
        b0.wf(),
        a0.space() == b0.space(),
        a0.fields() == b0.fields(),
        a0.values() == b0.values(),
        a1.copied_from(src, a0),
        b1.copied_from(src, b0),
    ensures
        a1.values() == b1.values(),
{
    assert forall|p: (int, int), q: int| a1.space().has(p) && 0 <= q < a1.fields() implies #[trigger] a1.at(p, q)
        == b1.at(p, q) by {
        assert(a1.at(p, q) == if src.space().has(p) { src.at(p, q) } else { a0.at(p, q) });
        assert(b1.at(p, q) == if src.space().has(p) { src.at(p, q) } else { b0.at(p, q) });
    }
    lemma_values_ext(a1, b1);
}

/// Moving a patch to a device and back to the host gives back the values it
/// started with.
pub proof fn lemma_residency_round_trip(p: Patch, d: Patch, h: Patch, device: Device)
    requires
        p.wf(),
        d.migrated_from(p, Some(device)),
        h.migrated_from(d, None),
    ensures
        h.values() == p.values(),
        h.space() == p.space(),
        h.fields() == p.fields(),
        h.residency() == None::<Device>,
{
}

} // verus!
