//! Storage of one patch: host memory, or an allocation tagged with the
//! device that owns it, and the transfer primitives between them.
//!
//! Device storage here is an in-memory model: a device allocation is memory
//! that this library keeps itself, tagged with its device's identity, and
//! every device identity can be used.
use crate::geometry::MemoryRegion;
use vstd::arithmetic::div_mod::{lemma_div_pos_is_pos, lemma_fundamental_div_mod, lemma_mod_pos_bound};
use vstd::prelude::*;
use vstd::slice::slice_to_vec;

verus! {

/// Position of element `q` of cell `(r, c)` in a buffer whose rows hold `s1`
/// cells of `nq` elements each.
pub open spec fn cidx(s1: int, nq: int, r: int, c: int, q: int) -> int {
    (r * s1 + c) * nq + q
}

proof fn lemma_pair_unique(a: int, b: int, a2: int, b2: int, n: int)
    requires
        0 <= b < n,
        0 <= b2 < n,
        a * n + b == a2 * n + b2,
    ensures
        a == a2,
        b == b2,
{
    if a < a2 {
        assert(a * n + b < a2 * n + b2) by (nonlinear_arith)
            requires
                a < a2,
                0 <= b < n,
                0 <= b2,
        ;
    } else if a2 < a {
        assert(a2 * n + b2 < a * n + b) by (nonlinear_arith)
            requires
                a2 < a,
                0 <= b2 < n,
                0 <= b,
        ;
    }
}

proof fn lemma_pair_bound(a: int, b: int, s: int, n: int)
    requires
        0 <= a < s,
        0 <= b < n,
    ensures
        0 <= a * n + b < s * n,
{
    assert(0 <= a * n + b < s * n) by (nonlinear_arith)
        requires
            0 <= a < s,
            0 <= b < n,
    ;
}

/// Cells of a buffer shaped `s0 x s1` with `nq` elements each have distinct
/// positions, all inside the buffer.
pub proof fn lemma_cidx(s0: int, s1: int, nq: int, r: int, c: int, q: int, r2: int, c2: int, q2: int)
    requires
        0 <= r < s0,
        0 <= c < s1,
        0 <= q < nq,
        0 <= r2 < s0,
        0 <= c2 < s1,
        0 <= q2 < nq,
    ensures
        0 <= cidx(s1, nq, r, c, q) < s0 * s1 * nq,
        cidx(s1, nq, r, c, q) == cidx(s1, nq, r2, c2, q2) ==> r == r2 && c == c2 && q == q2,
{
    lemma_pair_bound(r, c, s0, s1);
    lemma_pair_bound(r * s1 + c, q, s0 * s1, nq);
    if cidx(s1, nq, r, c, q) == cidx(s1, nq, r2, c2, q2) {
        lemma_pair_unique(r * s1 + c, q, r2 * s1 + c2, q2, nq);
        lemma_pair_unique(r, c, r2, c2, s1);
    }
}

/// Every position of a buffer shaped `s0 x s1` with `nq` elements per cell is
/// the position of one element of one cell.
pub proof fn lemma_cidx_onto(s0: int, s1: int, nq: int, k: int)
    requires
        0 <= s0,
        0 <= s1,
        0 <= nq,
        0 <= k < s0 * s1 * nq,
    ensures
        0 <= (k / nq) / s1 < s0,
        0 <= (k / nq) % s1 < s1,
        0 <= k % nq < nq,
        k == cidx(s1, nq, (k / nq) / s1, (k / nq) % s1, k % nq),
{
    assert(s1 > 0 && nq > 0) by (nonlinear_arith)
        requires
            0 <= s0,
            0 <= s1,
            0 <= nq,
            0 <= k < s0 * s1 * nq,
    ;
    let z = k / nq;
    lemma_fundamental_div_mod(k, nq);
    lemma_mod_pos_bound(k, nq);
    lemma_div_pos_is_pos(k, nq);
    assert(z < s0 * s1) by (nonlinear_arith)
        requires
            k == nq * z + k % nq,
            0 <= k % nq,
            k < s0 * s1 * nq,
            nq > 0,
    ;
    lemma_fundamental_div_mod(z, s1);
    lemma_mod_pos_bound(z, s1);
    lemma_div_pos_is_pos(z, s1);
    let r = z / s1;
    assert(r < s0) by (nonlinear_arith)
        requires
            z == s1 * r + z % s1,
            0 <= z % s1,
            z < s0 * s1,
            s1 > 0,
    ;
    assert(k == cidx(s1, nq, r, z % s1, k % nq)) by (nonlinear_arith)
        requires
            z == s1 * r + z % s1,
            k == nq * z + k % nq,
    ;
}

/// Cell `(r, c)` of the container lies in the region.
pub open spec fn in_block(reg: MemoryRegion, r: int, c: int) -> bool {
    reg.start.0 <= r < reg.start.0 + reg.count.0 && reg.start.1 <= c < reg.start.1 + reg.count.1
}

/// Number of elements of a buffer laid out over the region's container.
pub open spec fn container_len(reg: MemoryRegion, nq: int) -> int {
    reg.shape.0 * reg.shape.1 * nq
}

/// Two regions that a block copy can pair up, over buffers of the right length.
pub open spec fn block_ok(
    dst: Seq<u64>,
    dreg: MemoryRegion,
    src: Seq<u64>,
    sreg: MemoryRegion,
    nq: int,
) -> bool {
    &&& dreg.fits()
    &&& sreg.fits()
    &&& dreg.count == sreg.count
    &&& dst.len() == container_len(dreg, nq)
    &&& src.len() == container_len(sreg, nq)
}

/// What element `q` of cell `(r, c)` of the destination holds once the source
/// region has been copied onto the destination region.
pub open spec fn block_result(
    old_dst: Seq<u64>,
    dreg: MemoryRegion,
    src: Seq<u64>,
    sreg: MemoryRegion,
    nq: int,
    r: int,
    c: int,
    q: int,
) -> u64 {
    if in_block(dreg, r, c) {
        src[cidx(
            sreg.shape.1 as int,
            nq,
            r - dreg.start.0 + sreg.start.0,
            c - dreg.start.1 + sreg.start.1,
            q,
        )]
    } else {
        old_dst[cidx(dreg.shape.1 as int, nq, r, c, q)]
    }
}

/// The result of a block copy: every cell in the destination region holds the
/// matching source cell, every other cell is untouched.
pub open spec fn block_copied(
    new_dst: Seq<u64>,
    old_dst: Seq<u64>,
    dreg: MemoryRegion,
    src: Seq<u64>,
    sreg: MemoryRegion,
    nq: int,
) -> bool {
    &&& new_dst.len() == old_dst.len()
    &&& forall|r: int, c: int, q: int|
        0 <= r < dreg.shape.0 && 0 <= c < dreg.shape.1 && 0 <= q < nq ==> #[trigger] new_dst[cidx(
            dreg.shape.1 as int,
            nq,
            r,
            c,
            q,
        )] == block_result(old_dst, dreg, src, sreg, nq, r, c, q)
}

spec fn before(x: int, y: int, z: int, a: int, b: int, k: int) -> bool {
    x < a || (x == a && (y < b || (y == b && z < k)))
}

spec fn partly_copied(
    new_dst: Seq<u64>,
    old_dst: Seq<u64>,
    dreg: MemoryRegion,
    src: Seq<u64>,
    sreg: MemoryRegion,
    nq: int,
    a: int,
    b: int,
    k: int,
) -> bool {
    &&& new_dst.len() == old_dst.len()
    &&& forall|r: int, c: int, q: int|
        0 <= r < dreg.shape.0 && 0 <= c < dreg.shape.1 && 0 <= q < nq ==> #[trigger] new_dst[cidx(
            dreg.shape.1 as int,
            nq,
            r,
            c,
            q,
        )] == if in_block(dreg, r, c) && before(
            r - dreg.start.0,
            c - dreg.start.1,
            q,
            a,
            b,
            k,
        ) {
            block_result(old_dst, dreg, src, sreg, nq, r, c, q)
        } else {
            old_dst[cidx(dreg.shape.1 as int, nq, r, c, q)]
        }
}

/// Copies the source region of `src` onto the destination region of `dst`,
/// `nq` elements per cell.
pub fn copy_block(dst: &mut Vec<u64>, dreg: &MemoryRegion, src: &[u64], sreg: &MemoryRegion, nq: usize)
    requires
        block_ok(old(dst)@, *dreg, src@, *sreg, nq as int),
    ensures
        block_copied(final(dst)@, old(dst)@, *dreg, src@, *sreg, nq as int),
{
    let ghost d0 = dst@;
    let ghost s1d = dreg.shape.1 as int;
    let ghost s1s = sreg.shape.1 as int;
    let mut a: usize = 0;
    while a < dreg.count.0
        invariant
            block_ok(d0, *dreg, src@, *sreg, nq as int),
            s1d == dreg.shape.1,
            s1s == sreg.shape.1,
            0 <= a <= dreg.count.0,
            partly_copied(dst@, d0, *dreg, src@, *sreg, nq as int, a as int, 0, 0),
        decreases dreg.count.0 - a,
    {
        let mut b: usize = 0;
        while b < dreg.count.1
            invariant
                block_ok(d0, *dreg, src@, *sreg, nq as int),
            s1d == dreg.shape.1,
            s1s == sreg.shape.1,
                0 <= a < dreg.count.0,
                0 <= b <= dreg.count.1,
                partly_copied(dst@, d0, *dreg, src@, *sreg, nq as int, a as int, b as int, 0),
            decreases dreg.count.1 - b,
        {
            let mut k: usize = 0;
            while k < nq
                invariant
                    block_ok(d0, *dreg, src@, *sreg, nq as int),
            s1d == dreg.shape.1,
            s1s == sreg.shape.1,
                    0 <= a < dreg.count.0,
                    0 <= b < dreg.count.1,
                    0 <= k <= nq,
                    partly_copied(dst@, d0, *dreg, src@, *sreg, nq as int, a as int, b as int, k as int),
                decreases nq - k,
            {
                let ghost dr = dreg.start.0 as int + a as int;
                let ghost dc = dreg.start.1 as int + b as int;
                let ghost sr = sreg.start.0 as int + a as int;
                let ghost sc = sreg.start.1 as int + b as int;
                proof {
                    lemma_cidx(dreg.shape.0 as int, s1d, nq as int, dr, dc, k as int, dr, dc, k as int);
                    lemma_cidx(sreg.shape.0 as int, s1s, nq as int, sr, sc, k as int, sr, sc, k as int);
                    assert(dr * s1d + dc <= cidx(s1d, nq as int, dr, dc, k as int)) by (nonlinear_arith)
                        requires
                            0 <= dr * s1d + dc,
                            0 <= k < nq,
                    ;
                    assert(sr * s1s + sc <= cidx(s1s, nq as int, sr, sc, k as int)) by (nonlinear_arith)
                        requires
                            0 <= sr * s1s + sc,
                            0 <= k < nq,
                    ;
                }
                let dlen = dst.len();
                proof {
                    assert(dr * s1d <= dr * s1d + dc);
                    assert((dr * s1d + dc) * nq <= cidx(s1d, nq as int, dr, dc, k as int));
                    assert(dr * s1d + dc <= (dr * s1d + dc) * nq) by (nonlinear_arith)
                        requires
                            0 <= dr * s1d + dc,
                            0 <= k < nq,
                    ;
                }
                let di = ((dreg.start.0 + a) * dreg.shape.1 + (dreg.start.1 + b)) * nq + k;
                let slen = src.len();
                proof {
                    assert(sr * s1s <= sr * s1s + sc);
                    assert((sr * s1s + sc) * nq <= cidx(s1s, nq as int, sr, sc, k as int));
                    assert(sr * s1s + sc <= (sr * s1s + sc) * nq) by (nonlinear_arith)
                        requires
                            0 <= sr * s1s + sc,
                            0 <= k < nq,
                    ;
                }
                let si = ((sreg.start.0 + a) * sreg.shape.1 + (sreg.start.1 + b)) * nq + k;
                let ghost before_set = dst@;
                dst.set(di, src[si]);
                proof {
                    assert forall|r: int, c: int, q: int|
                        0 <= r < dreg.shape.0 && 0 <= c < dreg.shape.1 && 0 <= q < nq implies #[trigger] dst@[cidx(
                            s1d,
                            nq as int,
                            r,
                            c,
                            q,
                        )] == if in_block(*dreg, r, c) && before(
                            r - dreg.start.0,
                            c - dreg.start.1,
                            q,
                            a as int,
                            b as int,
                            k + 1,
                        ) {
                            block_result(d0, *dreg, src@, *sreg, nq as int, r, c, q)
                        } else {
                            d0[cidx(s1d, nq as int, r, c, q)]
                        } by {
                        lemma_cidx(dreg.shape.0 as int, s1d, nq as int, r, c, q, dr, dc, k as int);
                        assert(before_set[cidx(s1d, nq as int, r, c, q)] == if in_block(*dreg, r, c) && before(
                            r - dreg.start.0,
                            c - dreg.start.1,
                            q,
                            a as int,
                            b as int,
                            k as int,
                        ) {
                            block_result(d0, *dreg, src@, *sreg, nq as int, r, c, q)
                        } else {
                            d0[cidx(s1d, nq as int, r, c, q)]
                        });
                    }
                }
                k = k + 1;
            }
            b = b + 1;
        }
        a = a + 1;
    }
}

/// The identity of one compute device. Two devices are the same only when
/// their identities are equal.
#[derive(Clone, Copy, PartialEq, Eq, Structural, Debug)]
pub struct Device {
    pub id: usize,
}

impl Device {
    /// The device with the given identity.
    pub fn with_id(id: usize) -> (r: Option<Device>)
        ensures
            r == Some(Device { id }),
    {
        Some(Device { id })
    }
}

/// `n` zeros.
pub fn zero_vec(n: usize) -> (r: Vec<u64>)
    ensures
        r@ == Seq::new(n as nat, |k: int| 0u64),
{
    let mut v: Vec<u64> = Vec::with_capacity(n);
    while v.len() < n
        invariant
            v.len() <= n,
            forall|k: int| 0 <= k < v.len() ==> v@[k] == 0u64,
        decreases n - v.len(),
    {
        v.push(0u64);
    }
    assert(v@ =~= Seq::new(n as nat, |k: int| 0u64));
    v
}

/// An allocation owned by one device. The library keeps the allocation's
/// memory itself; its contents are reached only through the transfer
/// primitives below (zeroed allocation, upload, download, same-device block
/// copy, copy to another device), and it is never shared by two owners. A
/// fresh allocation is filled with zeros, so no read sees unset memory.
#[derive(Clone)]
pub struct DeviceBuffer {
    device: Device,
    data: Vec<u64>,
}

impl DeviceBuffer {
    pub closed spec fn view(&self) -> Seq<u64> {
        self.data@
    }

    pub closed spec fn owner(&self) -> Device {
        self.device
    }

    /// Allocates `len` elements on `device`, filled with zeros.
    pub fn zeroed(device: Device, len: usize) -> (r: DeviceBuffer)
        ensures
            r@ == Seq::new(len as nat, |k: int| 0u64),
            r.owner() == device,
    {
        DeviceBuffer { device, data: zero_vec(len) }
    }

    /// Copies host memory into a new allocation on `device`.
    pub fn upload(device: Device, host: &[u64]) -> (r: DeviceBuffer)
        ensures
            r@ == host@,
            r.owner() == device,
    {
        DeviceBuffer { device, data: slice_to_vec(host) }
    }

    /// Copies the allocation back to host memory.
    pub fn download(&self) -> (r: Vec<u64>)
        ensures
            r@ == self@,
    {
        slice_to_vec(self.data.as_slice())
    }

    /// The device that owns the allocation.
    pub fn device(&self) -> (r: Device)
        ensures
            r == self.owner(),
    {
        self.device
    }

    /// Number of elements.
    pub fn len(&self) -> (r: usize)
        ensures
            r == self@.len(),
    {
        self.data.len()
    }

    /// Strided block copy between two allocations on the same device: the
    /// source region of `src` goes onto the destination region of `self`,
    /// `nq` elements per cell.
    pub fn memcpy_3d(&mut self, dreg: &MemoryRegion, src: &DeviceBuffer, sreg: &MemoryRegion, nq: usize)
        requires
            old(self).owner() == src.owner(),
            block_ok(old(self)@, *dreg, src@, *sreg, nq as int),
        ensures
            final(self).owner() == old(self).owner(),
            block_copied(final(self)@, old(self)@, *dreg, src@, *sreg, nq as int),
    {
        copy_block(&mut self.data, dreg, src.data.as_slice(), sreg, nq);
    }

    /// A copy of the allocation on `device`. Between two distinct devices the
    /// copy is staged through host memory.
    pub fn to_device(&self, device: Device) -> (r: DeviceBuffer)
        ensures
            r@ == self@,
            r.owner() == device,
    {
        if device == self.device {
            DeviceBuffer { device, data: slice_to_vec(self.data.as_slice()) }
        } else {
            let staged = self.download();
            DeviceBuffer::upload(device, staged.as_slice())
        }
    }
}

/// Where a patch's storage lives, and what it holds.
#[derive(Clone)]
pub enum Buffer {
    Host(Vec<u64>),
    Device(DeviceBuffer),
}

impl Buffer {
    pub open spec fn view(&self) -> Seq<u64> {
        match self {
            Buffer::Host(v) => v@,
            Buffer::Device(d) => d@,
        }
    }

    /// The device that holds the storage, or `None` for host memory.
    pub open spec fn residency(&self) -> Option<Device> {
        match self {
            Buffer::Host(_) => None,
            Buffer::Device(d) => Some(d.owner()),
        }
    }

    /// Zeros in host memory.
    pub fn host_zeros(len: usize) -> (r: Buffer)
        ensures
            r@ == Seq::new(len as nat, |k: int| 0u64),
            r.residency() == None::<Device>,
    {
        Buffer::Host(zero_vec(len))
    }

    /// Zeros on the given residency.
    pub fn zeros_on(residency: Option<Device>, len: usize) -> (r: Buffer)
        ensures
            r@ == Seq::new(len as nat, |k: int| 0u64),
            r.residency() == residency,
    {
        match residency {
            Some(d) => Buffer::Device(DeviceBuffer::zeroed(d, len)),
            None => Buffer::host_zeros(len),
        }
    }

    pub fn len(&self) -> (r: usize)
        ensures
            r == self@.len(),
    {
        match self {
            Buffer::Host(v) => v.len(),
            Buffer::Device(d) => d.len(),
        }
    }

    /// The device that holds the storage, or `None` for host memory.
    pub fn device(&self) -> (r: Option<Device>)
        ensures
            r == self.residency(),
    {
        match self {
            Buffer::Host(_) => None,
            Buffer::Device(d) => Some(d.device()),
        }
    }

    /// The contents, when they live in host memory.
    pub fn as_slice(&self) -> (r: Option<&[u64]>)
        ensures
            self.residency() is None <==> r is Some,
            r matches Some(s) ==> s@ == self@,
    {
        match self {
            Buffer::Host(v) => Some(v.as_slice()),
            Buffer::Device(_) => None,
        }
    }

    /// The device allocation, when the contents live on a device.
    pub fn as_device_buffer(&self) -> (r: Option<&DeviceBuffer>)
        ensures
            self.residency() is Some <==> r is Some,
            r matches Some(d) ==> d@ == self@ && self.residency() == Some(d.owner()),
    {
        match self {
            Buffer::Host(_) => None,
            Buffer::Device(d) => Some(d),
        }
    }

    /// A copy of the contents on `device`.
    pub fn to_device(&self, device: Device) -> (r: Buffer)
        ensures
            r@ == self@,
            r.residency() == Some(device),
    {
        match self {
            Buffer::Host(v) => Buffer::Device(DeviceBuffer::upload(device, v.as_slice())),
            Buffer::Device(d) => Buffer::Device(d.to_device(device)),
        }
    }

    /// The contents on `device`; no copy is made when they already live there.
    pub fn into_device(self, device: Device) -> (r: Buffer)
        ensures
            r@ == self@,
            r.residency() == Some(device),
    {
        match self {
            Buffer::Device(d) => {
                if d.device() == device {
                    Buffer::Device(d)
                } else {
                    Buffer::Device(d.to_device(device))
                }
            },
            Buffer::Host(v) => Buffer::Device(DeviceBuffer::upload(device, v.as_slice())),
        }
    }

    /// A copy of the contents in host memory.
    pub fn to_host(&self) -> (r: Buffer)
        ensures
            r@ == self@,
            r.residency() == None::<Device>,
    {
        match self {
            Buffer::Host(v) => Buffer::Host(slice_to_vec(v.as_slice())),
            Buffer::Device(d) => Buffer::Host(d.download()),
        }
    }

    /// The contents in host memory; no copy is made when they already live
    /// there.
    pub fn into_host(self) -> (r: Buffer)
        ensures
            r@ == self@,
            r.residency() == None::<Device>,
    {
        match self {
            Buffer::Host(v) => Buffer::Host(v),
            Buffer::Device(d) => Buffer::Host(d.download()),
        }
    }
}

} // verus!
