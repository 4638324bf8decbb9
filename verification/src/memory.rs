//! Host and device memory: pinned host buffers with synchronous copies,
//! stream-ordered device allocations with asynchronous copies, and pitched
//! 2D allocations with strided transfers and exact shape matching; with the
//! host-device round-trip law.

use vstd::prelude::*;
use crate::align::{align_up, align_up_spec, is_power_of_two, lemma_align_up_properties, ALIGNMENT};
use crate::driver::{
    buf_at, buf_bytes, buf_live, clone_bytes, find_buf, lemma_bufs_push, lemma_bufs_push_lookup,
    lemma_bufs_remove, lemma_bufs_update_lookup, lemma_same_queue_records, lemma_write_loc_frame,
    lemma_write_loc_wf,
    overwrite_prefix, read_loc, stream_live, write_loc, Buf, BufM, CuDriver, MemLoc, MemSpace,
    Model, PendingOp, StreamedOp,
};
use crate::error::{CuError, CuResult};
use crate::stream::{stream_clone_t, stream_refs, stream_release_t, stream_valid, CuStream};

verus! {

/// A vector of `n` zero bytes.
fn zero_bytes(n: usize) -> (r: Vec<u8>)
    ensures
        r@ == Seq::new(n as nat, |i: int| 0u8),
{
    let mut r: Vec<u8> = Vec::new();
    let mut i: usize = 0;
    while i < n
        invariant
            i <= n,
            r@.len() == i,
            forall|j: int| 0 <= j < i ==> r@[j] == 0u8,
        decreases n - i,
    {
        r.push(0u8);
        i = i + 1;
    }
    proof {
        assert(r@ =~= Seq::new(n as nat, |i: int| 0u8));
    }
    r
}

// --- pinned host memory ---

/// A pinned host buffer of `size` bytes, exclusively owned; its contents
/// live in the driver state under `handle` and are freed exactly once by
/// `release`.
#[derive(Debug)]
pub struct HostMemory {
    pub handle: u64,
    pub size: usize,
}

/// The wrapper stands for a live host buffer of its stated size.
pub open spec fn host_valid(m: Model, h: HostMemory) -> bool {
    buf_live(m.host_bufs, h.handle) && buf_bytes(m.host_bufs, h.handle).len() == h.size
}

pub open spec fn host_alloc_ok(m: Model) -> bool {
    m.initialized && m.can_alloc()
}

pub open spec fn host_alloc_err(m: Model) -> CuError {
    if !m.initialized {
        CuError::NotInitialized
    } else {
        CuError::OutOfMemory
    }
}

/// Allocation pins a fresh zeroed buffer under the next handle.
pub open spec fn host_alloc_t(m: Model, size: usize) -> Model {
    if host_alloc_ok(m) {
        Model {
            next_handle: (m.next_handle + 1) as u64,
            host_bufs: m.host_bufs.push(
                BufM { handle: m.next_handle, data: Seq::new(size as nat, |i: int| 0u8) },
            ),
            ..m
        }
    } else {
        m
    }
}

/// The model address of a host buffer.
pub open spec fn host_loc(h: u64) -> MemLoc {
    MemLoc { space: MemSpace::Host, handle: h }
}

/// The model address of a device buffer.
pub open spec fn dev_loc(h: u64) -> MemLoc {
    MemLoc { space: MemSpace::Device, handle: h }
}

/// A synchronous copy is owed exactly when the driver is up, both sides are
/// live and `size` bytes fit in each.
pub open spec fn host_copy_ok(m: Model, src: MemLoc, dst: MemLoc, size: usize) -> bool {
    &&& m.initialized
    &&& read_loc(m, src) is Some
    &&& read_loc(m, dst) is Some
    &&& size <= read_loc(m, src)->Some_0.len()
    &&& size <= read_loc(m, dst)->Some_0.len()
}

pub open spec fn host_copy_err(m: Model) -> CuError {
    if !m.initialized {
        CuError::NotInitialized
    } else {
        CuError::InvalidValue
    }
}

/// The synchronous copy itself: the first `size` bytes of `dst` become the
/// first `size` bytes of `src`, immediately.
pub open spec fn host_copy_t(m: Model, src: MemLoc, dst: MemLoc, size: usize) -> Model {
    if host_copy_ok(m, src, dst, size) {
        write_loc(
            m,
            dst,
            overwrite_prefix(read_loc(m, dst)->Some_0, read_loc(m, src)->Some_0, size as int),
        )
    } else {
        m
    }
}

/// Freeing removes the buffer, once.
pub open spec fn host_free_t(m: Model, h: u64) -> Model {
    if buf_live(m.host_bufs, h) {
        Model { host_bufs: m.host_bufs.remove(buf_at(m.host_bufs, h)), ..m }
    } else {
        m
    }
}

/// A synchronous copy between model addresses: validates, then applies the
/// byte transfer at once.
fn copy_now(drv: &mut CuDriver, src: MemLoc, dst: MemLoc, size: usize) -> (r: CuResult<()>)
    requires
        old(drv)@.wf(),
    ensures
        final(drv)@ == host_copy_t(old(drv)@, src, dst, size),
        final(drv)@.wf(),
        r is Ok <==> host_copy_ok(old(drv)@, src, dst, size),
        r is Err ==> r->Err_0 == host_copy_err(old(drv)@),
{
    if !drv.initialized {
        return Err(CuError::NotInitialized);
    }
    let sb = match drv.lookup_bytes(src) {
        Some(b) => b,
        None => {
            return Err(CuError::InvalidValue);
        },
    };
    let db = match drv.lookup_bytes(dst) {
        Some(b) => b,
        None => {
            return Err(CuError::InvalidValue);
        },
    };
    if size > sb.len() || size > db.len() {
        return Err(CuError::InvalidValue);
    }
    let nb = crate::driver::overwrite_prefix_exec(&db, &sb, size);
    drv.write_loc_exec(dst, nb);
    proof {
        lemma_write_loc_wf(old(drv)@, dst, nb@);
    }
    Ok(())
}

impl HostMemory {
    /// Pins `size` bytes of host memory, zeroed, exclusively owned by the
    /// returned wrapper.
    pub fn new(drv: &mut CuDriver, size: usize) -> (r: CuResult<HostMemory>)
        requires
            old(drv)@.wf(),
        ensures
            final(drv)@ == host_alloc_t(old(drv)@, size),
            final(drv)@.wf(),
            r is Ok <==> host_alloc_ok(old(drv)@),
            r is Ok ==> r->Ok_0 == (HostMemory { handle: old(drv)@.next_handle, size })
                && host_valid(final(drv)@, r->Ok_0),
            r is Err ==> r->Err_0 == host_alloc_err(old(drv)@),
    {
        if !drv.initialized {
            return Err(CuError::NotInitialized);
        }
        if drv.next_handle == u64::MAX {
            return Err(CuError::OutOfMemory);
        }
        let h = drv.next_handle;
        let data = zero_bytes(size);
        drv.host_bufs.push(Buf { handle: h, data });
        drv.next_handle = h + 1;
        proof {
            assert(drv@.host_bufs =~= old(drv)@.host_bufs.push(
                BufM { handle: h, data: Seq::new(size as nat, |i: int| 0u8) },
            ));
            assert(drv@ =~= host_alloc_t(old(drv)@, size));
            lemma_bufs_push(
                old(drv)@.host_bufs,
                h,
                BufM { handle: h, data: Seq::new(size as nat, |i: int| 0u8) },
            );
            lemma_same_queue_records(old(drv)@, drv@);
            assert(drv@.wf());
            lemma_bufs_push_lookup(
                old(drv)@.host_bufs,
                h,
                BufM { handle: h, data: Seq::new(size as nat, |i: int| 0u8) },
            );
        }
        Ok(HostMemory { handle: h, size })
    }

    /// Wraps an existing allocation by its raw handle and size; the caller
    /// answers for both.
    pub fn from_raw(handle: u64, size: usize) -> (r: HostMemory)
        ensures
            r == (HostMemory { handle, size }),
    {
        HostMemory { handle, size }
    }

    /// The raw handle of the pinned allocation.
    pub fn get_raw(&self) -> (r: u64)
        ensures
            r == self.handle,
    {
        self.handle
    }

    /// The buffer's bytes, as they stand.
    pub fn read_bytes(&self, drv: &CuDriver) -> (r: Vec<u8>)
        requires
            drv@.wf(),
            host_valid(drv@, *self),
        ensures
            r@ == buf_bytes(drv@.host_bufs, self.handle),
    {
        let i = find_buf(&drv.host_bufs, self.handle).unwrap();
        clone_bytes(&drv.host_bufs[i].data)
    }

    /// Overwrites the whole buffer with `data`, which must be exactly its
    /// size.
    pub fn write_bytes(&self, drv: &mut CuDriver, data: &Vec<u8>)
        requires
            old(drv)@.wf(),
            host_valid(old(drv)@, *self),
            data@.len() == self.size,
        ensures
            final(drv)@ == write_loc(old(drv)@, host_loc(self.handle), data@),
            final(drv)@.wf(),
            host_valid(final(drv)@, *self),
            buf_bytes(final(drv)@.host_bufs, self.handle) == data@,
    {
        let d = clone_bytes(data);
        drv.write_loc_exec(MemLoc { space: MemSpace::Host, handle: self.handle }, d);
        proof {
            lemma_write_loc_wf(old(drv)@, host_loc(self.handle), data@);
            lemma_bufs_update_lookup(
                old(drv)@.host_bufs,
                buf_at(old(drv)@.host_bufs, self.handle),
                BufM { handle: self.handle, data: data@ },
            );
        }
    }

    /// Synchronous copy of `size` bytes from this buffer to an arbitrary
    /// address; the driver works out the direction from the address itself.
    pub fn copy_to_raw(&self, drv: &mut CuDriver, dst: MemLoc, size: usize) -> (r: CuResult<()>)
        requires
            old(drv)@.wf(),
        ensures
            final(drv)@ == host_copy_t(old(drv)@, host_loc(self.handle), dst, size),
            final(drv)@.wf(),
            r is Ok <==> host_copy_ok(old(drv)@, host_loc(self.handle), dst, size),
            r is Err ==> r->Err_0 == host_copy_err(old(drv)@),
    {
        copy_now(drv, MemLoc { space: MemSpace::Host, handle: self.handle }, dst, size)
    }

    /// Synchronous copy of `size` bytes from an arbitrary address into this
    /// buffer.
    pub fn copy_from_raw(&self, drv: &mut CuDriver, src: MemLoc, size: usize) -> (r: CuResult<()>)
        requires
            old(drv)@.wf(),
        ensures
            final(drv)@ == host_copy_t(old(drv)@, src, host_loc(self.handle), size),
            final(drv)@.wf(),
            r is Ok <==> host_copy_ok(old(drv)@, src, host_loc(self.handle), size),
            r is Err ==> r->Err_0 == host_copy_err(old(drv)@),
    {
        copy_now(drv, src, MemLoc { space: MemSpace::Host, handle: self.handle }, size)
    }

    /// Copies `dst.size` bytes from this buffer into `dst`, synchronously.
    pub fn copy_to(&self, drv: &mut CuDriver, dst: &HostMemory) -> (r: CuResult<()>)
        requires
            old(drv)@.wf(),
        ensures
            final(drv)@ == host_copy_t(
                old(drv)@,
                host_loc(self.handle),
                host_loc(dst.handle),
                dst.size,
            ),
            final(drv)@.wf(),
            r is Ok <==> host_copy_ok(old(drv)@, host_loc(self.handle), host_loc(dst.handle), dst.size),
            r is Err ==> r->Err_0 == host_copy_err(old(drv)@),
    {
        self.copy_to_raw(drv, MemLoc { space: MemSpace::Host, handle: dst.handle }, dst.size)
    }

    /// A same-size pinned allocation holding a copy of this buffer's bytes.
    pub fn try_clone(&self, drv: &mut CuDriver) -> (r: CuResult<HostMemory>)
        requires
            old(drv)@.wf(),
            host_valid(old(drv)@, *self),
        ensures
            final(drv)@ == host_copy_t(
                host_alloc_t(old(drv)@, self.size),
                host_loc(self.handle),
                host_loc(old(drv)@.next_handle),
                self.size,
            ),
            final(drv)@.wf(),
            r is Ok <==> host_alloc_ok(old(drv)@),
            r is Ok ==> r->Ok_0 == (HostMemory { handle: old(drv)@.next_handle, size: self.size })
                && host_valid(final(drv)@, r->Ok_0) && buf_bytes(
                final(drv)@.host_bufs,
                r->Ok_0.handle,
            ) == buf_bytes(old(drv)@.host_bufs, self.handle),
            r is Err ==> r->Err_0 == host_alloc_err(old(drv)@),
    {
        let ghost m0 = drv@;
        let dst = HostMemory::new(drv, self.size)?;
        let ghost m1 = drv@;
        proof {
            lemma_bufs_push_lookup(
                m0.host_bufs,
                m0.next_handle,
                BufM { handle: m0.next_handle, data: Seq::new(self.size as nat, |i: int| 0u8) },
            );
            assert(self.handle != m0.next_handle);
            assert(buf_bytes(m1.host_bufs, self.handle) == buf_bytes(m0.host_bufs, self.handle));
        }
        let cr = self.copy_to(drv, &dst);
        proof {
            assert(cr is Ok);
            lemma_bufs_update_lookup(
                m1.host_bufs,
                buf_at(m1.host_bufs, dst.handle),
                BufM {
                    handle: dst.handle,
                    data: overwrite_prefix(
                        buf_bytes(m1.host_bufs, dst.handle),
                        buf_bytes(m1.host_bufs, self.handle),
                        self.size as int,
                    ),
                },
            );
            assert(buf_bytes(drv@.host_bufs, dst.handle) =~= buf_bytes(
                m0.host_bufs,
                self.handle,
            ));
        }
        Ok(dst)
    }

    /// Frees the pinned buffer, exactly once; release paths report nothing.
    pub fn release(self, drv: &mut CuDriver)
        requires
            old(drv)@.wf(),
        ensures
            final(drv)@ == host_free_t(old(drv)@, self.handle),
            final(drv)@.wf(),
    {
        match find_buf(&drv.host_bufs, self.handle) {
            Some(i) => {
                drv.host_bufs.remove(i);
                proof {
                    assert(drv@.host_bufs =~= old(drv)@.host_bufs.remove(i as int));
                    assert(drv@ =~= host_free_t(old(drv)@, self.handle));
                    lemma_bufs_remove(old(drv)@.host_bufs, old(drv)@.next_handle, i as int);
                    lemma_same_queue_records(old(drv)@, drv@);
                    assert(drv@.wf());
                }
            },
            None => {},
        }
    }
}


// --- device memory, stream-ordered ---

/// A device allocation of `size` bytes bound to the stream that allocated
/// it; the wrapper holds a counted clone of that stream, so it outlives the
/// caller's own handle. All copies are asynchronous: they queue on a stream
/// and take effect in submission order.
#[derive(Debug)]
pub struct DeviceMemory {
    pub handle: u64,
    pub size: usize,
    pub stream: CuStream,
}

/// The wrapper stands for a live device buffer of its stated size, bound to
/// a valid stream.
pub open spec fn dev_valid(m: Model, d: DeviceMemory) -> bool {
    &&& buf_live(m.dev_bufs, d.handle)
    &&& buf_bytes(m.dev_bufs, d.handle).len() == d.size
    &&& stream_valid(m, d.stream)
    &&& stream_live(m.streams, d.stream.raw)
}

/// The stream an operation runs on: the explicit one where given, else the
/// bound one.
pub open spec fn chosen(st: Option<&CuStream>, dflt: u64) -> u64 {
    match st {
        Some(s) => s.raw,
        None => dflt,
    }
}

pub open spec fn dev_alloc_ok(m: Model, s_raw: u64) -> bool {
    m.initialized && stream_live(m.streams, s_raw) && m.can_alloc()
}

pub open spec fn dev_alloc_err(m: Model, s_raw: u64) -> CuError {
    if !m.initialized {
        CuError::NotInitialized
    } else if !stream_live(m.streams, s_raw) {
        CuError::InvalidHandle
    } else {
        CuError::OutOfMemory
    }
}

/// Allocation registers a fresh zeroed device buffer under the next handle
/// and counts one more reference on the allocating stream, which the
/// wrapper keeps.
pub open spec fn dev_alloc_t(m: Model, size: usize, st: CuStream) -> Model {
    if dev_alloc_ok(m, st.raw) {
        stream_clone_t(
            Model {
                next_handle: (m.next_handle + 1) as u64,
                dev_bufs: m.dev_bufs.push(
                    BufM { handle: m.next_handle, data: Seq::new(size as nat, |i: int| 0u8) },
                ),
                ..m
            },
            st,
        )
    } else {
        m
    }
}

pub open spec fn async_copy_ok(m: Model, src: MemLoc, dst: MemLoc, size: usize, s_raw: u64) -> bool {
    &&& m.initialized
    &&& stream_live(m.streams, s_raw)
    &&& read_loc(m, src) is Some
    &&& read_loc(m, dst) is Some
    &&& size <= read_loc(m, src)->Some_0.len()
    &&& size <= read_loc(m, dst)->Some_0.len()
}

pub open spec fn async_copy_err(m: Model, s_raw: u64) -> CuError {
    if !m.initialized {
        CuError::NotInitialized
    } else if !stream_live(m.streams, s_raw) {
        CuError::InvalidHandle
    } else {
        CuError::InvalidValue
    }
}

/// An asynchronous copy only queues: the bytes move when the op executes,
/// in submission order.
pub open spec fn async_copy_t(m: Model, src: MemLoc, dst: MemLoc, size: usize, s_raw: u64) -> Model {
    if async_copy_ok(m, src, dst, size, s_raw) {
        Model {
            pending: m.pending.push(
                StreamedOp { stream: s_raw, op: PendingOp::Copy { dst, src, size } },
            ),
            ..m
        }
    } else {
        m
    }
}

/// Releasing device memory queues a stream-ordered free — it does not wait
/// for it and reports nothing — and lets the bound stream's reference go.
pub open spec fn dev_release_t(m: Model, d: DeviceMemory) -> Model {
    stream_release_t(
        Model {
            pending: m.pending.push(
                StreamedOp { stream: d.stream.raw, op: PendingOp::FreeDevice { handle: d.handle } },
            ),
            ..m
        },
        d.stream,
    )
}

/// The byte length of the buffer at a model address, if it is live.
fn loc_len(drv: &CuDriver, loc: MemLoc) -> (r: Option<usize>)
    requires
        drv@.wf(),
    ensures
        r is Some <==> read_loc(drv@, loc) is Some,
        r is Some ==> r->Some_0 == read_loc(drv@, loc)->Some_0.len(),
{
    match loc.space {
        MemSpace::Host => {
            match find_buf(&drv.host_bufs, loc.handle) {
                Some(i) => Some(drv.host_bufs[i].data.len()),
                None => None,
            }
        },
        MemSpace::Device => {
            match find_buf(&drv.dev_bufs, loc.handle) {
                Some(i) => Some(drv.dev_bufs[i].data.len()),
                None => None,
            }
        },
    }
}

/// Validates and queues an asynchronous copy.
fn copy_async(drv: &mut CuDriver, src: MemLoc, dst: MemLoc, size: usize, s_raw: u64) -> (r: CuResult<()>)
    requires
        old(drv)@.wf(),
    ensures
        final(drv)@ == async_copy_t(old(drv)@, src, dst, size, s_raw),
        final(drv)@.wf(),
        r is Ok <==> async_copy_ok(old(drv)@, src, dst, size, s_raw),
        r is Err ==> r->Err_0 == async_copy_err(old(drv)@, s_raw),
{
    if !drv.initialized {
        return Err(CuError::NotInitialized);
    }
    if drv.find_stream(s_raw).is_none() {
        return Err(CuError::InvalidHandle);
    }
    let sl = match loc_len(drv, src) {
        Some(l) => l,
        None => {
            return Err(CuError::InvalidValue);
        },
    };
    let dl = match loc_len(drv, dst) {
        Some(l) => l,
        None => {
            return Err(CuError::InvalidValue);
        },
    };
    if size > sl || size > dl {
        return Err(CuError::InvalidValue);
    }
    drv.enqueue(StreamedOp { stream: s_raw, op: PendingOp::Copy { dst, src, size } });
    Ok(())
}

impl DeviceMemory {
    /// Allocates `size` bytes on `stream`'s queue. Per the driver's
    /// stream-ordering contract the allocation is usable once prior work on
    /// the stream completes; the wrapper keeps a counted clone of the
    /// stream so it outlives the caller's handle.
    pub fn new(drv: &mut CuDriver, size: usize, stream: &CuStream) -> (r: CuResult<DeviceMemory>)
        requires
            old(drv)@.wf(),
            stream_valid(old(drv)@, *stream),
            stream.ownership is Owned ==> stream_refs(old(drv)@, stream.raw) < u64::MAX,
        ensures
            final(drv)@ == dev_alloc_t(old(drv)@, size, *stream),
            final(drv)@.wf(),
            r is Ok <==> dev_alloc_ok(old(drv)@, stream.raw),
            r is Ok ==> r->Ok_0 == (DeviceMemory {
                handle: old(drv)@.next_handle,
                size,
                stream: *stream,
            }) && dev_valid(final(drv)@, r->Ok_0),
            r is Err ==> r->Err_0 == dev_alloc_err(old(drv)@, stream.raw),
    {
        if !drv.initialized {
            return Err(CuError::NotInitialized);
        }
        if drv.find_stream(stream.raw).is_none() {
            return Err(CuError::InvalidHandle);
        }
        if drv.next_handle == u64::MAX {
            return Err(CuError::OutOfMemory);
        }
        let h = drv.next_handle;
        let data = zero_bytes(size);
        drv.dev_bufs.push(Buf { handle: h, data });
        drv.next_handle = h + 1;
        let ghost mi = drv@;
        proof {
            assert(mi.dev_bufs =~= old(drv)@.dev_bufs.push(
                BufM { handle: h, data: Seq::new(size as nat, |i: int| 0u8) },
            ));
            lemma_bufs_push(
                old(drv)@.dev_bufs,
                h,
                BufM { handle: h, data: Seq::new(size as nat, |i: int| 0u8) },
            );
            lemma_same_queue_records(old(drv)@, mi);
            assert(mi.wf());
            lemma_bufs_push_lookup(
                old(drv)@.dev_bufs,
                h,
                BufM { handle: h, data: Seq::new(size as nat, |i: int| 0u8) },
            );
        }
        let st = stream.clone_ref(drv);
        proof {
            assert(drv@ =~= dev_alloc_t(old(drv)@, size, *stream));
            assert(buf_live(drv@.dev_bufs, h));
        }
        Ok(DeviceMemory { handle: h, size, stream: st })
    }

    /// Wraps an existing device allocation by its raw handle and size,
    /// binding it to a counted clone of `stream`; the caller answers for
    /// handle and size.
    pub fn from_raw(drv: &mut CuDriver, handle: u64, size: usize, stream: &CuStream) -> (r:
        DeviceMemory)
        requires
            old(drv)@.wf(),
            stream_valid(old(drv)@, *stream),
            stream.ownership is Owned ==> stream_refs(old(drv)@, stream.raw) < u64::MAX,
        ensures
            final(drv)@ == stream_clone_t(old(drv)@, *stream),
            final(drv)@.wf(),
            r == (DeviceMemory { handle, size, stream: *stream }),
    {
        let st = stream.clone_ref(drv);
        DeviceMemory { handle, size, stream: st }
    }

    /// The raw handle of the device allocation.
    pub fn get_raw(&self) -> (r: u64)
        ensures
            r == self.handle,
    {
        self.handle
    }

    /// Queues an asynchronous copy of `size` bytes out of this buffer to an
    /// arbitrary address, on the given stream or the bound one.
    pub fn copy_to_raw(
        &self,
        drv: &mut CuDriver,
        dst: MemLoc,
        size: usize,
        stream: Option<&CuStream>,
    ) -> (r: CuResult<()>)
        requires
            old(drv)@.wf(),
        ensures
            final(drv)@ == async_copy_t(
                old(drv)@,
                dev_loc(self.handle),
                dst,
                size,
                chosen(stream, self.stream.raw),
            ),
            final(drv)@.wf(),
            r is Ok <==> async_copy_ok(
                old(drv)@,
                dev_loc(self.handle),
                dst,
                size,
                chosen(stream, self.stream.raw),
            ),
            r is Err ==> r->Err_0 == async_copy_err(old(drv)@, chosen(stream, self.stream.raw)),
    {
        let s_raw = match stream {
            Some(s) => s.raw,
            None => self.stream.raw,
        };
        copy_async(drv, MemLoc { space: MemSpace::Device, handle: self.handle }, dst, size, s_raw)
    }

    /// Queues an asynchronous copy of `size` bytes from an arbitrary
    /// address into this buffer, on the given stream or the bound one.
    pub fn copy_from_raw(
        &self,
        drv: &mut CuDriver,
        src: MemLoc,
        size: usize,
        stream: Option<&CuStream>,
    ) -> (r: CuResult<()>)
        requires
            old(drv)@.wf(),
        ensures
            final(drv)@ == async_copy_t(
                old(drv)@,
                src,
                dev_loc(self.handle),
                size,
                chosen(stream, self.stream.raw),
            ),
            final(drv)@.wf(),
            r is Ok <==> async_copy_ok(
                old(drv)@,
                src,
                dev_loc(self.handle),
                size,
                chosen(stream, self.stream.raw),
            ),
            r is Err ==> r->Err_0 == async_copy_err(old(drv)@, chosen(stream, self.stream.raw)),
    {
        let s_raw = match stream {
            Some(s) => s.raw,
            None => self.stream.raw,
        };
        copy_async(drv, src, MemLoc { space: MemSpace::Device, handle: self.handle }, size, s_raw)
    }

    /// Queues a copy of `dst.size` bytes from this buffer into `dst`.
    pub fn copy_to(&self, drv: &mut CuDriver, dst: &DeviceMemory, stream: Option<&CuStream>) -> (r:
        CuResult<()>)
        requires
            old(drv)@.wf(),
        ensures
            final(drv)@ == async_copy_t(
                old(drv)@,
                dev_loc(self.handle),
                dev_loc(dst.handle),
                dst.size,
                chosen(stream, self.stream.raw),
            ),
            final(drv)@.wf(),
            r is Ok <==> async_copy_ok(
                old(drv)@,
                dev_loc(self.handle),
                dev_loc(dst.handle),
                dst.size,
                chosen(stream, self.stream.raw),
            ),
            r is Err ==> r->Err_0 == async_copy_err(old(drv)@, chosen(stream, self.stream.raw)),
    {
        self.copy_to_raw(drv, MemLoc { space: MemSpace::Device, handle: dst.handle }, dst.size, stream)
    }

    /// Queues a copy of this buffer's `size` bytes out of `src` into this
    /// buffer. The call hands the work to `src`, so without an explicit
    /// stream the copy runs on the source's bound stream.
    pub fn copy_from(&self, drv: &mut CuDriver, src: &DeviceMemory, stream: Option<&CuStream>) -> (r:
        CuResult<()>)
        requires
            old(drv)@.wf(),
        ensures
            final(drv)@ == async_copy_t(
                old(drv)@,
                dev_loc(src.handle),
                dev_loc(self.handle),
                self.size,
                chosen(stream, src.stream.raw),
            ),
            final(drv)@.wf(),
            r is Ok <==> async_copy_ok(
                old(drv)@,
                dev_loc(src.handle),
                dev_loc(self.handle),
                self.size,
                chosen(stream, src.stream.raw),
            ),
            r is Err ==> r->Err_0 == async_copy_err(old(drv)@, chosen(stream, src.stream.raw)),
    {
        src.copy_to_raw(
            drv,
            MemLoc { space: MemSpace::Device, handle: self.handle },
            self.size,
            stream,
        )
    }

    /// A new same-size allocation on the same stream, with an asynchronous
    /// copy of this buffer queued into it.
    pub fn try_clone(&self, drv: &mut CuDriver) -> (r: CuResult<DeviceMemory>)
        requires
            old(drv)@.wf(),
            dev_valid(old(drv)@, *self),
            self.stream.ownership is Owned ==> stream_refs(old(drv)@, self.stream.raw) < u64::MAX,
        ensures
            final(drv)@ == async_copy_t(
                dev_alloc_t(old(drv)@, self.size, self.stream),
                dev_loc(self.handle),
                dev_loc(old(drv)@.next_handle),
                self.size,
                self.stream.raw,
            ),
            final(drv)@.wf(),
            r is Ok <==> dev_alloc_ok(old(drv)@, self.stream.raw),
            r is Ok ==> r->Ok_0 == (DeviceMemory {
                handle: old(drv)@.next_handle,
                size: self.size,
                stream: self.stream,
            }),
            r is Err ==> r->Err_0 == dev_alloc_err(old(drv)@, self.stream.raw),
    {
        let ghost m0 = drv@;
        let dst = DeviceMemory::new(drv, self.size, &self.stream)?;
        proof {
            lemma_bufs_push_lookup(
                m0.dev_bufs,
                m0.next_handle,
                BufM { handle: m0.next_handle, data: Seq::new(self.size as nat, |i: int| 0u8) },
            );
            assert(self.handle != m0.next_handle);
        }
        let cr = self.copy_to(drv, &dst, None);
        proof {
            assert(cr is Ok);
        }
        Ok(dst)
    }

    /// A same-size pinned host buffer with an asynchronous device-to-host
    /// copy queued on the bound stream; the contents are valid only once
    /// that stream reaches this point, so the caller must synchronize.
    pub fn to_host(&self, drv: &mut CuDriver) -> (r: CuResult<HostMemory>)
        requires
            old(drv)@.wf(),
            dev_valid(old(drv)@, *self),
        ensures
            final(drv)@ == async_copy_t(
                host_alloc_t(old(drv)@, self.size),
                dev_loc(self.handle),
                host_loc(old(drv)@.next_handle),
                self.size,
                self.stream.raw,
            ),
            final(drv)@.wf(),
            r is Ok <==> host_alloc_ok(old(drv)@),
            r is Ok ==> r->Ok_0 == (HostMemory { handle: old(drv)@.next_handle, size: self.size })
                && host_valid(final(drv)@, r->Ok_0),
            r is Err ==> r->Err_0 == host_alloc_err(old(drv)@),
    {
        let ghost m0 = drv@;
        let hm = HostMemory::new(drv, self.size)?;
        proof {
            lemma_bufs_push_lookup(
                m0.host_bufs,
                m0.next_handle,
                BufM { handle: m0.next_handle, data: Seq::new(self.size as nat, |i: int| 0u8) },
            );
        }
        let cr = self.copy_to_raw(
            drv,
            MemLoc { space: MemSpace::Host, handle: hm.handle },
            self.size,
            None,
        );
        proof {
            assert(cr is Ok);
            assert(host_valid(drv@, hm));
        }
        Ok(hm)
    }

    /// Queues a stream-ordered free of the allocation on the bound stream —
    /// deliberately without waiting for or reporting its outcome — and lets
    /// the stream's counted reference go.
    pub fn release(self, drv: &mut CuDriver)
        requires
            old(drv)@.wf(),
            stream_valid(old(drv)@, self.stream),
        ensures
            final(drv)@ == dev_release_t(old(drv)@, self),
            final(drv)@.wf(),
    {
        drv.enqueue(
            StreamedOp { stream: self.stream.raw, op: PendingOp::FreeDevice { handle: self.handle } },
        );
        self.stream.release(drv);
    }
}


// --- pitched 2D device memory ---

/// A 2D device allocation: `height` rows of `width` logical bytes, each row
/// padded to `pitch`, the row stride rounded up to the alignment; the
/// backing storage is `pitch * height` bytes of device memory.
#[derive(Debug)]
pub struct PitchedDeviceMemory {
    pub memory: DeviceMemory,
    pub pitch: usize,
    pub width: usize,
    pub height: usize,
}

/// The shape invariant: the pitch is the width rounded up to the alignment
/// — so `pitch >= width` and `pitch % ALIGNMENT == 0` — and the backing
/// buffer is exactly `pitch * height` bytes.
pub open spec fn pitched_wf(p: PitchedDeviceMemory) -> bool {
    &&& p.pitch == align_up_spec(p.width as int, ALIGNMENT as int)
    &&& p.memory.size == p.pitch * p.height
}

pub open spec fn copy2d_ok(
    m: Model,
    dst: MemLoc,
    dst_pitch: usize,
    src: MemLoc,
    src_pitch: usize,
    width: usize,
    height: usize,
    s_raw: u64,
) -> bool {
    &&& m.initialized
    &&& stream_live(m.streams, s_raw)
    &&& read_loc(m, src) is Some
    &&& read_loc(m, dst) is Some
    &&& 1 <= dst_pitch && width <= dst_pitch
    &&& 1 <= src_pitch && width <= src_pitch
    &&& dst_pitch * height <= read_loc(m, dst)->Some_0.len()
    &&& src_pitch * height <= read_loc(m, src)->Some_0.len()
}

pub open spec fn copy2d_err(m: Model, s_raw: u64) -> CuError {
    if !m.initialized {
        CuError::NotInitialized
    } else if !stream_live(m.streams, s_raw) {
        CuError::InvalidHandle
    } else {
        CuError::InvalidValue
    }
}

/// A validated 2D copy only queues; the rows move when the op executes, in
/// submission order.
pub open spec fn copy2d_t(
    m: Model,
    dst: MemLoc,
    dst_pitch: usize,
    src: MemLoc,
    src_pitch: usize,
    width: usize,
    height: usize,
    s_raw: u64,
) -> Model {
    if copy2d_ok(m, dst, dst_pitch, src, src_pitch, width, height, s_raw) {
        Model {
            pending: m.pending.push(
                StreamedOp {
                    stream: s_raw,
                    op: PendingOp::Copy2d { dst, dst_pitch, src, src_pitch, width, height },
                },
            ),
            ..m
        }
    } else {
        m
    }
}

/// An outbound 2D copy first holds the peer's shape against this
/// allocation's: on mismatch nothing is validated and nothing is queued.
pub open spec fn p2d_to_t(
    m: Model,
    p: PitchedDeviceMemory,
    dst: MemLoc,
    dst_pitch: usize,
    width: usize,
    height: usize,
    s_raw: u64,
) -> Model {
    if width != p.width || height != p.height {
        m
    } else {
        copy2d_t(m, dst, dst_pitch, dev_loc(p.memory.handle), p.pitch, width, height, s_raw)
    }
}

pub open spec fn p2d_from_t(
    m: Model,
    p: PitchedDeviceMemory,
    src: MemLoc,
    src_pitch: usize,
    width: usize,
    height: usize,
    s_raw: u64,
) -> Model {
    if width != p.width || height != p.height {
        m
    } else {
        copy2d_t(m, dev_loc(p.memory.handle), p.pitch, src, src_pitch, width, height, s_raw)
    }
}

/// Validates and queues an asynchronous 2D copy.
fn copy2d_async(
    drv: &mut CuDriver,
    dst: MemLoc,
    dst_pitch: usize,
    src: MemLoc,
    src_pitch: usize,
    width: usize,
    height: usize,
    s_raw: u64,
) -> (r: CuResult<()>)
    requires
        old(drv)@.wf(),
    ensures
        final(drv)@ == copy2d_t(old(drv)@, dst, dst_pitch, src, src_pitch, width, height, s_raw),
        final(drv)@.wf(),
        r is Ok <==> copy2d_ok(old(drv)@, dst, dst_pitch, src, src_pitch, width, height, s_raw),
        r is Err ==> r->Err_0 == copy2d_err(old(drv)@, s_raw),
{
    if !drv.initialized {
        return Err(CuError::NotInitialized);
    }
    if drv.find_stream(s_raw).is_none() {
        return Err(CuError::InvalidHandle);
    }
    let sl = match loc_len(drv, src) {
        Some(l) => l,
        None => {
            return Err(CuError::InvalidValue);
        },
    };
    let dl = match loc_len(drv, dst) {
        Some(l) => l,
        None => {
            return Err(CuError::InvalidValue);
        },
    };
    if dst_pitch < 1 || width > dst_pitch || src_pitch < 1 || width > src_pitch {
        return Err(CuError::InvalidValue);
    }
    proof {
        assert(usize::MAX as int <= u64::MAX as int);
        assert((dst_pitch as int) * (height as int) <= u128::MAX as int && (src_pitch as int) * (
        height as int) <= u128::MAX as int) by (nonlinear_arith)
            requires
                0 <= dst_pitch as int <= u64::MAX as int,
                0 <= src_pitch as int <= u64::MAX as int,
                0 <= height as int <= u64::MAX as int,
        ;
    }
    if (dst_pitch as u128) * (height as u128) > dl as u128 || (src_pitch as u128) * (height as u128)
        > sl as u128 {
        return Err(CuError::InvalidValue);
    }
    drv.enqueue(
        StreamedOp { stream: s_raw, op: PendingOp::Copy2d { dst, dst_pitch, src, src_pitch, width, height } },
    );
    Ok(())
}

impl PitchedDeviceMemory {
    /// Allocates a 2D buffer of `height` rows of `width` bytes, each row
    /// padded to the next multiple of the alignment; the backing storage is
    /// `pitch * height` bytes of stream-ordered device memory. The padded
    /// size must fit the machine word: overflow here is a fatal logic
    /// error of the caller, excluded rather than reported.
    pub fn new(drv: &mut CuDriver, width: usize, height: usize, stream: &CuStream) -> (r: CuResult<PitchedDeviceMemory>)
        requires
            old(drv)@.wf(),
            stream_valid(old(drv)@, *stream),
            stream.ownership is Owned ==> stream_refs(old(drv)@, stream.raw) < u64::MAX,
            align_up_spec(width as int, ALIGNMENT as int) <= usize::MAX,
            align_up_spec(width as int, ALIGNMENT as int) * height <= usize::MAX,
        ensures
            final(drv)@ == dev_alloc_t(
                old(drv)@,
                (align_up_spec(width as int, ALIGNMENT as int) * height) as usize,
                *stream,
            ),
            final(drv)@.wf(),
            r is Ok <==> dev_alloc_ok(old(drv)@, stream.raw),
            r is Ok ==> r->Ok_0 == (PitchedDeviceMemory {
                memory: DeviceMemory {
                    handle: old(drv)@.next_handle,
                    size: (align_up_spec(width as int, ALIGNMENT as int) * height) as usize,
                    stream: *stream,
                },
                pitch: align_up_spec(width as int, ALIGNMENT as int) as usize,
                width,
                height,
            }) && pitched_wf(r->Ok_0) && dev_valid(final(drv)@, r->Ok_0.memory),
            r is Err ==> r->Err_0 == dev_alloc_err(old(drv)@, stream.raw),
    {
        proof {
            reveal_with_fuel(is_power_of_two, 11);
            assert(is_power_of_two(ALIGNMENT as int));
            lemma_align_up_properties(width as int, ALIGNMENT as int);
        }
        let pitch = align_up(width, ALIGNMENT);
        let size = pitch * height;
        let memory = DeviceMemory::new(drv, size, stream)?;
        Ok(PitchedDeviceMemory { memory, pitch, width, height })
    }

    /// The raw handle of the backing device allocation.
    pub fn get_raw(&self) -> (r: u64)
        ensures
            r == self.memory.handle,
    {
        self.memory.handle
    }

    /// Queues an asynchronous strided 2D copy out of this allocation to an
    /// arbitrary 2D target. The peer's `width` and `height` must match this
    /// allocation's exactly: on mismatch the call fails with `InvalidValue`
    /// before anything is validated or queued.
    pub fn copy_to_raw(
        &self,
        drv: &mut CuDriver,
        dst: MemLoc,
        pitch: usize,
        width: usize,
        height: usize,
        stream: Option<&CuStream>,
    ) -> (r: CuResult<()>)
        requires
            old(drv)@.wf(),
        ensures
            final(drv)@ == p2d_to_t(
                old(drv)@,
                *self,
                dst,
                pitch,
                width,
                height,
                chosen(stream, self.memory.stream.raw),
            ),
            final(drv)@.wf(),
            width != self.width || height != self.height ==> r == Err::<(), CuError>(
                CuError::InvalidValue,
            ) && final(drv)@ == old(drv)@,
            r is Ok <==> (width == self.width && height == self.height && copy2d_ok(
                old(drv)@,
                dst,
                pitch,
                dev_loc(self.memory.handle),
                self.pitch,
                width,
                height,
                chosen(stream, self.memory.stream.raw),
            )),
            r is Err && width == self.width && height == self.height ==> r->Err_0 == copy2d_err(
                old(drv)@,
                chosen(stream, self.memory.stream.raw),
            ),
    {
        if width != self.width || height != self.height {
            return Err(CuError::InvalidValue);
        }
        let s_raw = match stream {
            Some(s) => s.raw,
            None => self.memory.stream.raw,
        };
        copy2d_async(
            drv,
            dst,
            pitch,
            MemLoc { space: MemSpace::Device, handle: self.memory.handle },
            self.pitch,
            width,
            height,
            s_raw,
        )
    }

    /// Queues an asynchronous strided 2D copy from an arbitrary 2D source
    /// into this allocation, under the same exact shape-matching rule.
    pub fn copy_from_raw(
        &self,
        drv: &mut CuDriver,
        src: MemLoc,
        pitch: usize,
        width: usize,
        height: usize,
        stream: Option<&CuStream>,
    ) -> (r: CuResult<()>)
        requires
            old(drv)@.wf(),
        ensures
            final(drv)@ == p2d_from_t(
                old(drv)@,
                *self,
                src,
                pitch,
                width,
                height,
                chosen(stream, self.memory.stream.raw),
            ),
            final(drv)@.wf(),
            width != self.width || height != self.height ==> r == Err::<(), CuError>(
                CuError::InvalidValue,
            ) && final(drv)@ == old(drv)@,
            r is Ok <==> (width == self.width && height == self.height && copy2d_ok(
                old(drv)@,
                dev_loc(self.memory.handle),
                self.pitch,
                src,
                pitch,
                width,
                height,
                chosen(stream, self.memory.stream.raw),
            )),
            r is Err && width == self.width && height == self.height ==> r->Err_0 == copy2d_err(
                old(drv)@,
                chosen(stream, self.memory.stream.raw),
            ),
    {
        if width != self.width || height != self.height {
            return Err(CuError::InvalidValue);
        }
        let s_raw = match stream {
            Some(s) => s.raw,
            None => self.memory.stream.raw,
        };
        copy2d_async(
            drv,
            MemLoc { space: MemSpace::Device, handle: self.memory.handle },
            self.pitch,
            src,
            pitch,
            width,
            height,
            s_raw,
        )
    }

    /// Queues a 2D copy into another pitched allocation; a peer of
    /// mismatched `width` or `height` is refused with `InvalidValue` and
    /// nothing is queued.
    pub fn copy_to(&self, drv: &mut CuDriver, dst: &PitchedDeviceMemory, stream: Option<&CuStream>)
        -> (r: CuResult<()>)
        requires
            old(drv)@.wf(),
        ensures
            final(drv)@ == p2d_to_t(
                old(drv)@,
                *self,
                dev_loc(dst.memory.handle),
                dst.pitch,
                dst.width,
                dst.height,
                chosen(stream, self.memory.stream.raw),
            ),
            final(drv)@.wf(),
            dst.width != self.width || dst.height != self.height ==> r == Err::<(), CuError>(
                CuError::InvalidValue,
            ) && final(drv)@ == old(drv)@,
            r is Ok <==> (dst.width == self.width && dst.height == self.height && copy2d_ok(
                old(drv)@,
                dev_loc(dst.memory.handle),
                dst.pitch,
                dev_loc(self.memory.handle),
                self.pitch,
                dst.width,
                dst.height,
                chosen(stream, self.memory.stream.raw),
            )),
            r is Err && dst.width == self.width && dst.height == self.height ==> r->Err_0
                == copy2d_err(old(drv)@, chosen(stream, self.memory.stream.raw)),
    {
        self.copy_to_raw(
            drv,
            MemLoc { space: MemSpace::Device, handle: dst.memory.handle },
            dst.pitch,
            dst.width,
            dst.height,
            stream,
        )
    }

    /// Queues a 2D copy out of another pitched allocation into this one,
    /// under the same exact shape-matching rule.
    pub fn copy_from(&self, drv: &mut CuDriver, src: &PitchedDeviceMemory, stream: Option<
        &CuStream,
    >) -> (r: CuResult<()>)
        requires
            old(drv)@.wf(),
        ensures
            final(drv)@ == p2d_to_t(
                old(drv)@,
                *src,
                dev_loc(self.memory.handle),
                self.pitch,
                self.width,
                self.height,
                chosen(stream, src.memory.stream.raw),
            ),
            final(drv)@.wf(),
            self.width != src.width || self.height != src.height ==> r == Err::<(), CuError>(
                CuError::InvalidValue,
            ) && final(drv)@ == old(drv)@,
            r is Ok <==> (self.width == src.width && self.height == src.height && copy2d_ok(
                old(drv)@,
                dev_loc(self.memory.handle),
                self.pitch,
                dev_loc(src.memory.handle),
                src.pitch,
                self.width,
                self.height,
                chosen(stream, src.memory.stream.raw),
            )),
            r is Err && self.width == src.width && self.height == src.height ==> r->Err_0
                == copy2d_err(old(drv)@, chosen(stream, src.memory.stream.raw)),
    {
        src.copy_to(drv, self, stream)
    }

    /// A new allocation of the same shape on the same stream, with a 2D
    /// copy of this one queued into it. An empty shape has nothing a 2D
    /// copy can move (a zero row stride is refused), so the fresh
    /// allocation is let go again and the refusal is reported.
    pub fn try_clone(&self, drv: &mut CuDriver) -> (r: CuResult<PitchedDeviceMemory>)
        requires
            old(drv)@.wf(),
            pitched_wf(*self),
            dev_valid(old(drv)@, self.memory),
            self.memory.stream.ownership is Owned ==> stream_refs(old(drv)@, self.memory.stream.raw)
                < u64::MAX,
        ensures
            final(drv)@.wf(),
            r is Ok <==> dev_alloc_ok(old(drv)@, self.memory.stream.raw) && self.width >= 1,
            r is Ok ==> final(drv)@ == copy2d_t(
                dev_alloc_t(old(drv)@, self.memory.size, self.memory.stream),
                dev_loc(old(drv)@.next_handle),
                self.pitch,
                dev_loc(self.memory.handle),
                self.pitch,
                self.width,
                self.height,
                self.memory.stream.raw,
            ),
            r is Ok ==> r->Ok_0 == (PitchedDeviceMemory {
                memory: DeviceMemory {
                    handle: old(drv)@.next_handle,
                    size: self.memory.size,
                    stream: self.memory.stream,
                },
                pitch: self.pitch,
                width: self.width,
                height: self.height,
            }) && pitched_wf(r->Ok_0),
            !dev_alloc_ok(old(drv)@, self.memory.stream.raw) ==> final(drv)@ == old(drv)@ && r
                == Err::<PitchedDeviceMemory, CuError>(
                dev_alloc_err(old(drv)@, self.memory.stream.raw),
            ),
            dev_alloc_ok(old(drv)@, self.memory.stream.raw) && self.width == 0 ==> final(drv)@
                == dev_release_t(
                dev_alloc_t(old(drv)@, self.memory.size, self.memory.stream),
                (DeviceMemory {
                    handle: old(drv)@.next_handle,
                    size: self.memory.size,
                    stream: self.memory.stream,
                }),
            ) && r == Err::<PitchedDeviceMemory, CuError>(CuError::InvalidValue),
    {
        proof {
            lemma_align_up_properties(self.width as int, ALIGNMENT as int);
        }
        let ghost m0 = drv@;
        let dst = PitchedDeviceMemory::new(drv, self.width, self.height, &self.memory.stream)?;
        proof {
            lemma_bufs_push_lookup(
                m0.dev_bufs,
                m0.next_handle,
                BufM {
                    handle: m0.next_handle,
                    data: Seq::new(self.memory.size as nat, |i: int| 0u8),
                },
            );
            assert(self.memory.handle != m0.next_handle);
            assert(buf_bytes(drv@.dev_bufs, self.memory.handle) == buf_bytes(
                m0.dev_bufs,
                self.memory.handle,
            ));
            assert(read_loc(drv@, dev_loc(dst.memory.handle))->Some_0.len() == dst.memory.size);
            assert(read_loc(drv@, dev_loc(self.memory.handle))->Some_0.len() == self.memory.size);
        }
        match self.copy_to(drv, &dst, None) {
            Ok(()) => Ok(dst),
            Err(e) => {
                // mirror a dropped clone: queue the stream-ordered free and
                // let the bound stream's reference go
                proof {
                    assert(self.width == 0);
                    assert((align_up_spec(self.width as int, ALIGNMENT as int)
                        * self.height) as usize == self.memory.size);
                    assert(stream_live(drv@.streams, self.memory.stream.raw));
                }
                dst.release(drv);
                Err(e)
            },
        }
    }

    /// A tightly packed (`width * height`-byte) pinned host buffer, with a
    /// strided 2D copy out of the padded layout queued on the bound stream;
    /// the contents are valid only once that stream reaches this point. An
    /// empty shape has nothing a 2D copy can move (a zero row stride is
    /// refused), so the pinned buffer is freed again and the refusal is
    /// reported.
    pub fn to_host(&self, drv: &mut CuDriver) -> (r: CuResult<HostMemory>)
        requires
            old(drv)@.wf(),
            pitched_wf(*self),
            dev_valid(old(drv)@, self.memory),
        ensures
            final(drv)@.wf(),
            r is Ok <==> host_alloc_ok(old(drv)@) && self.width >= 1,
            r is Ok ==> final(drv)@ == copy2d_t(
                host_alloc_t(old(drv)@, (self.width * self.height) as usize),
                host_loc(old(drv)@.next_handle),
                self.width,
                dev_loc(self.memory.handle),
                self.pitch,
                self.width,
                self.height,
                self.memory.stream.raw,
            ),
            r is Ok ==> r->Ok_0 == (HostMemory {
                handle: old(drv)@.next_handle,
                size: (self.width * self.height) as usize,
            }) && host_valid(final(drv)@, r->Ok_0),
            !host_alloc_ok(old(drv)@) ==> final(drv)@ == old(drv)@ && r == Err::<
                HostMemory,
                CuError,
            >(host_alloc_err(old(drv)@)),
            host_alloc_ok(old(drv)@) && self.width == 0 ==> final(drv)@ == host_free_t(
                host_alloc_t(old(drv)@, (self.width * self.height) as usize),
                old(drv)@.next_handle,
            ) && r == Err::<HostMemory, CuError>(CuError::InvalidValue),
    {
        proof {
            lemma_align_up_properties(self.width as int, ALIGNMENT as int);
            assert(self.width * self.height <= self.pitch * self.height) by (nonlinear_arith)
                requires
                    0 <= self.width <= self.pitch,
                    0 <= self.height,
            ;
        }
        let host_size = self.width * self.height;
        let ghost m0 = drv@;
        let hm = HostMemory::new(drv, host_size)?;
        proof {
            lemma_bufs_push_lookup(
                m0.host_bufs,
                m0.next_handle,
                BufM { handle: m0.next_handle, data: Seq::new(host_size as nat, |i: int| 0u8) },
            );
        }
        match self.copy_to_raw(
            drv,
            MemLoc { space: MemSpace::Host, handle: hm.handle },
            self.width,
            self.width,
            self.height,
            None,
        ) {
            Ok(()) => {
                proof {
                    assert(host_valid(drv@, hm));
                }
                Ok(hm)
            },
            Err(e) => {
                // mirror a dropped buffer: the pinned allocation is freed
                // again, exactly once
                proof {
                    assert(self.width == 0);
                    assert(stream_live(drv@.streams, self.memory.stream.raw));
                }
                hm.release(drv);
                Err(e)
            },
        }
    }

    /// The stream this allocation is bound to.
    pub fn stream(&self) -> (r: &CuStream)
        ensures
            *r == self.memory.stream,
    {
        &self.memory.stream
    }

    /// Queues a stream-ordered free of the backing allocation and lets the
    /// bound stream's counted reference go.
    pub fn release(self, drv: &mut CuDriver)
        requires
            old(drv)@.wf(),
            stream_valid(old(drv)@, self.memory.stream),
        ensures
            final(drv)@ == dev_release_t(old(drv)@, self.memory),
            final(drv)@.wf(),
    {
        self.memory.release(drv);
    }
}


// --- the round-trip law ---

/// Whether an op neither writes either host buffer nor writes or frees
/// the device buffer.
pub open spec fn leaves_alone(op: PendingOp, h1: u64, h2: u64, d: u64) -> bool {
    match op {
        PendingOp::Copy { dst, src, size } => dst != host_loc(h1) && dst != host_loc(h2) && dst
            != dev_loc(d),
        PendingOp::Copy2d { dst, dst_pitch, src, src_pitch, width, height } => dst != host_loc(h1)
            && dst != host_loc(h2) && dst != dev_loc(d),
        PendingOp::FreeDevice { handle } => handle != d,
        PendingOp::RecordEvent { event, gen } => true,
        PendingOp::WaitEvent { event } => true,
    }
}

/// Executing one op that leaves the three buffers alone preserves their
/// liveness and bytes, and touches neither the streams nor initialization.
proof fn lemma_apply_leaves_alone(m: Model, op: PendingOp, h1: u64, h2: u64, d: u64)
    requires
        m.wf(),
        leaves_alone(op, h1, h2, d),
        buf_live(m.host_bufs, h1),
        buf_live(m.host_bufs, h2),
        buf_live(m.dev_bufs, d),
    ensures
        ({
            let m2 = crate::driver::apply_op(m, op);
            &&& m2.initialized == m.initialized
            &&& m2.streams == m.streams
            &&& buf_live(m2.host_bufs, h1) && buf_bytes(m2.host_bufs, h1) == buf_bytes(
                m.host_bufs,
                h1,
            )
            &&& buf_live(m2.host_bufs, h2) && buf_bytes(m2.host_bufs, h2) == buf_bytes(
                m.host_bufs,
                h2,
            )
            &&& buf_live(m2.dev_bufs, d) && buf_bytes(m2.dev_bufs, d) == buf_bytes(m.dev_bufs, d)
        }),
{
    let mt = Model { clock: crate::driver::tick(m.clock), ..m };
    match op {
        PendingOp::Copy { dst, src, size } => {
            if read_loc(mt, src) is Some && read_loc(mt, dst) is Some {
                lemma_write_loc_frame(
                    mt,
                    dst,
                    overwrite_prefix(read_loc(mt, dst)->Some_0, read_loc(mt, src)->Some_0, size as int),
                );
            }
        },
        PendingOp::Copy2d { dst, dst_pitch, src, src_pitch, width, height } => {
            if read_loc(mt, src) is Some && read_loc(mt, dst) is Some {
                lemma_write_loc_frame(
                    mt,
                    dst,
                    crate::driver::copy2d_bytes(
                        read_loc(mt, dst)->Some_0,
                        dst_pitch as int,
                        read_loc(mt, src)->Some_0,
                        src_pitch as int,
                        width as int,
                        height as int,
                    ),
                );
            }
        },
        PendingOp::FreeDevice { handle } => {
            if buf_live(mt.dev_bufs, handle) {
                let k = buf_at(mt.dev_bufs, handle);
                assert(mt.dev_bufs[k].handle == handle);
                crate::driver::lemma_bufs_remove_lookup(mt.dev_bufs, k);
            }
        },
        PendingOp::RecordEvent { event, gen } => {},
        PendingOp::WaitEvent { event } => {},
    }
}

/// Round trip through the device in the presence of other queued work:
/// anything submitted earlier may execute first, and as long as none of it
/// writes either host buffer or writes or frees the device buffer, the
/// bytes that come back are the bytes that went in.
pub proof fn lemma_host_device_round_trip_queued(
    m: Model,
    h1: u64,
    d: u64,
    h2: u64,
    s: u64,
    n: usize,
)
    requires
        m.wf(),
        m.initialized,
        crate::driver::stream_live(m.streams, s),
        n > 0,
        buf_live(m.host_bufs, h1),
        buf_bytes(m.host_bufs, h1).len() == n,
        buf_live(m.host_bufs, h2),
        buf_bytes(m.host_bufs, h2).len() == n,
        buf_live(m.dev_bufs, d),
        buf_bytes(m.dev_bufs, d).len() >= n,
        h1 != h2,
        forall|i: int|
            0 <= i < m.pending.len() ==> leaves_alone((#[trigger] m.pending[i]).op, h1, h2, d),
    ensures
        ({
            let m2 = async_copy_t(
                async_copy_t(m, host_loc(h1), dev_loc(d), n, s),
                dev_loc(d),
                host_loc(h2),
                n,
                s,
            );
            let mf = crate::driver::drain_stream_t(m2, s);
            &&& buf_bytes(mf.host_bufs, h2) == buf_bytes(m.host_bufs, h1)
            &&& !crate::driver::stream_has_work(mf.pending, s)
        }),
    decreases m.pending.len(),
{
    if m.pending.len() == 0 {
        lemma_host_device_round_trip(m, h1, d, h2, s, n);
    } else {
        let front = m.pending[0];
        let ms = Model {
            pending: m.pending.remove(0),
            ..crate::driver::apply_op(m, front.op)
        };
        lemma_apply_leaves_alone(m, front.op, h1, h2, d);
        crate::driver::lemma_step_wf(m);
        assert(ms == crate::driver::step(m));
        assert forall|i: int|
            0 <= i < ms.pending.len() implies leaves_alone(
            (#[trigger] ms.pending[i]).op,
            h1,
            h2,
            d,
        ) by {
            assert(ms.pending[i] == m.pending[i + 1]);
        }
        lemma_host_device_round_trip_queued(ms, h1, d, h2, s, n);

        let o1 = StreamedOp {
            stream: s,
            op: PendingOp::Copy { dst: dev_loc(d), src: host_loc(h1), size: n },
        };
        let o2 = StreamedOp {
            stream: s,
            op: PendingOp::Copy { dst: host_loc(h2), src: dev_loc(d), size: n },
        };
        let m1 = async_copy_t(m, host_loc(h1), dev_loc(d), n, s);
        assert(async_copy_ok(m, host_loc(h1), dev_loc(d), n, s));
        let m2 = async_copy_t(m1, dev_loc(d), host_loc(h2), n, s);
        assert(async_copy_ok(m1, dev_loc(d), host_loc(h2), n, s));
        assert(m2.pending =~= m.pending.push(o1).push(o2));
        let ms1 = async_copy_t(ms, host_loc(h1), dev_loc(d), n, s);
        assert(async_copy_ok(ms, host_loc(h1), dev_loc(d), n, s));
        let ms2 = async_copy_t(ms1, dev_loc(d), host_loc(h2), n, s);
        assert(async_copy_ok(ms1, dev_loc(d), host_loc(h2), n, s));

        // queuing the two copies and then executing the old front op is the
        // same as executing it first and then queuing them
        assert(m2.pending.len() > 0 && m2.pending[0] == front);
        assert(crate::driver::stream_has_work(m2.pending, s)) by {
            assert(m2.pending[m.pending.len() as int] == o1);
        }
        let m2s = Model {
            pending: m2.pending.remove(0),
            ..crate::driver::apply_op(m2, m2.pending[0].op)
        };
        assert(crate::driver::drain_stream_t(m2, s) == crate::driver::drain_stream_t(m2s, s));
        assert(m2s =~= ms2);
        assert(buf_bytes(crate::driver::drain_stream_t(ms2, s).host_bufs, h2) == buf_bytes(
            ms.host_bufs,
            h1,
        ));
        assert(buf_bytes(ms.host_bufs, h1) == buf_bytes(m.host_bufs, h1));
    }
}

/// Round trip through the device: with an empty work queue and a live
/// stream, queuing a copy of all `n` bytes of one host buffer into a
/// large-enough device buffer, then a copy of `n` bytes from that device
/// buffer into a second host buffer of exactly `n` bytes, and synchronizing
/// the stream, leaves the second host buffer byte-identical to the first.
pub proof fn lemma_host_device_round_trip(m: Model, h1: u64, d: u64, h2: u64, s: u64, n: usize)
    requires
        m.wf(),
        m.initialized,
        crate::driver::stream_live(m.streams, s),
        m.pending.len() == 0,
        n > 0,
        buf_live(m.host_bufs, h1),
        buf_bytes(m.host_bufs, h1).len() == n,
        buf_live(m.host_bufs, h2),
        buf_bytes(m.host_bufs, h2).len() == n,
        buf_live(m.dev_bufs, d),
        buf_bytes(m.dev_bufs, d).len() >= n,
        h1 != h2,
    ensures
        ({
            let m2 = async_copy_t(
                async_copy_t(m, host_loc(h1), dev_loc(d), n, s),
                dev_loc(d),
                host_loc(h2),
                n,
                s,
            );
            let mf = crate::driver::drain_stream_t(m2, s);
            &&& buf_bytes(mf.host_bufs, h2) == buf_bytes(m.host_bufs, h1)
            &&& buf_bytes(mf.host_bufs, h1) == buf_bytes(m.host_bufs, h1)
            &&& !crate::driver::stream_has_work(mf.pending, s)
        }),
{
    let b1 = buf_bytes(m.host_bufs, h1);
    let b2 = buf_bytes(m.host_bufs, h2);
    let bd = buf_bytes(m.dev_bufs, d);
    let o1 = StreamedOp {
        stream: s,
        op: PendingOp::Copy { dst: dev_loc(d), src: host_loc(h1), size: n },
    };
    let o2 = StreamedOp {
        stream: s,
        op: PendingOp::Copy { dst: host_loc(h2), src: dev_loc(d), size: n },
    };
    let m1 = async_copy_t(m, host_loc(h1), dev_loc(d), n, s);
    assert(async_copy_ok(m, host_loc(h1), dev_loc(d), n, s));
    assert(m1.pending =~= seq![o1]);
    let m2 = async_copy_t(m1, dev_loc(d), host_loc(h2), n, s);
    assert(async_copy_ok(m1, dev_loc(d), host_loc(h2), n, s));
    assert(m2.pending =~= seq![o1, o2]);

    // the first queued copy executes: the device buffer takes the first
    // host buffer's bytes
    assert(m2.pending[0] == o1);
    assert(crate::driver::stream_has_work(m2.pending, s));
    let m3 = Model { pending: m2.pending.remove(0), ..crate::driver::apply_op(m2, o1.op) };
    assert(crate::driver::drain_stream_t(m2, s) == crate::driver::drain_stream_t(m3, s));
    let bd2 = crate::driver::overwrite_prefix(bd, b1, n as int);
    lemma_bufs_update_lookup(
        m2.dev_bufs,
        buf_at(m2.dev_bufs, d),
        BufM { handle: d, data: bd2 },
    );
    assert(m3.host_bufs == m.host_bufs);
    assert(buf_bytes(m3.dev_bufs, d) == bd2);
    assert(m3.pending =~= seq![o2]);

    // the second queued copy executes: the second host buffer takes the
    // device buffer's first `n` bytes
    assert(m3.pending[0] == o2);
    assert(crate::driver::stream_has_work(m3.pending, s));
    let m4 = Model { pending: m3.pending.remove(0), ..crate::driver::apply_op(m3, o2.op) };
    assert(crate::driver::drain_stream_t(m3, s) == crate::driver::drain_stream_t(m4, s));
    let b2n = crate::driver::overwrite_prefix(b2, bd2, n as int);
    lemma_bufs_update_lookup(
        m3.host_bufs,
        buf_at(m3.host_bufs, h2),
        BufM { handle: h2, data: b2n },
    );
    assert(m4.pending.len() == 0);
    assert(crate::driver::drain_stream_t(m4, s) == m4);
    assert(buf_bytes(m4.host_bufs, h2) == b2n);
    assert(buf_bytes(m4.host_bufs, h1) == b1);

    // the bytes that came back are the bytes that went in
    assert forall|i: int| 0 <= i < n implies b2n[i] == b1[i] by {
        assert(bd2[i] == b1[i]);
    }
    assert(b2n =~= b1);
}

} // verus!
