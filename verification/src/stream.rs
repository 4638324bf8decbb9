//! Streams: ordered asynchronous work queues with synchronize, query and
//! cross-stream dependencies, under the same counted ownership as contexts;
//! with the destroy-once law of counted clones.

use vstd::prelude::*;
use crate::context::{current_handle, CuContext};
use crate::driver::{
    ctx_live, drain_stream_t, event_live, lemma_same_queue_records, lemma_streams_push,
    lemma_streams_remove, lemma_streams_update, step, stream_at, stream_has_work, stream_live,
    CuDriver, Model, PendingOp, StreamEntry, StreamedOp,
};
use crate::error::{CuError, CuResult};
use crate::event::CuEvent;
use crate::ownership::Ownership;

verus! {

/// An ordered asynchronous work queue, wrapped with an ownership tag; the
/// ownership and counted-clone behaviour is the same as a context's.
#[derive(Debug)]
pub struct CuStream {
    pub raw: u64,
    pub ownership: Ownership,
}

/// An owning wrapper must stand for a live entry that counts it.
pub open spec fn stream_valid(m: Model, s: CuStream) -> bool {
    s.ownership is Ambient || (stream_live(m.streams, s.raw) && m.streams[stream_at(
        m.streams,
        s.raw,
    )].refs >= 1)
}

/// The wrapper layer's reference count on a stream handle.
pub open spec fn stream_refs(m: Model, h: u64) -> u64 {
    if stream_live(m.streams, h) {
        m.streams[stream_at(m.streams, h)].refs
    } else {
        0
    }
}

// --- creation ---

pub open spec fn stream_create_ok(m: Model) -> bool {
    &&& m.initialized
    &&& m.current_stack.len() > 0
    &&& ctx_live(m.ctxs, current_handle(m))
    &&& m.can_alloc()
}

pub open spec fn stream_create_err(m: Model) -> CuError {
    if !m.initialized {
        CuError::NotInitialized
    } else if m.current_stack.len() == 0 {
        CuError::InvalidContext
    } else if !ctx_live(m.ctxs, current_handle(m)) {
        CuError::ContextIsDestroyed
    } else {
        CuError::OutOfMemory
    }
}

/// A new stream is created under the thread's current context and starts
/// exclusively owned.
pub open spec fn stream_create_t(m: Model) -> Model {
    if stream_create_ok(m) {
        Model {
            next_handle: (m.next_handle + 1) as u64,
            streams: m.streams.push(
                StreamEntry { handle: m.next_handle, ctx: current_handle(m), refs: 1 },
            ),
            ..m
        }
    } else {
        m
    }
}

// --- synchronize / query / wait ---

pub open spec fn stream_op_ok(m: Model, h: u64) -> bool {
    m.initialized && stream_live(m.streams, h)
}

pub open spec fn stream_op_err(m: Model, h: u64) -> CuError {
    if !m.initialized {
        CuError::NotInitialized
    } else {
        CuError::InvalidHandle
    }
}

/// Synchronizing completes every submitted op up to and including the
/// stream's last submission, in submission order.
pub open spec fn stream_sync_t(m: Model, h: u64) -> Model {
    if stream_op_ok(m, h) {
        drain_stream_t(m, h)
    } else {
        m
    }
}

pub open spec fn stream_wait_ok(m: Model, h: u64, e: u64) -> bool {
    m.initialized && stream_live(m.streams, h) && event_live(m.events, e)
}

/// Waiting on an event queues a dependency marker; execution in submission
/// order already honours the dependency, since the event's recording was
/// submitted before the wait observed it.
pub open spec fn stream_wait_t(m: Model, h: u64, e: u64) -> Model {
    if stream_wait_ok(m, h, e) {
        Model {
            pending: m.pending.push(
                StreamedOp { stream: h, op: PendingOp::WaitEvent { event: e } },
            ),
            ..m
        }
    } else {
        m
    }
}

// --- counted clones and release ---

pub open spec fn stream_clone_t(m: Model, s: CuStream) -> Model {
    if s.ownership is Ambient || !stream_live(m.streams, s.raw) {
        m
    } else {
        Model {
            streams: m.streams.update(
                stream_at(m.streams, s.raw),
                StreamEntry {
                    refs: (m.streams[stream_at(m.streams, s.raw)].refs + 1) as u64,
                    ..m.streams[stream_at(m.streams, s.raw)]
                },
            ),
            ..m
        }
    }
}

pub open spec fn stream_release_t(m: Model, s: CuStream) -> Model {
    if s.ownership is Ambient || !stream_live(m.streams, s.raw) {
        m
    } else if m.streams[stream_at(m.streams, s.raw)].refs <= 1 {
        Model {
            streams: m.streams.remove(stream_at(m.streams, s.raw)),
            stream_destroys: (m.stream_destroys + 1) as u64,
            ..m
        }
    } else {
        Model {
            streams: m.streams.update(
                stream_at(m.streams, s.raw),
                StreamEntry {
                    refs: (m.streams[stream_at(m.streams, s.raw)].refs - 1) as u64,
                    ..m.streams[stream_at(m.streams, s.raw)]
                },
            ),
            ..m
        }
    }
}

impl CuStream {
    /// Creates a default-flag stream under the thread's current context,
    /// exclusively owned by the returned wrapper.
    pub fn new(drv: &mut CuDriver) -> (r: CuResult<CuStream>)
        requires
            old(drv)@.wf(),
        ensures
            final(drv)@ == stream_create_t(old(drv)@),
            final(drv)@.wf(),
            r is Ok <==> stream_create_ok(old(drv)@),
            r is Ok ==> r->Ok_0 == (CuStream {
                raw: old(drv)@.next_handle,
                ownership: Ownership::Owned,
            }) && stream_valid(final(drv)@, r->Ok_0) && stream_refs(
                final(drv)@,
                old(drv)@.next_handle,
            ) == 1,
            r is Err ==> r->Err_0 == stream_create_err(old(drv)@),
    {
        if !drv.initialized {
            return Err(CuError::NotInitialized);
        }
        if drv.current_stack.len() == 0 {
            return Err(CuError::InvalidContext);
        }
        let top = drv.current_stack[drv.current_stack.len() - 1];
        if drv.find_ctx(top).is_none() {
            return Err(CuError::ContextIsDestroyed);
        }
        if drv.next_handle == u64::MAX {
            return Err(CuError::OutOfMemory);
        }
        let h = drv.next_handle;
        let entry = StreamEntry { handle: h, ctx: top, refs: 1 };
        drv.streams.push(entry);
        drv.next_handle = h + 1;
        proof {
            assert(drv@ =~= stream_create_t(old(drv)@));
            lemma_streams_push(old(drv)@.streams, h, entry);
            lemma_same_queue_records(old(drv)@, drv@);
            assert(drv@.wf());
            assert(drv@.streams[old(drv)@.streams.len() as int].handle == h);
            assert(stream_live(drv@.streams, h));
            let j = stream_at(drv@.streams, h);
            if j != old(drv)@.streams.len() {
                assert(1 <= old(drv)@.streams[j].handle < h);
            }
        }
        Ok(CuStream { raw: h, ownership: Ownership::Owned })
    }

    /// Wraps a raw handle owned elsewhere as an ambient stream, which this
    /// layer will never destroy.
    pub fn from_raw(raw: u64) -> (r: CuStream)
        ensures
            r == (CuStream { raw, ownership: Ownership::Ambient }),
    {
        CuStream { raw, ownership: Ownership::Ambient }
    }

    /// Whether any submitted work of this stream is still queued.
    pub(crate) fn has_work_exec(&self, drv: &CuDriver) -> (r: bool)
        ensures
            r == stream_has_work(drv@.pending, self.raw),
    {
        let mut i: usize = 0;
        while i < drv.pending.len()
            invariant
                i <= drv.pending.len(),
                forall|j: int| 0 <= j < i ==> (#[trigger] drv.pending@[j]).stream != self.raw,
            decreases drv.pending.len() - i,
        {
            if drv.pending[i].stream == self.raw {
                return true;
            }
            i = i + 1;
        }
        false
    }

    /// Blocks until every submitted op through this stream's last
    /// submission has executed, in submission order.
    pub fn synchronize(&self, drv: &mut CuDriver) -> (r: CuResult<()>)
        requires
            old(drv)@.wf(),
        ensures
            final(drv)@ == stream_sync_t(old(drv)@, self.raw),
            final(drv)@.wf(),
            r is Ok <==> stream_op_ok(old(drv)@, self.raw),
            r is Ok ==> !stream_has_work(final(drv)@.pending, self.raw),
            r is Err ==> r->Err_0 == stream_op_err(old(drv)@, self.raw),
    {
        if !drv.initialized {
            return Err(CuError::NotInitialized);
        }
        if drv.find_stream(self.raw).is_none() {
            return Err(CuError::InvalidHandle);
        }
        while self.has_work_exec(drv)
            invariant
                drv@.wf(),
                drain_stream_t(drv@, self.raw) == drain_stream_t(old(drv)@, self.raw),
            decreases drv@.pending.len(),
        {
            proof {
                let w = choose|j: int|
                    0 <= j < drv@.pending.len() && (#[trigger] drv@.pending[j]).stream == self.raw;
                assert(drv@.pending.len() > 0);
                assert(drain_stream_t(drv@, self.raw) == drain_stream_t(step(drv@), self.raw));
            }
            drv.step_front();
        }
        proof {
            assert(drain_stream_t(drv@, self.raw) == drv@);
        }
        Ok(())
    }

    /// Non-blocking completion test: `true` when nothing of this stream is
    /// still queued. The driver's "not yet complete" status is an expected
    /// steady state, reported as `false`, never as an error.
    pub fn query(&self, drv: &CuDriver) -> (r: CuResult<bool>)
        requires
            drv@.wf(),
        ensures
            r is Ok <==> stream_op_ok(drv@, self.raw),
            r is Ok ==> r->Ok_0 == !stream_has_work(drv@.pending, self.raw),
            r is Err ==> r->Err_0 == stream_op_err(drv@, self.raw),
    {
        if !drv.initialized {
            return Err(CuError::NotInitialized);
        }
        if drv.find_stream(self.raw).is_none() {
            return Err(CuError::InvalidHandle);
        }
        Ok(!self.has_work_exec(drv))
    }

    /// The context this stream runs under, as an ambient handle.
    pub fn get_context(&self, drv: &CuDriver) -> (r: CuResult<CuContext>)
        requires
            drv@.wf(),
        ensures
            r is Ok <==> stream_op_ok(drv@, self.raw),
            r is Ok ==> r->Ok_0 == (CuContext {
                raw: drv@.streams[stream_at(drv@.streams, self.raw)].ctx,
                ownership: Ownership::Ambient,
            }),
            r is Err ==> r->Err_0 == stream_op_err(drv@, self.raw),
    {
        if !drv.initialized {
            return Err(CuError::NotInitialized);
        }
        match drv.find_stream(self.raw) {
            Some(i) => Ok(
                CuContext { raw: drv.streams[i].ctx, ownership: Ownership::Ambient },
            ),
            None => Err(CuError::InvalidHandle),
        }
    }

    /// Queues a dependency: work submitted to this stream after the call
    /// executes only after `event`'s recorded point, without blocking the
    /// caller.
    pub fn wait_on_event(&self, drv: &mut CuDriver, event: &CuEvent) -> (r: CuResult<()>)
        requires
            old(drv)@.wf(),
        ensures
            final(drv)@ == stream_wait_t(old(drv)@, self.raw, event.raw),
            final(drv)@.wf(),
            r is Ok <==> stream_wait_ok(old(drv)@, self.raw, event.raw),
            r is Err ==> r->Err_0 == stream_op_err(old(drv)@, self.raw),
    {
        if !drv.initialized {
            return Err(CuError::NotInitialized);
        }
        if drv.find_stream(self.raw).is_none() {
            return Err(CuError::InvalidHandle);
        }
        if drv.find_event(event.raw).is_none() {
            return Err(CuError::InvalidHandle);
        }
        drv.enqueue(StreamedOp { stream: self.raw, op: PendingOp::WaitEvent { event: event.raw } });
        Ok(())
    }

    /// A counted clone of this stream.
    pub fn clone_ref(&self, drv: &mut CuDriver) -> (r: CuStream)
        requires
            old(drv)@.wf(),
            stream_valid(old(drv)@, *self),
            self.ownership is Owned ==> stream_refs(old(drv)@, self.raw) < u64::MAX,
        ensures
            final(drv)@ == stream_clone_t(old(drv)@, *self),
            final(drv)@.wf(),
            r == *self,
            stream_valid(final(drv)@, r),
            stream_valid(final(drv)@, *self),
    {
        match self.ownership {
            Ownership::Ambient => CuStream { raw: self.raw, ownership: Ownership::Ambient },
            Ownership::Owned => {
                let i = drv.find_stream(self.raw).unwrap();
                let e = drv.streams[i];
                drv.streams[i] = StreamEntry { refs: e.refs + 1, ..e };
                proof {
                    assert(drv@ =~= stream_clone_t(old(drv)@, *self));
                    lemma_streams_update(
                        old(drv)@.streams,
                        old(drv)@.next_handle,
                        i as int,
                        StreamEntry { refs: (e.refs + 1) as u64, ..e },
                    );
                    lemma_same_queue_records(old(drv)@, drv@);
                    assert(drv@.wf());
                    assert(drv@.streams[i as int].handle == self.raw);
                    assert(stream_live(drv@.streams, self.raw));
                    let j = stream_at(drv@.streams, self.raw);
                    if j != i as int {
                        assert(drv@.streams[j].handle != drv@.streams[i as int].handle);
                    }
                }
                CuStream { raw: self.raw, ownership: Ownership::Owned }
            },
        }
    }

    /// Releases this reference; the last release of an owned stream fires
    /// the native destroy exactly once, an ambient release does nothing.
    pub fn release(self, drv: &mut CuDriver)
        requires
            old(drv)@.wf(),
            stream_valid(old(drv)@, self),
        ensures
            final(drv)@ == stream_release_t(old(drv)@, self),
            final(drv)@.wf(),
    {
        match self.ownership {
            Ownership::Ambient => {},
            Ownership::Owned => {
                let i = drv.find_stream(self.raw).unwrap();
                let e = drv.streams[i];
                if e.refs <= 1 {
                    drv.streams.remove(i);
                    drv.stream_destroys = drv.stream_destroys + 1;
                    proof {
                        assert(drv@.streams =~= old(drv)@.streams.remove(i as int));
                        assert(drv@ =~= stream_release_t(old(drv)@, self));
                        lemma_streams_remove(old(drv)@.streams, old(drv)@.next_handle, i as int);
                        lemma_same_queue_records(old(drv)@, drv@);
                        assert(drv@.wf());
                    }
                } else {
                    drv.streams[i] = StreamEntry { refs: e.refs - 1, ..e };
                    proof {
                        assert(drv@ =~= stream_release_t(old(drv)@, self));
                        lemma_streams_update(
                            old(drv)@.streams,
                            old(drv)@.next_handle,
                            i as int,
                            StreamEntry { refs: (e.refs - 1) as u64, ..e },
                        );
                        lemma_same_queue_records(old(drv)@, drv@);
                        assert(drv@.wf());
                    }
                }
            },
        }
    }

    /// The raw handle this wrapper stands for.
    pub fn get_raw(&self) -> (r: u64)
        ensures
            r == self.raw,
    {
        self.raw
    }
}

// --- the destroy-once law of counted clones ---

/// The model after `n` counted clones of `c`.
pub open spec fn clone_n(m: Model, c: CuStream, n: nat) -> Model
    decreases n,
{
    if n == 0 {
        m
    } else {
        stream_clone_t(clone_n(m, c, (n - 1) as nat), c)
    }
}

/// The model after `n` releases of `c`.
pub open spec fn release_n(m: Model, c: CuStream, n: nat) -> Model
    decreases n,
{
    if n == 0 {
        m
    } else {
        release_n(stream_release_t(m, c), c, (n - 1) as nat)
    }
}

/// One counted clone of a live owned handle: one more reference, same
/// destroy count, everything else as it was.
proof fn lemma_clone_step(m: Model, c: CuStream)
    requires
        c.ownership is Owned,
        forall|i: int, j: int|
            0 <= i < j < m.streams.len() ==> (#[trigger] m.streams[i]).handle != (
            #[trigger] m.streams[j]).handle,
        stream_live(m.streams, c.raw),
        stream_refs(m, c.raw) < u64::MAX,
    ensures
        stream_live(stream_clone_t(m, c).streams, c.raw),
        stream_refs(stream_clone_t(m, c), c.raw) == stream_refs(m, c.raw) + 1,
        stream_clone_t(m, c).stream_destroys == m.stream_destroys,
        forall|i: int, j: int|
            0 <= i < j < stream_clone_t(m, c).streams.len() ==> (#[trigger] stream_clone_t(
                m,
                c,
            ).streams[i]).handle != (#[trigger] stream_clone_t(m, c).streams[j]).handle,
    {
    let k = stream_at(m.streams, c.raw);
    let m2 = stream_clone_t(m, c);
    assert(m2.streams[k].handle == c.raw);
    assert(stream_live(m2.streams, c.raw));
    let j = stream_at(m2.streams, c.raw);
    if j != k {
        assert(m2.streams[j] == m.streams[j]);
        assert(m.streams[j].handle != m.streams[k].handle);
    }
}

/// One release of a live owned handle with more than one reference: one
/// reference fewer, same destroy count.
proof fn lemma_release_step(m: Model, c: CuStream)
    requires
        c.ownership is Owned,
        forall|i: int, j: int|
            0 <= i < j < m.streams.len() ==> (#[trigger] m.streams[i]).handle != (
            #[trigger] m.streams[j]).handle,
        stream_live(m.streams, c.raw),
        stream_refs(m, c.raw) >= 2,
    ensures
        stream_live(stream_release_t(m, c).streams, c.raw),
        stream_refs(stream_release_t(m, c), c.raw) == stream_refs(m, c.raw) - 1,
        stream_release_t(m, c).stream_destroys == m.stream_destroys,
        forall|i: int, j: int|
            0 <= i < j < stream_release_t(m, c).streams.len() ==> (#[trigger] stream_release_t(
                m,
                c,
            ).streams[i]).handle != (#[trigger] stream_release_t(m, c).streams[j]).handle,
    {
    let k = stream_at(m.streams, c.raw);
    let m2 = stream_release_t(m, c);
    assert(m2.streams[k].handle == c.raw);
    assert(stream_live(m2.streams, c.raw));
    let j = stream_at(m2.streams, c.raw);
    if j != k {
        assert(m2.streams[j] == m.streams[j]);
        assert(m.streams[j].handle != m.streams[k].handle);
    }
}

/// `n` counted clones take the reference count from 1 to `n + 1` and fire
/// no destroy.
proof fn lemma_clone_n(m: Model, c: CuStream, n: nat)
    requires
        c.ownership is Owned,
        forall|i: int, j: int|
            0 <= i < j < m.streams.len() ==> (#[trigger] m.streams[i]).handle != (
            #[trigger] m.streams[j]).handle,
        stream_live(m.streams, c.raw),
        stream_refs(m, c.raw) + n <= u64::MAX,
    ensures
        stream_live(clone_n(m, c, n).streams, c.raw),
        stream_refs(clone_n(m, c, n), c.raw) == stream_refs(m, c.raw) + n,
        clone_n(m, c, n).stream_destroys == m.stream_destroys,
        forall|i: int, j: int|
            0 <= i < j < clone_n(m, c, n).streams.len() ==> (#[trigger] clone_n(
                m,
                c,
                n,
            ).streams[i]).handle != (#[trigger] clone_n(m, c, n).streams[j]).handle,
    decreases n,
{
    if n == 0 {
    } else {
        lemma_clone_n(m, c, (n - 1) as nat);
        lemma_clone_step(clone_n(m, c, (n - 1) as nat), c);
    }
}

/// `n` releases of a handle holding more than `n` references only count
/// down and fire no destroy.
proof fn lemma_release_n(m: Model, c: CuStream, n: nat)
    requires
        c.ownership is Owned,
        forall|i: int, j: int|
            0 <= i < j < m.streams.len() ==> (#[trigger] m.streams[i]).handle != (
            #[trigger] m.streams[j]).handle,
        stream_live(m.streams, c.raw),
        stream_refs(m, c.raw) >= n + 1,
    ensures
        stream_live(release_n(m, c, n).streams, c.raw),
        stream_refs(release_n(m, c, n), c.raw) == stream_refs(m, c.raw) - n,
        release_n(m, c, n).stream_destroys == m.stream_destroys,
        forall|i: int, j: int|
            0 <= i < j < release_n(m, c, n).streams.len() ==> (#[trigger] release_n(
                m,
                c,
                n,
            ).streams[i]).handle != (#[trigger] release_n(m, c, n).streams[j]).handle,
    decreases n,
{
    if n == 0 {
    } else {
        lemma_release_step(m, c);
        lemma_release_n(stream_release_t(m, c), c, (n - 1) as nat);
    }
}

/// Shared ownership destroys exactly once, at the last release: starting
/// from a single owning reference, taking `n` counted clones and then
/// releasing all `n + 1` references leaves the handle live with no destroy
/// fired up to and including the `n`-th release, and the final release
/// removes the entry and fires exactly one native destroy.
pub proof fn lemma_shared_destroy_once(m: Model, c: CuStream, n: nat)
    requires
        c.ownership is Owned,
        forall|i: int, j: int|
            0 <= i < j < m.streams.len() ==> (#[trigger] m.streams[i]).handle != (
            #[trigger] m.streams[j]).handle,
        stream_live(m.streams, c.raw),
        stream_refs(m, c.raw) == 1,
        1 + n <= u64::MAX,
        m.stream_destroys < u64::MAX,
    ensures
        stream_live(release_n(clone_n(m, c, n), c, n).streams, c.raw),
        forall|k: nat|
            k <= n ==> #[trigger] release_n(clone_n(m, c, n), c, k).stream_destroys
                == m.stream_destroys,
        !stream_live(release_n(clone_n(m, c, n), c, (n + 1) as nat).streams, c.raw),
        release_n(clone_n(m, c, n), c, (n + 1) as nat).stream_destroys == m.stream_destroys + 1,
{
    lemma_clone_n(m, c, n);
    let mc = clone_n(m, c, n);
    assert forall|k: nat| k <= n implies #[trigger] release_n(mc, c, k).stream_destroys
        == m.stream_destroys by {
        lemma_release_n(mc, c, k);
    }
    lemma_release_n(mc, c, n);
    let mr = release_n(mc, c, n);
    lemma_release_n_snoc(mc, c, n);
    assert(release_n(mc, c, (n + 1) as nat) == stream_release_t(mr, c));
    let k = stream_at(mr.streams, c.raw);
    assert(mr.streams[k].handle == c.raw);
    let m2 = stream_release_t(mr, c);
    assert(m2.streams == mr.streams.remove(k));
    assert forall|a: int| 0 <= a < m2.streams.len() implies (#[trigger] m2.streams[a]).handle != c.raw by {
        if a < k {
            assert(mr.streams[a].handle != mr.streams[k].handle);
        } else {
            assert(mr.streams[a + 1].handle != mr.streams[k].handle);
        }
    }
    if stream_live(m2.streams, c.raw) {
        let w = stream_at(m2.streams, c.raw);
        assert(m2.streams[w].handle == c.raw);
    }
}

/// Releasing once more releases what the earlier releases left.
proof fn lemma_release_n_snoc(m: Model, c: CuStream, n: nat)
    ensures
        release_n(m, c, (n + 1) as nat) == stream_release_t(release_n(m, c, n), c),
    decreases n,
{
    let zero: nat = 0;
    if n == 0 {
        assert(release_n(m, c, (n + 1) as nat) == release_n(stream_release_t(m, c), c, zero));
        assert(release_n(stream_release_t(m, c), c, zero) == stream_release_t(m, c));
        assert(release_n(m, c, zero) == m);
    } else {
        lemma_release_n_snoc(stream_release_t(m, c), c, (n - 1) as nat);
        assert(release_n(m, c, (n + 1) as nat) == release_n(stream_release_t(m, c), c, n));
        assert(release_n(m, c, n) == release_n(stream_release_t(m, c), c, (n - 1) as nat));
    }
}

/// An ambient wrapper never touches the driver: any number of counted
/// clones and releases of it are identities, so no destroy ever fires.
pub proof fn lemma_ambient_no_destroy(m: Model, c: CuStream, n: nat, k: nat)
    requires
        c.ownership is Ambient,
    ensures
        release_n(clone_n(m, c, n), c, k) == m,
    decreases n + k,
{
    if n > 0 {
        assert(clone_n(m, c, n) == stream_clone_t(clone_n(m, c, (n - 1) as nat), c));
        lemma_ambient_no_destroy(m, c, (n - 1) as nat, k);
        assert(stream_clone_t(clone_n(m, c, (n - 1) as nat), c) == clone_n(m, c, (n - 1) as nat));
        lemma_clone_n_eq(m, c, n);
    } else if k > 0 {
        lemma_ambient_no_destroy(m, c, n, (k - 1) as nat);
        assert(stream_release_t(m, c) == m);
        lemma_release_n_head(m, c, k);
    }
}

/// Peeling one release off the front.
proof fn lemma_release_n_head(m: Model, c: CuStream, k: nat)
    requires
        k > 0,
    ensures
        release_n(m, c, k) == release_n(stream_release_t(m, c), c, (k - 1) as nat),
{
}

/// Ambient clones change nothing, step by step.
proof fn lemma_clone_n_eq(m: Model, c: CuStream, n: nat)
    requires
        c.ownership is Ambient,
    ensures
        clone_n(m, c, n) == m,
    decreases n,
{
    if n > 0 {
        lemma_clone_n_eq(m, c, (n - 1) as nat);
    }
}

} // verus!
