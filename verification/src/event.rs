//! Events: synchronization markers recordable on a stream, with query and
//! synchronize, under the same counted ownership as contexts; with the
//! destroy-once law of counted clones.

use vstd::prelude::*;
use crate::context::current_handle;
use crate::driver::{
    ctx_live, drain_event_t, event_at, event_live, event_pending, lemma_events_push,
    lemma_events_remove, lemma_events_update, lemma_same_queue_records, step, stream_live,
    CuDriver, EventEntry, Model, PendingOp, StreamedOp,
};
use crate::error::{CuError, CuResult};
use crate::ownership::Ownership;
use crate::stream::CuStream;

verus! {

/// A synchronization marker recordable on a stream, wrapped with an
/// ownership tag; the ownership and counted-clone behaviour is the same as
/// a context's.
#[derive(Debug)]
pub struct CuEvent {
    pub raw: u64,
    pub ownership: Ownership,
}

/// An owning wrapper must stand for a live entry that counts it.
pub open spec fn event_valid(m: Model, e: CuEvent) -> bool {
    e.ownership is Ambient || (event_live(m.events, e.raw) && m.events[event_at(
        m.events,
        e.raw,
    )].refs >= 1)
}

/// The wrapper layer's reference count on an event handle.
pub open spec fn event_refs(m: Model, h: u64) -> u64 {
    if event_live(m.events, h) {
        m.events[event_at(m.events, h)].refs
    } else {
        0
    }
}

// --- creation ---

pub open spec fn event_create_ok(m: Model) -> bool {
    &&& m.initialized
    &&& m.current_stack.len() > 0
    &&& ctx_live(m.ctxs, current_handle(m))
    &&& m.can_alloc()
}

pub open spec fn event_create_err(m: Model) -> CuError {
    if !m.initialized {
        CuError::NotInitialized
    } else if m.current_stack.len() == 0 {
        CuError::InvalidContext
    } else if !ctx_live(m.ctxs, current_handle(m)) {
        CuError::ContextIsDestroyed
    } else {
        CuError::OutOfMemory
    }
}

/// A new event starts exclusively owned, complete (nothing recorded) and at
/// generation zero.
pub open spec fn event_create_t(m: Model) -> Model {
    if event_create_ok(m) {
        Model {
            next_handle: (m.next_handle + 1) as u64,
            events: m.events.push(
                EventEntry { handle: m.next_handle, refs: 1, pending: false, gen: 0, done_at: 0 },
            ),
            ..m
        }
    } else {
        m
    }
}

// --- record / query / synchronize ---

pub open spec fn event_op_ok(m: Model, h: u64) -> bool {
    m.initialized && event_live(m.events, h)
}

pub open spec fn event_op_err(m: Model, h: u64) -> CuError {
    if !m.initialized {
        CuError::NotInitialized
    } else {
        CuError::InvalidHandle
    }
}

pub open spec fn event_record_ok(m: Model, h: u64, s: u64) -> bool {
    &&& m.initialized
    &&& event_live(m.events, h)
    &&& stream_live(m.streams, s)
    &&& m.events[event_at(m.events, h)].gen < u64::MAX
}

/// Recording marks the event pending under a fresh generation and queues
/// its completion marker on the stream; a marker of an earlier recording
/// can no longer complete it.
pub open spec fn event_record_t(m: Model, h: u64, s: u64) -> Model {
    if event_record_ok(m, h, s) {
        Model {
            events: m.events.update(
                event_at(m.events, h),
                EventEntry {
                    pending: true,
                    gen: (m.events[event_at(m.events, h)].gen + 1) as u64,
                    ..m.events[event_at(m.events, h)]
                },
            ),
            pending: m.pending.push(
                StreamedOp {
                    stream: s,
                    op: PendingOp::RecordEvent {
                        event: h,
                        gen: (m.events[event_at(m.events, h)].gen + 1) as u64,
                    },
                },
            ),
            ..m
        }
    } else {
        m
    }
}

/// The logical tick at which an event's last recording completed;
/// meaningful only for a live event.
pub open spec fn event_done_at(m: Model, h: u64) -> u64 {
    m.events[event_at(m.events, h)].done_at
}

/// Elapsed time is owed exactly when both events are live, both have been
/// recorded at least once, and both recordings have completed.
pub open spec fn elapsed_ok(m: Model, end: u64, start: u64) -> bool {
    &&& m.initialized
    &&& event_live(m.events, end)
    &&& event_live(m.events, start)
    &&& m.events[event_at(m.events, end)].gen >= 1
    &&& m.events[event_at(m.events, start)].gen >= 1
    &&& !m.events[event_at(m.events, end)].pending
    &&& !m.events[event_at(m.events, start)].pending
}

pub open spec fn elapsed_err(m: Model, end: u64, start: u64) -> CuError {
    if !m.initialized {
        CuError::NotInitialized
    } else if !event_live(m.events, end) || !event_live(m.events, start) || m.events[event_at(
        m.events,
        end,
    )].gen == 0 || m.events[event_at(m.events, start)].gen == 0 {
        CuError::InvalidHandle
    } else {
        CuError::NotReady
    }
}

/// Synchronizing executes submitted work, oldest first, until the event's
/// recorded point is reached.
pub open spec fn event_sync_t(m: Model, h: u64) -> Model {
    if event_op_ok(m, h) {
        drain_event_t(m, h)
    } else {
        m
    }
}

// --- counted clones and release ---

pub open spec fn event_clone_t(m: Model, e: CuEvent) -> Model {
    if e.ownership is Ambient || !event_live(m.events, e.raw) {
        m
    } else {
        Model {
            events: m.events.update(
                event_at(m.events, e.raw),
                EventEntry {
                    refs: (m.events[event_at(m.events, e.raw)].refs + 1) as u64,
                    ..m.events[event_at(m.events, e.raw)]
                },
            ),
            ..m
        }
    }
}

pub open spec fn event_release_t(m: Model, e: CuEvent) -> Model {
    if e.ownership is Ambient || !event_live(m.events, e.raw) {
        m
    } else if m.events[event_at(m.events, e.raw)].refs <= 1 {
        Model {
            events: m.events.remove(event_at(m.events, e.raw)),
            event_destroys: (m.event_destroys + 1) as u64,
            ..m
        }
    } else {
        Model {
            events: m.events.update(
                event_at(m.events, e.raw),
                EventEntry {
                    refs: (m.events[event_at(m.events, e.raw)].refs - 1) as u64,
                    ..m.events[event_at(m.events, e.raw)]
                },
            ),
            ..m
        }
    }
}

impl CuEvent {
    /// Creates a default-flag event under the thread's current context,
    /// exclusively owned by the returned wrapper.
    pub fn new(drv: &mut CuDriver) -> (r: CuResult<CuEvent>)
        requires
            old(drv)@.wf(),
        ensures
            final(drv)@ == event_create_t(old(drv)@),
            final(drv)@.wf(),
            r is Ok <==> event_create_ok(old(drv)@),
            r is Ok ==> r->Ok_0 == (CuEvent {
                raw: old(drv)@.next_handle,
                ownership: Ownership::Owned,
            }) && event_valid(final(drv)@, r->Ok_0) && event_refs(
                final(drv)@,
                old(drv)@.next_handle,
            ) == 1,
            r is Err ==> r->Err_0 == event_create_err(old(drv)@),
    {
        if !drv.initialized {
            return Err(CuError::NotInitialized);
        }
        if drv.current_stack.len() == 0 {
            return Err(CuError::InvalidContext);
        }
        let top = drv.current_stack[drv.current_stack.len() - 1];
        if drv.find_ctx(top).is_none() {
            return Err(CuError::ContextIsDestroyed);
        }
        if drv.next_handle == u64::MAX {
            return Err(CuError::OutOfMemory);
        }
        let h = drv.next_handle;
        let entry = EventEntry { handle: h, refs: 1, pending: false, gen: 0, done_at: 0 };
        drv.events.push(entry);
        drv.next_handle = h + 1;
        proof {
            assert(drv@ =~= event_create_t(old(drv)@));
            lemma_events_push(old(drv)@.events, h, entry);
            assert forall|j: int|
                0 <= j < drv@.events.len() && (#[trigger] drv@.events[j]).pending implies exists|i: int|
                0 <= i < drv@.pending.len() && (#[trigger] drv@.pending[i]).op
                    == (PendingOp::RecordEvent {
                    event: drv@.events[j].handle,
                    gen: drv@.events[j].gen,
                }) by {
                assert(j < old(drv)@.events.len());
                assert(old(drv)@.events[j].pending);
                let w = choose|i: int|
                    0 <= i < old(drv)@.pending.len() && (#[trigger] old(drv)@.pending[i]).op
                        == (PendingOp::RecordEvent {
                        event: old(drv)@.events[j].handle,
                        gen: old(drv)@.events[j].gen,
                    });
                assert(drv@.pending[w] == old(drv)@.pending[w]);
            }
            assert(drv@.wf());
            assert(drv@.events[old(drv)@.events.len() as int].handle == h);
            assert(event_live(drv@.events, h));
            let j = event_at(drv@.events, h);
            if j != old(drv)@.events.len() {
                assert(1 <= old(drv)@.events[j].handle < h);
            }
        }
        Ok(CuEvent { raw: h, ownership: Ownership::Owned })
    }

    /// Wraps a raw handle owned elsewhere as an ambient event, which this
    /// layer will never destroy.
    pub fn from_raw(raw: u64) -> (r: CuEvent)
        ensures
            r == (CuEvent { raw, ownership: Ownership::Ambient }),
    {
        CuEvent { raw, ownership: Ownership::Ambient }
    }

    /// Marks this event at the current tail of `stream`: the event becomes
    /// pending under a fresh recording generation, and its completion
    /// marker is queued on the stream.
    pub fn record(&self, drv: &mut CuDriver, stream: &CuStream) -> (r: CuResult<()>)
        requires
            old(drv)@.wf(),
        ensures
            final(drv)@ == event_record_t(old(drv)@, self.raw, stream.raw),
            final(drv)@.wf(),
            r is Ok <==> event_record_ok(old(drv)@, self.raw, stream.raw),
            r is Ok ==> event_pending(final(drv)@.events, self.raw),
            r is Err ==> r->Err_0 == event_op_err(old(drv)@, self.raw),
    {
        if !drv.initialized {
            return Err(CuError::NotInitialized);
        }
        let i = match drv.find_event(self.raw) {
            Some(i) => i,
            None => {
                return Err(CuError::InvalidHandle);
            },
        };
        if drv.find_stream(stream.raw).is_none() {
            return Err(CuError::InvalidHandle);
        }
        let e = drv.events[i];
        if e.gen == u64::MAX {
            return Err(CuError::InvalidHandle);
        }
        let g = e.gen + 1;
        drv.events[i] = EventEntry { pending: true, gen: g, ..e };
        drv.pending.push(
            StreamedOp { stream: stream.raw, op: PendingOp::RecordEvent { event: self.raw, gen: g } },
        );
        proof {
            assert(drv@ =~= event_record_t(old(drv)@, self.raw, stream.raw));
            lemma_events_update(
                old(drv)@.events,
                old(drv)@.next_handle,
                i as int,
                EventEntry { pending: true, gen: g, ..e },
            );
            assert forall|j: int|
                0 <= j < drv@.events.len() && (#[trigger] drv@.events[j]).pending implies exists|k: int|
                0 <= k < drv@.pending.len() && (#[trigger] drv@.pending[k]).op
                    == (PendingOp::RecordEvent {
                    event: drv@.events[j].handle,
                    gen: drv@.events[j].gen,
                }) by {
                if j == i as int {
                    assert(drv@.pending[drv@.pending.len() - 1].op == (PendingOp::RecordEvent {
                        event: drv@.events[j].handle,
                        gen: drv@.events[j].gen,
                    }));
                } else {
                    assert(drv@.events[j] == old(drv)@.events[j]);
                    assert(old(drv)@.events[j].pending);
                    let w = choose|k: int|
                        0 <= k < old(drv)@.pending.len() && (#[trigger] old(drv)@.pending[k]).op
                            == (PendingOp::RecordEvent {
                            event: old(drv)@.events[j].handle,
                            gen: old(drv)@.events[j].gen,
                        });
                    assert(drv@.pending[w] == old(drv)@.pending[w]);
                }
            }
            assert(drv@.wf());
            assert(drv@.events[i as int].handle == self.raw);
            assert(event_live(drv@.events, self.raw));
            let j = event_at(drv@.events, self.raw);
            if j != i as int {
                assert(drv@.events[j].handle != drv@.events[i as int].handle);
            }
        }
        Ok(())
    }

    /// Whether this event's recording is still pending.
    pub(crate) fn is_pending_exec(&self, drv: &CuDriver) -> (r: bool)
        requires
            drv@.wf(),
        ensures
            r == event_pending(drv@.events, self.raw),
    {
        match drv.find_event(self.raw) {
            Some(i) => drv.events[i].pending,
            None => false,
        }
    }

    /// Non-blocking completion test: `true` when the recorded point has
    /// been reached, or nothing was ever recorded. The driver's "not yet
    /// complete" status is an expected steady state, reported as `false`,
    /// never as an error.
    pub fn query(&self, drv: &CuDriver) -> (r: CuResult<bool>)
        requires
            drv@.wf(),
        ensures
            r is Ok <==> event_op_ok(drv@, self.raw),
            r is Ok ==> r->Ok_0 == !event_pending(drv@.events, self.raw),
            r is Err ==> r->Err_0 == event_op_err(drv@, self.raw),
    {
        if !drv.initialized {
            return Err(CuError::NotInitialized);
        }
        if drv.find_event(self.raw).is_none() {
            return Err(CuError::InvalidHandle);
        }
        Ok(!self.is_pending_exec(drv))
    }

    /// Blocks until this event's recorded point is reached, executing
    /// submitted work, oldest first, up to its completion marker.
    pub fn synchronize(&self, drv: &mut CuDriver) -> (r: CuResult<()>)
        requires
            old(drv)@.wf(),
        ensures
            final(drv)@ == event_sync_t(old(drv)@, self.raw),
            final(drv)@.wf(),
            r is Ok <==> event_op_ok(old(drv)@, self.raw),
            r is Ok ==> !event_pending(final(drv)@.events, self.raw),
            r is Err ==> r->Err_0 == event_op_err(old(drv)@, self.raw),
    {
        if !drv.initialized {
            return Err(CuError::NotInitialized);
        }
        if drv.find_event(self.raw).is_none() {
            return Err(CuError::InvalidHandle);
        }
        while self.is_pending_exec(drv)
            invariant
                drv@.wf(),
                drain_event_t(drv@, self.raw) == drain_event_t(old(drv)@, self.raw),
            decreases drv@.pending.len(),
        {
            proof {
                // the pending recording keeps its marker queued, so the
                // queue cannot be empty here
                let j = event_at(drv@.events, self.raw);
                assert(drv@.events[j].pending);
                let w = choose|i: int|
                    0 <= i < drv@.pending.len() && (#[trigger] drv@.pending[i]).op
                        == (PendingOp::RecordEvent {
                        event: drv@.events[j].handle,
                        gen: drv@.events[j].gen,
                    });
                assert(drv@.pending.len() > 0);
                assert(drain_event_t(drv@, self.raw) == drain_event_t(step(drv@), self.raw));
            }
            drv.step_front();
        }
        proof {
            assert(drain_event_t(drv@, self.raw) == drv@);
        }
        Ok(())
    }

    /// The logical time between `start`'s and this event's recorded
    /// points, in executed-work ticks (the native layer reports fractional
    /// milliseconds; the tick count is this layer's measure of the work
    /// between the two marks). Both recordings must already have
    /// completed: an event never recorded is refused as an invalid handle,
    /// a still-pending recording as not ready, and the difference is never
    /// silently computed.
    pub fn elapsed_time(&self, drv: &CuDriver, start: &CuEvent) -> (r: CuResult<i64>)
        requires
            drv@.wf(),
        ensures
            r is Ok <==> elapsed_ok(drv@, self.raw, start.raw),
            r is Ok ==> r->Ok_0 == event_done_at(drv@, self.raw) - event_done_at(drv@, start.raw),
            r is Err ==> r->Err_0 == elapsed_err(drv@, self.raw, start.raw),
    {
        if !drv.initialized {
            return Err(CuError::NotInitialized);
        }
        let iend = match drv.find_event(self.raw) {
            Some(i) => i,
            None => {
                return Err(CuError::InvalidHandle);
            },
        };
        let istart = match drv.find_event(start.raw) {
            Some(i) => i,
            None => {
                return Err(CuError::InvalidHandle);
            },
        };
        let e = drv.events[iend];
        let s = drv.events[istart];
        if e.gen == 0 || s.gen == 0 {
            return Err(CuError::InvalidHandle);
        }
        if e.pending || s.pending {
            return Err(CuError::NotReady);
        }
        proof {
            assert(e.done_at <= drv@.clock);
            assert(s.done_at <= drv@.clock);
        }
        Ok(e.done_at as i64 - s.done_at as i64)
    }

    /// A counted clone of this event.
    pub fn clone_ref(&self, drv: &mut CuDriver) -> (r: CuEvent)
        requires
            old(drv)@.wf(),
            event_valid(old(drv)@, *self),
            self.ownership is Owned ==> event_refs(old(drv)@, self.raw) < u64::MAX,
        ensures
            final(drv)@ == event_clone_t(old(drv)@, *self),
            final(drv)@.wf(),
            r == *self,
            event_valid(final(drv)@, r),
            event_valid(final(drv)@, *self),
    {
        match self.ownership {
            Ownership::Ambient => CuEvent { raw: self.raw, ownership: Ownership::Ambient },
            Ownership::Owned => {
                let i = drv.find_event(self.raw).unwrap();
                let e = drv.events[i];
                drv.events[i] = EventEntry { refs: e.refs + 1, ..e };
                proof {
                    assert(drv@ =~= event_clone_t(old(drv)@, *self));
                    lemma_events_update(
                        old(drv)@.events,
                        old(drv)@.next_handle,
                        i as int,
                        EventEntry { refs: (e.refs + 1) as u64, ..e },
                    );
                    lemma_record_witnesses_carry(old(drv)@, drv@, i as int);
                    assert(drv@.wf());
                    assert(drv@.events[i as int].handle == self.raw);
                    assert(event_live(drv@.events, self.raw));
                    let j = event_at(drv@.events, self.raw);
                    if j != i as int {
                        assert(drv@.events[j].handle != drv@.events[i as int].handle);
                    }
                }
                CuEvent { raw: self.raw, ownership: Ownership::Owned }
            },
        }
    }

    /// Releases this reference; the last release of an owned event fires
    /// the native destroy exactly once, an ambient release does nothing.
    pub fn release(self, drv: &mut CuDriver)
        requires
            old(drv)@.wf(),
            event_valid(old(drv)@, self),
        ensures
            final(drv)@ == event_release_t(old(drv)@, self),
            final(drv)@.wf(),
    {
        match self.ownership {
            Ownership::Ambient => {},
            Ownership::Owned => {
                let i = drv.find_event(self.raw).unwrap();
                let e = drv.events[i];
                if e.refs <= 1 {
                    drv.events.remove(i);
                    drv.event_destroys = drv.event_destroys + 1;
                    proof {
                        assert(drv@.events =~= old(drv)@.events.remove(i as int));
                        assert(drv@ =~= event_release_t(old(drv)@, self));
                        lemma_events_remove(old(drv)@.events, old(drv)@.next_handle, i as int);
                        assert forall|j: int|
                            0 <= j < drv@.events.len() && (#[trigger] drv@.events[j]).pending implies exists|k: int|
                            0 <= k < drv@.pending.len() && (#[trigger] drv@.pending[k]).op
                                == (PendingOp::RecordEvent {
                                event: drv@.events[j].handle,
                                gen: drv@.events[j].gen,
                            }) by {
                            let jj = if j < i as int {
                                j
                            } else {
                                j + 1
                            };
                            assert(drv@.events[j] == old(drv)@.events[jj]);
                            let w = choose|k: int|
                                0 <= k < old(drv)@.pending.len() && (#[trigger] old(
                                    drv,
                                )@.pending[k]).op == (PendingOp::RecordEvent {
                                    event: old(drv)@.events[jj].handle,
                                    gen: old(drv)@.events[jj].gen,
                                });
                            assert(drv@.pending[w] == old(drv)@.pending[w]);
                        }
                        assert(drv@.wf());
                    }
                } else {
                    drv.events[i] = EventEntry { refs: e.refs - 1, ..e };
                    proof {
                        assert(drv@ =~= event_release_t(old(drv)@, self));
                        lemma_events_update(
                            old(drv)@.events,
                            old(drv)@.next_handle,
                            i as int,
                            EventEntry { refs: (e.refs - 1) as u64, ..e },
                        );
                        lemma_record_witnesses_carry(old(drv)@, drv@, i as int);
                        assert(drv@.wf());
                    }
                }
            },
        }
    }

    /// The raw handle this wrapper stands for.
    pub fn get_raw(&self) -> (r: u64)
        ensures
            r == self.raw,
    {
        self.raw
    }
}

/// Updating one event entry without touching its handle, generation or
/// pending flag keeps every queued-marker witness in place.
proof fn lemma_record_witnesses_carry(m0: Model, m1: Model, i: int)
    requires
        m0.records_queued(),
        m1.pending == m0.pending,
        m1.events.len() == m0.events.len(),
        0 <= i < m0.events.len(),
        m1.events == m0.events.update(
            i,
            EventEntry { refs: m1.events[i].refs, ..m0.events[i] },
        ),
    ensures
        m1.records_queued(),
{
    assert forall|j: int|
        0 <= j < m1.events.len() && (#[trigger] m1.events[j]).pending implies exists|k: int|
        0 <= k < m1.pending.len() && (#[trigger] m1.pending[k]).op == (PendingOp::RecordEvent {
            event: m1.events[j].handle,
            gen: m1.events[j].gen,
        }) by {
        assert(m1.events[j].handle == m0.events[j].handle);
        assert(m1.events[j].gen == m0.events[j].gen);
        assert(m0.events[j].pending);
        let w = choose|k: int|
            0 <= k < m0.pending.len() && (#[trigger] m0.pending[k]).op == (PendingOp::RecordEvent {
                event: m0.events[j].handle,
                gen: m0.events[j].gen,
            });
        assert(m1.pending[w] == m0.pending[w]);
    }
}

// --- the destroy-once law of counted clones ---

/// The model after `n` counted clones of `c`.
pub open spec fn clone_n(m: Model, c: CuEvent, n: nat) -> Model
    decreases n,
{
    if n == 0 {
        m
    } else {
        event_clone_t(clone_n(m, c, (n - 1) as nat), c)
    }
}

/// The model after `n` releases of `c`.
pub open spec fn release_n(m: Model, c: CuEvent, n: nat) -> Model
    decreases n,
{
    if n == 0 {
        m
    } else {
        release_n(event_release_t(m, c), c, (n - 1) as nat)
    }
}

/// One counted clone of a live owned handle: one more reference, same
/// destroy count, everything else as it was.
proof fn lemma_clone_step(m: Model, c: CuEvent)
    requires
        c.ownership is Owned,
        forall|i: int, j: int|
            0 <= i < j < m.events.len() ==> (#[trigger] m.events[i]).handle != (
            #[trigger] m.events[j]).handle,
        event_live(m.events, c.raw),
        event_refs(m, c.raw) < u64::MAX,
    ensures
        event_live(event_clone_t(m, c).events, c.raw),
        event_refs(event_clone_t(m, c), c.raw) == event_refs(m, c.raw) + 1,
        event_clone_t(m, c).event_destroys == m.event_destroys,
        forall|i: int, j: int|
            0 <= i < j < event_clone_t(m, c).events.len() ==> (#[trigger] event_clone_t(
                m,
                c,
            ).events[i]).handle != (#[trigger] event_clone_t(m, c).events[j]).handle,
    {
    let k = event_at(m.events, c.raw);
    let m2 = event_clone_t(m, c);
    assert(m2.events[k].handle == c.raw);
    assert(event_live(m2.events, c.raw));
    let j = event_at(m2.events, c.raw);
    if j != k {
        assert(m2.events[j] == m.events[j]);
        assert(m.events[j].handle != m.events[k].handle);
    }
}

/// One release of a live owned handle with more than one reference: one
/// reference fewer, same destroy count.
proof fn lemma_release_step(m: Model, c: CuEvent)
    requires
        c.ownership is Owned,
        forall|i: int, j: int|
            0 <= i < j < m.events.len() ==> (#[trigger] m.events[i]).handle != (
            #[trigger] m.events[j]).handle,
        event_live(m.events, c.raw),
        event_refs(m, c.raw) >= 2,
    ensures
        event_live(event_release_t(m, c).events, c.raw),
        event_refs(event_release_t(m, c), c.raw) == event_refs(m, c.raw) - 1,
        event_release_t(m, c).event_destroys == m.event_destroys,
        forall|i: int, j: int|
            0 <= i < j < event_release_t(m, c).events.len() ==> (#[trigger] event_release_t(
                m,
                c,
            ).events[i]).handle != (#[trigger] event_release_t(m, c).events[j]).handle,
    {
    let k = event_at(m.events, c.raw);
    let m2 = event_release_t(m, c);
    assert(m2.events[k].handle == c.raw);
    assert(event_live(m2.events, c.raw));
    let j = event_at(m2.events, c.raw);
    if j != k {
        assert(m2.events[j] == m.events[j]);
        assert(m.events[j].handle != m.events[k].handle);
    }
}

/// `n` counted clones take the reference count from 1 to `n + 1` and fire
/// no destroy.
proof fn lemma_clone_n(m: Model, c: CuEvent, n: nat)
    requires
        c.ownership is Owned,
        forall|i: int, j: int|
            0 <= i < j < m.events.len() ==> (#[trigger] m.events[i]).handle != (
            #[trigger] m.events[j]).handle,
        event_live(m.events, c.raw),
        event_refs(m, c.raw) + n <= u64::MAX,
    ensures
        event_live(clone_n(m, c, n).events, c.raw),
        event_refs(clone_n(m, c, n), c.raw) == event_refs(m, c.raw) + n,
        clone_n(m, c, n).event_destroys == m.event_destroys,
        forall|i: int, j: int|
            0 <= i < j < clone_n(m, c, n).events.len() ==> (#[trigger] clone_n(
                m,
                c,
                n,
            ).events[i]).handle != (#[trigger] clone_n(m, c, n).events[j]).handle,
    decreases n,
{
    if n == 0 {
    } else {
        lemma_clone_n(m, c, (n - 1) as nat);
        lemma_clone_step(clone_n(m, c, (n - 1) as nat), c);
    }
}

/// `n` releases of a handle holding more than `n` references only count
/// down and fire no destroy.
proof fn lemma_release_n(m: Model, c: CuEvent, n: nat)
    requires
        c.ownership is Owned,
        forall|i: int, j: int|
            0 <= i < j < m.events.len() ==> (#[trigger] m.events[i]).handle != (
            #[trigger] m.events[j]).handle,
        event_live(m.events, c.raw),
        event_refs(m, c.raw) >= n + 1,
    ensures
        event_live(release_n(m, c, n).events, c.raw),
        event_refs(release_n(m, c, n), c.raw) == event_refs(m, c.raw) - n,
        release_n(m, c, n).event_destroys == m.event_destroys,
        forall|i: int, j: int|
            0 <= i < j < release_n(m, c, n).events.len() ==> (#[trigger] release_n(
                m,
                c,
                n,
            ).events[i]).handle != (#[trigger] release_n(m, c, n).events[j]).handle,
    decreases n,
{
    if n == 0 {
    } else {
        lemma_release_step(m, c);
        lemma_release_n(event_release_t(m, c), c, (n - 1) as nat);
    }
}

/// Shared ownership destroys exactly once, at the last release: starting
/// from a single owning reference, taking `n` counted clones and then
/// releasing all `n + 1` references leaves the handle live with no destroy
/// fired up to and including the `n`-th release, and the final release
/// removes the entry and fires exactly one native destroy.
pub proof fn lemma_shared_destroy_once(m: Model, c: CuEvent, n: nat)
    requires
        c.ownership is Owned,
        forall|i: int, j: int|
            0 <= i < j < m.events.len() ==> (#[trigger] m.events[i]).handle != (
            #[trigger] m.events[j]).handle,
        event_live(m.events, c.raw),
        event_refs(m, c.raw) == 1,
        1 + n <= u64::MAX,
        m.event_destroys < u64::MAX,
    ensures
        event_live(release_n(clone_n(m, c, n), c, n).events, c.raw),
        forall|k: nat|
            k <= n ==> #[trigger] release_n(clone_n(m, c, n), c, k).event_destroys
                == m.event_destroys,
        !event_live(release_n(clone_n(m, c, n), c, (n + 1) as nat).events, c.raw),
        release_n(clone_n(m, c, n), c, (n + 1) as nat).event_destroys == m.event_destroys + 1,
{
    lemma_clone_n(m, c, n);
    let mc = clone_n(m, c, n);
    assert forall|k: nat| k <= n implies #[trigger] release_n(mc, c, k).event_destroys
        == m.event_destroys by {
        lemma_release_n(mc, c, k);
    }
    lemma_release_n(mc, c, n);
    let mr = release_n(mc, c, n);
    lemma_release_n_snoc(mc, c, n);
    assert(release_n(mc, c, (n + 1) as nat) == event_release_t(mr, c));
    let k = event_at(mr.events, c.raw);
    assert(mr.events[k].handle == c.raw);
    let m2 = event_release_t(mr, c);
    assert(m2.events == mr.events.remove(k));
    assert forall|a: int| 0 <= a < m2.events.len() implies (#[trigger] m2.events[a]).handle != c.raw by {
        if a < k {
            assert(mr.events[a].handle != mr.events[k].handle);
        } else {
            assert(mr.events[a + 1].handle != mr.events[k].handle);
        }
    }
    if event_live(m2.events, c.raw) {
        let w = event_at(m2.events, c.raw);
        assert(m2.events[w].handle == c.raw);
    }
}

/// Releasing once more releases what the earlier releases left.
proof fn lemma_release_n_snoc(m: Model, c: CuEvent, n: nat)
    ensures
        release_n(m, c, (n + 1) as nat) == event_release_t(release_n(m, c, n), c),
    decreases n,
{
    let zero: nat = 0;
    if n == 0 {
        assert(release_n(m, c, (n + 1) as nat) == release_n(event_release_t(m, c), c, zero));
        assert(release_n(event_release_t(m, c), c, zero) == event_release_t(m, c));
        assert(release_n(m, c, zero) == m);
    } else {
        lemma_release_n_snoc(event_release_t(m, c), c, (n - 1) as nat);
        assert(release_n(m, c, (n + 1) as nat) == release_n(event_release_t(m, c), c, n));
        assert(release_n(m, c, n) == release_n(event_release_t(m, c), c, (n - 1) as nat));
    }
}

/// An ambient wrapper never touches the driver: any number of counted
/// clones and releases of it are identities, so no destroy ever fires.
pub proof fn lemma_ambient_no_destroy(m: Model, c: CuEvent, n: nat, k: nat)
    requires
        c.ownership is Ambient,
    ensures
        release_n(clone_n(m, c, n), c, k) == m,
    decreases n + k,
{
    if n > 0 {
        assert(clone_n(m, c, n) == event_clone_t(clone_n(m, c, (n - 1) as nat), c));
        lemma_ambient_no_destroy(m, c, (n - 1) as nat, k);
        assert(event_clone_t(clone_n(m, c, (n - 1) as nat), c) == clone_n(m, c, (n - 1) as nat));
        lemma_clone_n_eq(m, c, n);
    } else if k > 0 {
        lemma_ambient_no_destroy(m, c, n, (k - 1) as nat);
        assert(event_release_t(m, c) == m);
        lemma_release_n_head(m, c, k);
    }
}

/// Peeling one release off the front.
proof fn lemma_release_n_head(m: Model, c: CuEvent, k: nat)
    requires
        k > 0,
    ensures
        release_n(m, c, k) == release_n(event_release_t(m, c), c, (k - 1) as nat),
{
}

/// Ambient clones change nothing, step by step.
proof fn lemma_clone_n_eq(m: Model, c: CuEvent, n: nat)
    requires
        c.ownership is Ambient,
    ensures
        clone_n(m, c, n) == m,
    decreases n,
{
    if n > 0 {
        lemma_clone_n_eq(m, c, (n - 1) as nat);
    }
}

} // verus!
