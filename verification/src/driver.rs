//! The driver's ambient state and its mathematical model: tables of live
//! handles, the thread's current-context stack, buffer contents, and the
//! queue of submitted asynchronous work, executed oldest first. Every
//! operation of the library is specified as a transition on [`Model`] and
//! verified against it.

use vstd::prelude::*;

verus! {

// --- plain data shared by the executable state and its mathematical model ---

/// Which memory space a model address points into.
#[derive(Clone, Copy, Debug, PartialEq, Eq, Structural)]
pub enum MemSpace {
    Host,
    Device,
}

/// A model address: a buffer handle together with its memory space. The
/// native layer addresses raw pointers; the model addresses whole buffers.
#[derive(Clone, Copy, Debug, PartialEq, Eq, Structural)]
pub struct MemLoc {
    pub space: MemSpace,
    pub handle: u64,
}

/// One unit of asynchronous work submitted to a stream.
#[derive(Clone, Copy, Debug, PartialEq, Eq, Structural)]
pub enum PendingOp {
    /// A plain copy of `size` bytes from the start of `src` to the start of `dst`.
    Copy { dst: MemLoc, src: MemLoc, size: usize },
    /// A strided 2D copy: `height` rows of `width` bytes each, read at
    /// stride `src_pitch` and written at stride `dst_pitch`.
    Copy2d {
        dst: MemLoc,
        dst_pitch: usize,
        src: MemLoc,
        src_pitch: usize,
        width: usize,
        height: usize,
    },
    /// Stream-ordered release of a device allocation.
    FreeDevice { handle: u64 },
    /// Completion marker for an event's recording, tagged with the
    /// recording generation it belongs to.
    RecordEvent { event: u64, gen: u64 },
    /// A cross-stream dependency on an event's recorded point. Work is
    /// executed in submission order, which satisfies every such dependency
    /// (a wait observes the event's last recording, which was submitted
    /// earlier), so the marker itself has no further effect.
    WaitEvent { event: u64 },
}

/// A submitted op together with the stream that carries it.
#[derive(Clone, Copy, Debug, PartialEq, Eq, Structural)]
pub struct StreamedOp {
    pub stream: u64,
    pub op: PendingOp,
}

/// A live context: its device, the wrapper layer's reference count, and
/// whether it is the device's primary context (owned by the driver itself,
/// reference count unused and held at zero).
#[derive(Clone, Copy, Debug, PartialEq, Eq, Structural)]
pub struct CtxEntry {
    pub handle: u64,
    pub device: u32,
    pub refs: u64,
    pub primary: bool,
}

/// A live stream: the context it was created under and the wrapper layer's
/// reference count.
#[derive(Clone, Copy, Debug, PartialEq, Eq, Structural)]
pub struct StreamEntry {
    pub handle: u64,
    pub ctx: u64,
    pub refs: u64,
}

/// A live event. `pending` says that a recording has been submitted and its
/// marker has not yet executed; `gen` counts recordings, so that a stale
/// marker of an earlier recording cannot complete a later one; `done_at`
/// is the logical tick at which the last recording completed, zero before
/// any completion.
#[derive(Clone, Copy, Debug, PartialEq, Eq, Structural)]
pub struct EventEntry {
    pub handle: u64,
    pub refs: u64,
    pub pending: bool,
    pub gen: u64,
    pub done_at: u64,
}

/// A pinned host or device allocation and its bytes.
pub struct Buf {
    pub handle: u64,
    pub data: Vec<u8>,
}

/// The model of an allocation: its handle and its bytes.
#[verifier::ext_equal]
pub struct BufM {
    pub handle: u64,
    pub data: Seq<u8>,
}

/// The mathematical model of the driver's ambient state.
#[verifier::ext_equal]
pub struct Model {
    pub initialized: bool,
    /// One entry per device: its total memory in bytes.
    pub device_mems: Seq<usize>,
    /// The next unused handle; all live handles are below it.
    pub next_handle: u64,
    pub ctxs: Seq<CtxEntry>,
    /// The thread's current-context stack, top last.
    pub current_stack: Seq<u64>,
    pub streams: Seq<StreamEntry>,
    pub events: Seq<EventEntry>,
    pub host_bufs: Seq<BufM>,
    pub dev_bufs: Seq<BufM>,
    /// Submitted asynchronous work, in submission order.
    pub pending: Seq<StreamedOp>,
    /// The logical clock: one tick per executed op, saturating far beyond
    /// reach so that tick differences always fit a signed word.
    pub clock: u64,
    /// How many native context destroys have fired.
    pub ctx_destroys: u64,
    pub stream_destroys: u64,
    pub event_destroys: u64,
}

// --- lookups over the model's tables ---

pub open spec fn ctx_live(s: Seq<CtxEntry>, h: u64) -> bool {
    exists|i: int| 0 <= i < s.len() && (#[trigger] s[i]).handle == h
}

/// The index of the live context `h`; meaningful only when `ctx_live`.
pub open spec fn ctx_at(s: Seq<CtxEntry>, h: u64) -> int {
    choose|i: int| 0 <= i < s.len() && (#[trigger] s[i]).handle == h
}

pub open spec fn stream_live(s: Seq<StreamEntry>, h: u64) -> bool {
    exists|i: int| 0 <= i < s.len() && (#[trigger] s[i]).handle == h
}

pub open spec fn stream_at(s: Seq<StreamEntry>, h: u64) -> int {
    choose|i: int| 0 <= i < s.len() && (#[trigger] s[i]).handle == h
}

pub open spec fn event_live(s: Seq<EventEntry>, h: u64) -> bool {
    exists|i: int| 0 <= i < s.len() && (#[trigger] s[i]).handle == h
}

pub open spec fn event_at(s: Seq<EventEntry>, h: u64) -> int {
    choose|i: int| 0 <= i < s.len() && (#[trigger] s[i]).handle == h
}

pub open spec fn buf_live(bufs: Seq<BufM>, h: u64) -> bool {
    exists|i: int| 0 <= i < bufs.len() && (#[trigger] bufs[i]).handle == h
}

pub open spec fn buf_at(bufs: Seq<BufM>, h: u64) -> int {
    choose|i: int| 0 <= i < bufs.len() && (#[trigger] bufs[i]).handle == h
}

/// The bytes of the live buffer `h`; meaningful only when `buf_live`.
pub open spec fn buf_bytes(bufs: Seq<BufM>, h: u64) -> Seq<u8> {
    bufs[buf_at(bufs, h)].data
}

/// Whether an event is live and has a recording that has not yet executed.
pub open spec fn event_pending(s: Seq<EventEntry>, h: u64) -> bool {
    event_live(s, h) && s[event_at(s, h)].pending
}

/// Whether any submitted work of stream `s` has not yet executed.
pub open spec fn stream_has_work(p: Seq<StreamedOp>, s: u64) -> bool {
    exists|i: int| 0 <= i < p.len() && (#[trigger] p[i]).stream == s
}

// --- well-formedness ---

pub open spec fn ctxs_ok(s: Seq<CtxEntry>, next: u64) -> bool {
    &&& forall|i: int| 0 <= i < s.len() ==> 1 <= (#[trigger] s[i]).handle < next
    &&& forall|i: int, j: int|
        0 <= i < j < s.len() ==> (#[trigger] s[i]).handle != (#[trigger] s[j]).handle
}

pub open spec fn streams_ok(s: Seq<StreamEntry>, next: u64) -> bool {
    &&& forall|i: int| 0 <= i < s.len() ==> 1 <= (#[trigger] s[i]).handle < next
    &&& forall|i: int, j: int|
        0 <= i < j < s.len() ==> (#[trigger] s[i]).handle != (#[trigger] s[j]).handle
}

pub open spec fn events_ok(s: Seq<EventEntry>, next: u64) -> bool {
    &&& forall|i: int| 0 <= i < s.len() ==> 1 <= (#[trigger] s[i]).handle < next
    &&& forall|i: int, j: int|
        0 <= i < j < s.len() ==> (#[trigger] s[i]).handle != (#[trigger] s[j]).handle
}

pub open spec fn bufs_ok(s: Seq<BufM>, next: u64) -> bool {
    &&& forall|i: int| 0 <= i < s.len() ==> 1 <= (#[trigger] s[i]).handle < next
    &&& forall|i: int, j: int|
        0 <= i < j < s.len() ==> (#[trigger] s[i]).handle != (#[trigger] s[j]).handle
}

/// At most one primary context stands per device.
pub open spec fn primaries_unique(s: Seq<CtxEntry>) -> bool {
    forall|i: int, j: int|
        0 <= i < j < s.len() && (#[trigger] s[i]).primary && (#[trigger] s[j]).primary ==> s[i].device
            != s[j].device
}

impl Model {
    /// Every live event with a pending recording has its completion marker
    /// still queued, under the event's current generation.
    pub open spec fn records_queued(self) -> bool {
        forall|j: int|
            0 <= j < self.events.len() && (#[trigger] self.events[j]).pending ==> exists|i: int|
                0 <= i < self.pending.len() && (#[trigger] self.pending[i]).op
                    == (PendingOp::RecordEvent {
                    event: self.events[j].handle,
                    gen: self.events[j].gen,
                })
    }

    /// The driver invariant: handles are nonzero, below `next_handle` and
    /// distinct within each table; each destroy counter plus its table's
    /// population stays below `next_handle` (each live or destroyed entry
    /// consumed one handle), so the counters cannot overflow; pending
    /// recordings stay queued; and the device table fits an `i32` count.
    pub open spec fn wf(self) -> bool {
        &&& self.next_handle >= 1
        &&& self.device_mems.len() <= i32::MAX
        &&& ctxs_ok(self.ctxs, self.next_handle)
        &&& primaries_unique(self.ctxs)
        &&& streams_ok(self.streams, self.next_handle)
        &&& events_ok(self.events, self.next_handle)
        &&& bufs_ok(self.host_bufs, self.next_handle)
        &&& bufs_ok(self.dev_bufs, self.next_handle)
        &&& self.ctx_destroys + self.ctxs.len() < self.next_handle
        &&& self.stream_destroys + self.streams.len() < self.next_handle
        &&& self.event_destroys + self.events.len() < self.next_handle
        &&& self.records_queued()
        &&& self.clock <= i64::MAX as u64
        &&& forall|i: int|
            0 <= i < self.events.len() ==> (#[trigger] self.events[i]).done_at <= self.clock
    }

    /// Whether a fresh handle can still be drawn.
    pub open spec fn can_alloc(self) -> bool {
        self.next_handle < u64::MAX
    }
}

// --- executing submitted work, one op at a time, in submission order ---

/// `dst` with its first `size` bytes overwritten from `src`, as far as both
/// reach.
pub open spec fn overwrite_prefix(dst: Seq<u8>, src: Seq<u8>, size: int) -> Seq<u8> {
    Seq::new(dst.len(), |i: int| if i < size && i < src.len() { src[i] } else { dst[i] })
}

/// `dst` after a strided 2D copy out of `src`: for each of `height` rows,
/// `width` bytes read at stride `src_pitch` land at stride `dst_pitch`.
/// Bytes outside the copied windows keep their value; out-of-range reads
/// leave the destination byte unchanged, so the description is total.
pub open spec fn copy2d_bytes(
    dst: Seq<u8>,
    dst_pitch: int,
    src: Seq<u8>,
    src_pitch: int,
    width: int,
    height: int,
) -> Seq<u8> {
    if dst_pitch <= 0 {
        dst
    } else {
        Seq::new(
            dst.len(),
            |i: int|
                {
                    let row = i / dst_pitch;
                    let col = i % dst_pitch;
                    if row < height && col < width && 0 <= row * src_pitch + col < src.len() {
                        src[row * src_pitch + col]
                    } else {
                        dst[i]
                    }
                },
        )
    }
}

/// The bytes at a model address, if its buffer is live.
pub open spec fn read_loc(m: Model, loc: MemLoc) -> Option<Seq<u8>> {
    match loc.space {
        MemSpace::Host => if buf_live(m.host_bufs, loc.handle) {
            Some(buf_bytes(m.host_bufs, loc.handle))
        } else {
            None
        },
        MemSpace::Device => if buf_live(m.dev_bufs, loc.handle) {
            Some(buf_bytes(m.dev_bufs, loc.handle))
        } else {
            None
        },
    }
}

/// The model with the live buffer at `loc` holding `data` instead;
/// meaningful only when the buffer is live.
pub open spec fn write_loc(m: Model, loc: MemLoc, data: Seq<u8>) -> Model {
    match loc.space {
        MemSpace::Host => Model {
            host_bufs: m.host_bufs.update(
                buf_at(m.host_bufs, loc.handle),
                BufM { handle: loc.handle, data },
            ),
            ..m
        },
        MemSpace::Device => Model {
            dev_bufs: m.dev_bufs.update(
                buf_at(m.dev_bufs, loc.handle),
                BufM { handle: loc.handle, data },
            ),
            ..m
        },
    }
}

/// The clock advanced by one executed op.
pub open spec fn tick(c: u64) -> u64 {
    if c < i64::MAX as u64 {
        (c + 1) as u64
    } else {
        c
    }
}

/// The effect of one op, which also advances the logical clock by one
/// tick. An op whose buffers have since been released, or a stale
/// recording marker, executes as a no-op: submission-time validation
/// checked it, and the driver does not police what happened in between.
pub open spec fn apply_op(m0: Model, op: PendingOp) -> Model {
    let m = Model { clock: tick(m0.clock), ..m0 };
    match op {
        PendingOp::Copy { dst, src, size } => {
            match (read_loc(m, src), read_loc(m, dst)) {
                (Some(sb), Some(db)) => write_loc(m, dst, overwrite_prefix(db, sb, size as int)),
                _ => m,
            }
        },
        PendingOp::Copy2d { dst, dst_pitch, src, src_pitch, width, height } => {
            match (read_loc(m, src), read_loc(m, dst)) {
                (Some(sb), Some(db)) => write_loc(
                    m,
                    dst,
                    copy2d_bytes(
                        db,
                        dst_pitch as int,
                        sb,
                        src_pitch as int,
                        width as int,
                        height as int,
                    ),
                ),
                _ => m,
            }
        },
        PendingOp::FreeDevice { handle } => {
            if buf_live(m.dev_bufs, handle) {
                Model { dev_bufs: m.dev_bufs.remove(buf_at(m.dev_bufs, handle)), ..m }
            } else {
                m
            }
        },
        PendingOp::RecordEvent { event, gen } => {
            if event_live(m.events, event) && m.events[event_at(m.events, event)].gen == gen {
                Model {
                    events: m.events.update(
                        event_at(m.events, event),
                        EventEntry {
                            pending: false,
                            done_at: m.clock,
                            ..m.events[event_at(m.events, event)]
                        },
                    ),
                    ..m
                }
            } else {
                m
            }
        },
        PendingOp::WaitEvent { .. } => m,
    }
}

/// The model after executing the oldest submitted op.
pub open spec fn step(m: Model) -> Model {
    if m.pending.len() == 0 {
        m
    } else {
        Model { pending: m.pending.remove(0), ..apply_op(m, m.pending[0].op) }
    }
}

/// The model after executing submitted work, oldest first, until none of
/// stream `s` remains: synchronizing a stream completes the whole
/// submission-ordered prefix through that stream's last submission.
pub open spec fn drain_stream_t(m: Model, s: u64) -> Model
    decreases m.pending.len(),
{
    if !stream_has_work(m.pending, s) || m.pending.len() == 0 {
        m
    } else {
        drain_stream_t(Model { pending: m.pending.remove(0), ..apply_op(m, m.pending[0].op) }, s)
    }
}

/// The model after executing submitted work, oldest first, until the event
/// `h` has no pending recording.
pub open spec fn drain_event_t(m: Model, h: u64) -> Model
    decreases m.pending.len(),
{
    if !event_pending(m.events, h) || m.pending.len() == 0 {
        m
    } else {
        drain_event_t(Model { pending: m.pending.remove(0), ..apply_op(m, m.pending[0].op) }, h)
    }
}

// --- the executable driver state ---

/// The model of a buffer table.
pub open spec fn bufs_m(bufs: Seq<Buf>) -> Seq<BufM> {
    bufs.map_values(|b: Buf| BufM { handle: b.handle, data: b.data@ })
}

/// The driver's ambient state, held explicitly: live handles, the thread's
/// current-context stack, buffer contents, and the submitted asynchronous
/// work that has not yet executed.
pub struct CuDriver {
    pub initialized: bool,
    pub device_mems: Vec<usize>,
    pub next_handle: u64,
    pub ctxs: Vec<CtxEntry>,
    pub current_stack: Vec<u64>,
    pub streams: Vec<StreamEntry>,
    pub events: Vec<EventEntry>,
    pub host_bufs: Vec<Buf>,
    pub dev_bufs: Vec<Buf>,
    pub pending: Vec<StreamedOp>,
    pub clock: u64,
    pub ctx_destroys: u64,
    pub stream_destroys: u64,
    pub event_destroys: u64,
}

impl View for CuDriver {
    type V = Model;

    open spec fn view(&self) -> Model {
        Model {
            initialized: self.initialized,
            device_mems: self.device_mems@,
            next_handle: self.next_handle,
            ctxs: self.ctxs@,
            current_stack: self.current_stack@,
            streams: self.streams@,
            events: self.events@,
            host_bufs: bufs_m(self.host_bufs@),
            dev_bufs: bufs_m(self.dev_bufs@),
            pending: self.pending@,
            clock: self.clock,
            ctx_destroys: self.ctx_destroys,
            stream_destroys: self.stream_destroys,
            event_destroys: self.event_destroys,
        }
    }
}

/// An exact copy of a byte vector.
pub(crate) fn clone_bytes(v: &Vec<u8>) -> (r: Vec<u8>)
    ensures
        r@ == v@,
{
    let mut r: Vec<u8> = Vec::new();
    let mut i: usize = 0;
    while i < v.len()
        invariant
            i <= v.len(),
            r@.len() == i,
            forall|j: int| 0 <= j < i ==> r@[j] == v@[j],
        decreases v.len() - i,
    {
        r.push(v[i]);
        i = i + 1;
    }
    proof {
        assert(r@ =~= v@);
    }
    r
}

/// The index of the buffer with handle `h`, if one is live.
pub(crate) fn find_buf(bufs: &Vec<Buf>, h: u64) -> (r: Option<usize>)
    requires
        forall|i: int, j: int|
            0 <= i < j < bufs_m(bufs@).len() ==> (#[trigger] bufs_m(bufs@)[i]).handle != (
            #[trigger] bufs_m(bufs@)[j]).handle,
    ensures
        r is Some <==> buf_live(bufs_m(bufs@), h),
        r is Some ==> r->Some_0 < bufs@.len() && r->Some_0 as int == buf_at(bufs_m(bufs@), h),
{
    let mut i: usize = 0;
    while i < bufs.len()
        invariant
            i <= bufs.len(),
            forall|j: int| 0 <= j < i ==> (#[trigger] bufs_m(bufs@)[j]).handle != h,
            forall|a: int, b: int|
                0 <= a < b < bufs_m(bufs@).len() ==> (#[trigger] bufs_m(bufs@)[a]).handle != (
                #[trigger] bufs_m(bufs@)[b]).handle,
        decreases bufs.len() - i,
    {
        if bufs[i].handle == h {
            proof {
                assert(bufs_m(bufs@)[i as int].handle == h);
                assert(buf_live(bufs_m(bufs@), h));
                let j = buf_at(bufs_m(bufs@), h);
                assert(bufs_m(bufs@)[j].handle == h);
                if i as int != j {
                    assert(bufs_m(bufs@)[i as int].handle != bufs_m(bufs@)[j].handle);
                }
            }
            return Some(i);
        }
        i = i + 1;
    }
    proof {
        if buf_live(bufs_m(bufs@), h) {
            let j = buf_at(bufs_m(bufs@), h);
            assert(bufs_m(bufs@)[j].handle == h);
        }
    }
    None
}

/// `dst` with its first `size` bytes overwritten from `src`, as far as both
/// reach.
pub(crate) fn overwrite_prefix_exec(dst: &Vec<u8>, src: &Vec<u8>, size: usize) -> (r: Vec<u8>)
    ensures
        r@ == overwrite_prefix(dst@, src@, size as int),
{
    let mut r: Vec<u8> = Vec::new();
    let mut i: usize = 0;
    while i < dst.len()
        invariant
            i <= dst.len(),
            r@.len() == i,
            forall|j: int|
                0 <= j < i ==> r@[j] == (if j < size && j < src@.len() {
                    src@[j]
                } else {
                    dst@[j]
                }),
        decreases dst.len() - i,
    {
        if i < size && i < src.len() {
            r.push(src[i]);
        } else {
            r.push(dst[i]);
        }
        i = i + 1;
    }
    proof {
        assert(r@ =~= overwrite_prefix(dst@, src@, size as int));
    }
    r
}

/// `dst` after a strided 2D copy out of `src`.
pub(crate) fn copy2d_exec(
    dst: &Vec<u8>,
    dst_pitch: usize,
    src: &Vec<u8>,
    src_pitch: usize,
    width: usize,
    height: usize,
) -> (r: Vec<u8>)
    requires
        dst_pitch >= 1,
    ensures
        r@ == copy2d_bytes(
            dst@,
            dst_pitch as int,
            src@,
            src_pitch as int,
            width as int,
            height as int,
        ),
{
    let mut r: Vec<u8> = Vec::new();
    let mut i: usize = 0;
    while i < dst.len()
        invariant
            dst_pitch >= 1,
            i <= dst.len(),
            r@.len() == i,
            forall|j: int|
                0 <= j < i ==> r@[j] == (if j / (dst_pitch as int) < height && j % (dst_pitch as int)
                    < width && 0 <= (j / (dst_pitch as int)) * (src_pitch as int) + j % (
                dst_pitch as int) < src@.len() {
                    src@[(j / (dst_pitch as int)) * (src_pitch as int) + j % (dst_pitch as int)]
                } else {
                    dst@[j]
                }),
        decreases dst.len() - i,
    {
        let row: usize = i / dst_pitch;
        let col: usize = i % dst_pitch;
        proof {
            assert(usize::MAX as int <= u64::MAX as int);
            assert((row as int) * (src_pitch as int) + (col as int) <= u128::MAX as int) by (nonlinear_arith)
                requires
                    0 <= row as int <= u64::MAX as int,
                    0 <= src_pitch as int <= u64::MAX as int,
                    0 <= col as int <= u64::MAX as int,
            ;
        }
        let sidx: u128 = row as u128 * src_pitch as u128 + col as u128;
        if row < height && col < width && sidx < src.len() as u128 {
            proof {
                assert(sidx == (i as int / dst_pitch as int) * (src_pitch as int) + i as int
                    % dst_pitch as int);
            }
            r.push(src[sidx as usize]);
        } else {
            r.push(dst[i]);
        }
        i = i + 1;
    }
    proof {
        assert(r@ =~= copy2d_bytes(
            dst@,
            dst_pitch as int,
            src@,
            src_pitch as int,
            width as int,
            height as int,
        ));
    }
    r
}

impl CuDriver {
    /// A fresh driver for the given devices, each entry a device's total
    /// memory in bytes. Nothing is live, nothing is queued, and `init` has
    /// not yet run.
    pub fn new(device_mems: Vec<usize>) -> (r: CuDriver)
        requires
            device_mems@.len() <= i32::MAX,
        ensures
            r@.wf(),
            !r@.initialized,
            r@.device_mems == device_mems@,
            r@.next_handle == 1,
            r@.ctxs.len() == 0,
            r@.current_stack.len() == 0,
            r@.streams.len() == 0,
            r@.events.len() == 0,
            r@.host_bufs.len() == 0,
            r@.dev_bufs.len() == 0,
            r@.pending.len() == 0,
            r@.clock == 0,
            r@.ctx_destroys == 0,
            r@.stream_destroys == 0,
            r@.event_destroys == 0,
    {
        CuDriver {
            initialized: false,
            device_mems,
            next_handle: 1,
            ctxs: Vec::new(),
            current_stack: Vec::new(),
            streams: Vec::new(),
            events: Vec::new(),
            host_bufs: Vec::new(),
            dev_bufs: Vec::new(),
            pending: Vec::new(),
            clock: 0,
            ctx_destroys: 0,
            stream_destroys: 0,
            event_destroys: 0,
        }
    }

    /// The index of the live context `h`.
    pub(crate) fn find_ctx(&self, h: u64) -> (r: Option<usize>)
        requires
            ctxs_ok(self@.ctxs, self@.next_handle),
        ensures
            r is Some <==> ctx_live(self@.ctxs, h),
            r is Some ==> r->Some_0 < self@.ctxs.len() && r->Some_0 as int == ctx_at(self@.ctxs, h),
    {
        let mut i: usize = 0;
        while i < self.ctxs.len()
            invariant
                i <= self.ctxs.len(),
                ctxs_ok(self@.ctxs, self@.next_handle),
                forall|j: int| 0 <= j < i ==> (#[trigger] self.ctxs@[j]).handle != h,
            decreases self.ctxs.len() - i,
        {
            if self.ctxs[i].handle == h {
                proof {
                    let j = ctx_at(self@.ctxs, h);
                    if i as int != j {
                        assert(self@.ctxs[i as int].handle != self@.ctxs[j].handle);
                    }
                }
                return Some(i);
            }
            i = i + 1;
        }
        None
    }

    /// The index of the live stream `h`.
    pub(crate) fn find_stream(&self, h: u64) -> (r: Option<usize>)
        requires
            streams_ok(self@.streams, self@.next_handle),
        ensures
            r is Some <==> stream_live(self@.streams, h),
            r is Some ==> r->Some_0 < self@.streams.len() && r->Some_0 as int == stream_at(
                self@.streams,
                h,
            ),
    {
        let mut i: usize = 0;
        while i < self.streams.len()
            invariant
                i <= self.streams.len(),
                streams_ok(self@.streams, self@.next_handle),
                forall|j: int| 0 <= j < i ==> (#[trigger] self.streams@[j]).handle != h,
            decreases self.streams.len() - i,
        {
            if self.streams[i].handle == h {
                proof {
                    let j = stream_at(self@.streams, h);
                    if i as int != j {
                        assert(self@.streams[i as int].handle != self@.streams[j].handle);
                    }
                }
                return Some(i);
            }
            i = i + 1;
        }
        None
    }

    /// The index of the live event `h`.
    pub(crate) fn find_event(&self, h: u64) -> (r: Option<usize>)
        requires
            events_ok(self@.events, self@.next_handle),
        ensures
            r is Some <==> event_live(self@.events, h),
            r is Some ==> r->Some_0 < self@.events.len() && r->Some_0 as int == event_at(
                self@.events,
                h,
            ),
    {
        let mut i: usize = 0;
        while i < self.events.len()
            invariant
                i <= self.events.len(),
                events_ok(self@.events, self@.next_handle),
                forall|j: int| 0 <= j < i ==> (#[trigger] self.events@[j]).handle != h,
            decreases self.events.len() - i,
        {
            if self.events[i].handle == h {
                proof {
                    let j = event_at(self@.events, h);
                    if i as int != j {
                        assert(self@.events[i as int].handle != self@.events[j].handle);
                    }
                }
                return Some(i);
            }
            i = i + 1;
        }
        None
    }

    /// Replaces the bytes of the live buffer at `loc`.
    pub(crate) fn write_loc_exec(&mut self, loc: MemLoc, data: Vec<u8>)
        requires
            bufs_ok(old(self)@.host_bufs, old(self)@.next_handle),
            bufs_ok(old(self)@.dev_bufs, old(self)@.next_handle),
            read_loc(old(self)@, loc) is Some,
        ensures
            final(self)@ == write_loc(old(self)@, loc, data@),
    {
        let ghost m0 = self@;
        match loc.space {
            MemSpace::Host => {
                let i = find_buf(&self.host_bufs, loc.handle).unwrap();
                self.host_bufs[i] = Buf { handle: loc.handle, data };
                proof {
                    assert(self@.host_bufs =~= m0.host_bufs.update(
                        buf_at(m0.host_bufs, loc.handle),
                        BufM { handle: loc.handle, data: data@ },
                    ));
                    assert(self@ =~= write_loc(m0, loc, data@));
                }
            },
            MemSpace::Device => {
                let i = find_buf(&self.dev_bufs, loc.handle).unwrap();
                self.dev_bufs[i] = Buf { handle: loc.handle, data };
                proof {
                    assert(self@.dev_bufs =~= m0.dev_bufs.update(
                        buf_at(m0.dev_bufs, loc.handle),
                        BufM { handle: loc.handle, data: data@ },
                    ));
                    assert(self@ =~= write_loc(m0, loc, data@));
                }
            },
        }
    }

    /// The bytes at a model address, if its buffer is live.
    pub(crate) fn lookup_bytes(&self, loc: MemLoc) -> (r: Option<Vec<u8>>)
        requires
            bufs_ok(self@.host_bufs, self@.next_handle),
            bufs_ok(self@.dev_bufs, self@.next_handle),
        ensures
            r is Some <==> read_loc(self@, loc) is Some,
            r is Some ==> r->Some_0@ == read_loc(self@, loc)->Some_0,
    {
        match loc.space {
            MemSpace::Host => {
                match find_buf(&self.host_bufs, loc.handle) {
                    Some(i) => Some(clone_bytes(&self.host_bufs[i].data)),
                    None => None,
                }
            },
            MemSpace::Device => {
                match find_buf(&self.dev_bufs, loc.handle) {
                    Some(i) => Some(clone_bytes(&self.dev_bufs[i].data)),
                    None => None,
                }
            },
        }
    }

    /// Appends one submitted op to the work queue.
    pub(crate) fn enqueue(&mut self, so: StreamedOp)
        requires
            old(self)@.wf(),
        ensures
            final(self)@ == (Model { pending: old(self)@.pending.push(so), ..old(self)@ }),
            final(self)@.wf(),
    {
        self.pending.push(so);
        proof {
            assert(self@ =~= (Model { pending: old(self)@.pending.push(so), ..old(self)@ }));
            assert forall|j: int|
                0 <= j < self@.events.len() && (#[trigger] self@.events[j]).pending implies exists|i: int|
                0 <= i < self@.pending.len() && (#[trigger] self@.pending[i]).op
                    == (PendingOp::RecordEvent {
                    event: self@.events[j].handle,
                    gen: self@.events[j].gen,
                }) by {
                let w = choose|i: int|
                    0 <= i < old(self)@.pending.len() && (#[trigger] old(self)@.pending[i]).op
                        == (PendingOp::RecordEvent {
                        event: self@.events[j].handle,
                        gen: self@.events[j].gen,
                    });
                assert(self@.pending[w] == old(self)@.pending[w]);
            }
            assert(self@.wf());
        }
    }

    /// Executes the oldest submitted op and removes it from the queue.
    pub fn step_front(&mut self)
        requires
            old(self)@.wf(),
            old(self)@.pending.len() > 0,
        ensures
            final(self)@ == step(old(self)@),
            final(self)@.wf(),
    {
        let ghost m0 = self@;
        let so = self.pending.remove(0);
        if self.clock < i64::MAX as u64 {
            self.clock = self.clock + 1;
        }
        proof {
            assert(self@ =~= (Model { pending: m0.pending.remove(0), clock: tick(m0.clock), ..m0 }));
        }
        match so.op {
            PendingOp::Copy { dst, src, size } => {
                match self.lookup_bytes(src) {
                    Some(sb) => {
                        match self.lookup_bytes(dst) {
                            Some(db) => {
                                let nb = overwrite_prefix_exec(&db, &sb, size);
                                self.write_loc_exec(dst, nb);
                            },
                            None => {},
                        }
                    },
                    None => {},
                }
                proof {
                    assert(self@ =~= step(m0));
                }
            },
            PendingOp::Copy2d { dst, dst_pitch, src, src_pitch, width, height } => {
                if dst_pitch >= 1 {
                    match self.lookup_bytes(src) {
                        Some(sb) => {
                            match self.lookup_bytes(dst) {
                                Some(db) => {
                                    let nb = copy2d_exec(
                                        &db,
                                        dst_pitch,
                                        &sb,
                                        src_pitch,
                                        width,
                                        height,
                                    );
                                    self.write_loc_exec(dst, nb);
                                },
                                None => {},
                            }
                        },
                        None => {},
                    }
                } else {
                    // a copy with zero destination stride moves nothing:
                    // the model leaves the destination bytes as they are
                    proof {
                        if read_loc(m0, src) is Some && read_loc(m0, dst) is Some {
                            lemma_write_back(m0, dst);
                        }
                    }
                }
                proof {
                    assert(self@ =~= step(m0));
                }
            },
            PendingOp::FreeDevice { handle } => {
                match find_buf(&self.dev_bufs, handle) {
                    Some(i) => {
                        let ghost mi = self@;
                        self.dev_bufs.remove(i);
                        proof {
                            assert(self@.dev_bufs =~= mi.dev_bufs.remove(i as int));
                            assert(self@ =~= step(m0));
                        }
                    },
                    None => {
                        proof {
                            assert(self@ =~= step(m0));
                        }
                    },
                }
            },
            PendingOp::RecordEvent { event, gen } => {
                match self.find_event(event) {
                    Some(i) => {
                        if self.events[i].gen == gen {
                            let e = self.events[i];
                            self.events[i] = EventEntry { pending: false, done_at: self.clock, ..e };
                            proof {
                                assert(self@.events =~= m0.events.update(
                                    event_at(m0.events, event),
                                    EventEntry {
                                        pending: false,
                                        done_at: tick(m0.clock),
                                        ..m0.events[event_at(m0.events, event)]
                                    },
                                ));
                                assert(self@ =~= step(m0));
                            }
                        } else {
                            proof {
                                assert(self@ =~= step(m0));
                            }
                        }
                    },
                    None => {
                        proof {
                            assert(self@ =~= step(m0));
                        }
                    },
                }
            },
            PendingOp::WaitEvent { .. } => {
                proof {
                    assert(self@ =~= step(m0));
                }
            },
        }
        proof {
            lemma_step_wf(m0);
        }
    }
}

/// Writing a live buffer's own bytes back changes nothing.
pub proof fn lemma_write_back(m: Model, loc: MemLoc)
    requires
        read_loc(m, loc) is Some,
    ensures
        write_loc(m, loc, read_loc(m, loc)->Some_0) == m,
{
    match loc.space {
        MemSpace::Host => {
            let k = buf_at(m.host_bufs, loc.handle);
            assert(0 <= k < m.host_bufs.len() && m.host_bufs[k].handle == loc.handle);
            assert(m.host_bufs.update(k, BufM { handle: loc.handle, data: m.host_bufs[k].data })
                =~= m.host_bufs);
            assert(write_loc(m, loc, read_loc(m, loc)->Some_0) =~= m);
        },
        MemSpace::Device => {
            let k = buf_at(m.dev_bufs, loc.handle);
            assert(0 <= k < m.dev_bufs.len() && m.dev_bufs[k].handle == loc.handle);
            assert(m.dev_bufs.update(k, BufM { handle: loc.handle, data: m.dev_bufs[k].data })
                =~= m.dev_bufs);
            assert(write_loc(m, loc, read_loc(m, loc)->Some_0) =~= m);
        },
    }
}

/// Executing the oldest submitted op keeps the driver invariant.
pub proof fn lemma_step_wf(m0: Model)
    requires
        m0.wf(),
        m0.pending.len() > 0,
    ensures
        step(m0).wf(),
{
    let m1 = step(m0);
    let op = m0.pending[0].op;
    // each table either stays as it was, keeps its handles elementwise, or
    // loses one entry; so ranges and distinctness carry over
    match op {
        PendingOp::Copy { dst, src, size } => {
            if read_loc(m0, src) is Some && read_loc(m0, dst) is Some {
                lemma_write_keeps_handles(m0, dst);
            }
        },
        PendingOp::Copy2d { dst, dst_pitch, src, src_pitch, width, height } => {
            if read_loc(m0, src) is Some && read_loc(m0, dst) is Some {
                lemma_write_keeps_handles(m0, dst);
            }
        },
        PendingOp::FreeDevice { handle } => {
            if buf_live(m0.dev_bufs, handle) {
                let k = buf_at(m0.dev_bufs, handle);
                assert forall|a: int, b: int| 0 <= a < b < m1.dev_bufs.len() implies (
                #[trigger] m1.dev_bufs[a]).handle != (#[trigger] m1.dev_bufs[b]).handle by {
                    if b < k {
                        assert(m0.dev_bufs[a].handle != m0.dev_bufs[b].handle);
                    } else if a < k {
                        assert(m0.dev_bufs[a].handle != m0.dev_bufs[b + 1].handle);
                    } else {
                        assert(m0.dev_bufs[a + 1].handle != m0.dev_bufs[b + 1].handle);
                    }
                }
                assert forall|a: int| 0 <= a < m1.dev_bufs.len() implies 1 <= (
                #[trigger] m1.dev_bufs[a]).handle < m1.next_handle by {
                    if a < k {
                        assert(1 <= m0.dev_bufs[a].handle < m0.next_handle);
                    } else {
                        assert(1 <= m0.dev_bufs[a + 1].handle < m0.next_handle);
                    }
                }
            }
        },
        PendingOp::RecordEvent { event, gen } => {
            if event_live(m0.events, event) && m0.events[event_at(m0.events, event)].gen == gen {
                assert forall|a: int| 0 <= a < m1.events.len() implies (
                #[trigger] m1.events[a]).handle == m0.events[a].handle && m1.events[a].gen
                    == m0.events[a].gen by {}
                assert(events_ok(m1.events, m1.next_handle));
            }
        },
        PendingOp::WaitEvent { .. } => {},
    }
    // every still-pending recording keeps a queued marker: the op that just
    // executed either completed its event or is not the queued marker the
    // invariant points at
    assert forall|j: int|
        0 <= j < m1.events.len() && (#[trigger] m1.events[j]).pending implies exists|i: int|
        0 <= i < m1.pending.len() && (#[trigger] m1.pending[i]).op == (PendingOp::RecordEvent {
            event: m1.events[j].handle,
            gen: m1.events[j].gen,
        }) by {
        let eh = m1.events[j].handle;
        let eg = m1.events[j].gen;
        // the event was pending before this step under the same handle and
        // generation
        assert(m0.events[j].pending && m0.events[j].handle == eh && m0.events[j].gen == eg);
        let w = choose|i: int|
            0 <= i < m0.pending.len() && (#[trigger] m0.pending[i]).op == (PendingOp::RecordEvent {
                event: eh,
                gen: eg,
            });
        assert(0 <= w < m0.pending.len() && m0.pending[w].op == (PendingOp::RecordEvent {
            event: eh,
            gen: eg,
        }));
        if w == 0 {
            // the front op was this event's current marker, so it would have
            // completed it, against `m1.events[j].pending`
            let k = event_at(m0.events, eh);
            assert(event_live(m0.events, eh));
            assert(m0.events[k].handle == eh);
            if k != j {
                assert(m0.events[k].handle != m0.events[j].handle);
            }
            assert(!m1.events[j].pending);
        } else {
            assert(m1.pending[w - 1] == m0.pending[w]);
        }
    }
}

/// Overwriting the bytes at a live address keeps every buffer handle in
/// both tables exactly where it was.
pub proof fn lemma_write_keeps_handles(m: Model, loc: MemLoc)
    requires
        read_loc(m, loc) is Some,
    ensures
        forall|d: Seq<u8>|
            (#[trigger] write_loc(m, loc, d)).host_bufs.len() == m.host_bufs.len()
                && write_loc(m, loc, d).dev_bufs.len() == m.dev_bufs.len()
                && (forall|a: int|
                0 <= a < m.host_bufs.len() ==> (#[trigger] write_loc(m, loc, d).host_bufs[a]).handle
                    == m.host_bufs[a].handle)
                && (forall|a: int|
                0 <= a < m.dev_bufs.len() ==> (#[trigger] write_loc(m, loc, d).dev_bufs[a]).handle
                    == m.dev_bufs[a].handle),
{
    assert forall|d: Seq<u8>|
        (#[trigger] write_loc(m, loc, d)).host_bufs.len() == m.host_bufs.len()
            && write_loc(m, loc, d).dev_bufs.len() == m.dev_bufs.len()
            && (forall|a: int|
            0 <= a < m.host_bufs.len() ==> (#[trigger] write_loc(m, loc, d).host_bufs[a]).handle
                == m.host_bufs[a].handle)
            && (forall|a: int|
            0 <= a < m.dev_bufs.len() ==> (#[trigger] write_loc(m, loc, d).dev_bufs[a]).handle
                == m.dev_bufs[a].handle) by {
        match loc.space {
            MemSpace::Host => {
                let k = buf_at(m.host_bufs, loc.handle);
                assert(0 <= k < m.host_bufs.len() && m.host_bufs[k].handle == loc.handle);
            },
            MemSpace::Device => {
                let k = buf_at(m.dev_bufs, loc.handle);
                assert(0 <= k < m.dev_bufs.len() && m.dev_bufs[k].handle == loc.handle);
            },
        }
    }
}


/// The queued-recordings invariant carries over to any state with the same
/// event table and work queue.
pub proof fn lemma_same_queue_records(m0: Model, m1: Model)
    requires
        m0.records_queued(),
        m1.events == m0.events,
        m1.pending == m0.pending,
    ensures
        m1.records_queued(),
{
    assert forall|j: int|
        0 <= j < m1.events.len() && (#[trigger] m1.events[j]).pending implies exists|i: int|
        0 <= i < m1.pending.len() && (#[trigger] m1.pending[i]).op == (PendingOp::RecordEvent {
            event: m1.events[j].handle,
            gen: m1.events[j].gen,
        }) by {
        let w = choose|i: int|
            0 <= i < m0.pending.len() && (#[trigger] m0.pending[i]).op == (PendingOp::RecordEvent {
                event: m0.events[j].handle,
                gen: m0.events[j].gen,
            });
        assert(m1.pending[w] == m0.pending[w]);
    }
}

/// Appending an entry under the next fresh handle keeps the context table
/// well formed; a non-primary entry cannot collide with a primary one.
pub proof fn lemma_ctxs_push(s: Seq<CtxEntry>, next: u64, e: CtxEntry)
    requires
        ctxs_ok(s, next),
        primaries_unique(s),
        e.handle == next,
        1 <= next < u64::MAX,
        e.primary ==> forall|i: int|
            0 <= i < s.len() ==> !((#[trigger] s[i]).primary && s[i].device == e.device),
    ensures
        ctxs_ok(s.push(e), (next + 1) as u64),
        primaries_unique(s.push(e)),
{
    let s2 = s.push(e);
    assert forall|i: int, j: int| 0 <= i < j < s2.len() implies (#[trigger] s2[i]).handle != (
    #[trigger] s2[j]).handle by {
        if j < s.len() {
            assert(s[i].handle != s[j].handle);
        } else {
            assert(1 <= s[i].handle < next);
        }
    }
    assert forall|i: int| 0 <= i < s2.len() implies 1 <= (#[trigger] s2[i]).handle < next + 1 by {
        if i < s.len() {
            assert(1 <= s[i].handle < next);
        }
    }
    assert forall|i: int, j: int|
        0 <= i < j < s2.len() && (#[trigger] s2[i]).primary && (#[trigger] s2[j]).primary implies s2[i].device
        != s2[j].device by {
        if j < s.len() {
            assert(!(s[i].primary && s[j].primary && s[i].device == s[j].device));
        }
    }
}

/// Replacing a context entry by one under the same handle, device and
/// primary flag keeps the table well formed.
pub proof fn lemma_ctxs_update(s: Seq<CtxEntry>, next: u64, i: int, e: CtxEntry)
    requires
        ctxs_ok(s, next),
        primaries_unique(s),
        0 <= i < s.len(),
        e.handle == s[i].handle,
        e.device == s[i].device,
        e.primary == s[i].primary,
    ensures
        ctxs_ok(s.update(i, e), next),
        primaries_unique(s.update(i, e)),
{
}

/// Removing a context entry keeps the table well formed, and its handle is
/// gone afterwards.
pub proof fn lemma_ctxs_remove(s: Seq<CtxEntry>, next: u64, i: int)
    requires
        ctxs_ok(s, next),
        primaries_unique(s),
        0 <= i < s.len(),
    ensures
        ctxs_ok(s.remove(i), next),
        primaries_unique(s.remove(i)),
        !ctx_live(s.remove(i), s[i].handle),
{
    let s2 = s.remove(i);
    assert forall|a: int, b: int| 0 <= a < b < s2.len() implies (#[trigger] s2[a]).handle != (
    #[trigger] s2[b]).handle && !(s2[a].primary && s2[b].primary && s2[a].device
        == s2[b].device) by {
        if b < i {
            assert(s[a].handle != s[b].handle);
            assert(!(s[a].primary && s[b].primary && s[a].device == s[b].device));
        } else if a < i {
            assert(s[a].handle != s[b + 1].handle);
            assert(!(s[a].primary && s[b + 1].primary && s[a].device == s[b + 1].device));
        } else {
            assert(s[a + 1].handle != s[b + 1].handle);
            assert(!(s[a + 1].primary && s[b + 1].primary && s[a + 1].device == s[b + 1].device));
        }
    }
    assert forall|a: int| 0 <= a < s2.len() implies 1 <= (#[trigger] s2[a]).handle < next && s2[a].handle
        != s[i].handle by {
        if a < i {
            assert(1 <= s[a].handle < next);
            assert(s[a].handle != s[i].handle);
        } else {
            assert(1 <= s[a + 1].handle < next);
            assert(s[a + 1].handle != s[i].handle);
        }
    }
    if ctx_live(s2, s[i].handle) {
        let w = ctx_at(s2, s[i].handle);
        assert(s2[w].handle != s[i].handle);
    }
}

/// Appending an entry under the next fresh handle keeps the stream table
/// well formed.
pub proof fn lemma_streams_push(s: Seq<StreamEntry>, next: u64, e: StreamEntry)
    requires
        streams_ok(s, next),
        e.handle == next,
        1 <= next < u64::MAX,
    ensures
        streams_ok(s.push(e), (next + 1) as u64),
{
    let s2 = s.push(e);
    assert forall|i: int, j: int| 0 <= i < j < s2.len() implies (#[trigger] s2[i]).handle != (
    #[trigger] s2[j]).handle by {
        if j < s.len() {
            assert(s[i].handle != s[j].handle);
        } else {
            assert(1 <= s[i].handle < next);
        }
    }
    assert forall|i: int| 0 <= i < s2.len() implies 1 <= (#[trigger] s2[i]).handle < next + 1 by {
        if i < s.len() {
            assert(1 <= s[i].handle < next);
        }
    }
}

/// Replacing a stream entry by one under the same handle keeps the table
/// well formed.
pub proof fn lemma_streams_update(s: Seq<StreamEntry>, next: u64, i: int, e: StreamEntry)
    requires
        streams_ok(s, next),
        0 <= i < s.len(),
        e.handle == s[i].handle,
    ensures
        streams_ok(s.update(i, e), next),
{
}

/// Removing a stream entry keeps the table well formed, and its handle is
/// gone afterwards.
pub proof fn lemma_streams_remove(s: Seq<StreamEntry>, next: u64, i: int)
    requires
        streams_ok(s, next),
        0 <= i < s.len(),
    ensures
        streams_ok(s.remove(i), next),
        !stream_live(s.remove(i), s[i].handle),
{
    let s2 = s.remove(i);
    assert forall|a: int, b: int| 0 <= a < b < s2.len() implies (#[trigger] s2[a]).handle != (
    #[trigger] s2[b]).handle by {
        if b < i {
            assert(s[a].handle != s[b].handle);
        } else if a < i {
            assert(s[a].handle != s[b + 1].handle);
        } else {
            assert(s[a + 1].handle != s[b + 1].handle);
        }
    }
    assert forall|a: int| 0 <= a < s2.len() implies 1 <= (#[trigger] s2[a]).handle < next && s2[a].handle
        != s[i].handle by {
        if a < i {
            assert(1 <= s[a].handle < next);
            assert(s[a].handle != s[i].handle);
        } else {
            assert(1 <= s[a + 1].handle < next);
            assert(s[a + 1].handle != s[i].handle);
        }
    }
    if stream_live(s2, s[i].handle) {
        let w = stream_at(s2, s[i].handle);
        assert(s2[w].handle != s[i].handle);
    }
}

/// Appending an entry under the next fresh handle keeps the event table
/// well formed.
pub proof fn lemma_events_push(s: Seq<EventEntry>, next: u64, e: EventEntry)
    requires
        events_ok(s, next),
        e.handle == next,
        1 <= next < u64::MAX,
    ensures
        events_ok(s.push(e), (next + 1) as u64),
{
    let s2 = s.push(e);
    assert forall|i: int, j: int| 0 <= i < j < s2.len() implies (#[trigger] s2[i]).handle != (
    #[trigger] s2[j]).handle by {
        if j < s.len() {
            assert(s[i].handle != s[j].handle);
        } else {
            assert(1 <= s[i].handle < next);
        }
    }
    assert forall|i: int| 0 <= i < s2.len() implies 1 <= (#[trigger] s2[i]).handle < next + 1 by {
        if i < s.len() {
            assert(1 <= s[i].handle < next);
        }
    }
}

/// Replacing an event entry by one under the same handle keeps the table
/// well formed.
pub proof fn lemma_events_update(s: Seq<EventEntry>, next: u64, i: int, e: EventEntry)
    requires
        events_ok(s, next),
        0 <= i < s.len(),
        e.handle == s[i].handle,
    ensures
        events_ok(s.update(i, e), next),
{
}

/// Removing an event entry keeps the table well formed, and its handle is
/// gone afterwards.
pub proof fn lemma_events_remove(s: Seq<EventEntry>, next: u64, i: int)
    requires
        events_ok(s, next),
        0 <= i < s.len(),
    ensures
        events_ok(s.remove(i), next),
        !event_live(s.remove(i), s[i].handle),
{
    let s2 = s.remove(i);
    assert forall|a: int, b: int| 0 <= a < b < s2.len() implies (#[trigger] s2[a]).handle != (
    #[trigger] s2[b]).handle by {
        if b < i {
            assert(s[a].handle != s[b].handle);
        } else if a < i {
            assert(s[a].handle != s[b + 1].handle);
        } else {
            assert(s[a + 1].handle != s[b + 1].handle);
        }
    }
    assert forall|a: int| 0 <= a < s2.len() implies 1 <= (#[trigger] s2[a]).handle < next && s2[a].handle
        != s[i].handle by {
        if a < i {
            assert(1 <= s[a].handle < next);
            assert(s[a].handle != s[i].handle);
        } else {
            assert(1 <= s[a + 1].handle < next);
            assert(s[a + 1].handle != s[i].handle);
        }
    }
    if event_live(s2, s[i].handle) {
        let w = event_at(s2, s[i].handle);
        assert(s2[w].handle != s[i].handle);
    }
}

/// Appending a buffer under the next fresh handle keeps a buffer table
/// well formed.
pub proof fn lemma_bufs_push(s: Seq<BufM>, next: u64, e: BufM)
    requires
        bufs_ok(s, next),
        e.handle == next,
        1 <= next < u64::MAX,
    ensures
        bufs_ok(s.push(e), (next + 1) as u64),
{
    let s2 = s.push(e);
    assert forall|i: int, j: int| 0 <= i < j < s2.len() implies (#[trigger] s2[i]).handle != (
    #[trigger] s2[j]).handle by {
        if j < s.len() {
            assert(s[i].handle != s[j].handle);
        } else {
            assert(1 <= s[i].handle < next);
        }
    }
    assert forall|i: int| 0 <= i < s2.len() implies 1 <= (#[trigger] s2[i]).handle < next + 1 by {
        if i < s.len() {
            assert(1 <= s[i].handle < next);
        }
    }
}

/// Removing a buffer keeps the table well formed, and its handle is gone
/// afterwards.
pub proof fn lemma_bufs_remove(s: Seq<BufM>, next: u64, i: int)
    requires
        bufs_ok(s, next),
        0 <= i < s.len(),
    ensures
        bufs_ok(s.remove(i), next),
        !buf_live(s.remove(i), s[i].handle),
{
    let s2 = s.remove(i);
    assert forall|a: int, b: int| 0 <= a < b < s2.len() implies (#[trigger] s2[a]).handle != (
    #[trigger] s2[b]).handle by {
        if b < i {
            assert(s[a].handle != s[b].handle);
        } else if a < i {
            assert(s[a].handle != s[b + 1].handle);
        } else {
            assert(s[a + 1].handle != s[b + 1].handle);
        }
    }
    assert forall|a: int| 0 <= a < s2.len() implies 1 <= (#[trigger] s2[a]).handle < next && s2[a].handle
        != s[i].handle by {
        if a < i {
            assert(1 <= s[a].handle < next);
            assert(s[a].handle != s[i].handle);
        } else {
            assert(1 <= s[a + 1].handle < next);
            assert(s[a + 1].handle != s[i].handle);
        }
    }
    if buf_live(s2, s[i].handle) {
        let w = buf_at(s2, s[i].handle);
        assert(s2[w].handle != s[i].handle);
    }
}


/// Pushing a buffer under a fresh handle keeps every existing buffer where
/// it was, and the new handle looks up to the new entry.
pub proof fn lemma_bufs_push_lookup(s: Seq<BufM>, next: u64, e: BufM)
    requires
        bufs_ok(s, next),
        e.handle == next,
    ensures
        buf_live(s.push(e), e.handle),
        buf_at(s.push(e), e.handle) == s.len(),
        buf_bytes(s.push(e), e.handle) == e.data,
        !buf_live(s, e.handle),
        forall|h: u64|
            #[trigger] buf_live(s, h) ==> buf_live(s.push(e), h) && buf_at(s.push(e), h) == buf_at(
                s,
                h,
            ) && buf_bytes(s.push(e), h) == buf_bytes(s, h),
{
    let s2 = s.push(e);
    assert(s2[s.len() as int].handle == e.handle);
    assert(buf_live(s2, e.handle));
    let k = buf_at(s2, e.handle);
    if k != s.len() {
        assert(1 <= s[k].handle < next);
    }
    if buf_live(s, e.handle) {
        let w = buf_at(s, e.handle);
        assert(1 <= s[w].handle < next);
    }
    assert forall|h: u64| #[trigger] buf_live(s, h) implies buf_live(s2, h) && buf_at(s2, h)
        == buf_at(s, h) && buf_bytes(s2, h) == buf_bytes(s, h) by {
        let w = buf_at(s, h);
        assert(s2[w].handle == h);
        assert(buf_live(s2, h));
        let w2 = buf_at(s2, h);
        if w2 == s.len() {
            assert(1 <= s[w].handle < next);
            assert(false);
        }
        if w2 != w {
            assert(s[w].handle != s[w2].handle);
        }
    }
}

/// Replacing one buffer's bytes keeps every buffer where it was; only the
/// replaced handle reads the new bytes.
pub proof fn lemma_bufs_update_lookup(s: Seq<BufM>, i: int, e: BufM)
    requires
        forall|a: int, b: int|
            0 <= a < b < s.len() ==> (#[trigger] s[a]).handle != (#[trigger] s[b]).handle,
        0 <= i < s.len(),
        e.handle == s[i].handle,
    ensures
        forall|h: u64| #[trigger] buf_live(s.update(i, e), h) <==> buf_live(s, h),
        forall|h: u64|
            #[trigger] buf_live(s, h) ==> buf_at(s.update(i, e), h) == buf_at(s, h) && buf_bytes(
                s.update(i, e),
                h,
            ) == (if h == e.handle {
                e.data
            } else {
                buf_bytes(s, h)
            }),
{
    let s2 = s.update(i, e);
    assert forall|h: u64| #[trigger] buf_live(s2, h) <==> buf_live(s, h) by {
        if buf_live(s2, h) {
            let w = buf_at(s2, h);
            assert(s[w].handle == s2[w].handle);
            assert(buf_live(s, h));
        }
        if buf_live(s, h) {
            let w = buf_at(s, h);
            assert(s2[w].handle == s[w].handle);
            assert(buf_live(s2, h));
        }
    }
    assert forall|h: u64| #[trigger] buf_live(s, h) implies buf_at(s2, h) == buf_at(s, h)
        && buf_bytes(s2, h) == (if h == e.handle {
        e.data
    } else {
        buf_bytes(s, h)
    }) by {
        let w = buf_at(s, h);
        assert(s2[w].handle == h);
        assert(buf_live(s2, h));
        let w2 = buf_at(s2, h);
        if w2 != w {
            assert(s[w].handle != s[w2].handle);
        }
        if h == e.handle && w != i {
            assert(s[w].handle != s[i].handle);
        }
    }
}

/// Overwriting the bytes at a live address keeps the driver invariant.
pub proof fn lemma_write_loc_wf(m: Model, loc: MemLoc, data: Seq<u8>)
    requires
        m.wf(),
        read_loc(m, loc) is Some,
    ensures
        write_loc(m, loc, data).wf(),
{
    let m1 = write_loc(m, loc, data);
    lemma_write_keeps_handles(m, loc);
    assert forall|a: int| 0 <= a < m1.host_bufs.len() implies 1 <= (
    #[trigger] m1.host_bufs[a]).handle < m1.next_handle by {
        assert(m1.host_bufs[a].handle == m.host_bufs[a].handle);
    }
    assert forall|a: int, b: int| 0 <= a < b < m1.host_bufs.len() implies (
    #[trigger] m1.host_bufs[a]).handle != (#[trigger] m1.host_bufs[b]).handle by {
        assert(m1.host_bufs[a].handle == m.host_bufs[a].handle);
        assert(m1.host_bufs[b].handle == m.host_bufs[b].handle);
    }
    assert forall|a: int| 0 <= a < m1.dev_bufs.len() implies 1 <= (
    #[trigger] m1.dev_bufs[a]).handle < m1.next_handle by {
        assert(m1.dev_bufs[a].handle == m.dev_bufs[a].handle);
    }
    assert forall|a: int, b: int| 0 <= a < b < m1.dev_bufs.len() implies (
    #[trigger] m1.dev_bufs[a]).handle != (#[trigger] m1.dev_bufs[b]).handle by {
        assert(m1.dev_bufs[a].handle == m.dev_bufs[a].handle);
        assert(m1.dev_bufs[b].handle == m.dev_bufs[b].handle);
    }
    lemma_same_queue_records(m, m1);
}


/// Removing one buffer keeps every other buffer where it can be found,
/// with its bytes.
pub proof fn lemma_bufs_remove_lookup(s: Seq<BufM>, k: int)
    requires
        forall|a: int, b: int|
            0 <= a < b < s.len() ==> (#[trigger] s[a]).handle != (#[trigger] s[b]).handle,
        0 <= k < s.len(),
    ensures
        forall|x: u64|
            x != s[k].handle ==> (#[trigger] buf_live(s.remove(k), x) <==> buf_live(s, x)),
        forall|x: u64|
            x != s[k].handle && buf_live(s, x) ==> #[trigger] buf_bytes(s.remove(k), x)
                == buf_bytes(s, x),
{
    let s2 = s.remove(k);
    assert forall|x: u64| x != s[k].handle implies (#[trigger] buf_live(s2, x) <==> buf_live(
        s,
        x,
    )) by {
        if buf_live(s, x) {
            let w = buf_at(s, x);
            if w < k {
                assert(s2[w] == s[w]);
            } else {
                assert(w != k);
                assert(s2[w - 1] == s[w]);
            }
            assert(buf_live(s2, x));
        }
        if buf_live(s2, x) {
            let w = buf_at(s2, x);
            if w < k {
                assert(s2[w] == s[w]);
            } else {
                assert(s2[w] == s[w + 1]);
            }
            assert(buf_live(s, x));
        }
    }
    assert forall|x: u64| x != s[k].handle && buf_live(s, x) implies #[trigger] buf_bytes(s2, x)
        == buf_bytes(s, x) by {
        assert(buf_live(s2, x));
        let w = buf_at(s, x);
        let w2 = buf_at(s2, x);
        // both indexes name the same entry: handles are distinct, and the
        // removed entry is not the one looked up
        assert(s2[w2].handle == x);
        if w2 < k {
            assert(s2[w2] == s[w2]);
            if w2 != w {
                assert(s[w2].handle != s[w].handle);
            }
        } else {
            assert(s2[w2] == s[w2 + 1]);
            if w2 + 1 != w {
                assert(s[w2 + 1].handle != s[w].handle);
            }
        }
    }
}


/// Overwriting the bytes at a live address leaves every buffer's liveness,
/// and every other buffer's bytes, unchanged.
pub proof fn lemma_write_loc_frame(m: Model, loc: MemLoc, data: Seq<u8>)
    requires
        forall|a: int, b: int|
            0 <= a < b < m.host_bufs.len() ==> (#[trigger] m.host_bufs[a]).handle != (
            #[trigger] m.host_bufs[b]).handle,
        forall|a: int, b: int|
            0 <= a < b < m.dev_bufs.len() ==> (#[trigger] m.dev_bufs[a]).handle != (
            #[trigger] m.dev_bufs[b]).handle,
        read_loc(m, loc) is Some,
    ensures
        forall|x: u64|
            #[trigger] buf_live(write_loc(m, loc, data).host_bufs, x) <==> buf_live(m.host_bufs, x),
        forall|x: u64|
            #[trigger] buf_live(write_loc(m, loc, data).dev_bufs, x) <==> buf_live(m.dev_bufs, x),
        forall|x: u64|
            buf_live(m.host_bufs, x) && !(loc.space is Host && loc.handle == x)
                ==> #[trigger] buf_bytes(write_loc(m, loc, data).host_bufs, x) == buf_bytes(
                m.host_bufs,
                x,
            ),
        forall|x: u64|
            buf_live(m.dev_bufs, x) && !(loc.space is Device && loc.handle == x)
                ==> #[trigger] buf_bytes(write_loc(m, loc, data).dev_bufs, x) == buf_bytes(
                m.dev_bufs,
                x,
            ),
{
    match loc.space {
        MemSpace::Host => {
            lemma_bufs_update_lookup(
                m.host_bufs,
                buf_at(m.host_bufs, loc.handle),
                BufM { handle: loc.handle, data },
            );
        },
        MemSpace::Device => {
            lemma_bufs_update_lookup(
                m.dev_bufs,
                buf_at(m.dev_bufs, loc.handle),
                BufM { handle: loc.handle, data },
            );
        },
    }
}

} // verus!
