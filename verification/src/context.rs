//! Execution contexts: creation, the per-device primary context, the
//! thread's current-context stack with its scoped guard, and counted
//! ownership; with the nesting law of guards and the destroy-once law of
//! counted clones.

use vstd::prelude::*;
use crate::device::CuDevice;
use crate::driver::{
    ctx_at, ctx_live, lemma_ctxs_push, lemma_ctxs_remove, lemma_ctxs_update,
    lemma_same_queue_records, CtxEntry, CuDriver, Model,
};
use crate::error::{CuError, CuResult};
use crate::ownership::Ownership;

verus! {

/// An execution context bound to a device, wrapped with an ownership tag.
/// A context freshly created is the sole owner of its native handle;
/// counted clones share it; an ambient context (the primary context, or
/// whatever the current-context stack holds) is never destroyed by this
/// layer.
#[derive(Debug)]
pub struct CuContext {
    pub raw: u64,
    pub ownership: Ownership,
}

/// An owning wrapper must stand for a live entry that counts it; an
/// ambient wrapper stands for whatever handle it carries.
pub open spec fn ctx_valid(m: Model, c: CuContext) -> bool {
    c.ownership is Ambient || (ctx_live(m.ctxs, c.raw) && m.ctxs[ctx_at(m.ctxs, c.raw)].refs >= 1)
}

/// The wrapper layer's reference count on a context handle.
pub open spec fn ctx_refs(m: Model, h: u64) -> u64 {
    if ctx_live(m.ctxs, h) {
        m.ctxs[ctx_at(m.ctxs, h)].refs
    } else {
        0
    }
}

// --- creation ---

pub open spec fn ctx_create_ok(m: Model, dev: u32) -> bool {
    m.initialized && (dev as int) < m.device_mems.len() && m.can_alloc()
}

pub open spec fn ctx_create_err(m: Model, dev: u32) -> CuError {
    if !m.initialized {
        CuError::NotInitialized
    } else if !((dev as int) < m.device_mems.len()) {
        CuError::InvalidDevice
    } else {
        CuError::OutOfMemory
    }
}

pub open spec fn ctx_create_t(m: Model, dev: u32) -> Model {
    if ctx_create_ok(m, dev) {
        Model {
            next_handle: (m.next_handle + 1) as u64,
            ctxs: m.ctxs.push(
                CtxEntry { handle: m.next_handle, device: dev, refs: 1, primary: false },
            ),
            ..m
        }
    } else {
        m
    }
}

// --- the primary context ---

pub open spec fn primary_live(m: Model, dev: u32) -> bool {
    exists|i: int|
        0 <= i < m.ctxs.len() && (#[trigger] m.ctxs[i]).primary && m.ctxs[i].device == dev
}

pub open spec fn primary_at(m: Model, dev: u32) -> int {
    choose|i: int|
        0 <= i < m.ctxs.len() && (#[trigger] m.ctxs[i]).primary && m.ctxs[i].device == dev
}

pub open spec fn ctx_retain_ok(m: Model, dev: u32) -> bool {
    m.initialized && (dev as int) < m.device_mems.len() && (primary_live(m, dev) || m.can_alloc())
}

pub open spec fn ctx_retain_err(m: Model, dev: u32) -> CuError {
    if !m.initialized {
        CuError::NotInitialized
    } else if !((dev as int) < m.device_mems.len()) {
        CuError::InvalidDevice
    } else {
        CuError::OutOfMemory
    }
}

/// Retaining the primary context creates it once per device and hands the
/// same handle out from then on; the entry is the driver's own, never
/// counted and never destroyed by this layer.
pub open spec fn ctx_retain_t(m: Model, dev: u32) -> Model {
    if !ctx_retain_ok(m, dev) || primary_live(m, dev) {
        m
    } else {
        Model {
            next_handle: (m.next_handle + 1) as u64,
            ctxs: m.ctxs.push(
                CtxEntry { handle: m.next_handle, device: dev, refs: 0, primary: true },
            ),
            ..m
        }
    }
}

pub open spec fn ctx_retain_handle(m: Model, dev: u32) -> u64 {
    if primary_live(m, dev) {
        m.ctxs[primary_at(m, dev)].handle
    } else {
        m.next_handle
    }
}

// --- the current-context stack ---

/// The handle the thread's stack presents as current: its top, or the null
/// handle when the stack is empty.
pub open spec fn current_handle(m: Model) -> u64 {
    if m.current_stack.len() > 0 {
        m.current_stack.last()
    } else {
        0
    }
}

pub open spec fn ctx_push_ok(m: Model, h: u64) -> bool {
    m.initialized && ctx_live(m.ctxs, h)
}

pub open spec fn ctx_push_err(m: Model, h: u64) -> CuError {
    if !m.initialized {
        CuError::NotInitialized
    } else {
        CuError::InvalidContext
    }
}

pub open spec fn ctx_push_t(m: Model, h: u64) -> Model {
    if ctx_push_ok(m, h) {
        Model { current_stack: m.current_stack.push(h), ..m }
    } else {
        m
    }
}

pub open spec fn ctx_pop_ok(m: Model) -> bool {
    m.initialized && m.current_stack.len() > 0
}

pub open spec fn ctx_pop_err(m: Model) -> CuError {
    if !m.initialized {
        CuError::NotInitialized
    } else {
        CuError::InvalidContext
    }
}

pub open spec fn ctx_pop_t(m: Model) -> Model {
    if ctx_pop_ok(m) {
        Model { current_stack: m.current_stack.drop_last(), ..m }
    } else {
        m
    }
}

// --- counted clones and release ---

/// A counted clone: one more reference on an owned handle; nothing for an
/// ambient one.
pub open spec fn ctx_clone_t(m: Model, c: CuContext) -> Model {
    if c.ownership is Ambient || !ctx_live(m.ctxs, c.raw) {
        m
    } else {
        Model {
            ctxs: m.ctxs.update(
                ctx_at(m.ctxs, c.raw),
                CtxEntry {
                    refs: (m.ctxs[ctx_at(m.ctxs, c.raw)].refs + 1) as u64,
                    ..m.ctxs[ctx_at(m.ctxs, c.raw)]
                },
            ),
            ..m
        }
    }
}

/// Releasing one reference: the last one removes the entry and fires the
/// native destroy, exactly once; an earlier one only counts down; an
/// ambient release does nothing at all.
pub open spec fn ctx_release_t(m: Model, c: CuContext) -> Model {
    if c.ownership is Ambient || !ctx_live(m.ctxs, c.raw) {
        m
    } else if m.ctxs[ctx_at(m.ctxs, c.raw)].refs <= 1 {
        Model {
            ctxs: m.ctxs.remove(ctx_at(m.ctxs, c.raw)),
            ctx_destroys: (m.ctx_destroys + 1) as u64,
            ..m
        }
    } else {
        Model {
            ctxs: m.ctxs.update(
                ctx_at(m.ctxs, c.raw),
                CtxEntry {
                    refs: (m.ctxs[ctx_at(m.ctxs, c.raw)].refs - 1) as u64,
                    ..m.ctxs[ctx_at(m.ctxs, c.raw)]
                },
            ),
            ..m
        }
    }
}

impl CuContext {
    /// Creates a new context on `device`, exclusively owned by the returned
    /// wrapper.
    pub fn new(drv: &mut CuDriver, device: &CuDevice) -> (r: CuResult<CuContext>)
        requires
            old(drv)@.wf(),
        ensures
            final(drv)@ == ctx_create_t(old(drv)@, device.ordinal),
            final(drv)@.wf(),
            r is Ok <==> ctx_create_ok(old(drv)@, device.ordinal),
            r is Ok ==> r->Ok_0 == (CuContext {
                raw: old(drv)@.next_handle,
                ownership: Ownership::Owned,
            }) && ctx_valid(final(drv)@, r->Ok_0) && ctx_refs(final(drv)@, old(drv)@.next_handle)
                == 1,
            r is Err ==> r->Err_0 == ctx_create_err(old(drv)@, device.ordinal),
    {
        if !drv.initialized {
            return Err(CuError::NotInitialized);
        }
        if !((device.ordinal as usize) < drv.device_mems.len()) {
            return Err(CuError::InvalidDevice);
        }
        if drv.next_handle == u64::MAX {
            return Err(CuError::OutOfMemory);
        }
        let h = drv.next_handle;
        let entry = CtxEntry { handle: h, device: device.ordinal, refs: 1, primary: false };
        drv.ctxs.push(entry);
        drv.next_handle = h + 1;
        proof {
            assert(drv@ =~= ctx_create_t(old(drv)@, device.ordinal));
            lemma_ctxs_push(old(drv)@.ctxs, h, entry);
            lemma_same_queue_records(old(drv)@, drv@);
            assert(drv@.wf());
            assert(drv@.ctxs[old(drv)@.ctxs.len() as int].handle == h);
            assert(ctx_live(drv@.ctxs, h));
            let j = ctx_at(drv@.ctxs, h);
            if j != old(drv)@.ctxs.len() {
                assert(1 <= old(drv)@.ctxs[j].handle < h);
            }
        }
        Ok(CuContext { raw: h, ownership: Ownership::Owned })
    }

    /// The device's primary context, created on first retain and handed out
    /// as an ambient handle from then on.
    pub fn retain_primary_context(drv: &mut CuDriver, device: &CuDevice) -> (r: CuResult<CuContext>)
        requires
            old(drv)@.wf(),
        ensures
            final(drv)@ == ctx_retain_t(old(drv)@, device.ordinal),
            final(drv)@.wf(),
            r is Ok <==> ctx_retain_ok(old(drv)@, device.ordinal),
            r is Ok ==> r->Ok_0 == (CuContext {
                raw: ctx_retain_handle(old(drv)@, device.ordinal),
                ownership: Ownership::Ambient,
            }),
            r is Err ==> r->Err_0 == ctx_retain_err(old(drv)@, device.ordinal),
    {
        if !drv.initialized {
            return Err(CuError::NotInitialized);
        }
        if !((device.ordinal as usize) < drv.device_mems.len()) {
            return Err(CuError::InvalidDevice);
        }
        let dev = device.ordinal;
        let mut i: usize = 0;
        while i < drv.ctxs.len()
            invariant
                i <= drv.ctxs.len(),
                drv@ == old(drv)@,
                drv@.wf(),
                drv@.initialized,
                dev == device.ordinal,
                (dev as int) < drv@.device_mems.len(),
                forall|j: int|
                    0 <= j < i ==> !((#[trigger] drv.ctxs@[j]).primary && drv.ctxs@[j].device
                        == dev),
            decreases drv.ctxs.len() - i,
        {
            if drv.ctxs[i].primary && drv.ctxs[i].device == dev {
                proof {
                    assert(drv@.ctxs[i as int].primary && drv@.ctxs[i as int].device == dev);
                    assert(primary_live(drv@, dev));
                    let j = primary_at(drv@, dev);
                    assert(0 <= j < drv@.ctxs.len() && drv@.ctxs[j].primary && drv@.ctxs[j].device
                        == dev);
                    if i as int != j {
                        assert(!(drv@.ctxs[i as int].primary && drv@.ctxs[j].primary && drv@.ctxs[i as int].device
                            == drv@.ctxs[j].device));
                    }
                }
                return Ok(CuContext { raw: drv.ctxs[i].handle, ownership: Ownership::Ambient });
            }
            i = i + 1;
        }
        if drv.next_handle == u64::MAX {
            return Err(CuError::OutOfMemory);
        }
        let h = drv.next_handle;
        let entry = CtxEntry { handle: h, device: dev, refs: 0, primary: true };
        drv.ctxs.push(entry);
        drv.next_handle = h + 1;
        proof {
            assert(!primary_live(old(drv)@, dev));
            assert(drv@ =~= ctx_retain_t(old(drv)@, dev));
            lemma_ctxs_push(old(drv)@.ctxs, h, entry);
            lemma_same_queue_records(old(drv)@, drv@);
            assert(drv@.wf());
        }
        Ok(CuContext { raw: h, ownership: Ownership::Ambient })
    }

    /// Wraps a raw handle owned elsewhere as an ambient context, which this
    /// layer will never destroy. Nothing is checked: operations on a handle
    /// that is not live report their own errors.
    pub fn from_raw(raw: u64) -> (r: CuContext)
        ensures
            r == (CuContext { raw, ownership: Ownership::Ambient }),
    {
        CuContext { raw, ownership: Ownership::Ambient }
    }

    /// The thread's current context, read from the top of the stack as an
    /// ambient handle; the null handle when no context is current.
    pub fn current(drv: &CuDriver) -> (r: CuResult<CuContext>)
        ensures
            r is Ok <==> drv@.initialized,
            r is Ok ==> r->Ok_0 == (CuContext {
                raw: current_handle(drv@),
                ownership: Ownership::Ambient,
            }),
            r is Err ==> r->Err_0 == CuError::NotInitialized,
    {
        if !drv.initialized {
            return Err(CuError::NotInitialized);
        }
        let raw: u64 = if drv.current_stack.len() > 0 {
            drv.current_stack[drv.current_stack.len() - 1]
        } else {
            0
        };
        Ok(CuContext { raw, ownership: Ownership::Ambient })
    }

    /// Pushes this context onto the thread's current-context stack.
    pub fn push(&self, drv: &mut CuDriver) -> (r: CuResult<()>)
        requires
            old(drv)@.wf(),
        ensures
            final(drv)@ == ctx_push_t(old(drv)@, self.raw),
            final(drv)@.wf(),
            r is Ok <==> ctx_push_ok(old(drv)@, self.raw),
            r is Err ==> r->Err_0 == ctx_push_err(old(drv)@, self.raw),
    {
        if !drv.initialized {
            return Err(CuError::NotInitialized);
        }
        match drv.find_ctx(self.raw) {
            Some(_) => {
                drv.current_stack.push(self.raw);
                proof {
                    assert(drv@ =~= ctx_push_t(old(drv)@, self.raw));
                    lemma_same_queue_records(old(drv)@, drv@);
                    assert(drv@.wf());
                }
                Ok(())
            },
            None => Err(CuError::InvalidContext),
        }
    }

    /// Pops the top of the thread's current-context stack, discarding
    /// whatever is there; the caller must pair pushes and pops correctly.
    pub fn pop(drv: &mut CuDriver) -> (r: CuResult<()>)
        requires
            old(drv)@.wf(),
        ensures
            final(drv)@ == ctx_pop_t(old(drv)@),
            final(drv)@.wf(),
            r is Ok <==> ctx_pop_ok(old(drv)@),
            r is Err ==> r->Err_0 == ctx_pop_err(old(drv)@),
    {
        if !drv.initialized {
            return Err(CuError::NotInitialized);
        }
        if drv.current_stack.len() == 0 {
            return Err(CuError::InvalidContext);
        }
        let _ = drv.current_stack.pop();
        proof {
            assert(drv@.current_stack =~= old(drv)@.current_stack.drop_last());
            assert(drv@ =~= ctx_pop_t(old(drv)@));
            lemma_same_queue_records(old(drv)@, drv@);
            assert(drv@.wf());
        }
        Ok(())
    }

    /// Pushes this context and hands back a guard whose release pops
    /// exactly once. Where the push is refused, the context's own reference
    /// is released, as dropping it would.
    pub fn guard(self, drv: &mut CuDriver) -> (r: CuResult<CuContextGuard>)
        requires
            old(drv)@.wf(),
            ctx_valid(old(drv)@, self),
        ensures
            r is Ok <==> ctx_push_ok(old(drv)@, self.raw),
            r is Ok ==> final(drv)@ == ctx_push_t(old(drv)@, self.raw) && r->Ok_0 == (CuContextGuard {
                ctx: self,
            }),
            r is Err ==> final(drv)@ == ctx_release_t(old(drv)@, self) && r->Err_0 == ctx_push_err(
                old(drv)@,
                self.raw,
            ),
            final(drv)@.wf(),
    {
        CuContextGuard::new(self, drv)
    }

    /// A counted clone of this context: an owned handle gains one
    /// reference, an ambient one is handed out as it is.
    pub fn clone_ref(&self, drv: &mut CuDriver) -> (r: CuContext)
        requires
            old(drv)@.wf(),
            ctx_valid(old(drv)@, *self),
            self.ownership is Owned ==> ctx_refs(old(drv)@, self.raw) < u64::MAX,
        ensures
            final(drv)@ == ctx_clone_t(old(drv)@, *self),
            final(drv)@.wf(),
            r == *self,
            ctx_valid(final(drv)@, r),
            ctx_valid(final(drv)@, *self),
    {
        match self.ownership {
            Ownership::Ambient => CuContext { raw: self.raw, ownership: Ownership::Ambient },
            Ownership::Owned => {
                let i = drv.find_ctx(self.raw).unwrap();
                let e = drv.ctxs[i];
                drv.ctxs[i] = CtxEntry { refs: e.refs + 1, ..e };
                proof {
                    assert(drv@ =~= ctx_clone_t(old(drv)@, *self));
                    lemma_ctxs_update(
                        old(drv)@.ctxs,
                        old(drv)@.next_handle,
                        i as int,
                        CtxEntry { refs: (e.refs + 1) as u64, ..e },
                    );
                    lemma_same_queue_records(old(drv)@, drv@);
                    assert(drv@.wf());
                    assert(drv@.ctxs[i as int].handle == self.raw);
                    assert(ctx_live(drv@.ctxs, self.raw));
                    let j = ctx_at(drv@.ctxs, self.raw);
                    if j != i as int {
                        assert(drv@.ctxs[j].handle != drv@.ctxs[i as int].handle);
                    }
                }
                CuContext { raw: self.raw, ownership: Ownership::Owned }
            },
        }
    }

    /// Releases this reference. For an owned handle the last release
    /// removes the entry and fires the native destroy, exactly once; for an
    /// ambient handle nothing happens.
    pub fn release(self, drv: &mut CuDriver)
        requires
            old(drv)@.wf(),
            ctx_valid(old(drv)@, self),
        ensures
            final(drv)@ == ctx_release_t(old(drv)@, self),
            final(drv)@.wf(),
    {
        match self.ownership {
            Ownership::Ambient => {},
            Ownership::Owned => {
                let i = drv.find_ctx(self.raw).unwrap();
                let e = drv.ctxs[i];
                if e.refs <= 1 {
                    drv.ctxs.remove(i);
                    drv.ctx_destroys = drv.ctx_destroys + 1;
                    proof {
                        assert(drv@.ctxs =~= old(drv)@.ctxs.remove(i as int));
                        assert(drv@ =~= ctx_release_t(old(drv)@, self));
                        lemma_ctxs_remove(old(drv)@.ctxs, old(drv)@.next_handle, i as int);
                        lemma_same_queue_records(old(drv)@, drv@);
                        assert(drv@.wf());
                    }
                } else {
                    drv.ctxs[i] = CtxEntry { refs: e.refs - 1, ..e };
                    proof {
                        assert(drv@ =~= ctx_release_t(old(drv)@, self));
                        lemma_ctxs_update(
                            old(drv)@.ctxs,
                            old(drv)@.next_handle,
                            i as int,
                            CtxEntry { refs: (e.refs - 1) as u64, ..e },
                        );
                        lemma_same_queue_records(old(drv)@, drv@);
                        assert(drv@.wf());
                    }
                }
            },
        }
    }

    /// The raw handle this wrapper stands for.
    pub fn get_raw(&self) -> (r: u64)
        ensures
            r == self.raw,
    {
        self.raw
    }
}

/// A scope object for one push of the current-context stack: created by
/// pushing its context, released by popping exactly once and handing the
/// context back.
#[derive(Debug)]
pub struct CuContextGuard {
    pub ctx: CuContext,
}

impl CuContextGuard {
    /// Pushes `ctx` and wraps it; where the push is refused, `ctx`'s own
    /// reference is released, as dropping it would.
    pub fn new(ctx: CuContext, drv: &mut CuDriver) -> (r: CuResult<CuContextGuard>)
        requires
            old(drv)@.wf(),
            ctx_valid(old(drv)@, ctx),
        ensures
            r is Ok <==> ctx_push_ok(old(drv)@, ctx.raw),
            r is Ok ==> final(drv)@ == ctx_push_t(old(drv)@, ctx.raw) && r->Ok_0 == (CuContextGuard {
                ctx,
            }),
            r is Err ==> final(drv)@ == ctx_release_t(old(drv)@, ctx) && r->Err_0 == ctx_push_err(
                old(drv)@,
                ctx.raw,
            ),
            final(drv)@.wf(),
    {
        match ctx.push(drv) {
            Ok(()) => Ok(CuContextGuard { ctx }),
            Err(e) => {
                ctx.release(drv);
                Err(e)
            },
        }
    }

    /// Pops the stack exactly once and hands the guarded context back. The
    /// pop must be owed: the stack cannot be empty.
    pub fn release(self, drv: &mut CuDriver) -> (r: CuContext)
        requires
            old(drv)@.wf(),
            old(drv)@.initialized,
            old(drv)@.current_stack.len() > 0,
        ensures
            final(drv)@ == ctx_pop_t(old(drv)@),
            final(drv)@.wf(),
            r == self.ctx,
    {
        let p = CuContext::pop(drv);
        proof {
            assert(p is Ok);
        }
        self.ctx
    }
}

// --- the nesting law of guards ---

/// The stack after acquiring guards for the handles `hs`, in order.
pub open spec fn acquire_all(m: Model, hs: Seq<u64>) -> Model
    decreases hs.len(),
{
    if hs.len() == 0 {
        m
    } else {
        acquire_all(ctx_push_t(m, hs[0]), hs.drop_first())
    }
}

/// The stack after releasing `n` guards.
pub open spec fn release_all(m: Model, n: nat) -> Model
    decreases n,
{
    if n == 0 {
        m
    } else {
        release_all(ctx_pop_t(m), (n - 1) as nat)
    }
}

/// Releasing once more pops what the earlier releases left.
proof fn lemma_release_all_snoc(m: Model, n: nat)
    ensures
        release_all(m, (n + 1) as nat) == ctx_pop_t(release_all(m, n)),
    decreases n,
{
    let zero: nat = 0;
    if n == 0 {
        assert(release_all(m, (n + 1) as nat) == release_all(ctx_pop_t(m), zero));
        assert(release_all(ctx_pop_t(m), zero) == ctx_pop_t(m));
        assert(release_all(m, zero) == m);
    } else {
        lemma_release_all_snoc(ctx_pop_t(m), (n - 1) as nat);
        assert(release_all(m, (n + 1) as nat) == release_all(ctx_pop_t(m), n));
        assert(release_all(m, n) == release_all(ctx_pop_t(m), (n - 1) as nat));
    }
}

/// Guards nest: acquiring guards for live contexts `hs` in order performs
/// one push each, releasing them in reverse order one pop each, and after
/// all of them the current-context stack — and with it the current context
/// — is exactly what it was before the first guard.
pub proof fn lemma_guard_nesting(m: Model, hs: Seq<u64>)
    requires
        m.initialized,
        forall|i: int| 0 <= i < hs.len() ==> ctx_live(m.ctxs, #[trigger] hs[i]),
    ensures
        release_all(acquire_all(m, hs), hs.len()) == m,
    decreases hs.len(),
{
    if hs.len() == 0 {
    } else {
        let m1 = ctx_push_t(m, hs[0]);
        assert(m1.ctxs == m.ctxs);
        assert(forall|i: int|
            0 <= i < hs.drop_first().len() ==> ctx_live(m1.ctxs, #[trigger] hs.drop_first()[i]));
        lemma_guard_nesting(m1, hs.drop_first());
        let x = acquire_all(m1, hs.drop_first());
        assert(acquire_all(m, hs) == x);
        lemma_release_all_snoc(x, hs.drop_first().len());
        assert(release_all(x, hs.len()) == ctx_pop_t(release_all(x, hs.drop_first().len())));
        assert(release_all(x, hs.drop_first().len()) == m1);
        assert(m1.current_stack.len() > 0);
        assert(ctx_pop_t(m1) =~= m);
    }
}

// --- the destroy-once law of counted clones ---

/// The model after `n` counted clones of `c`.
pub open spec fn clone_n(m: Model, c: CuContext, n: nat) -> Model
    decreases n,
{
    if n == 0 {
        m
    } else {
        ctx_clone_t(clone_n(m, c, (n - 1) as nat), c)
    }
}

/// The model after `n` releases of `c`.
pub open spec fn release_n(m: Model, c: CuContext, n: nat) -> Model
    decreases n,
{
    if n == 0 {
        m
    } else {
        release_n(ctx_release_t(m, c), c, (n - 1) as nat)
    }
}

/// One counted clone of a live owned handle: one more reference, same
/// destroy count, everything else as it was.
proof fn lemma_clone_step(m: Model, c: CuContext)
    requires
        c.ownership is Owned,
        forall|i: int, j: int|
            0 <= i < j < m.ctxs.len() ==> (#[trigger] m.ctxs[i]).handle != (
            #[trigger] m.ctxs[j]).handle,
        ctx_live(m.ctxs, c.raw),
        ctx_refs(m, c.raw) < u64::MAX,
    ensures
        ctx_live(ctx_clone_t(m, c).ctxs, c.raw),
        ctx_refs(ctx_clone_t(m, c), c.raw) == ctx_refs(m, c.raw) + 1,
        ctx_clone_t(m, c).ctx_destroys == m.ctx_destroys,
        forall|i: int, j: int|
            0 <= i < j < ctx_clone_t(m, c).ctxs.len() ==> (#[trigger] ctx_clone_t(
                m,
                c,
            ).ctxs[i]).handle != (#[trigger] ctx_clone_t(m, c).ctxs[j]).handle,
    {
    let k = ctx_at(m.ctxs, c.raw);
    let m2 = ctx_clone_t(m, c);
    assert(m2.ctxs[k].handle == c.raw);
    assert(ctx_live(m2.ctxs, c.raw));
    let j = ctx_at(m2.ctxs, c.raw);
    if j != k {
        assert(m2.ctxs[j] == m.ctxs[j]);
        assert(m.ctxs[j].handle != m.ctxs[k].handle);
    }
}

/// One release of a live owned handle with more than one reference: one
/// reference fewer, same destroy count.
proof fn lemma_release_step(m: Model, c: CuContext)
    requires
        c.ownership is Owned,
        forall|i: int, j: int|
            0 <= i < j < m.ctxs.len() ==> (#[trigger] m.ctxs[i]).handle != (
            #[trigger] m.ctxs[j]).handle,
        ctx_live(m.ctxs, c.raw),
        ctx_refs(m, c.raw) >= 2,
    ensures
        ctx_live(ctx_release_t(m, c).ctxs, c.raw),
        ctx_refs(ctx_release_t(m, c), c.raw) == ctx_refs(m, c.raw) - 1,
        ctx_release_t(m, c).ctx_destroys == m.ctx_destroys,
        forall|i: int, j: int|
            0 <= i < j < ctx_release_t(m, c).ctxs.len() ==> (#[trigger] ctx_release_t(
                m,
                c,
            ).ctxs[i]).handle != (#[trigger] ctx_release_t(m, c).ctxs[j]).handle,
    {
    let k = ctx_at(m.ctxs, c.raw);
    let m2 = ctx_release_t(m, c);
    assert(m2.ctxs[k].handle == c.raw);
    assert(ctx_live(m2.ctxs, c.raw));
    let j = ctx_at(m2.ctxs, c.raw);
    if j != k {
        assert(m2.ctxs[j] == m.ctxs[j]);
        assert(m.ctxs[j].handle != m.ctxs[k].handle);
    }
}

/// `n` counted clones take the reference count from 1 to `n + 1` and fire
/// no destroy.
proof fn lemma_clone_n(m: Model, c: CuContext, n: nat)
    requires
        c.ownership is Owned,
        forall|i: int, j: int|
            0 <= i < j < m.ctxs.len() ==> (#[trigger] m.ctxs[i]).handle != (
            #[trigger] m.ctxs[j]).handle,
        ctx_live(m.ctxs, c.raw),
        ctx_refs(m, c.raw) + n <= u64::MAX,
    ensures
        ctx_live(clone_n(m, c, n).ctxs, c.raw),
        ctx_refs(clone_n(m, c, n), c.raw) == ctx_refs(m, c.raw) + n,
        clone_n(m, c, n).ctx_destroys == m.ctx_destroys,
        forall|i: int, j: int|
            0 <= i < j < clone_n(m, c, n).ctxs.len() ==> (#[trigger] clone_n(
                m,
                c,
                n,
            ).ctxs[i]).handle != (#[trigger] clone_n(m, c, n).ctxs[j]).handle,
    decreases n,
{
    if n == 0 {
    } else {
        lemma_clone_n(m, c, (n - 1) as nat);
        lemma_clone_step(clone_n(m, c, (n - 1) as nat), c);
    }
}

/// `n` releases of a handle holding more than `n` references only count
/// down and fire no destroy.
proof fn lemma_release_n(m: Model, c: CuContext, n: nat)
    requires
        c.ownership is Owned,
        forall|i: int, j: int|
            0 <= i < j < m.ctxs.len() ==> (#[trigger] m.ctxs[i]).handle != (
            #[trigger] m.ctxs[j]).handle,
        ctx_live(m.ctxs, c.raw),
        ctx_refs(m, c.raw) >= n + 1,
    ensures
        ctx_live(release_n(m, c, n).ctxs, c.raw),
        ctx_refs(release_n(m, c, n), c.raw) == ctx_refs(m, c.raw) - n,
        release_n(m, c, n).ctx_destroys == m.ctx_destroys,
        forall|i: int, j: int|
            0 <= i < j < release_n(m, c, n).ctxs.len() ==> (#[trigger] release_n(
                m,
                c,
                n,
            ).ctxs[i]).handle != (#[trigger] release_n(m, c, n).ctxs[j]).handle,
    decreases n,
{
    if n == 0 {
    } else {
        lemma_release_step(m, c);
        lemma_release_n(ctx_release_t(m, c), c, (n - 1) as nat);
    }
}

/// Shared ownership destroys exactly once, at the last release: starting
/// from a single owning reference, taking `n` counted clones and then
/// releasing all `n + 1` references leaves the handle live with no destroy
/// fired up to and including the `n`-th release, and the final release
/// removes the entry and fires exactly one native destroy.
pub proof fn lemma_shared_destroy_once(m: Model, c: CuContext, n: nat)
    requires
        c.ownership is Owned,
        forall|i: int, j: int|
            0 <= i < j < m.ctxs.len() ==> (#[trigger] m.ctxs[i]).handle != (
            #[trigger] m.ctxs[j]).handle,
        ctx_live(m.ctxs, c.raw),
        ctx_refs(m, c.raw) == 1,
        1 + n <= u64::MAX,
        m.ctx_destroys < u64::MAX,
    ensures
        ctx_live(release_n(clone_n(m, c, n), c, n).ctxs, c.raw),
        forall|k: nat|
            k <= n ==> #[trigger] release_n(clone_n(m, c, n), c, k).ctx_destroys
                == m.ctx_destroys,
        !ctx_live(release_n(clone_n(m, c, n), c, (n + 1) as nat).ctxs, c.raw),
        release_n(clone_n(m, c, n), c, (n + 1) as nat).ctx_destroys == m.ctx_destroys + 1,
{
    lemma_clone_n(m, c, n);
    let mc = clone_n(m, c, n);
    assert forall|k: nat| k <= n implies #[trigger] release_n(mc, c, k).ctx_destroys
        == m.ctx_destroys by {
        lemma_release_n(mc, c, k);
    }
    lemma_release_n(mc, c, n);
    let mr = release_n(mc, c, n);
    lemma_release_n_snoc(mc, c, n);
    assert(release_n(mc, c, (n + 1) as nat) == ctx_release_t(mr, c));
    let k = ctx_at(mr.ctxs, c.raw);
    assert(mr.ctxs[k].handle == c.raw);
    let m2 = ctx_release_t(mr, c);
    assert(m2.ctxs == mr.ctxs.remove(k));
    assert forall|a: int| 0 <= a < m2.ctxs.len() implies (#[trigger] m2.ctxs[a]).handle != c.raw by {
        if a < k {
            assert(mr.ctxs[a].handle != mr.ctxs[k].handle);
        } else {
            assert(mr.ctxs[a + 1].handle != mr.ctxs[k].handle);
        }
    }
    if ctx_live(m2.ctxs, c.raw) {
        let w = ctx_at(m2.ctxs, c.raw);
        assert(m2.ctxs[w].handle == c.raw);
    }
}

/// Releasing once more releases what the earlier releases left.
proof fn lemma_release_n_snoc(m: Model, c: CuContext, n: nat)
    ensures
        release_n(m, c, (n + 1) as nat) == ctx_release_t(release_n(m, c, n), c),
    decreases n,
{
    let zero: nat = 0;
    if n == 0 {
        assert(release_n(m, c, (n + 1) as nat) == release_n(ctx_release_t(m, c), c, zero));
        assert(release_n(ctx_release_t(m, c), c, zero) == ctx_release_t(m, c));
        assert(release_n(m, c, zero) == m);
    } else {
        lemma_release_n_snoc(ctx_release_t(m, c), c, (n - 1) as nat);
        assert(release_n(m, c, (n + 1) as nat) == release_n(ctx_release_t(m, c), c, n));
        assert(release_n(m, c, n) == release_n(ctx_release_t(m, c), c, (n - 1) as nat));
    }
}

/// An ambient wrapper never touches the driver: any number of counted
/// clones and releases of it are identities, so no destroy ever fires.
pub proof fn lemma_ambient_no_destroy(m: Model, c: CuContext, n: nat, k: nat)
    requires
        c.ownership is Ambient,
    ensures
        release_n(clone_n(m, c, n), c, k) == m,
    decreases n + k,
{
    if n > 0 {
        assert(clone_n(m, c, n) == ctx_clone_t(clone_n(m, c, (n - 1) as nat), c));
        lemma_ambient_no_destroy(m, c, (n - 1) as nat, k);
        assert(ctx_clone_t(clone_n(m, c, (n - 1) as nat), c) == clone_n(m, c, (n - 1) as nat));
        lemma_clone_n_eq(m, c, n);
    } else if k > 0 {
        lemma_ambient_no_destroy(m, c, n, (k - 1) as nat);
        assert(ctx_release_t(m, c) == m);
        lemma_release_n_head(m, c, k);
    }
}

/// Peeling one release off the front.
proof fn lemma_release_n_head(m: Model, c: CuContext, k: nat)
    requires
        k > 0,
    ensures
        release_n(m, c, k) == release_n(ctx_release_t(m, c), c, (k - 1) as nat),
{
}

/// Ambient clones change nothing, step by step.
proof fn lemma_clone_n_eq(m: Model, c: CuContext, n: nat)
    requires
        c.ownership is Ambient,
    ensures
        clone_n(m, c, n) == m,
    decreases n,
{
    if n > 0 {
        lemma_clone_n_eq(m, c, (n - 1) as nat);
    }
}

} // verus!
