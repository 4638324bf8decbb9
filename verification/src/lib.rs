//! A safety-oriented host-side layer over a low-level parallel-computing
//! driver: devices, execution contexts, asynchronous work queues (streams),
//! synchronization markers (events), and host/device memory with
//! stream-ordered asynchronous transfers.
//!
//! The driver's ambient state — live handles, the thread's current-context
//! stack, buffer contents, and the queue of submitted asynchronous work —
//! is held explicitly in a [`driver::CuDriver`] value that every operation
//! takes, so that the whole lifecycle layer is verified against a precise
//! model of that state: reference-counted ownership with native destruction
//! fired exactly once, LIFO push/pop pairing of the context stack, and
//! submission-ordered execution of queued copies.

pub mod align;
pub mod context;
pub mod device;
pub mod driver;
pub mod error;
pub mod event;
pub mod memory;
pub mod ownership;
pub mod stream;

use vstd::prelude::*;

verus! {

/// Brings the driver up. Every operation that reaches the driver demands
/// this first and reports `NotInitialized` without it.
pub fn init(drv: &mut driver::CuDriver) -> (r: error::CuResult<()>)
    requires
        old(drv)@.wf(),
    ensures
        final(drv)@ == (driver::Model { initialized: true, ..old(drv)@ }),
        final(drv)@.wf(),
        r == Ok::<(), error::CuError>(()),
{
    drv.initialized = true;
    proof {
        assert(drv@ =~= (driver::Model { initialized: true, ..old(drv)@ }));
        driver::lemma_same_queue_records(old(drv)@, drv@);
        assert(drv@.wf());
    }
    Ok(())
}

} // verus!
