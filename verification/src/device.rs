//! Device handles: enumeration by ordinal, total memory, and the device's
//! primary context.

use vstd::prelude::*;
use crate::context::{ctx_retain_err, ctx_retain_handle, ctx_retain_ok, ctx_retain_t, CuContext};
use crate::driver::{CuDriver, Model};
use crate::error::{CuError, CuResult};

verus! {

/// A physical device, identified by its ordinal. A plain value with no
/// ownership obligation.
#[derive(Clone, Copy, Debug, PartialEq, Eq, Structural)]
pub struct CuDevice {
    pub ordinal: u32,
}

/// Whether `ordinal` names an enumerated device.
pub open spec fn device_ok(m: Model, ordinal: u32) -> bool {
    m.initialized && (ordinal as int) < m.device_mems.len()
}

pub open spec fn device_err(m: Model, ordinal: u32) -> CuError {
    if !m.initialized {
        CuError::NotInitialized
    } else {
        CuError::InvalidDevice
    }
}

impl CuDevice {
    /// Looks the device up by ordinal; an ordinal at or beyond the
    /// enumerated count is rejected with `InvalidDevice`.
    pub fn new(drv: &CuDriver, ordinal: u32) -> (r: CuResult<CuDevice>)
        ensures
            r is Ok <==> device_ok(drv@, ordinal),
            r is Ok ==> r->Ok_0 == (CuDevice { ordinal }),
            r is Err ==> r->Err_0 == device_err(drv@, ordinal),
    {
        if !drv.initialized {
            return Err(CuError::NotInitialized);
        }
        if (ordinal as usize) < drv.device_mems.len() {
            Ok(CuDevice { ordinal })
        } else {
            Err(CuError::InvalidDevice)
        }
    }

    /// How many devices the driver enumerates.
    pub fn get_device_count(drv: &CuDriver) -> (r: CuResult<i32>)
        requires
            drv@.wf(),
        ensures
            r is Ok <==> drv@.initialized,
            r is Ok ==> r->Ok_0 == drv@.device_mems.len(),
            r is Err ==> r->Err_0 == CuError::NotInitialized,
    {
        if !drv.initialized {
            return Err(CuError::NotInitialized);
        }
        Ok(drv.device_mems.len() as i32)
    }

    /// The device's total addressable memory in bytes.
    pub fn total_memory(&self, drv: &CuDriver) -> (r: CuResult<usize>)
        ensures
            r is Ok <==> device_ok(drv@, self.ordinal),
            r is Ok ==> r->Ok_0 == drv@.device_mems[self.ordinal as int],
            r is Err ==> r->Err_0 == device_err(drv@, self.ordinal),
    {
        if !drv.initialized {
            return Err(CuError::NotInitialized);
        }
        if (self.ordinal as usize) < drv.device_mems.len() {
            Ok(drv.device_mems[self.ordinal as usize])
        } else {
            Err(CuError::InvalidDevice)
        }
    }

    /// The device's implicit primary context, as an ambient handle that
    /// this layer never destroys.
    pub fn retain_primary_context(&self, drv: &mut CuDriver) -> (r: CuResult<CuContext>)
        requires
            old(drv)@.wf(),
        ensures
            final(drv)@ == ctx_retain_t(old(drv)@, self.ordinal),
            final(drv)@.wf(),
            r is Ok <==> ctx_retain_ok(old(drv)@, self.ordinal),
            r is Ok ==> r->Ok_0 == (CuContext {
                raw: ctx_retain_handle(old(drv)@, self.ordinal),
                ownership: crate::ownership::Ownership::Ambient,
            }),
            r is Err ==> r->Err_0 == ctx_retain_err(old(drv)@, self.ordinal),
    {
        CuContext::retain_primary_context(drv, self)
    }

    /// The raw device ordinal handed to the native layer.
    pub fn get_raw(&self) -> (r: u32)
        ensures
            r == self.ordinal,
    {
        self.ordinal
    }
}

} // verus!
