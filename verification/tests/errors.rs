use cuda_rs::driver::{CuDriver, MemLoc, MemSpace};
use cuda_rs::context::CuContext;
use cuda_rs::device::CuDevice;
use cuda_rs::error::CuError;
use cuda_rs::memory::HostMemory;
use cuda_rs::ownership::Ownership;
use cuda_rs::stream::CuStream;

#[test]
fn enum_from_primitive() {
    assert_eq!(CuError::from_i32(1), Some(CuError::InvalidValue));
    assert_eq!(CuError::from_i32(2), Some(CuError::OutOfMemory));
    assert_eq!(CuError::from_i32(3), Some(CuError::NotInitialized));
    assert_eq!(CuError::from_i32(4), Some(CuError::Deinitialized));
    assert_eq!(CuError::from_i32(1000), None);
}

#[test]
fn classify_registered_and_unregistered() {
    assert_eq!(cuda_rs::error::classify(1), CuError::InvalidValue);
    assert_eq!(cuda_rs::error::classify(2), CuError::OutOfMemory);
    assert_eq!(cuda_rs::error::classify(100), CuError::NoDevice);
    assert_eq!(cuda_rs::error::classify(700), CuError::IllegalAddress);
    assert_eq!(cuda_rs::error::classify(909), CuError::Timeout);
    assert_eq!(cuda_rs::error::classify(999), CuError::Unknown);
    // unregistered codes classify to Unknown, never to a failure
    assert_eq!(cuda_rs::error::classify(1000), CuError::Unknown);
    assert_eq!(cuda_rs::error::classify(0), CuError::Unknown);
    assert_eq!(cuda_rs::error::classify(55), CuError::Unknown);
    assert_eq!(cuda_rs::error::classify(u32::MAX), CuError::Unknown);
}

#[test]
fn classify_recovers_every_code() {
    // a registered kind comes back from its own code
    for k in [
        CuError::InvalidValue,
        CuError::OutOfMemory,
        CuError::NotInitialized,
        CuError::ContextIsDestroyed,
        CuError::NotReady,
        CuError::Timeout,
        CuError::Unknown,
    ] {
        assert_eq!(cuda_rs::error::classify(k.code()), k);
    }
}

#[test]
fn status_to_result_success_sentinel() {
    assert_eq!(cuda_rs::error::status_to_result(0), Ok(()));
    assert_eq!(cuda_rs::error::status_to_result(1), Err(CuError::InvalidValue));
    assert_eq!(cuda_rs::error::status_to_result(700), Err(CuError::IllegalAddress));
    assert_eq!(cuda_rs::error::status_to_result(12345), Err(CuError::Unknown));
}

#[test]
fn not_initialized_is_reported() {
    let drv = CuDriver::new(vec![1 << 30]);
    assert_eq!(CuDevice::new(&drv, 0), Err(CuError::NotInitialized));
    assert_eq!(CuDevice::get_device_count(&drv), Err(CuError::NotInitialized));
}

#[test]
fn invalid_device_is_reported() {
    let mut drv = CuDriver::new(vec![1 << 30]);
    cuda_rs::init(&mut drv).unwrap();
    assert_eq!(CuDevice::new(&drv, 1), Err(CuError::InvalidDevice));
    assert!(CuDevice::new(&drv, 0).is_ok());
}

#[test]
fn invalid_context_is_reported() {
    let mut drv = CuDriver::new(vec![1 << 30]);
    cuda_rs::init(&mut drv).unwrap();
    // no context is current: a stream cannot be created and a pop is not owed
    assert_eq!(CuStream::new(&mut drv).unwrap_err(), CuError::InvalidContext);
    assert_eq!(CuContext::pop(&mut drv).unwrap_err(), CuError::InvalidContext);
}

#[test]
fn context_is_destroyed_is_reported() {
    let mut drv = CuDriver::new(vec![1 << 30]);
    cuda_rs::init(&mut drv).unwrap();
    let dev = CuDevice::new(&drv, 0).unwrap();
    let ctx = CuContext::new(&mut drv, &dev).unwrap();
    ctx.push(&mut drv).unwrap();
    // the stack still holds the handle, but the context is gone
    ctx.release(&mut drv);
    assert_eq!(CuStream::new(&mut drv).unwrap_err(), CuError::ContextIsDestroyed);
    CuContext::pop(&mut drv).unwrap();
}

#[test]
fn invalid_handle_is_reported() {
    let mut drv = CuDriver::new(vec![1 << 30]);
    cuda_rs::init(&mut drv).unwrap();
    let ghost_stream = CuStream { raw: 4242, ownership: Ownership::Ambient };
    assert_eq!(ghost_stream.query(&drv), Err(CuError::InvalidHandle));
    assert_eq!(ghost_stream.synchronize(&mut drv), Err(CuError::InvalidHandle));
}

#[test]
fn invalid_value_is_reported() {
    let mut drv = CuDriver::new(vec![1 << 30]);
    cuda_rs::init(&mut drv).unwrap();
    let a = HostMemory::new(&mut drv, 16).unwrap();
    // more bytes than either side holds
    let r = a.copy_to_raw(&mut drv, MemLoc { space: MemSpace::Host, handle: a.handle }, 32);
    assert_eq!(r, Err(CuError::InvalidValue));
    a.release(&mut drv);
}
