use cuda_rs::context::CuContext;
use cuda_rs::device::CuDevice;
use cuda_rs::driver::{CuDriver, MemLoc, MemSpace};
use cuda_rs::error::CuError;
use cuda_rs::memory::{DeviceMemory, HostMemory, PitchedDeviceMemory};
use cuda_rs::stream::CuStream;

struct Rig {
    drv: CuDriver,
    guard: Option<cuda_rs::context::CuContextGuard>,
    stream: Option<CuStream>,
}

fn rig() -> Rig {
    let mut drv = CuDriver::new(vec![1 << 30]);
    cuda_rs::init(&mut drv).unwrap();
    let dev = CuDevice::new(&drv, 0).unwrap();
    let ctx = CuContext::new(&mut drv, &dev).unwrap();
    let guard = ctx.guard(&mut drv).unwrap();
    let stream = CuStream::new(&mut drv).unwrap();
    Rig { drv, guard: Some(guard), stream: Some(stream) }
}

impl Rig {
    fn teardown(mut self) {
        let drv = &mut self.drv;
        self.stream.take().unwrap().release(drv);
        self.guard.take().unwrap().release(drv).release(drv);
    }
}

#[test]
fn host_memory_round_trips_bytes() {
    let mut r = rig();
    let drv = &mut r.drv;
    let a = HostMemory::new(drv, 4).unwrap();
    assert_eq!(a.read_bytes(drv), vec![0u8; 4]);
    a.write_bytes(drv, &vec![9, 8, 7, 6]);
    assert_eq!(a.read_bytes(drv), vec![9, 8, 7, 6]);
    let b = a.try_clone(drv).unwrap();
    assert_eq!(b.read_bytes(drv), vec![9, 8, 7, 6]);
    // the clone is its own allocation
    a.write_bytes(drv, &vec![1, 1, 1, 1]);
    assert_eq!(b.read_bytes(drv), vec![9, 8, 7, 6]);
    let c = HostMemory::new(drv, 2).unwrap();
    b.copy_to(drv, &c).unwrap();
    assert_eq!(c.read_bytes(drv), vec![9, 8]);
    a.release(drv);
    b.release(drv);
    c.release(drv);
    r.teardown();
}

#[test]
fn device_round_trip_is_byte_identical() {
    let mut r = rig();
    let drv = &mut r.drv;
    let stream = r.stream.as_ref().unwrap();
    let n = 64usize;
    let src = HostMemory::new(drv, n).unwrap();
    let pattern: Vec<u8> = (0..n as u8).map(|i| i.wrapping_mul(7)).collect();
    src.write_bytes(drv, &pattern);
    let dev = DeviceMemory::new(drv, n, stream).unwrap();
    dev.copy_from_raw(drv, MemLoc { space: MemSpace::Host, handle: src.handle }, n, None).unwrap();
    let back = dev.to_host(drv).unwrap();
    // nothing has executed yet: the copies are only queued
    assert_eq!(back.read_bytes(drv), vec![0u8; n]);
    stream.synchronize(drv).unwrap();
    assert_eq!(back.read_bytes(drv), pattern);
    back.release(drv);
    src.release(drv);
    dev.release(drv);
    r.teardown();
}

#[test]
fn end_to_end_fill_and_read_back() {
    // enumerate, context, guard, stream, 4096 bytes out and back
    let mut drv = CuDriver::new(vec![1 << 30]);
    cuda_rs::init(&mut drv).unwrap();
    assert!(CuDevice::get_device_count(&drv).unwrap() >= 1);
    let dev = CuDevice::new(&drv, 0).unwrap();
    let ctx = CuContext::new(&mut drv, &dev).unwrap();
    let guard = ctx.guard(&mut drv).unwrap();
    let stream = CuStream::new(&mut drv).unwrap();

    let mem = DeviceMemory::new(&mut drv, 4096, &stream).unwrap();
    let host = HostMemory::new(&mut drv, 4096).unwrap();
    host.write_bytes(&mut drv, &vec![0xAB; 4096]);
    mem.copy_from_raw(&mut drv, MemLoc { space: MemSpace::Host, handle: host.handle }, 4096, None)
        .unwrap();
    stream.synchronize(&mut drv).unwrap();

    let fresh = mem.to_host(&mut drv).unwrap();
    stream.synchronize(&mut drv).unwrap();
    let bytes = fresh.read_bytes(&drv);
    assert_eq!(bytes.len(), 4096);
    assert!(bytes.iter().all(|&b| b == 0xAB));

    fresh.release(&mut drv);
    host.release(&mut drv);
    mem.release(&mut drv);
    stream.release(&mut drv);
    guard.release(&mut drv).release(&mut drv);
}

#[test]
fn device_clone_copies_on_the_same_stream() {
    let mut r = rig();
    let drv = &mut r.drv;
    let stream = r.stream.as_ref().unwrap();
    let src = HostMemory::new(drv, 8).unwrap();
    src.write_bytes(drv, &vec![1, 2, 3, 4, 5, 6, 7, 8]);
    let a = DeviceMemory::new(drv, 8, stream).unwrap();
    a.copy_from_raw(drv, MemLoc { space: MemSpace::Host, handle: src.handle }, 8, None).unwrap();
    let b = a.try_clone(drv).unwrap();
    let out = b.to_host(drv).unwrap();
    stream.synchronize(drv).unwrap();
    assert_eq!(out.read_bytes(drv), vec![1, 2, 3, 4, 5, 6, 7, 8]);
    out.release(drv);
    src.release(drv);
    a.release(drv);
    b.release(drv);
    r.teardown();
}

#[test]
fn device_free_is_stream_ordered() {
    let mut r = rig();
    let drv = &mut r.drv;
    let stream_clone = r.stream.as_ref().unwrap().clone_ref(drv);
    let a = DeviceMemory::new(drv, 16, &stream_clone).unwrap();
    let live_before = drv.dev_bufs.len();
    a.release(drv);
    // the free is queued, not synchronous: the allocation is still there
    assert_eq!(drv.dev_bufs.len(), live_before);
    stream_clone.synchronize(drv).unwrap();
    assert_eq!(drv.dev_bufs.len(), live_before - 1);
    stream_clone.release(drv);
    r.teardown();
}

#[test]
fn pitched_allocation_shape() {
    let mut r = rig();
    let drv = &mut r.drv;
    let stream = r.stream.as_ref().unwrap();
    let p = PitchedDeviceMemory::new(drv, 100, 4, stream).unwrap();
    assert_eq!(p.width, 100);
    assert_eq!(p.height, 4);
    assert_eq!(p.pitch, 512);
    assert_eq!(p.memory.size, 512 * 4);
    assert_eq!(p.stream().raw, stream.raw);
    p.release(drv);
    let q = PitchedDeviceMemory::new(drv, 512, 2, stream).unwrap();
    assert_eq!(q.pitch, 512);
    assert_eq!(q.memory.size, 1024);
    q.release(drv);
    r.teardown();
}

#[test]
fn pitched_copy_rejects_mismatched_shapes() {
    let mut r = rig();
    let drv = &mut r.drv;
    let stream = r.stream.as_ref().unwrap();
    let a = PitchedDeviceMemory::new(drv, 100, 4, stream).unwrap();
    let b = PitchedDeviceMemory::new(drv, 101, 4, stream).unwrap();
    let c = PitchedDeviceMemory::new(drv, 100, 5, stream).unwrap();
    let queued = drv.pending.len();
    // mismatched width or height fails before anything is queued
    assert_eq!(a.copy_to(drv, &b, None), Err(CuError::InvalidValue));
    assert_eq!(a.copy_to(drv, &c, None), Err(CuError::InvalidValue));
    assert_eq!(a.copy_from(drv, &b, None), Err(CuError::InvalidValue));
    assert_eq!(drv.pending.len(), queued);
    a.release(drv);
    b.release(drv);
    c.release(drv);
    r.teardown();
}

#[test]
fn pitched_to_host_packs_the_rows() {
    let mut r = rig();
    let drv = &mut r.drv;
    let stream = r.stream.as_ref().unwrap();
    let p = PitchedDeviceMemory::new(drv, 3, 2, stream).unwrap();
    assert_eq!(p.pitch, 512);
    // a tightly packed host source: two rows of three bytes
    let src = HostMemory::new(drv, 6).unwrap();
    src.write_bytes(drv, &vec![1, 2, 3, 4, 5, 6]);
    p.copy_from_raw(drv, MemLoc { space: MemSpace::Host, handle: src.handle }, 3, 3, 2, None)
        .unwrap();
    // back out of the padded layout into a tight buffer
    let out = p.to_host(drv).unwrap();
    assert_eq!(out.size, 6);
    stream.synchronize(drv).unwrap();
    assert_eq!(out.read_bytes(drv), vec![1, 2, 3, 4, 5, 6]);
    out.release(drv);
    src.release(drv);
    p.release(drv);
    r.teardown();
}

#[test]
fn pitched_clone_copies_the_contents() {
    let mut r = rig();
    let drv = &mut r.drv;
    let stream = r.stream.as_ref().unwrap();
    let p = PitchedDeviceMemory::new(drv, 4, 2, stream).unwrap();
    let src = HostMemory::new(drv, 8).unwrap();
    src.write_bytes(drv, &vec![10, 20, 30, 40, 50, 60, 70, 80]);
    p.copy_from_raw(drv, MemLoc { space: MemSpace::Host, handle: src.handle }, 4, 4, 2, None)
        .unwrap();
    let q = p.try_clone(drv).unwrap();
    assert_eq!(q.width, 4);
    assert_eq!(q.height, 2);
    let out = q.to_host(drv).unwrap();
    stream.synchronize(drv).unwrap();
    assert_eq!(out.read_bytes(drv), vec![10, 20, 30, 40, 50, 60, 70, 80]);
    out.release(drv);
    src.release(drv);
    p.release(drv);
    q.release(drv);
    r.teardown();
}

#[test]
fn stream_query_tracks_queued_work() {
    let mut r = rig();
    let drv = &mut r.drv;
    let stream = r.stream.as_ref().unwrap();
    assert_eq!(stream.query(drv), Ok(true));
    let host = HostMemory::new(drv, 4).unwrap();
    let dev = DeviceMemory::new(drv, 4, stream).unwrap();
    dev.copy_from_raw(drv, MemLoc { space: MemSpace::Host, handle: host.handle }, 4, None).unwrap();
    // "not yet complete" is an expected state, reported as false, not an error
    assert_eq!(stream.query(drv), Ok(false));
    stream.synchronize(drv).unwrap();
    assert_eq!(stream.query(drv), Ok(true));
    host.release(drv);
    dev.release(drv);
    r.teardown();
}

#[test]
fn zero_sized_host_buffer() {
    let mut r = rig();
    let drv = &mut r.drv;
    let a = HostMemory::new(drv, 0).unwrap();
    assert_eq!(a.size, 0);
    assert_eq!(a.read_bytes(drv), Vec::<u8>::new());
    a.write_bytes(drv, &Vec::new());
    let b = a.try_clone(drv).unwrap();
    assert_eq!(b.read_bytes(drv), Vec::<u8>::new());
    a.release(drv);
    b.release(drv);
    r.teardown();
}

#[test]
fn init_is_idempotent() {
    let mut drv = CuDriver::new(vec![1 << 20]);
    assert_eq!(cuda_rs::init(&mut drv), Ok(()));
    assert_eq!(cuda_rs::init(&mut drv), Ok(()));
    assert!(CuDevice::new(&drv, 0).is_ok());
}

#[test]
fn ambient_wrappers_from_raw_handles() {
    let mut r = rig();
    let drv = &mut r.drv;
    let stream = r.stream.as_ref().unwrap();
    // an ambient wrapper of a live handle works and never destroys
    let alias = CuStream::from_raw(stream.raw);
    assert_eq!(alias.query(drv), Ok(true));
    let destroys = drv.stream_destroys;
    let alias2 = alias.clone_ref(drv);
    alias2.release(drv);
    alias.release(drv);
    assert_eq!(drv.stream_destroys, destroys);
    r.teardown();
}

#[test]
fn device_copy_from_runs_on_the_sources_stream() {
    let mut r = rig();
    let drv = &mut r.drv;
    let s1 = r.stream.as_ref().unwrap();
    let s2 = CuStream::new(drv).unwrap();
    let host = HostMemory::new(drv, 4).unwrap();
    host.write_bytes(drv, &vec![5, 6, 7, 8]);
    let d1 = DeviceMemory::new(drv, 4, s1).unwrap();
    let d2 = DeviceMemory::new(drv, 4, &s2).unwrap();
    d1.copy_from_raw(drv, MemLoc { space: MemSpace::Host, handle: host.handle }, 4, None).unwrap();
    s1.synchronize(drv).unwrap();

    // without an explicit stream, the copy is handed to the source, so it
    // queues on d1's bound stream, not the destination's
    d2.copy_from(drv, &d1, None).unwrap();
    assert_eq!(s1.query(drv), Ok(false));
    assert_eq!(s2.query(drv), Ok(true));
    s1.synchronize(drv).unwrap();

    let out = d2.to_host(drv).unwrap();
    s2.synchronize(drv).unwrap();
    assert_eq!(out.read_bytes(drv), vec![5, 6, 7, 8]);
    out.release(drv);
    host.release(drv);
    d1.release(drv);
    d2.release(drv);
    s2.release(drv);
    r.teardown();
}

#[test]
fn zero_width_pitched_transfers_are_refused() {
    let mut r = rig();
    let drv = &mut r.drv;
    let stream = r.stream.as_ref().unwrap();
    let p = PitchedDeviceMemory::new(drv, 0, 3, stream).unwrap();
    assert_eq!(p.pitch, 0);
    assert_eq!(p.memory.size, 0);
    // an empty shape cannot be moved by a 2D copy: refused, nothing leaks
    let destroys = drv.stream_destroys;
    assert!(matches!(p.try_clone(drv), Err(CuError::InvalidValue)));
    assert_eq!(drv.stream_destroys, destroys);
    let hosts_before = drv.host_bufs.len();
    assert!(matches!(p.to_host(drv), Err(CuError::InvalidValue)));
    assert_eq!(drv.host_bufs.len(), hosts_before);
    stream.synchronize(drv).unwrap();
    p.release(drv);
    r.teardown();
}
