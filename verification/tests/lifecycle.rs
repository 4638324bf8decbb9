use cuda_rs::context::CuContext;
use cuda_rs::device::CuDevice;
use cuda_rs::driver::CuDriver;
use cuda_rs::event::CuEvent;
use cuda_rs::stream::CuStream;

fn up(device_mems: Vec<usize>) -> CuDriver {
    let mut drv = CuDriver::new(device_mems);
    cuda_rs::init(&mut drv).unwrap();
    drv
}

#[test]
fn guards_nest_and_restore_the_stack() {
    let mut drv = up(vec![1 << 30]);
    let dev = CuDevice::new(&drv, 0).unwrap();
    let a = CuContext::new(&mut drv, &dev).unwrap();
    let b = CuContext::new(&mut drv, &dev).unwrap();
    let before = drv.current_stack.clone();

    let ga = a.guard(&mut drv).unwrap();
    assert_eq!(drv.current_stack.len(), before.len() + 1);
    let gb = b.guard(&mut drv).unwrap();
    assert_eq!(drv.current_stack.len(), before.len() + 2);

    // releases pop in reverse order, one pop per guard
    let b = gb.release(&mut drv);
    assert_eq!(drv.current_stack.len(), before.len() + 1);
    let a = ga.release(&mut drv);
    assert_eq!(drv.current_stack, before);

    // after all guards release, the current context is what it was before
    let cur = CuContext::current(&drv).unwrap();
    assert_eq!(cur.raw, 0);
    a.release(&mut drv);
    b.release(&mut drv);
}

#[test]
fn current_reads_the_top_of_the_stack() {
    let mut drv = up(vec![1 << 30]);
    let dev = CuDevice::new(&drv, 0).unwrap();
    let a = CuContext::new(&mut drv, &dev).unwrap();
    assert_eq!(CuContext::current(&drv).unwrap().raw, 0);
    a.push(&mut drv).unwrap();
    assert_eq!(CuContext::current(&drv).unwrap().raw, a.raw);
    CuContext::pop(&mut drv).unwrap();
    assert_eq!(CuContext::current(&drv).unwrap().raw, 0);
    a.release(&mut drv);
}

#[test]
fn shared_context_destroys_once_at_the_last_release() {
    let mut drv = up(vec![1 << 30]);
    let dev = CuDevice::new(&drv, 0).unwrap();
    let ctx = CuContext::new(&mut drv, &dev).unwrap();
    let c1 = ctx.clone_ref(&mut drv);
    let c2 = ctx.clone_ref(&mut drv);
    let c3 = ctx.clone_ref(&mut drv);
    let destroys = drv.ctx_destroys;
    c1.release(&mut drv);
    assert_eq!(drv.ctx_destroys, destroys);
    c2.release(&mut drv);
    assert_eq!(drv.ctx_destroys, destroys);
    c3.release(&mut drv);
    assert_eq!(drv.ctx_destroys, destroys);
    // the last of the four references fires the one native destroy
    ctx.release(&mut drv);
    assert_eq!(drv.ctx_destroys, destroys + 1);
    assert_eq!(drv.ctxs.len(), 0);
}

#[test]
fn ambient_context_never_destroys() {
    let mut drv = up(vec![1 << 30]);
    let dev = CuDevice::new(&drv, 0).unwrap();
    let primary = dev.retain_primary_context(&mut drv).unwrap();
    let again = dev.retain_primary_context(&mut drv).unwrap();
    assert_eq!(primary.raw, again.raw);
    let p1 = primary.clone_ref(&mut drv);
    let p2 = primary.clone_ref(&mut drv);
    p1.release(&mut drv);
    p2.release(&mut drv);
    again.release(&mut drv);
    primary.release(&mut drv);
    assert_eq!(drv.ctx_destroys, 0);
    // the primary context is still live, owned by the driver itself
    assert_eq!(drv.ctxs.len(), 1);
}

#[test]
fn shared_stream_destroys_once_at_the_last_release() {
    let mut drv = up(vec![1 << 30]);
    let dev = CuDevice::new(&drv, 0).unwrap();
    let g = CuContext::new(&mut drv, &dev).unwrap().guard(&mut drv).unwrap();
    let s = CuStream::new(&mut drv).unwrap();
    let s1 = s.clone_ref(&mut drv);
    let s2 = s.clone_ref(&mut drv);
    let destroys = drv.stream_destroys;
    s1.release(&mut drv);
    s2.release(&mut drv);
    assert_eq!(drv.stream_destroys, destroys);
    s.release(&mut drv);
    assert_eq!(drv.stream_destroys, destroys + 1);
    g.release(&mut drv).release(&mut drv);
}

#[test]
fn shared_event_destroys_once_at_the_last_release() {
    let mut drv = up(vec![1 << 30]);
    let dev = CuDevice::new(&drv, 0).unwrap();
    let g = CuContext::new(&mut drv, &dev).unwrap().guard(&mut drv).unwrap();
    let e = CuEvent::new(&mut drv).unwrap();
    let e1 = e.clone_ref(&mut drv);
    let destroys = drv.event_destroys;
    e1.release(&mut drv);
    assert_eq!(drv.event_destroys, destroys);
    e.release(&mut drv);
    assert_eq!(drv.event_destroys, destroys + 1);
    g.release(&mut drv).release(&mut drv);
}

#[test]
fn stream_reports_its_context() {
    let mut drv = up(vec![1 << 30]);
    let dev = CuDevice::new(&drv, 0).unwrap();
    let ctx = CuContext::new(&mut drv, &dev).unwrap();
    let g = ctx.clone_ref(&mut drv).guard(&mut drv).unwrap();
    let s = CuStream::new(&mut drv).unwrap();
    let back = s.get_context(&drv).unwrap();
    assert_eq!(back.raw, ctx.raw);
    s.release(&mut drv);
    g.release(&mut drv).release(&mut drv);
    ctx.release(&mut drv);
}

#[test]
fn event_record_query_synchronize() {
    let mut drv = up(vec![1 << 30]);
    let dev = CuDevice::new(&drv, 0).unwrap();
    let g = CuContext::new(&mut drv, &dev).unwrap().guard(&mut drv).unwrap();
    let s = CuStream::new(&mut drv).unwrap();
    let e = CuEvent::new(&mut drv).unwrap();
    // nothing recorded yet: the event counts as complete
    assert_eq!(e.query(&drv), Ok(true));
    e.record(&mut drv, &s).unwrap();
    assert_eq!(e.query(&drv), Ok(false));
    e.synchronize(&mut drv).unwrap();
    assert_eq!(e.query(&drv), Ok(true));
    // a second stream can queue a dependency on the recorded point
    let s2 = CuStream::new(&mut drv).unwrap();
    e.record(&mut drv, &s).unwrap();
    s2.wait_on_event(&mut drv, &e).unwrap();
    assert_eq!(s2.query(&drv), Ok(false));
    s2.synchronize(&mut drv).unwrap();
    assert_eq!(s2.query(&drv), Ok(true));
    assert_eq!(e.query(&drv), Ok(true));
    e.release(&mut drv);
    s2.release(&mut drv);
    s.release(&mut drv);
    g.release(&mut drv).release(&mut drv);
}

#[test]
fn device_reports_count_and_memory() {
    let mut drv = up(vec![1 << 30, 1 << 20]);
    assert_eq!(CuDevice::get_device_count(&drv).unwrap(), 2);
    let d0 = CuDevice::new(&drv, 0).unwrap();
    let d1 = CuDevice::new(&drv, 1).unwrap();
    assert_eq!(d0.total_memory(&drv).unwrap(), 1 << 30);
    assert_eq!(d1.total_memory(&drv).unwrap(), 1 << 20);
    assert_eq!(d0.get_raw(), 0);
    assert_eq!(d1.get_raw(), 1);
    let _ = &mut drv;
}

#[test]
fn event_elapsed_time_is_gated_on_completion() {
    let mut drv = up(vec![1 << 30]);
    let dev = CuDevice::new(&drv, 0).unwrap();
    let g = CuContext::new(&mut drv, &dev).unwrap().guard(&mut drv).unwrap();
    let s = CuStream::new(&mut drv).unwrap();
    let e1 = CuEvent::new(&mut drv).unwrap();
    let e2 = CuEvent::new(&mut drv).unwrap();
    // never recorded: refused as an invalid handle, never computed
    assert_eq!(e2.elapsed_time(&drv, &e1), Err(cuda_rs::error::CuError::InvalidHandle));
    e1.record(&mut drv, &s).unwrap();
    assert_eq!(e2.elapsed_time(&drv, &e1), Err(cuda_rs::error::CuError::InvalidHandle));
    // one unit of work between the two marks
    s.wait_on_event(&mut drv, &e1).unwrap();
    e2.record(&mut drv, &s).unwrap();
    // recorded but not yet complete: not ready, never computed
    assert_eq!(e2.elapsed_time(&drv, &e1), Err(cuda_rs::error::CuError::NotReady));
    s.synchronize(&mut drv).unwrap();
    // marks completed at ticks one apart around the waited unit of work
    assert_eq!(e2.elapsed_time(&drv, &e1), Ok(2));
    assert_eq!(e1.elapsed_time(&drv, &e2), Ok(-2));
    e1.release(&mut drv);
    e2.release(&mut drv);
    s.release(&mut drv);
    g.release(&mut drv).release(&mut drv);
}
