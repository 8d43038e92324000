use libfprint_rs::{
    Capabilities, DeviceInfo, FpContext, FpError, FpImage, HardwareEvent, MatchResult,
    OpenState, OperationKind, ProgressEvent, ScanResult, ScanType, SessionState,
};

fn full_caps() -> Capabilities {
    Capabilities { enroll: true, identify: true, capture: true, image: true, scan_type: ScanType::Press }
}

fn info(id: &str, caps: Capabilities) -> DeviceInfo {
    DeviceInfo { id: id.to_string(), name: format!("scanner {}", id), capabilities: caps }
}

fn open_device(ctx: &mut FpContext, id: &str) {
    let id = id.to_string();
    assert_eq!(ctx.begin_open(&id), Ok(()));
    assert_eq!(ctx.finish_open(&id, true), Ok(()));
}

fn context_with(id: &str, caps: Capabilities) -> FpContext {
    let mut ctx = FpContext::new();
    ctx.enumerate(vec![info(id, caps)]);
    open_device(&mut ctx, id);
    ctx
}

fn drain(ctx: &mut FpContext, sid: usize) -> Vec<ProgressEvent> {
    let mut out = Vec::new();
    while let Some(e) = ctx.recv(sid) {
        out.push(e);
    }
    out
}

#[test]
fn discover_no_devices() {
    let mut ctx = FpContext::new();
    ctx.enumerate(Vec::new());
    assert!(ctx.devices().is_empty());
}

#[test]
fn enumerate_keeps_first_of_duplicate_ids() {
    let mut ctx = FpContext::new();
    let mut second = info("a", full_caps());
    second.name = "other".to_string();
    ctx.enumerate(vec![info("a", full_caps()), info("b", full_caps()), second]);
    let devs = ctx.devices();
    assert_eq!(devs.len(), 2);
    assert_eq!(devs[0].id(), "a");
    assert_eq!(devs[0].name(), "scanner a");
    assert_eq!(devs[1].id(), "b");
    assert_eq!(devs[0].state(), OpenState::Closed);
}

#[test]
fn enumerate_keeps_open_state_of_known_device() {
    let mut ctx = context_with("a", full_caps());
    ctx.enumerate(vec![info("b", full_caps()), info("a", full_caps())]);
    let a = ctx.device(&"a".to_string()).unwrap();
    assert_eq!(a.state(), OpenState::Open);
    let b = ctx.device(&"b".to_string()).unwrap();
    assert_eq!(b.state(), OpenState::Closed);
}

#[test]
fn removed_device_fails_session_and_is_not_found() {
    let mut ctx = context_with("a", full_caps());
    let sid = ctx.start_session(&"a".to_string(), OperationKind::Identify).unwrap();
    ctx.enumerate(Vec::new());
    let s = ctx.session(sid).unwrap();
    assert_eq!(s.state, SessionState::Failed);
    assert_eq!(s.error, Some(FpError::HardwareUnavailable));
    assert_eq!(ctx.begin_open(&"a".to_string()), Err(FpError::DeviceNotFound));
    assert_eq!(ctx.start_session(&"a".to_string(), OperationKind::Identify), Err(FpError::DeviceNotFound));
}

#[test]
fn open_errors() {
    let mut ctx = FpContext::new();
    ctx.enumerate(vec![info("a", full_caps())]);
    let a = "a".to_string();
    assert_eq!(ctx.begin_open(&"zz".to_string()), Err(FpError::DeviceNotFound));
    assert_eq!(ctx.finish_open(&a, true), Err(FpError::NotOpen));
    assert_eq!(ctx.begin_open(&a), Ok(()));
    assert_eq!(ctx.device(&a).unwrap().state(), OpenState::Opening);
    assert_eq!(ctx.begin_open(&a), Err(FpError::AlreadyOpen));
    assert_eq!(ctx.finish_open(&a, false), Err(FpError::HardwareUnavailable));
    assert_eq!(ctx.device(&a).unwrap().state(), OpenState::Closed);
    open_device(&mut ctx, "a");
    assert_eq!(ctx.begin_open(&a), Err(FpError::AlreadyOpen));
}

#[test]
fn close_twice_is_ok() {
    let mut ctx = context_with("a", full_caps());
    let a = "a".to_string();
    assert_eq!(ctx.close(&a), Ok(()));
    assert_eq!(ctx.device(&a).unwrap().state(), OpenState::Closing);
    assert_eq!(ctx.close(&a), Ok(()));
    assert!(ctx.finish_close(&a));
    assert_eq!(ctx.device(&a).unwrap().state(), OpenState::Closed);
    assert_eq!(ctx.close(&a), Ok(()));
    assert!(!ctx.finish_close(&a));
    assert_eq!(ctx.close(&"zz".to_string()), Err(FpError::DeviceNotFound));
}

#[test]
fn close_ends_live_session() {
    let mut ctx = context_with("a", full_caps());
    let a = "a".to_string();
    let sid = ctx.start_session(&a, OperationKind::Enroll).unwrap();
    assert_eq!(ctx.close(&a), Ok(()));
    let s = ctx.session(sid).unwrap();
    assert_eq!(s.state, SessionState::Failed);
    assert_eq!(s.error, Some(FpError::Cancelled));
    assert_eq!(ctx.device(&a).unwrap().active_session(), None);
    assert!(!ctx.deliver(sid, HardwareEvent::Stage(1)));
}

#[test]
fn second_start_is_busy() {
    let mut ctx = context_with("a", full_caps());
    let a = "a".to_string();
    let first = ctx.start_session(&a, OperationKind::Identify);
    let second = ctx.start_session(&a, OperationKind::Identify);
    let third = ctx.start_session(&a, OperationKind::Enroll);
    assert_eq!(first, Ok(0));
    assert_eq!(second, Err(FpError::DeviceBusy));
    assert_eq!(third, Err(FpError::DeviceBusy));
    assert_eq!(ctx.session_count(), 1);
}

#[test]
fn device_free_again_after_session_ends() {
    let mut ctx = context_with("a", full_caps());
    let a = "a".to_string();
    let sid = ctx.start_session(&a, OperationKind::Verify).unwrap();
    assert_eq!(ctx.device(&a).unwrap().active_session(), Some(sid));
    assert!(ctx.deliver(sid, HardwareEvent::Success(ScanResult::Match(MatchResult::NoMatch))));
    assert_eq!(ctx.device(&a).unwrap().active_session(), None);
    assert_eq!(ctx.start_session(&a, OperationKind::Verify), Ok(1));
}

#[test]
fn start_on_closed_device_is_not_open() {
    let mut ctx = FpContext::new();
    ctx.enumerate(vec![info("a", full_caps())]);
    assert_eq!(ctx.start_session(&"a".to_string(), OperationKind::Enroll), Err(FpError::NotOpen));
}

#[test]
fn enroll_with_two_retries_completes_with_blob() {
    let mut ctx = context_with("a", full_caps());
    let sid = ctx.start_session(&"a".to_string(), OperationKind::Enroll).unwrap();
    assert!(ctx.deliver(sid, HardwareEvent::Retry("finger not centered".to_string())));
    assert!(ctx.deliver(sid, HardwareEvent::Retry("finger not centered".to_string())));
    assert!(ctx.deliver(sid, HardwareEvent::Success(ScanResult::Template(vec![1, 2, 3, 250]))));
    let events = drain(&mut ctx, sid);
    assert_eq!(events.len(), 3);
    let retries = events
        .iter()
        .filter(|e| matches!(e, ProgressEvent::RetryRequested(m) if m == "finger not centered"))
        .count();
    assert_eq!(retries, 2);
    assert!(matches!(events[0], ProgressEvent::RetryRequested(_)));
    assert!(matches!(events[1], ProgressEvent::RetryRequested(_)));
    assert!(matches!(events[2], ProgressEvent::Completed));
    let s = ctx.session(sid).unwrap();
    assert_eq!(s.state, SessionState::Completed);
    match &s.result {
        Some(ScanResult::Template(blob)) => assert_eq!(blob, &vec![1u8, 2, 3, 250]),
        other => panic!("unexpected result {:?}", other),
    }
}

#[test]
fn identify_cancelled_then_time_runs_out() {
    let mut ctx = context_with("a", full_caps());
    let sid = ctx.start_session(&"a".to_string(), OperationKind::Identify).unwrap();
    assert!(ctx.cancel(sid));
    assert_eq!(ctx.session(sid).unwrap().state, SessionState::Cancelling);
    assert!(ctx.expire(sid));
    let s = ctx.session(sid).unwrap();
    assert_eq!(s.state, SessionState::Failed);
    assert_eq!(s.error, Some(FpError::Cancelled));
    let events = drain(&mut ctx, sid);
    assert_eq!(events.len(), 1);
    assert!(matches!(events[0], ProgressEvent::Failed(FpError::Cancelled)));
    assert!(!ctx.expire(sid));
}

#[test]
fn running_session_times_out() {
    let mut ctx = context_with("a", full_caps());
    let sid = ctx.start_session(&"a".to_string(), OperationKind::Capture).unwrap();
    assert!(ctx.expire(sid));
    assert_eq!(ctx.session(sid).unwrap().error, Some(FpError::Timeout));
}

#[test]
fn capture_without_image_capability_is_unsupported() {
    let caps = Capabilities { image: false, ..full_caps() };
    let mut ctx = context_with("a", caps);
    assert_eq!(ctx.start_session(&"a".to_string(), OperationKind::Capture), Err(FpError::UnsupportedOperation));
    assert_eq!(ctx.session_count(), 0);
    assert_eq!(ctx.device(&"a".to_string()).unwrap().active_session(), None);
}

#[test]
fn enroll_without_capability_is_unsupported() {
    let caps = Capabilities { enroll: false, ..full_caps() };
    let mut ctx = context_with("a", caps);
    assert_eq!(ctx.start_session(&"a".to_string(), OperationKind::Enroll), Err(FpError::UnsupportedOperation));
}

#[test]
fn cancel_after_completion_keeps_result() {
    let mut ctx = context_with("a", full_caps());
    let sid = ctx.start_session(&"a".to_string(), OperationKind::Identify).unwrap();
    let print = ScanResult::Match(MatchResult::Matched("print-7".to_string()));
    assert!(ctx.deliver(sid, HardwareEvent::Success(print)));
    assert!(!ctx.cancel(sid));
    let s = ctx.session(sid).unwrap();
    assert_eq!(s.state, SessionState::Completed);
    match &s.result {
        Some(ScanResult::Match(MatchResult::Matched(p))) => assert_eq!(p, "print-7"),
        other => panic!("unexpected result {:?}", other),
    }
    assert!(!ctx.cancel(99));
}

#[test]
fn success_racing_cancel_gives_one_terminal_event() {
    // cancel first, then the hardware's late success
    let mut ctx = context_with("a", full_caps());
    let sid = ctx.start_session(&"a".to_string(), OperationKind::Verify).unwrap();
    assert!(ctx.cancel(sid));
    assert!(ctx.deliver(sid, HardwareEvent::Success(ScanResult::Match(MatchResult::NoMatch))));
    assert!(!ctx.deliver(sid, HardwareEvent::Error(FpError::Cancelled)));
    assert!(!ctx.expire(sid));
    let events = drain(&mut ctx, sid);
    assert_eq!(events.len(), 1);
    assert!(matches!(events[0], ProgressEvent::Completed));
    assert_eq!(ctx.session(sid).unwrap().state, SessionState::Completed);

    // success first, then the cancel request
    let sid = ctx.start_session(&"a".to_string(), OperationKind::Verify).unwrap();
    assert!(ctx.deliver(sid, HardwareEvent::Success(ScanResult::Match(MatchResult::NoMatch))));
    assert!(!ctx.cancel(sid));
    assert!(!ctx.deliver(sid, HardwareEvent::Error(FpError::Cancelled)));
    let events = drain(&mut ctx, sid);
    assert_eq!(events.len(), 1);
    assert!(matches!(events[0], ProgressEvent::Completed));
}

#[test]
fn wrong_result_kind_is_protocol_error() {
    let mut ctx = context_with("a", full_caps());
    let sid = ctx.start_session(&"a".to_string(), OperationKind::Capture).unwrap();
    assert!(ctx.deliver(sid, HardwareEvent::Stage(1)));
    assert!(ctx.deliver(sid, HardwareEvent::Success(ScanResult::Template(vec![9]))));
    let s = ctx.session(sid).unwrap();
    assert_eq!(s.error, Some(FpError::ProtocolError));
    let events = drain(&mut ctx, sid);
    assert!(matches!(events[0], ProgressEvent::StageComplete(1)));
    assert!(matches!(events[1], ProgressEvent::Failed(FpError::ProtocolError)));
}

#[test]
fn capture_completes_with_image() {
    let mut ctx = context_with("a", full_caps());
    let sid = ctx.start_session(&"a".to_string(), OperationKind::Capture).unwrap();
    let img = FpImage::from_parts(2, 2, None, vec![0, 64, 128, 255], vec![0, 0, 1, 1]).unwrap();
    assert!(ctx.deliver(sid, HardwareEvent::Success(ScanResult::Image(img))));
    match &ctx.session(sid).unwrap().result {
        Some(ScanResult::Image(i)) => {
            assert_eq!(i.width(), 2);
            assert_eq!(i.data(), vec![0, 64, 128, 255]);
        }
        other => panic!("unexpected result {:?}", other),
    }
}

#[test]
fn hardware_error_fails_session() {
    let mut ctx = context_with("a", full_caps());
    let sid = ctx.start_session(&"a".to_string(), OperationKind::Enroll).unwrap();
    assert!(ctx.deliver(sid, HardwareEvent::Error(FpError::HardwareUnavailable)));
    assert_eq!(ctx.session(sid).unwrap().error, Some(FpError::HardwareUnavailable));
    assert!(ctx.recv(7).is_none());
    assert!(ctx.session(7).is_none());
}
