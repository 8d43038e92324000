use libfprint_rs::{FpError, FpImage, OperationKind, ScanSession, SessionState};

#[test]
fn new_image_is_blank() {
    let img = FpImage::new(3, 2);
    assert_eq!(img.width(), 3);
    assert_eq!(img.height(), 2);
    assert_eq!(img.ppi(), 500);
    assert_eq!(img.data(), vec![0u8; 6]);
    assert_eq!(img.binarized(), vec![0u8; 6]);
}

#[test]
fn empty_image() {
    let img = FpImage::new(0, 7);
    assert!(img.data().is_empty());
}

#[test]
fn image_from_parts() {
    let img = FpImage::from_parts(2, 1, Some(1000), vec![10, 20], vec![0, 1]).unwrap();
    assert_eq!(img.ppi(), 1000);
    assert_eq!(img.data(), vec![10, 20]);
    assert_eq!(img.binarized(), vec![0, 1]);
}

#[test]
fn image_with_wrong_buffer_is_protocol_error() {
    let r = FpImage::from_parts(2, 2, None, vec![1, 2, 3], vec![0, 0, 0, 0]);
    assert_eq!(r.unwrap_err(), FpError::ProtocolError);
    let r = FpImage::from_parts(2, 2, None, vec![1, 2, 3, 4], vec![0]);
    assert_eq!(r.unwrap_err(), FpError::ProtocolError);
}

#[test]
fn session_starts_once() {
    let mut s = ScanSession::new(0, "a".to_string(), OperationKind::Enroll);
    assert_eq!(s.state, SessionState::Idle);
    assert!(!s.cancel());
    assert_eq!(s.start(), Ok(()));
    assert_eq!(s.start(), Err(FpError::AlreadyStarted));
    assert!(s.cancel());
    assert!(!s.cancel());
    assert_eq!(s.state, SessionState::Cancelling);
    assert!(s.abort());
    assert_eq!(s.error, Some(FpError::Cancelled));
    assert!(s.channel.is_terminated());
    assert_eq!(s.channel.pending(), 1);
}
