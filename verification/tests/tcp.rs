use snd::workers::tcp::{
    interrupted, read_data, take_frame, would_block, write_data, IoFailure, SocketStatus,
};

#[test]
fn failures_are_told_apart() {
    assert!(would_block(&IoFailure::WouldBlock));
    assert!(!would_block(&IoFailure::Interrupted));
    assert!(!would_block(&IoFailure::Other));
    assert!(interrupted(&IoFailure::Interrupted));
    assert!(!interrupted(&IoFailure::WouldBlock));
    assert!(!interrupted(&IoFailure::ConnectionReset));
}

#[test]
fn write_outcomes() {
    assert_eq!(write_data(Ok(30), 30), SocketStatus::Success);
    assert_eq!(write_data(Ok(31), 30), SocketStatus::Success);
    assert_eq!(write_data(Ok(29), 30), SocketStatus::Failed);
    assert_eq!(write_data(Ok(0), 30), SocketStatus::Failed);
    assert_eq!(write_data(Err(IoFailure::WouldBlock), 30), SocketStatus::WouldBlock);
    assert_eq!(write_data(Err(IoFailure::Interrupted), 30), SocketStatus::Retry);
    assert_eq!(write_data(Err(IoFailure::ConnectionReset), 30), SocketStatus::Failed);
    assert_eq!(write_data(Err(IoFailure::Other), 30), SocketStatus::Failed);
}

#[test]
fn read_outcomes() {
    assert_eq!(read_data(Ok(12)), SocketStatus::Success);
    assert_eq!(read_data(Ok(0)), SocketStatus::Close);
    assert_eq!(read_data(Err(IoFailure::WouldBlock)), SocketStatus::WouldBlock);
    assert_eq!(read_data(Err(IoFailure::Interrupted)), SocketStatus::Retry);
    assert_eq!(read_data(Err(IoFailure::ConnectionReset)), SocketStatus::Close);
    assert_eq!(read_data(Err(IoFailure::Other)), SocketStatus::Failed);
}

#[test]
fn frames_are_taken_once_complete() {
    let mut buffer: Vec<u8> = vec![];
    assert_eq!(take_frame(&mut buffer), None);
    buffer.push(0);
    assert_eq!(take_frame(&mut buffer), None);
    buffer.push(3);
    assert_eq!(take_frame(&mut buffer), None);
    buffer.extend_from_slice(&[7, 8]);
    assert_eq!(take_frame(&mut buffer), None);
    assert_eq!(buffer, vec![0, 3, 7, 8]);
    buffer.extend_from_slice(&[9, 0, 1, 5, 0]);
    assert_eq!(take_frame(&mut buffer), Some(vec![7, 8, 9]));
    assert_eq!(buffer, vec![0, 1, 5, 0]);
    assert_eq!(take_frame(&mut buffer), Some(vec![5]));
    assert_eq!(buffer, vec![0]);
    assert_eq!(take_frame(&mut buffer), None);
}

#[test]
fn long_and_empty_frames() {
    let mut buffer: Vec<u8> = vec![0, 0, 1, 2];
    assert_eq!(take_frame(&mut buffer), Some(vec![]));
    assert_eq!(buffer, vec![1, 2]);
    let body: Vec<u8> = (0..300u32).map(|i| (i % 251) as u8).collect();
    let mut framed = vec![1u8, 44];
    framed.extend_from_slice(&body);
    assert_eq!(take_frame(&mut framed), Some(body));
    assert!(framed.is_empty());
}
