use shar::tcp::{frame, Clients, FrameError, Receiver, MAX_FRAME_SIZE};

#[test]
fn framing_round_trip_keeps_order_and_bytes() {
    let units: Vec<Vec<u8>> = vec![
        vec![],
        vec![1],
        (0..1000).map(|i| (i % 251) as u8).collect(),
        vec![0xaa; MAX_FRAME_SIZE],
        vec![7, 7, 7],
    ];
    let mut stream = Vec::new();
    for unit in &units {
        stream.extend_from_slice(&frame(unit));
    }
    assert_eq!(&stream[..4], &[0, 0, 0, 0]);
    let mut receiver = Receiver::new();
    let mut out = Vec::new();
    // feed in uneven chunks
    for chunk in stream.chunks(4093) {
        receiver.feed(chunk);
        while let Ok(Some(unit)) = receiver.next_frame() {
            out.push(unit);
        }
    }
    assert_eq!(out.len(), units.len());
    assert!(out == units);
    assert_eq!(receiver.next_frame(), Ok(None));
}

#[test]
fn oversized_frame_is_refused() {
    let mut receiver = Receiver::new();
    let size = (MAX_FRAME_SIZE as u32) + 1;
    receiver.feed(&size.to_le_bytes());
    assert_eq!(receiver.next_frame(), Err(FrameError::TooLarge(size)));
    // the error stays, nothing is consumed
    assert_eq!(receiver.next_frame(), Err(FrameError::TooLarge(size)));
}

#[test]
fn incomplete_frame_waits_for_more_bytes() {
    let mut receiver = Receiver::new();
    receiver.feed(&[3, 0]);
    assert_eq!(receiver.next_frame(), Ok(None));
    receiver.feed(&[0, 0, 9, 8]);
    assert_eq!(receiver.next_frame(), Ok(None));
    receiver.feed(&[7]);
    assert_eq!(receiver.next_frame(), Ok(Some(vec![9, 8, 7])));
}

#[test]
fn clients_get_units_only_after_a_keyframe() {
    let mut clients = Clients::new();
    assert_eq!(clients.accept(), Some(1));
    assert_eq!(clients.recipients(false), Vec::<usize>::new());
    assert_eq!(clients.recipients(true), vec![1]);
    assert_eq!(clients.accept(), Some(2));
    assert_eq!(clients.recipients(false), vec![1]);
    let mut all = clients.recipients(true);
    all.sort();
    assert_eq!(all, vec![1, 2]);
    assert_eq!(clients.accept(), Some(3));
    clients.remove(&[1]);
    assert_eq!(clients.len(), 2);
    assert_eq!(clients.recipients(false), vec![2]);
    assert_eq!(clients.accept(), Some(4));
}
