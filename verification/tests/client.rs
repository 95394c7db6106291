use longboy::client::{
    client_step, player_input, random_client_step, read_update, write_input, ClientToServerSource,
    InputFrames, ServerToClientSink,
};

#[test]
fn input_is_framed() {
    let (sender, receiver) = flume::unbounded();
    let mut source = ClientToServerSource::new(receiver);
    sender.send((0x0403_0201, 0x0c0b_0a09_0807_0605)).unwrap();
    let mut buffer = [0xaa; 16];
    assert!(source.poll(&mut buffer));
    assert_eq!(buffer, [1, 2, 3, 4, 5, 6, 7, 8, 9, 10, 11, 12, 0xaa, 0xaa, 0xaa, 0xaa]);
}

#[test]
fn inputs_keep_their_order() {
    let (sender, receiver) = flume::unbounded();
    let mut source = ClientToServerSource::new(receiver);
    for frame in 0..4u32 {
        sender.send((frame, 100 + frame as u64)).unwrap();
    }
    for frame in 0..4u8 {
        let mut buffer = [0; 16];
        assert!(source.poll(&mut buffer));
        assert_eq!(buffer[0], frame);
        assert_eq!(buffer[4], 100 + frame);
    }
}

#[test]
fn source_ends_when_no_input_can_come() {
    let (sender, receiver) = flume::unbounded();
    let mut source = ClientToServerSource::new(receiver);
    sender.send((1, 2)).unwrap();
    drop(sender);
    let mut buffer = [0; 16];
    assert!(source.poll(&mut buffer));
    let before = buffer;
    assert!(!source.poll(&mut buffer));
    assert_eq!(buffer, before);
}

#[test]
fn update_is_handed_on() {
    let (sender, receiver) = flume::unbounded();
    let mut sink = ServerToClientSink::new(sender);
    let mut buffer = [0xee; 32];
    buffer[0..4].copy_from_slice(&77u32.to_le_bytes());
    buffer[4] = 9;
    buffer[5..13].copy_from_slice(&0x1122_3344_5566_7788u64.to_le_bytes());
    assert_eq!(read_update(&buffer), (77, 9, 0x1122_3344_5566_7788));
    assert_eq!(sink.handle(&buffer), Ok(()));
    assert_eq!(receiver.try_recv().unwrap(), (77, 9, 0x1122_3344_5566_7788));
    assert!(receiver.try_recv().is_err());
}

#[test]
fn update_comes_back_when_nobody_listens() {
    let (sender, receiver) = flume::unbounded();
    let mut sink = ServerToClientSink::new(sender);
    drop(receiver);
    assert_eq!(sink.handle(&[1; 32]), Err((0x0101_0101, 1, 0x0101_0101_0101_0101)));
}

#[test]
fn nothing_is_written_without_input() {
    let mut buffer = [3; 16];
    assert!(!write_input(&mut buffer, None));
    assert_eq!(buffer, [3; 16]);
    assert!(write_input(&mut buffer, Some((u32::MAX, 0))));
    assert_eq!(buffer, [0xff, 0xff, 0xff, 0xff, 0, 0, 0, 0, 0, 0, 0, 0, 3, 3, 3, 3]);
}

#[test]
fn player_input_is_printable() {
    assert_eq!(player_input(0), 32);
    assert_eq!(player_input(93), 125);
    assert_eq!(player_input(94), 32);
    assert_eq!(player_input(255), 99);
}

#[test]
fn random_inputs_stay_in_range_and_vary() {
    let mut frames = InputFrames::new();
    let mut values = Vec::new();
    for round in 0..2000 {
        let (frame, value) = random_client_step(&mut frames, false).unwrap();
        assert_eq!(frame, round);
        assert!((32..126).contains(&value));
        values.push(value);
    }
    assert!(values.iter().any(|value| *value != values[0]));
    assert_eq!(random_client_step(&mut frames, true), None);
    assert_eq!(frames.frame(), 2000);
}

#[test]
fn client_goes_on_until_it_is_cancelled() {
    let mut frames = InputFrames::new();
    assert_eq!(client_step(&mut frames, false, 0), Some((0, 32)));
    assert_eq!(client_step(&mut frames, false, 255), Some((1, 99)));
    assert_eq!(frames.frame(), 2);
    assert_eq!(client_step(&mut frames, true, 255), None);
    assert_eq!(frames.frame(), 2);
    assert_eq!(client_step(&mut frames, false, 93), Some((2, 125)));
}

#[test]
fn frames_count_up_from_zero() {
    let mut frames = InputFrames::new();
    for frame in 0..10 {
        assert_eq!(frames.frame(), frame);
        assert_eq!(frames.input(65), (frame, 65));
        frames.advance();
    }
}
