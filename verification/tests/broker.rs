use longboy::broker::{
    read_input, write_message, BrokerError, ClientBroker, ServerBroker, SessionBroker,
};

fn input_buffer(a: u64, b: u64, c: u64) -> [u8; 28] {
    let mut buffer = [0xee; 28];
    buffer[0..8].copy_from_slice(&a.to_le_bytes());
    buffer[8..16].copy_from_slice(&b.to_le_bytes());
    buffer[16..24].copy_from_slice(&c.to_le_bytes());
    buffer
}

#[test]
fn player_indices_come_in_order() {
    let mut broker = SessionBroker::<3>::new();
    assert_eq!(broker.next_player_index(), Ok(0));
    assert_eq!(broker.next_player_index(), Ok(1));
    assert_eq!(broker.next_player_index(), Ok(2));
}

#[test]
fn player_indices_run_out() {
    let mut broker = SessionBroker::<32>::new();
    for index in 0..32 {
        assert_eq!(broker.next_player_index(), Ok(index));
    }
    assert_eq!(broker.next_player_index(), Err(BrokerError::MaximumPlayersReached));
    assert_eq!(broker.next_player_index(), Err(BrokerError::MaximumPlayersReached));
    assert_eq!(
        BrokerError::MaximumPlayersReached.message(),
        "Maximum number of players reached"
    );
}

#[test]
fn broker_without_places_admits_nobody() {
    let mut broker = SessionBroker::<0>::new();
    assert_eq!(broker.next_player_index(), Err(BrokerError::MaximumPlayersReached));
}

#[test]
fn session_ids_go_up_from_one() {
    let mut broker = SessionBroker::<4>::new();
    assert_eq!(broker.player_index_of(1), None);
    assert_eq!(broker.next_session_id(), 1);
    assert_eq!(broker.allocate_session_id(2), 1);
    assert_eq!(broker.next_session_id(), 2);
    assert_eq!(broker.allocate_session_id(0), 2);
    assert_eq!(broker.allocate_session_id(2), 3);
    assert_eq!(broker.player_index_of(0), None);
    assert_eq!(broker.player_index_of(1), Some(2));
    assert_eq!(broker.player_index_of(2), Some(0));
    assert_eq!(broker.player_index_of(3), Some(2));
    assert_eq!(broker.player_index_of(4), None);
}

#[test]
fn message_travels_from_sink_to_source() {
    let mut broker = SessionBroker::<4>::new();
    let first = broker.allocate_session_id(1);
    let second = broker.allocate_session_id(3);
    let mut sink = ClientBroker::new(&broker).invoke(first);
    let mut source = ServerBroker::new(&broker).invoke(second);

    let mut buffer = [0xaa; 28];
    assert!(!source.poll(&mut buffer));
    assert_eq!(buffer, [0xaa; 28]);

    assert_eq!(sink.handle(&input_buffer(7, u64::MAX, 0x0102_0304_0506_0708)), Ok(()));
    assert!(source.poll(&mut buffer));
    assert_eq!(buffer[0..8], 7u64.to_le_bytes());
    assert_eq!(buffer[8..16], [0xff; 8]);
    assert_eq!(buffer[16..24], [8, 7, 6, 5, 4, 3, 2, 1]);
    assert_eq!(buffer[24], 1);
    assert_eq!(buffer[25..28], [0xaa; 3]);

    assert!(!source.poll(&mut buffer));
}

#[test]
fn messages_keep_their_order() {
    let mut broker = SessionBroker::<2>::new();
    let session = broker.allocate_session_id(0);
    let mut sink = ClientBroker::new(&broker).invoke(session);
    let mut source = ServerBroker::new(&broker).invoke(session);
    for number in 0..5 {
        assert_eq!(sink.handle(&input_buffer(number, 10 + number, 20 + number)), Ok(()));
    }
    for number in 0..5 {
        let mut buffer = [0; 28];
        assert!(source.poll(&mut buffer));
        assert_eq!(read_input(&buffer), (number, 10 + number, 20 + number));
    }
    assert!(!source.poll(&mut [0; 28]));
}

#[test]
fn sources_share_one_queue() {
    let mut broker = SessionBroker::<2>::new();
    let first = broker.allocate_session_id(0);
    let second = broker.allocate_session_id(1);
    let mut sink = ClientBroker::new(&broker).invoke(first);
    let mut one = ServerBroker::new(&broker).invoke(first);
    let mut other = ServerBroker::new(&broker).invoke(second);
    assert_eq!(sink.handle(&input_buffer(5, 6, 7)), Ok(()));
    let mut buffer = [0; 28];
    assert!(other.poll(&mut buffer));
    assert_eq!(read_input(&buffer), (5, 6, 7));
    assert!(!one.poll(&mut buffer));
}

#[test]
fn sinks_mark_messages_with_their_player() {
    let mut broker = SessionBroker::<4>::new();
    let first = broker.allocate_session_id(0);
    let second = broker.allocate_session_id(2);
    let mut source = ServerBroker::new(&broker).invoke(first);
    for (session, mark) in [(first, 0), (second, 2)] {
        let mut sink = ClientBroker::new(&broker).invoke(session);
        assert_eq!(sink.handle(&input_buffer(1, 2, 3)), Ok(()));
        let mut buffer = [0xff; 28];
        assert!(source.poll(&mut buffer));
        assert_eq!(buffer[24], mark);
    }
}

#[test]
fn mark_is_the_lowest_byte_of_the_index() {
    let mut broker = SessionBroker::<300>::new();
    let session = broker.allocate_session_id(259);
    let mut sink = ClientBroker::new(&broker).invoke(session);
    let mut source = ServerBroker::new(&broker).invoke(session);
    assert_eq!(sink.handle(&[0; 28]), Ok(()));
    let mut buffer = [0xff; 28];
    assert!(source.poll(&mut buffer));
    assert_eq!(buffer[24], 3);
}

#[test]
fn message_comes_back_when_nobody_is_left() {
    let mut broker = SessionBroker::<2>::new();
    let session = broker.allocate_session_id(1);
    let mut sink = ClientBroker::new(&broker).invoke(session);
    drop(broker);
    assert_eq!(sink.handle(&input_buffer(1, 2, 3)), Err((1, 2, 3, 1)));
}

#[test]
fn source_ends_quietly_when_nobody_sends() {
    let mut broker = SessionBroker::<2>::new();
    let session = broker.allocate_session_id(1);
    let mut source = ServerBroker::new(&broker).invoke(session);
    drop(broker);
    let mut buffer = [9; 28];
    assert!(!source.poll(&mut buffer));
    assert_eq!(buffer, [9; 28]);
}

#[test]
fn written_message_reads_back() {
    let mut buffer = [0x55; 28];
    assert!(write_message(&mut buffer, Some((1, 2, u64::MAX, 200))));
    assert_eq!(read_input(&buffer), (1, 2, u64::MAX));
    assert_eq!(buffer[24], 200);
    assert_eq!(buffer[25..], [0x55; 3]);
    let before = buffer;
    assert!(!write_message(&mut buffer, None));
    assert_eq!(buffer, before);
}

#[test]
fn buffers_come_out_unaltered_and_in_order() {
    let mut broker = SessionBroker::<4>::new();
    let first = broker.allocate_session_id(1);
    let second = broker.allocate_session_id(3);
    let mut sinks = [
        ClientBroker::new(&broker).invoke(first),
        ClientBroker::new(&broker).invoke(second),
    ];
    let mut sources = [
        ServerBroker::new(&broker).invoke(first),
        ServerBroker::new(&broker).invoke(second),
    ];
    let input = |step: u8| -> [u8; 28] { std::array::from_fn(|i| step.wrapping_mul(37) ^ i as u8) };
    for step in 0..9 {
        assert_eq!(sinks[step as usize % 2].handle(&input(step)), Ok(()));
    }
    for step in 0..9 {
        let mut buffer = [0xaa; 28];
        assert!(sources[step as usize % 3 % 2].poll(&mut buffer));
        assert_eq!(buffer[..24], input(step)[..24]);
        assert_eq!(buffer[24], if step % 2 == 0 { 1 } else { 3 });
        assert_eq!(buffer[25..], [0xaa; 3]);
    }
    for source in &mut sources {
        let mut buffer = [0xaa; 28];
        assert!(!source.poll(&mut buffer));
        assert_eq!(buffer, [0xaa; 28]);
    }
}
