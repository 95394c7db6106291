use longboy::addr::SocketAddr;
use longboy::receiver::{poll_step, ClientToServerReceiver, PollStage};
use longboy::table::{
    BatchFault, DatagramOutcome, EventFault, MappingOutcome, ServerSessionEvent, SessionFault,
};

type TestReceiver = ClientToServerReceiver<40, 3>;

const DATAGRAM: [u8; 40] = [0; 40];

fn receiver_with_events() -> (flume::Sender<ServerSessionEvent>, TestReceiver) {
    let (sender, events) = flume::unbounded();
    (sender, TestReceiver::new("Input".to_string(), 8, events))
}

fn connected(ids: &[u64]) -> TestReceiver {
    let (_, mut receiver) = receiver_with_events();
    for id in ids {
        assert_eq!(receiver.apply_session_event(connect(*id)), Ok(()));
    }
    receiver
}

fn connect(session_id: u64) -> ServerSessionEvent {
    ServerSessionEvent::Connected { session_id, cipher_key: 0xdead_beef }
}

fn disconnect(session_id: u64) -> ServerSessionEvent {
    ServerSessionEvent::Disconnected { session_id }
}

fn address(port: u16) -> SocketAddr {
    SocketAddr::V4 { octets: 0x7f00_0001, port }
}

fn mapping(session_id: u64, mirroring: u8) -> [u8; 9] {
    let mut datagram = [0; 9];
    datagram[0..8].copy_from_slice(&session_id.to_le_bytes());
    datagram[8] = mirroring;
    datagram
}

fn deliver(session_id: u64) -> DatagramOutcome {
    DatagramOutcome::Deliver { session_id, timestamp: 17 }
}

fn route(receiver: &mut TestReceiver, port: u16) -> DatagramOutcome {
    receiver.poll_for_client_datagrams(17, &DATAGRAM, address(port))
}

#[test]
fn receiver_keeps_its_name() {
    let (_, receiver) = receiver_with_events();
    assert_eq!(receiver.name(), "Input");
}

#[test]
fn events_are_polled_in_order() {
    let (sender, mut receiver) = receiver_with_events();
    assert_eq!(receiver.poll_server_session_events(0), Ok(vec![]));
    sender.send(connect(5)).unwrap();
    sender.send(connect(6)).unwrap();
    sender.send(disconnect(5)).unwrap();
    assert_eq!(
        receiver.poll_server_session_events(1),
        Ok(vec![connect(5), connect(6), disconnect(5)])
    );
    assert_eq!(receiver.poll_server_session_events(2), Ok(vec![]));
    assert_eq!(
        receiver.poll_for_client_socket_addresses(&mapping(5, 0), address(1)),
        MappingOutcome::UnknownSession { session_id: 5 }
    );
    assert_eq!(
        receiver.poll_for_client_socket_addresses(&mapping(6, 0), address(1)),
        MappingOutcome::Mapped { session_id: 6, mirroring: 0, replaced: None }
    );
}

#[test]
fn duplicate_session_is_a_fault() {
    let (sender, mut receiver) = receiver_with_events();
    let events = vec![connect(5), connect(6), connect(5), disconnect(6)];
    for event in &events {
        sender.send(*event).unwrap();
    }
    let fault = SessionFault::DuplicateSessionId { session_id: 5 };
    assert_eq!(
        receiver.poll_server_session_events(0),
        Err(BatchFault { events, index: 2, fault })
    );
    assert_eq!(fault.message(), "Duplicate Session ID");
}

#[test]
fn unknown_session_is_a_fault() {
    let (sender, mut receiver) = receiver_with_events();
    sender.send(disconnect(9)).unwrap();
    let fault = SessionFault::UnknownSessionId { session_id: 9 };
    assert_eq!(
        receiver.poll_server_session_events(0),
        Err(BatchFault { events: vec![disconnect(9)], index: 0, fault })
    );
    assert_eq!(fault.message(), "Unknown Session ID");
}

#[test]
fn events_before_a_fault_are_applied() {
    let (_, mut receiver) = receiver_with_events();
    let events = vec![connect(1), disconnect(2), connect(3)];
    assert_eq!(
        receiver.apply_session_events(&events),
        Err(EventFault { index: 1, fault: SessionFault::UnknownSessionId { session_id: 2 } })
    );
    assert_eq!(
        receiver.poll_for_client_socket_addresses(&mapping(1, 0), address(1)),
        MappingOutcome::Mapped { session_id: 1, mirroring: 0, replaced: None }
    );
    assert_eq!(
        receiver.poll_for_client_socket_addresses(&mapping(3, 0), address(1)),
        MappingOutcome::UnknownSession { session_id: 3 }
    );
}

#[test]
fn full_arena_fault_has_a_message() {
    assert_eq!(
        SessionFault::TooManySessions { session_id: 1 }.message(),
        "Cannot insert more than u32::MAX elements into Arena"
    );
}

#[test]
fn session_may_come_back() {
    let mut receiver = connected(&[4]);
    assert_eq!(receiver.apply_session_event(disconnect(4)), Ok(()));
    assert_eq!(receiver.apply_session_event(connect(4)), Ok(()));
    assert_eq!(receiver.apply_session_event(disconnect(4)), Ok(()));
}

#[test]
fn short_mapping_is_refused() {
    let mut receiver = connected(&[4]);
    for len in 0..9 {
        assert_eq!(
            receiver.poll_for_client_socket_addresses(&mapping(4, 0)[..len], address(1)),
            MappingOutcome::InvalidLength
        );
    }
    assert_eq!(route(&mut receiver, 1), DatagramOutcome::UnknownAddress);
}

#[test]
fn long_mapping_is_accepted() {
    let mut receiver = connected(&[4]);
    let mut datagram = [0xff; 64];
    datagram[0..9].copy_from_slice(&mapping(4, 2));
    assert_eq!(
        receiver.poll_for_client_socket_addresses(&datagram, address(1)),
        MappingOutcome::Mapped { session_id: 4, mirroring: 2, replaced: None }
    );
}

#[test]
fn mirroring_out_of_range_is_ignored() {
    let mut receiver = connected(&[4]);
    for mirroring in [3, 4, 255] {
        assert_eq!(
            receiver.poll_for_client_socket_addresses(&mapping(4, mirroring), address(1)),
            MappingOutcome::InvalidMirroring { session_id: 4 }
        );
    }
    assert_eq!(route(&mut receiver, 1), DatagramOutcome::UnknownAddress);
}

#[test]
fn mapped_address_is_delivered() {
    let mut receiver = connected(&[0x0102_0304_0506_0708, 2]);
    receiver.poll_for_client_socket_addresses(&mapping(0x0102_0304_0506_0708, 0), address(1));
    receiver.poll_for_client_socket_addresses(&mapping(2, 1), address(2));
    assert_eq!(route(&mut receiver, 1), deliver(0x0102_0304_0506_0708));
    assert_eq!(route(&mut receiver, 2), deliver(2));
    assert_eq!(route(&mut receiver, 3), DatagramOutcome::UnknownAddress);
}

#[test]
fn datagram_of_wrong_length_is_dropped() {
    let mut receiver = connected(&[4]);
    receiver.poll_for_client_socket_addresses(&mapping(4, 0), address(1));
    for len in [0, 39, 41] {
        let datagram = vec![0; len];
        assert_eq!(
            receiver.poll_for_client_datagrams(17, &datagram, address(1)),
            DatagramOutcome::InvalidLength
        );
    }
}

#[test]
fn replaced_address_is_dropped() {
    let mut receiver = connected(&[4]);
    receiver.poll_for_client_socket_addresses(&mapping(4, 0), address(1));
    assert_eq!(
        receiver.poll_for_client_socket_addresses(&mapping(4, 0), address(2)),
        MappingOutcome::Mapped { session_id: 4, mirroring: 0, replaced: Some(address(1)) }
    );
    assert_eq!(route(&mut receiver, 1), DatagramOutcome::UnknownAddress);
    assert_eq!(route(&mut receiver, 2), deliver(4));
}

#[test]
fn mapping_again_changes_nothing() {
    let mut receiver = connected(&[4]);
    receiver.poll_for_client_socket_addresses(&mapping(4, 0), address(1));
    assert_eq!(
        receiver.poll_for_client_socket_addresses(&mapping(4, 0), address(1)),
        MappingOutcome::Mapped { session_id: 4, mirroring: 0, replaced: Some(address(1)) }
    );
    assert_eq!(route(&mut receiver, 1), deliver(4));
}

#[test]
fn mirrorings_have_addresses_of_their_own() {
    let mut receiver = connected(&[4]);
    for mirroring in 0..3 {
        receiver
            .poll_for_client_socket_addresses(&mapping(4, mirroring), address(mirroring as u16));
    }
    for port in 0..3 {
        assert_eq!(route(&mut receiver, port), deliver(4));
    }
}

#[test]
fn disconnected_session_is_unreachable() {
    let mut receiver = connected(&[4, 5]);
    receiver.poll_for_client_socket_addresses(&mapping(4, 0), address(1));
    receiver.poll_for_client_socket_addresses(&mapping(4, 2), address(2));
    receiver.poll_for_client_socket_addresses(&mapping(5, 0), address(3));
    assert_eq!(receiver.apply_session_event(disconnect(4)), Ok(()));
    assert_eq!(route(&mut receiver, 1), DatagramOutcome::UnknownAddress);
    assert_eq!(route(&mut receiver, 2), DatagramOutcome::UnknownAddress);
    assert_eq!(route(&mut receiver, 3), deliver(5));
}

#[test]
fn session_in_a_reused_slot_starts_without_addresses() {
    let mut receiver = connected(&[4]);
    receiver.poll_for_client_socket_addresses(&mapping(4, 0), address(1));
    assert_eq!(receiver.apply_session_event(disconnect(4)), Ok(()));
    assert_eq!(receiver.apply_session_event(connect(5)), Ok(()));
    assert_eq!(route(&mut receiver, 1), DatagramOutcome::UnknownAddress);
    assert_eq!(
        receiver.poll_for_client_socket_addresses(&mapping(5, 0), address(2)),
        MappingOutcome::Mapped { session_id: 5, mirroring: 0, replaced: None }
    );
}

#[test]
fn last_session_to_claim_an_address_gets_it() {
    let mut receiver = connected(&[4, 5]);
    receiver.poll_for_client_socket_addresses(&mapping(4, 0), address(1));
    receiver.poll_for_client_socket_addresses(&mapping(5, 0), address(1));
    assert_eq!(route(&mut receiver, 1), deliver(5));
}

#[test]
fn shared_address_is_lost_with_either_session() {
    let mut receiver = connected(&[4, 5]);
    receiver.poll_for_client_socket_addresses(&mapping(4, 0), address(1));
    receiver.poll_for_client_socket_addresses(&mapping(5, 0), address(1));
    assert_eq!(receiver.apply_session_event(disconnect(4)), Ok(()));
    assert_eq!(route(&mut receiver, 1), DatagramOutcome::UnknownAddress);
}

#[test]
fn addresses_differ_in_every_part() {
    let mut receiver = connected(&[4]);
    let v6 = SocketAddr::V6 { segments: 1, port: 7, flow_info: 2, scope_id: 3 };
    receiver.poll_for_client_socket_addresses(&mapping(4, 0), v6);
    assert_eq!(receiver.poll_for_client_datagrams(17, &DATAGRAM, v6), deliver(4));
    for other in [
        SocketAddr::V6 { segments: 2, port: 7, flow_info: 2, scope_id: 3 },
        SocketAddr::V6 { segments: 1, port: 8, flow_info: 2, scope_id: 3 },
        SocketAddr::V6 { segments: 1, port: 7, flow_info: 0, scope_id: 3 },
        SocketAddr::V6 { segments: 1, port: 7, flow_info: 2, scope_id: 0 },
        SocketAddr::V4 { octets: 1, port: 7 },
    ] {
        assert_ne!(other.key(), v6.key());
        assert_eq!(
            receiver.poll_for_client_datagrams(17, &DATAGRAM, other),
            DatagramOutcome::UnknownAddress
        );
    }
}

#[test]
fn many_sessions_are_told_apart() {
    let ids: Vec<u64> = (100..400).collect();
    let mut receiver = connected(&ids);
    for id in &ids {
        receiver.poll_for_client_socket_addresses(&mapping(*id, 1), address(*id as u16));
    }
    for id in &ids {
        if id % 3 == 0 {
            assert_eq!(receiver.apply_session_event(disconnect(*id)), Ok(()));
        }
    }
    for id in &ids {
        let expected = if id % 3 == 0 { DatagramOutcome::UnknownAddress } else { deliver(*id) };
        assert_eq!(route(&mut receiver, *id as u16), expected);
    }
}

#[test]
fn events_may_be_applied_in_two_goes() {
    let events = vec![connect(1), connect(2), disconnect(1), connect(3)];
    for split in 0..events.len() {
        let (_, mut receiver) = receiver_with_events();
        assert_eq!(receiver.apply_session_events(&events[..split].to_vec()), Ok(()));
        assert_eq!(receiver.apply_session_events(&events[split..].to_vec()), Ok(()));
        for (id, known) in [(1, false), (2, true), (3, true)] {
            let outcome = receiver.poll_for_client_socket_addresses(&mapping(id, 0), address(1));
            assert_eq!(matches!(outcome, MappingOutcome::Mapped { .. }), known);
        }
    }
}

#[test]
fn address_in_two_slots_is_lost_when_either_changes() {
    let mut receiver = connected(&[4]);
    receiver.poll_for_client_socket_addresses(&mapping(4, 0), address(1));
    receiver.poll_for_client_socket_addresses(&mapping(4, 1), address(1));
    receiver.poll_for_client_socket_addresses(&mapping(4, 0), address(2));
    assert_eq!(route(&mut receiver, 1), DatagramOutcome::UnknownAddress);
    assert_eq!(route(&mut receiver, 2), deliver(4));
}

#[test]
fn mapping_touches_no_other_session() {
    let mut receiver = connected(&[4, 5]);
    receiver.poll_for_client_socket_addresses(&mapping(5, 0), address(9));
    receiver.poll_for_client_socket_addresses(&mapping(4, 0), address(1));
    receiver.poll_for_client_socket_addresses(&mapping(4, 0), address(2));
    assert_eq!(route(&mut receiver, 9), deliver(5));
    assert_eq!(
        receiver.poll_for_client_socket_addresses(&mapping(5, 0), address(9)),
        MappingOutcome::Mapped { session_id: 5, mirroring: 0, replaced: Some(address(9)) }
    );
}

#[test]
fn poll_attends_to_events_then_mappings_then_datagrams() {
    assert_eq!(poll_step(PollStage::Events, false), PollStage::Mappings);
    assert_eq!(poll_step(PollStage::Events, true), PollStage::Mappings);
    assert_eq!(poll_step(PollStage::Mappings, false), PollStage::Mappings);
    assert_eq!(poll_step(PollStage::Mappings, true), PollStage::Datagrams);
    assert_eq!(poll_step(PollStage::Datagrams, false), PollStage::Datagrams);
    assert_eq!(poll_step(PollStage::Datagrams, true), PollStage::Done);
    assert_eq!(poll_step(PollStage::Done, false), PollStage::Done);
}

#[test]
fn each_session_is_stored_once() {
    let mut receiver = connected(&[7, 8, 9]);
    receiver.poll_for_client_socket_addresses(&mapping(8, 0), address(1));
    receiver.poll_for_client_socket_addresses(&mapping(8, 2), address(2));
    assert_eq!(receiver.apply_session_event(disconnect(9)), Ok(()));
    let indices = receiver.session_id_to_session_map();
    assert_eq!(indices.len(), 2);
    assert_ne!(indices[&7], indices[&8]);
    assert!(!indices.contains_key(&9));
    let routes = receiver.socket_addr_to_session_map();
    assert_eq!(routes.len(), 2);
    assert_eq!(routes[&address(1).key()], indices[&8]);
    assert_eq!(routes[&address(2).key()], indices[&8]);
}

#[test]
fn other_sessions_stay_where_they_are_stored() {
    let mut receiver = connected(&[7, 8, 9]);
    receiver.poll_for_client_socket_addresses(&mapping(8, 0), address(1));
    let before = receiver.session_id_to_session_map().clone();
    receiver.poll_for_client_socket_addresses(&mapping(8, 0), address(2));
    route(&mut receiver, 2);
    assert_eq!(*receiver.session_id_to_session_map(), before);
    let events = vec![disconnect(7), connect(10), disconnect(9), connect(7)];
    assert_eq!(receiver.apply_session_events(&events), Ok(()));
    let after = receiver.session_id_to_session_map();
    assert_eq!(after.len(), 3);
    assert_eq!(after[&8], before[&8]);
    assert_ne!(after[&7], before[&7]);
    assert_eq!(receiver.socket_addr_to_session_map().len(), 1);
    assert_eq!(receiver.socket_addr_to_session_map()[&address(2).key()], before[&8]);
}
