//! What holds of the library as a whole.

use vstd::prelude::*;

use crate::addr::SocketAddr;
use crate::broker::{
    answered, first_free, following_id, in_order, input_message, input_values, message_bytes,
};
use crate::bytes::{
    le_bytes, le_value, lemma_bytes_of_value, lemma_le_bytes_len, lemma_le_value_bound,
    lemma_pow256_values, lemma_value_of_bytes, splice,
};
use crate::channel::{making, putting, taking, PlayerInput, PlayerMessage, PlayerUpdate};
use crate::client::{input_bytes, update_of};
use crate::table::{DatagramOutcome, ServerSessionEvent, SessionFault, SessionTable, MAX_SESSIONS};
use crate::trust::{all_accepted, contents, first_refused, roots_of, trust_root};

verus! {

/// Every event that can be applied leaves a valid table valid.
pub proof fn law_apply_keeps_valid(
    table: SessionTable,
    event: ServerSessionEvent,
    mirrorings: nat,
)
    requires
        table.valid(mirrorings),
        table.fault(event) is None,
    ensures
        table.apply(event, mirrorings).valid(mirrorings),
{
    let after = table.apply(event, mirrorings);
    match event {
        ServerSessionEvent::Connected { session_id, .. } => {
            assert forall|addr: SocketAddr| #[trigger]
                after.routes.contains_key(addr) implies after.lists(after.routes[addr], addr) by {
                assert(table.routes.contains_key(addr));
                assert(table.lists(table.routes[addr], addr));
            }
        },
        ServerSessionEvent::Disconnected { session_id } => {
            assert forall|addr: SocketAddr| #[trigger]
                after.routes.contains_key(addr) implies after.lists(after.routes[addr], addr) by {
                assert(table.routes.contains_key(addr));
                assert(table.lists(table.routes[addr], addr));
            }
        },
    }
}

/// Every run of events leaves a valid table valid, whether or not it ends in a fault.
pub proof fn law_apply_all_keeps_valid(
    table: SessionTable,
    events: Seq<ServerSessionEvent>,
    mirrorings: nat,
)
    requires
        table.valid(mirrorings),
    ensures
        table.apply_all(events, mirrorings).0.valid(mirrorings),
    decreases events.len(),
{
    if events.len() > 0 && table.fault(events[0]) is None {
        law_apply_keeps_valid(table, events[0], mirrorings);
        law_apply_all_keeps_valid(
            table.apply(events[0], mirrorings),
            events.drop_first(),
            mirrorings,
        );
    }
}

/// Mapping an address leaves a valid table valid.
pub proof fn law_map_address_keeps_valid(
    table: SessionTable,
    session_id: u64,
    mirroring: int,
    addr: SocketAddr,
    mirrorings: nat,
)
    requires
        table.valid(mirrorings),
        table.sessions.contains_key(session_id),
        0 <= mirroring < mirrorings,
    ensures
        table.map_address(session_id, mirroring, addr).valid(mirrorings),
{
    let after = table.map_address(session_id, mirroring, addr);
    let slots = table.sessions[session_id].socket_addrs;
    let slots2 = after.sessions[session_id].socket_addrs;
    assert(after.sessions.dom() =~= table.sessions.dom());
    assert forall|other: SocketAddr| #[trigger]
        after.routes.contains_key(other) implies after.lists(after.routes[other], other) by {
        if other == addr {
            assert(slots2[mirroring] == Some(addr));
        } else {
            assert(table.routes.contains_key(other));
            assert(table.lists(table.routes[other], other));
            if table.routes[other] == session_id {
                let i = choose|i: int| 0 <= i < slots.len() && slots[i] == Some(other);
                assert(i != mirroring);
                assert(slots2[i] == Some(other));
            }
        }
    }
}

/// Events can be applied in one go or in two: the outcome is the same.
pub proof fn law_apply_all_in_two(
    table: SessionTable,
    first: Seq<ServerSessionEvent>,
    second: Seq<ServerSessionEvent>,
    mirrorings: nat,
)
    ensures
        table.apply_all(first + second, mirrorings) == ({
            let (middle, fault) = table.apply_all(first, mirrorings);
            if fault is Some {
                (middle, fault)
            } else {
                middle.apply_all(second, mirrorings)
            }
        }),
    decreases first.len(),
{
    if first.len() == 0 {
        assert(first + second =~= second);
    } else {
        assert((first + second).drop_first() =~= first.drop_first() + second);
        if table.fault(first[0]) is None {
            law_apply_all_in_two(
                table.apply(first[0], mirrorings),
                first.drop_first(),
                second,
                mirrorings,
            );
        }
    }
}

/// Once an address is mapped to a session, a datagram of the right length from there is
/// delivered to that session.
pub proof fn law_mapped_address_is_delivered(
    table: SessionTable,
    session_id: u64,
    mirroring: int,
    addr: SocketAddr,
    timestamp: u16,
    datagram_size: nat,
)
    ensures
        table.map_address(session_id, mirroring, addr).datagram_outcome(
            timestamp,
            datagram_size,
            addr,
            datagram_size,
        ) == (DatagramOutcome::Deliver { session_id, timestamp }),
{
}

/// An address that a session gives up for another leads nowhere any more.
pub proof fn law_replaced_address_is_dropped(
    table: SessionTable,
    session_id: u64,
    mirroring: int,
    addr: SocketAddr,
    replaced: SocketAddr,
)
    requires
        table.sessions[session_id].socket_addrs[mirroring] == Some(replaced),
        replaced != addr,
    ensures
        table.map_address(session_id, mirroring, addr).route(replaced) is None,
{
}

/// Mapping an address touches no other session, no other slot of the session, and the route of
/// no address but the new one and the one that it replaces.
pub proof fn law_map_address_frame(
    table: SessionTable,
    session_id: u64,
    mirroring: int,
    addr: SocketAddr,
    mirrorings: nat,
)
    requires
        table.valid(mirrorings),
        table.sessions.contains_key(session_id),
        0 <= mirroring < mirrorings,
    ensures
        ({
            let after = table.map_address(session_id, mirroring, addr);
            &&& after.sessions.dom() == table.sessions.dom()
            &&& forall|id: u64|
                id != session_id && #[trigger] table.sessions.contains_key(id)
                    ==> after.sessions[id] == table.sessions[id]
            &&& after.sessions[session_id].cipher_key == table.sessions[session_id].cipher_key
            &&& forall|i: int|
                0 <= i < mirrorings && i != mirroring
                    ==> #[trigger] after.sessions[session_id].socket_addrs[i]
                    == table.sessions[session_id].socket_addrs[i]
            &&& forall|other: SocketAddr|
                other != addr && table.sessions[session_id].socket_addrs[mirroring] != Some(other)
                    ==> #[trigger] after.route(other) == table.route(other)
        }),
{
    let after = table.map_address(session_id, mirroring, addr);
    assert(after.sessions.dom() =~= table.sessions.dom());
}

/// Mapping the same address again changes nothing.
pub proof fn law_map_address_idempotent(
    table: SessionTable,
    session_id: u64,
    mirroring: int,
    addr: SocketAddr,
    mirrorings: nat,
)
    requires
        table.valid(mirrorings),
        table.sessions.contains_key(session_id),
        0 <= mirroring < mirrorings,
    ensures
        table.map_address(session_id, mirroring, addr).map_address(session_id, mirroring, addr)
            == table.map_address(session_id, mirroring, addr),
{
    let once = table.map_address(session_id, mirroring, addr);
    let twice = once.map_address(session_id, mirroring, addr);
    assert(once.sessions[session_id].socket_addrs =~= twice.sessions[session_id].socket_addrs);
    assert(once.sessions =~= twice.sessions);
    assert(once.routes =~= twice.routes);
}

/// After a session has disconnected it is not connected, and no address leads to it.
pub proof fn law_disconnected_session_is_unreachable(
    table: SessionTable,
    session_id: u64,
    mirrorings: nat,
)
    requires
        table.valid(mirrorings),
        table.sessions.contains_key(session_id),
    ensures
        !table.disconnect(session_id).sessions.contains_key(session_id),
        forall|addr: SocketAddr| #[trigger]
            table.disconnect(session_id).route(addr) != Some(session_id),
{
    let after = table.disconnect(session_id);
    assert forall|addr: SocketAddr| #[trigger] after.route(addr) != Some(session_id) by {
        if after.routes.contains_key(addr) {
            assert(table.routes.contains_key(addr));
            assert(table.lists(table.routes[addr], addr));
        }
    }
}

/// Disconnecting touches no other session, and the route of no address that the session did not
/// list.
pub proof fn law_disconnect_frame(table: SessionTable, session_id: u64)
    ensures
        forall|id: u64|
            id != session_id ==> (#[trigger] table.disconnect(session_id).sessions.contains_key(id)
                <==> table.sessions.contains_key(id)) && (table.sessions.contains_key(id)
                ==> table.disconnect(session_id).sessions[id] == table.sessions[id]),
        forall|addr: SocketAddr|
            !table.sessions[session_id].socket_addrs.contains(Some(addr))
                ==> #[trigger] table.disconnect(session_id).route(addr) == table.route(addr),
{
}

/// A session that connects and disconnects leaves no trace.
pub proof fn law_connect_then_disconnect(
    table: SessionTable,
    session_id: u64,
    cipher_key: u64,
    mirrorings: nat,
)
    requires
        !table.sessions.contains_key(session_id),
    ensures
        table.connect(session_id, cipher_key, mirrorings).disconnect(session_id) == table,
{
    let connected = table.connect(session_id, cipher_key, mirrorings);
    let after = connected.disconnect(session_id);
    assert(after.sessions =~= table.sessions);
    assert forall|addr: SocketAddr|
        !connected.sessions[session_id].socket_addrs.contains(Some(addr)) by {}
    assert(after.routes =~= table.routes);
}

/// A session can connect, and after that not again; it can disconnect, and after that not again.
pub proof fn law_events_alternate(
    table: SessionTable,
    session_id: u64,
    cipher_key: u64,
    other_key: u64,
    mirrorings: nat,
)
    requires
        table.valid(mirrorings),
        table.sessions.dom().len() + 1 < MAX_SESSIONS,
        !table.sessions.contains_key(session_id),
    ensures
        ({
            let connects = ServerSessionEvent::Connected { session_id, cipher_key };
            let again = ServerSessionEvent::Connected { session_id, cipher_key: other_key };
            let disconnects = ServerSessionEvent::Disconnected { session_id };
            &&& table.fault(connects) is None
            &&& table.fault(disconnects) == Some(SessionFault::UnknownSessionId { session_id })
            &&& table.apply(connects, mirrorings).fault(again) == Some(
                SessionFault::DuplicateSessionId { session_id },
            )
            &&& table.apply(connects, mirrorings).fault(disconnects) is None
        }),
{
}

/// Every slot with an address has a route to its session, and no address stands in two slots.
pub open spec fn exclusive(table: SessionTable, mirrorings: nat) -> bool {
    forall|id: u64, slot: int, addr: SocketAddr|
        #![trigger has(table, id, slot, addr)]
        has(table, id, slot, addr) && slot < mirrorings ==> {
            &&& table.route(addr) == Some(id)
            &&& forall|id2: u64, slot2: int| #[trigger]
                has(table, id2, slot2, addr) && slot2 < mirrorings ==> id2 == id && slot2 == slot
        }
}

/// The slot of a connected session holds the address.
pub open spec fn has(table: SessionTable, id: u64, slot: int, addr: SocketAddr) -> bool {
    &&& table.sessions.contains_key(id)
    &&& 0 <= slot
    &&& table.sessions[id].socket_addrs[slot] == Some(addr)
}

/// As long as no two slots are given the same address, every address that a connected session
/// lists leads to it: connecting a session keeps this.
pub proof fn law_connect_keeps_exclusive(
    table: SessionTable,
    session_id: u64,
    cipher_key: u64,
    mirrorings: nat,
)
    requires
        exclusive(table, mirrorings),
        !table.sessions.contains_key(session_id),
    ensures
        exclusive(table.connect(session_id, cipher_key, mirrorings), mirrorings),
{
    let after = table.connect(session_id, cipher_key, mirrorings);
    assert forall|id: u64, slot: int, addr: SocketAddr| #[trigger]
        has(after, id, slot, addr) && slot < mirrorings implies has(table, id, slot, addr) by {}
}

/// Disconnecting a session keeps every address that another session lists leading to that one.
pub proof fn law_disconnect_keeps_exclusive(table: SessionTable, session_id: u64, mirrorings: nat)
    requires
        table.valid(mirrorings),
        table.sessions.contains_key(session_id),
        exclusive(table, mirrorings),
    ensures
        exclusive(table.disconnect(session_id), mirrorings),
{
    let after = table.disconnect(session_id);
    let gone = table.sessions[session_id].socket_addrs;
    assert forall|id: u64, slot: int, addr: SocketAddr| #[trigger]
        has(after, id, slot, addr) && slot < mirrorings implies has(table, id, slot, addr)
        && after.route(addr) == Some(id) by {
        assert(has(table, id, slot, addr));
        if gone.contains(Some(addr)) {
            let i = choose|i: int| 0 <= i < gone.len() && gone[i] == Some(addr);
            assert(has(table, session_id, i, addr));
        }
    }
}

/// Giving a slot an address that no other slot holds keeps every listed address leading to its
/// session.
pub proof fn law_map_address_keeps_exclusive(
    table: SessionTable,
    session_id: u64,
    mirroring: int,
    addr: SocketAddr,
    mirrorings: nat,
)
    requires
        table.valid(mirrorings),
        table.sessions.contains_key(session_id),
        0 <= mirroring < mirrorings,
        exclusive(table, mirrorings),
        forall|id: u64, slot: int| #[trigger]
            has(table, id, slot, addr) && slot < mirrorings ==> id == session_id && slot
                == mirroring,
    ensures
        exclusive(table.map_address(session_id, mirroring, addr), mirrorings),
{
    let after = table.map_address(session_id, mirroring, addr);
    assert forall|id: u64, slot: int, other: SocketAddr| #[trigger]
        has(after, id, slot, other) && slot < mirrorings implies after.route(other) == Some(id)
        && (has(table, id, slot, other) || (id == session_id && slot == mirroring && other
        == addr)) by {
        if !(id == session_id && slot == mirroring) {
            assert(has(table, id, slot, other));
            assert(table.route(other) == Some(id));
            if table.sessions[session_id].socket_addrs[mirroring] == Some(other) {
                assert(has(table, session_id, mirroring, other));
            }
        }
    }
    assert forall|id: u64, slot: int, other: SocketAddr, id2: u64, slot2: int| #[trigger]
        has(after, id, slot, other) && slot < mirrorings && #[trigger] has(
            after,
            id2,
            slot2,
            other,
        ) && slot2 < mirrorings implies id2 == id && slot2 == slot by {
        if other != addr {
            assert(has(table, id, slot, other));
            assert(has(table, id2, slot2, other));
        }
    }
}

/// A datagram is only ever delivered to a session that is connected and lists the address that
/// the datagram came from.
pub proof fn law_delivery_goes_to_connected_session(
    table: SessionTable,
    timestamp: u16,
    len: nat,
    addr: SocketAddr,
    datagram_size: nat,
    mirrorings: nat,
)
    requires
        table.valid(mirrorings),
    ensures
        table.datagram_outcome(timestamp, len, addr, datagram_size) matches
            DatagramOutcome::Deliver { session_id, .. } ==> table.lists(session_id, addr),
{
}

/// A datagram that spells the identifier of a connected session and a mirroring, whatever
/// follows, maps the address that it came from to that session.
pub proof fn law_mapping_datagram_maps(
    table: SessionTable,
    session_id: u64,
    mirroring: u8,
    rest: Seq<u8>,
    addr: SocketAddr,
    mirrorings: nat,
)
    requires
        table.sessions.contains_key(session_id),
        mirroring < mirrorings,
    ensures
        table.after_mapping(
            le_bytes(session_id as nat, 8) + seq![mirroring] + rest,
            addr,
            mirrorings,
        ) == table.map_address(session_id, mirroring as int, addr),
{
    let id_bytes = le_bytes(session_id as nat, 8);
    let datagram = id_bytes + seq![mirroring] + rest;
    lemma_le_bytes_len(session_id as nat, 8);
    lemma_pow256_values();
    lemma_value_of_bytes(session_id as nat, 8);
    assert(datagram.subrange(0, 8) =~= id_bytes);
    assert(datagram[8] == mirroring);
}

/// The bytes of a message are twenty-five: three numbers of eight, and one for the player.
proof fn lemma_message_bytes_len(message: PlayerMessage)
    ensures
        message_bytes(message).len() == 25,
{
    lemma_le_bytes_len(message.0 as nat, 8);
    lemma_le_bytes_len(message.1 as nat, 8);
    lemma_le_bytes_len(message.2 as nat, 8);
    lemma_le_bytes_len(message.3 as nat, 1);
}

/// What a sink reads from a buffer that a source has written is what the source took from the
/// queue; behind the numbers stands the player, and the rest of the buffer is untouched.
pub proof fn law_written_message_reads_back(buffer: Seq<u8>, message: PlayerMessage)
    requires
        buffer.len() == 28,
    ensures
        ({
            let written = splice(buffer, 0, message_bytes(message));
            &&& written.len() == 28
            &&& input_values(written) == (message.0, message.1, message.2)
            &&& written[24] == message.3
            &&& written.skip(25) == buffer.skip(25)
        }),
{
    let written = splice(buffer, 0, message_bytes(message));
    lemma_message_bytes_len(message);
    lemma_pow256_values();
    lemma_le_bytes_len(message.0 as nat, 8);
    lemma_le_bytes_len(message.1 as nat, 8);
    lemma_le_bytes_len(message.2 as nat, 8);
    lemma_value_of_bytes(message.0 as nat, 8);
    lemma_value_of_bytes(message.1 as nat, 8);
    lemma_value_of_bytes(message.2 as nat, 8);
    assert(written.subrange(0, 8) =~= le_bytes(message.0 as nat, 8));
    assert(written.subrange(8, 16) =~= le_bytes(message.1 as nat, 8));
    assert(written.subrange(16, 24) =~= le_bytes(message.2 as nat, 8));
    reveal_with_fuel(le_bytes, 2);
    assert(le_bytes(message.3 as nat, 1)[0] == message.3);
    assert(written.skip(25) =~= buffer.skip(25));
}

/// Two different messages never leave the same bytes in a buffer.
pub proof fn law_messages_differ_on_the_wire(
    buffer: Seq<u8>,
    other: Seq<u8>,
    message: PlayerMessage,
    message2: PlayerMessage,
)
    requires
        buffer.len() == 28,
        other.len() == 28,
        splice(buffer, 0, message_bytes(message)) == splice(other, 0, message_bytes(message2)),
    ensures
        message == message2,
{
    law_written_message_reads_back(buffer, message);
    law_written_message_reads_back(other, message2);
}

/// What a player puts in comes out unaltered: a buffer that the message was written to begins with
/// the first twenty-four bytes of the player's buffer, then has the player's mark, and the rest of
/// it is untouched.
pub proof fn law_input_comes_out_unaltered(input: Seq<u8>, player: u8, buffer: Seq<u8>)
    requires
        input.len() == 28,
        buffer.len() == 28,
    ensures
        ({
            let written = answered(buffer, Some(input_message(input, player)));
            &&& written.len() == 28
            &&& written.take(24) == input.take(24)
            &&& written[24] == player
            &&& written.skip(25) == buffer.skip(25)
        }),
{
    let first = input.subrange(0, 8);
    let second = input.subrange(8, 16);
    let third = input.subrange(16, 24);
    lemma_pow256_values();
    lemma_le_value_bound(first);
    lemma_le_value_bound(second);
    lemma_le_value_bound(third);
    lemma_bytes_of_value(first);
    lemma_bytes_of_value(second);
    lemma_bytes_of_value(third);
    reveal_with_fuel(le_bytes, 2);
    assert(le_bytes(player as nat, 1) =~= seq![player]);
    let message = input_message(input, player);
    assert(message_bytes(message) =~= input.take(24) + seq![player]);
    let written = answered(buffer, Some(message));
    assert(written.take(24) =~= input.take(24));
    assert(written.skip(25) =~= buffer.skip(25));
}

/// Something that happens at a message queue.
pub enum QueueStep {
    /// A sink hands in a player's buffer, and the queue accepts the message.
    Handled { input: Seq<u8>, player: u8 },
    /// A source asks for a message, to be written to a buffer.
    Polled { buffer: Seq<u8>, answer: Option<PlayerMessage> },
}

/// The messages that are in the queue after some steps, the oldest first.
pub open spec fn waiting(steps: Seq<QueueStep>) -> Seq<PlayerMessage>
    decreases steps.len(),
{
    if steps.len() == 0 {
        Seq::empty()
    } else {
        let before = waiting(steps.drop_last());
        match steps.last() {
            QueueStep::Handled { input, player } => before.push(input_message(input, player)),
            QueueStep::Polled { answer, .. } => if answer is Some {
                before.drop_first()
            } else {
                before
            },
        }
    }
}

/// Every poll got the oldest message in the queue, and nothing only if the queue was empty.
pub open spec fn oldest_first(steps: Seq<QueueStep>) -> bool
    decreases steps.len(),
{
    steps.len() > 0 ==> {
        let before = waiting(steps.drop_last());
        &&& oldest_first(steps.drop_last())
        &&& steps.last() matches QueueStep::Polled { answer, .. } ==> answer == if before.len()
            > 0 {
            Some(before[0])
        } else {
            None
        }
    }
}

/// Every buffer has the length of a message.
pub open spec fn whole_buffers(steps: Seq<QueueStep>) -> bool {
    forall|i: int|
        0 <= i < steps.len() ==> match #[trigger] steps[i] {
            QueueStep::Handled { input, .. } => input.len() == 28,
            QueueStep::Polled { buffer, .. } => buffer.len() == 28,
        }
}

/// The buffers that were handed in, each with its player, in order.
pub open spec fn handed_in(steps: Seq<QueueStep>) -> Seq<(Seq<u8>, u8)>
    decreases steps.len(),
{
    if steps.len() == 0 {
        Seq::empty()
    } else {
        let before = handed_in(steps.drop_last());
        match steps.last() {
            QueueStep::Handled { input, player } => before.push((input, player)),
            QueueStep::Polled { .. } => before,
        }
    }
}

/// The buffers that a message was written to, in order, each as it was before and as it was then.
pub open spec fn given_out(steps: Seq<QueueStep>) -> Seq<(Seq<u8>, Seq<u8>)>
    decreases steps.len(),
{
    if steps.len() == 0 {
        Seq::empty()
    } else {
        let before = given_out(steps.drop_last());
        match steps.last() {
            QueueStep::Polled { buffer, answer } if answer is Some => before.push(
                (buffer, answered(buffer, answer)),
            ),
            _ => before,
        }
    }
}

/// Through a queue that gives out the oldest message first, whatever sinks and sources are at its
/// ends, the players' buffers come out in the order in which they went in, each once, unaltered
/// and with the mark of its player; the rest of the buffer that they come out in stays as it was.
/// Those that have not come out are still waiting, so a poll that finds nothing finds that
/// everything has come out.
pub proof fn law_queue_gives_out_what_was_handed_in(steps: Seq<QueueStep>)
    requires
        oldest_first(steps),
        whole_buffers(steps),
    ensures
        given_out(steps).len() + waiting(steps).len() == handed_in(steps).len(),
        forall|i: int|
            0 <= i < given_out(steps).len() ==> {
                let (input, player) = handed_in(steps)[i];
                let (buffer, output) = #[trigger] given_out(steps)[i];
                &&& output.len() == 28
                &&& output.take(24) == input.take(24)
                &&& output[24] == player
                &&& output.skip(25) == buffer.skip(25)
            },
        forall|i: int|
            0 <= i < waiting(steps).len() ==> #[trigger] waiting(steps)[i] == ({
                let (input, player) = handed_in(steps)[given_out(steps).len() + i];
                input_message(input, player)
            }),
        forall|i: int| #![trigger handed_in(steps)[i]]
            0 <= i < handed_in(steps).len() ==> handed_in(steps)[i].0.len() == 28,
        steps.len() > 0 ==> (steps.last() matches QueueStep::Polled { answer, .. } ==> (answer
            is None <==> given_out(steps.drop_last()).len() == handed_in(steps).len())),
    decreases steps.len(),
{
    if steps.len() > 0 {
        let before = steps.drop_last();
        assert(whole_buffers(before)) by {
            assert forall|i: int| 0 <= i < before.len() implies match #[trigger] before[i] {
                QueueStep::Handled { input, .. } => input.len() == 28,
                QueueStep::Polled { buffer, .. } => buffer.len() == 28,
            } by {
                assert(before[i] == steps[i]);
            }
        }
        law_queue_gives_out_what_was_handed_in(before);
        assert(steps.last() == steps[steps.len() - 1]);
        match steps.last() {
            QueueStep::Handled { .. } => {},
            QueueStep::Polled { buffer, answer } => {
                if answer is Some {
                    let (input, player) = handed_in(before)[given_out(before).len() as int];
                    assert(waiting(before)[0] == input_message(input, player));
                    law_input_comes_out_unaltered(input, player, buffer);
                }
            },
        }
    }
}

/// The steps of a queue that is handed some buffers, and after that is polled some times.
pub open spec fn handled_then_polled(
    inputs: Seq<(Seq<u8>, u8)>,
    polls: Seq<(Seq<u8>, Option<PlayerMessage>)>,
) -> Seq<QueueStep> {
    inputs.map_values(
        |input: (Seq<u8>, u8)| QueueStep::Handled { input: input.0, player: input.1 },
    ) + polls.map_values(
        |poll: (Seq<u8>, Option<PlayerMessage>)|
            QueueStep::Polled { buffer: poll.0, answer: poll.1 },
    )
}

/// Every part of what happened oldest first happened oldest first.
proof fn lemma_oldest_first_prefix(steps: Seq<QueueStep>, len: int)
    requires
        oldest_first(steps),
        0 <= len <= steps.len(),
    ensures
        oldest_first(steps.take(len)),
    decreases steps.len(),
{
    if len < steps.len() {
        lemma_oldest_first_prefix(steps.drop_last(), len);
        assert(steps.drop_last().take(len) =~= steps.take(len));
    } else {
        assert(steps.take(len) =~= steps);
    }
}

/// What was handed in and given out while a queue was handed buffers and then polled.
proof fn lemma_handled_then_polled(
    inputs: Seq<(Seq<u8>, u8)>,
    polls: Seq<(Seq<u8>, Option<PlayerMessage>)>,
)
    requires
        oldest_first(handled_then_polled(inputs, polls)),
    ensures
        handed_in(handled_then_polled(inputs, polls)) == inputs,
        waiting(handled_then_polled(inputs, polls)) == Seq::new(
            if polls.len() <= inputs.len() {
                (inputs.len() - polls.len()) as nat
            } else {
                0
            },
            |i: int| input_message(inputs[polls.len() + i].0, inputs[polls.len() + i].1),
        ),
    decreases inputs.len() + polls.len(),
{
    let steps = handled_then_polled(inputs, polls);
    if polls.len() > 0 {
        assert(steps.drop_last() =~= handled_then_polled(inputs, polls.drop_last()));
        lemma_handled_then_polled(inputs, polls.drop_last());
    } else if inputs.len() > 0 {
        assert(steps.drop_last() =~= handled_then_polled(inputs.drop_last(), polls));
        lemma_handled_then_polled(inputs.drop_last(), polls);
        assert(inputs =~= inputs.drop_last().push(inputs.last()));
    }
    assert(handed_in(steps) =~= inputs);
    assert(waiting(steps) =~= Seq::new(
        if polls.len() <= inputs.len() {
            (inputs.len() - polls.len()) as nat
        } else {
            0
        },
        |i: int| input_message(inputs[polls.len() + i].0, inputs[polls.len() + i].1),
    ));
}

/// A queue that gives out the oldest message first, and that is polled only after it was handed
/// some buffers, answers exactly as many polls as there were buffers, the first ones, each with
/// the buffer whose turn it is: unaltered, with the mark of its player, the rest of the polled
/// buffer as it was. Any further poll finds nothing and leaves its buffer alone.
pub proof fn law_first_polls_get_everything(
    inputs: Seq<(Seq<u8>, u8)>,
    polls: Seq<(Seq<u8>, Option<PlayerMessage>)>,
    i: int,
)
    requires
        oldest_first(handled_then_polled(inputs, polls)),
        forall|j: int| 0 <= j < inputs.len() ==> (#[trigger] inputs[j]).0.len() == 28,
        forall|j: int| 0 <= j < polls.len() ==> (#[trigger] polls[j]).0.len() == 28,
        0 <= i < polls.len(),
    ensures
        ({
            let (buffer, answer) = polls[i];
            let output = answered(buffer, answer);
            &&& answer is Some <==> i < inputs.len()
            &&& i < inputs.len() ==> {
                &&& output.len() == 28
                &&& output.take(24) == inputs[i].0.take(24)
                &&& output[24] == inputs[i].1
                &&& output.skip(25) == buffer.skip(25)
            }
            &&& i >= inputs.len() ==> output == buffer
        }),
{
    let steps = handled_then_polled(inputs, polls);
    let upto = handled_then_polled(inputs, polls.take(i + 1));
    lemma_oldest_first_prefix(steps, inputs.len() + i + 1);
    assert(steps.take(inputs.len() + i + 1) =~= upto);
    assert(upto.drop_last() =~= handled_then_polled(inputs, polls.take(i)));
    lemma_handled_then_polled(inputs, polls.take(i));
    assert(upto.last() == (QueueStep::Polled { buffer: polls[i].0, answer: polls[i].1 }));
    if i < inputs.len() {
        law_input_comes_out_unaltered(inputs[i].0, inputs[i].1, polls[i].0);
    }
}

/// Of certificates of which none is refused, what is kept is as many roots as there are
/// certificates, and at each place what `rustls` makes of the certificate there.
pub proof fn law_every_certificate_is_kept(certificates: Seq<Seq<u8>>, i: int)
    ensures
        roots_of(certificates).len() == certificates.len(),
        0 <= i < certificates.len() ==> roots_of(certificates)[i] == trust_root(
            certificates[i],
        )->Ok_0,
        all_accepted(certificates) && 0 <= i < certificates.len() ==> trust_root(
            certificates[i],
        ) is Ok,
{
}

/// The contents of some files are as many as the files, and at each place the bytes of the file
/// there.
pub proof fn law_contents_by_place(certificates: Seq<Vec<u8>>, i: int)
    ensures
        contents(certificates).len() == certificates.len(),
        0 <= i < certificates.len() ==> contents(certificates)[i] == certificates[i]@,
{
}

/// The certificate that is refused first is refused, and none before it is.
pub proof fn law_what_refused_first_means(
    certificates: Seq<Seq<u8>>,
    index: int,
    refusal: Seq<char>,
    before: int,
)
    requires
        first_refused(certificates, index, refusal),
    ensures
        0 <= index < certificates.len(),
        trust_root(certificates[index]) is Err,
        trust_root(certificates[index])->Err_0 == refusal,
        0 <= before < index ==> trust_root(certificates[before]) is Ok,
{
    if 0 <= before < index {
        assert(certificates.take(index)[before] == certificates[before]);
    }
}

/// Taking a message, putting one in and making a handle are told apart.
pub proof fn law_marks_differ()
    ensures
        taking() != putting(),
        putting() != making(),
        making() != taking(),
{
}

/// The next identifier is one more, and after the highest comes zero.
pub proof fn law_next_identifier(session_id: u64)
    ensures
        session_id < u64::MAX ==> following_id(session_id) == session_id + 1,
        session_id == u64::MAX ==> following_id(session_id) == 0,
{
}

/// Of the certificates that are to be trusted, either none is refused or there is one that is
/// refused first.
pub proof fn law_accepted_or_refused(certificates: Seq<Seq<u8>>)
    ensures
        all_accepted(certificates) <==> !(exists|index: int, refusal: Seq<char>|
            first_refused(certificates, index, refusal)),
    decreases certificates.len(),
{
    if certificates.len() > 0 {
        let before = certificates.drop_last();
        let last = certificates.len() - 1;
        law_accepted_or_refused(before);
        assert(certificates.take(last) =~= before);
        assert forall|index: int, refusal: Seq<char>| first_refused(
            before,
            index,
            refusal,
        ) implies first_refused(certificates, index, refusal) by {
            assert(before.take(index) =~= certificates.take(index));
        }
        if all_accepted(before) && trust_root(certificates[last]) is Err {
            assert(first_refused(certificates, last, trust_root(certificates[last])->Err_0));
        }
        if all_accepted(before) && trust_root(certificates[last]) is Ok {
            assert forall|i: int| 0 <= i < certificates.len() implies trust_root(
                #[trigger] certificates[i],
            ) is Ok by {
                if i < last {
                    assert(before[i] == certificates[i]);
                }
            }
        }
        if !all_accepted(before) {
            let (index, refusal) = choose|index: int, refusal: Seq<char>|
                first_refused(before, index, refusal);
            assert(first_refused(certificates, index, refusal));
        }
    }
}

/// At most one certificate is refused first.
pub proof fn law_one_certificate_is_refused_first(
    certificates: Seq<Seq<u8>>,
    index: int,
    refusal: Seq<char>,
    other: int,
    refusal2: Seq<char>,
)
    requires
        first_refused(certificates, index, refusal),
        first_refused(certificates, other, refusal2),
    ensures
        index == other,
        refusal == refusal2,
{
    if index < other {
        assert(certificates.take(other)[index] == certificates[index]);
    }
    if other < index {
        assert(certificates.take(index)[other] == certificates[other]);
    }
}

/// A buffer that a client's input was written to spells the frame in its first four bytes and
/// the value in the next eight, and the rest of it is untouched.
pub proof fn law_written_input_reads_back(buffer: Seq<u8>, input: PlayerInput)
    requires
        buffer.len() == 16,
    ensures
        ({
            let written = splice(buffer, 0, input_bytes(input));
            &&& written.len() == 16
            &&& le_value(written.subrange(0, 4)) == input.0
            &&& le_value(written.subrange(4, 12)) == input.1
            &&& written.skip(12) == buffer.skip(12)
        }),
{
    let written = splice(buffer, 0, input_bytes(input));
    lemma_pow256_values();
    lemma_le_bytes_len(input.0 as nat, 4);
    lemma_le_bytes_len(input.1 as nat, 8);
    lemma_value_of_bytes(input.0 as nat, 4);
    lemma_value_of_bytes(input.1 as nat, 8);
    assert(written.subrange(0, 4) =~= le_bytes(input.0 as nat, 4));
    assert(written.subrange(4, 12) =~= le_bytes(input.1 as nat, 8));
    assert(written.skip(12) =~= buffer.skip(12));
}

/// Every update reads back from the buffer that spells it: the frame in four bytes, the player in
/// one, and the input in eight.
pub proof fn law_every_update_has_a_buffer(update: PlayerUpdate, rest: Seq<u8>)
    ensures
        update_of(
            le_bytes(update.0 as nat, 4) + seq![update.1] + le_bytes(update.2 as nat, 8) + rest,
        ) == update,
{
    let frame = le_bytes(update.0 as nat, 4);
    let value = le_bytes(update.2 as nat, 8);
    let buffer = frame + seq![update.1] + value + rest;
    lemma_pow256_values();
    lemma_le_bytes_len(update.0 as nat, 4);
    lemma_le_bytes_len(update.2 as nat, 8);
    lemma_value_of_bytes(update.0 as nat, 4);
    lemma_value_of_bytes(update.2 as nat, 8);
    assert(buffer.subrange(0, 4) =~= frame);
    assert(buffer.subrange(5, 13) =~= value);
}

/// The first free place is free, and every place before it is taken.
pub proof fn lemma_first_free(free: Seq<bool>, from: int)
    requires
        0 <= from <= free.len(),
    ensures
        from <= first_free(free, from) <= free.len(),
        first_free(free, from) < free.len() ==> free[first_free(free, from)],
        forall|i: int| from <= i < first_free(free, from) ==> !free[i],
    decreases free.len() - from,
{
    if from < free.len() && !free[from] {
        lemma_first_free(free, from + 1);
    }
}

/// The places of a broker that has handed out the first `count` of them.
pub open spec fn places(len: nat, count: nat) -> Seq<bool> {
    Seq::new(len, |i: int| i >= count)
}

/// Player indices are handed out in order, zero first, each once, and none after the last: with
/// `count` of them gone the next is `count`.
pub proof fn law_indices_in_order(len: nat, count: nat)
    requires
        count <= len,
    ensures
        first_free(places(len, count), 0) == count,
        count < len ==> places(len, count).update(count as int, false) == places(len, count + 1),
        places(len, 0) == Seq::new(len, |i: int| true),
{
    lemma_first_free(places(len, count), 0);
    assert(places(len, 0) =~= Seq::new(len, |i: int| true));
    if count < len {
        assert(places(len, count)[count as int]);
        assert(places(len, count).update(count as int, false) =~= places(len, count + 1));
    }
}

/// Whatever a broker has gone through, the places that it has handed out are the first ones.
pub proof fn law_free_list_is_places(free: Seq<bool>)
    requires
        in_order(free),
    ensures
        free == places(free.len(), first_free(free, 0) as nat),
        first_free(free, 0) <= free.len(),
{
    lemma_first_free(free, 0);
    let count = first_free(free, 0);
    assert forall|i: int| 0 <= i < free.len() implies free[i] == (i >= count) by {
        if i >= count {
            assert(free[count]);
        }
    }
    assert(free =~= places(free.len(), count as nat));
}

/// The identifier of the session that is opened after `count` others: they go up from one, and
/// after the highest comes zero.
pub open spec fn nth_id(count: nat) -> u64 {
    ((1 + count as int) % (u64::MAX + 1)) as u64
}

/// The identifiers of the first `count` sessions.
pub open spec fn ids_before(count: nat) -> Set<u64> {
    Set::new(|id: u64| exists|i: nat| i < count && #[trigger] nth_id(i) == id)
}

/// Session identifiers go up by one with each session.
pub proof fn law_ids_go_up(count: nat)
    ensures
        nth_id(0) == 1,
        following_id(nth_id(count)) == nth_id(count + 1),
        count < u64::MAX - 1 ==> nth_id(count) < nth_id(count + 1),
{
    let n: int = 1 + count as int;
    let m: int = u64::MAX + 1;
    assert((n + 1) % m == if n % m == m - 1 {
        0
    } else {
        n % m + 1
    }) by (nonlinear_arith)
        requires
            m == 0x1_0000_0000_0000_0000,
            n >= 0,
    ;
}

/// No two sessions get the same identifier, as long as fewer are opened than there are
/// identifiers.
pub proof fn law_ids_are_distinct(first: nat, second: nat)
    requires
        first < second,
        second - first <= u64::MAX,
    ensures
        nth_id(first) != nth_id(second),
{
    let a: int = 1 + first as int;
    let b: int = 1 + second as int;
    let m: int = u64::MAX + 1;
    assert(a % m != b % m) by (nonlinear_arith)
        requires
            m == 0x1_0000_0000_0000_0000,
            0 <= a < b,
            b - a < m,
    ;
}

/// Opening a session never takes the identifier of one that is open already, as long as fewer
/// sessions are opened than there are identifiers.
pub proof fn law_new_session_overwrites_none(
    sessions: Map<u64, usize>,
    count: nat,
    player_index: usize,
)
    requires
        sessions.dom() == ids_before(count),
        count <= u64::MAX,
    ensures
        ids_before(0) == Set::<u64>::empty(),
        !sessions.contains_key(nth_id(count)),
        sessions.insert(nth_id(count), player_index).dom() == ids_before(count + 1),
{
    assert(ids_before(0) =~= Set::<u64>::empty());
    if sessions.contains_key(nth_id(count)) {
        let i = choose|i: nat| i < count && #[trigger] nth_id(i) == nth_id(count);
        law_ids_are_distinct(i, count);
    }
    let after = sessions.insert(nth_id(count), player_index);
    assert forall|id: u64| after.dom().contains(id) <==> ids_before(count + 1).contains(id) by {
        if after.dom().contains(id) {
            if id == nth_id(count) {
                assert(count < count + 1);
            } else {
                let i = choose|i: nat| i < count && #[trigger] nth_id(i) == id;
                assert(i < count + 1);
            }
        }
        if ids_before(count + 1).contains(id) {
            let i = choose|i: nat| i < count + 1 && #[trigger] nth_id(i) == id;
            if i < count {
                assert(ids_before(count).contains(id));
            }
        }
    }
    assert(after.dom() =~= ids_before(count + 1));
}

/// Every session plays an index that has been handed out, and no two sessions play the same.
pub open spec fn players_apart(sessions: Map<u64, usize>, free: Seq<bool>) -> bool {
    &&& forall|id: u64| #[trigger]
        sessions.contains_key(id) ==> sessions[id] < free.len() && !free[sessions[id] as int]
    &&& forall|id: u64, id2: u64|
        #![trigger sessions[id], sessions[id2]]
        sessions.contains_key(id) && sessions.contains_key(id2) && id != id2 ==> sessions[id]
            != sessions[id2]
}

/// Admitting a connection under a new identifier keeps the players apart.
pub proof fn law_admission_keeps_players_apart(
    sessions: Map<u64, usize>,
    free: Seq<bool>,
    session_id: u64,
)
    requires
        players_apart(sessions, free),
        free.len() <= usize::MAX,
        first_free(free, 0) < free.len(),
        !sessions.contains_key(session_id),
    ensures
        players_apart(
            sessions.insert(session_id, first_free(free, 0) as usize),
            free.update(first_free(free, 0), false),
        ),
{
    lemma_first_free(free, 0);
    let place = first_free(free, 0);
    let after = sessions.insert(session_id, place as usize);
    let free2 = free.update(place, false);
    assert forall|id: u64| #[trigger] after.contains_key(id) implies after[id] < free2.len()
        && !free2[after[id] as int] by {
        if id != session_id {
            assert(sessions.contains_key(id));
        }
    }
    assert forall|id: u64, id2: u64|
        #![trigger after[id], after[id2]]
        after.contains_key(id) && after.contains_key(id2) && id != id2 implies after[id]
        != after[id2] by {
        if id == session_id {
            assert(sessions.contains_key(id2));
        } else if id2 == session_id {
            assert(sessions.contains_key(id));
        } else {
            assert(sessions.contains_key(id) && sessions.contains_key(id2));
            assert(sessions[id] != sessions[id2]);
        }
    }
}

/// With at most as many players as a byte can tell apart, the messages of different sessions
/// carry different marks.
pub proof fn law_marks_tell_sessions_apart(
    sessions: Map<u64, usize>,
    free: Seq<bool>,
    first: u64,
    second: u64,
)
    requires
        players_apart(sessions, free),
        free.len() <= 256,
        sessions.contains_key(first),
        sessions.contains_key(second),
        first != second,
    ensures
        sessions[first] as int % 256 != sessions[second] as int % 256,
{
    assert(sessions[first] != sessions[second]);
}

/// The sessions of a broker that has admitted `count` connections and done nothing else: the
/// session that came first has identifier one and plays index zero, and so on.
pub open spec fn admitted_sessions(count: nat) -> Map<u64, usize> {
    Map::new(|id: u64| 1 <= id <= count, |id: u64| (id - 1) as usize)
}

/// Connections that are admitted one after the other, to a broker with `len` places, get the
/// sessions from one on and the players from zero on, until every place is taken.
pub proof fn law_admissions(len: nat, count: nat)
    requires
        count <= len <= usize::MAX,
    ensures
        admitted_sessions(0) == Map::<u64, usize>::empty(),
        places(len, 0) == Seq::new(len, |i: int| true),
        first_free(places(len, count), 0) == count,
        count < len ==> {
            let session_id = (count + 1) as u64;
            &&& !admitted_sessions(count).contains_key(session_id)
            &&& admitted_sessions(count).insert(session_id, count as usize) == admitted_sessions(
                count + 1,
            )
            &&& places(len, count).update(count as int, false) == places(len, count + 1)
            &&& session_id == nth_id(count)
        },
        players_apart(admitted_sessions(count), places(len, count)),
{
    law_indices_in_order(len, count);
    assert(admitted_sessions(0) =~= Map::<u64, usize>::empty());
    if count < len {
        let session_id = (count + 1) as u64;
        assert(admitted_sessions(count).insert(session_id, count as usize) =~= admitted_sessions(
            count + 1,
        ));
    }
}

} // verus!
