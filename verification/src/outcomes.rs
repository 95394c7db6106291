//! What becomes of sessions, addresses and datagrams.

use vstd::prelude::*;

use crate::addr::SocketAddr;
use crate::laws::{law_apply_all_in_two, law_apply_all_keeps_valid, law_apply_keeps_valid};
use crate::receiver::{others_stay, stops_at};
use crate::table::{
    names_session, DatagramOutcome, MappingOutcome, ServerSessionEvent, SessionFault, SessionTable,
};

verus! {

/// A session that connects is there afterwards, with its cipher key, one empty slot for each
/// mirroring and no address that leads to it that did not before. Nothing else changes.
pub proof fn law_connected_session_is_there(
    table: SessionTable,
    session_id: u64,
    cipher_key: u64,
    mirrorings: nat,
    other: u64,
    slot: int,
)
    ensures
        ({
            let event = ServerSessionEvent::Connected { session_id, cipher_key };
            let after = table.apply(event, mirrorings);
            &&& event.session() == session_id
            &&& after == table.connect(session_id, cipher_key, mirrorings)
            &&& after.sessions.contains_key(session_id)
            &&& after.sessions[session_id].cipher_key == cipher_key
            &&& after.sessions[session_id].socket_addrs.len() == mirrorings
            &&& 0 <= slot < mirrorings ==> after.sessions[session_id].socket_addrs[slot] is None
            &&& other != session_id ==> {
                &&& after.sessions.contains_key(other) <==> table.sessions.contains_key(other)
                &&& table.sessions.contains_key(other) ==> after.sessions[other]
                    == table.sessions[other]
            }
            &&& after.routes == table.routes
        }),
{
}

/// A session that disconnects is gone afterwards, the addresses that it listed lead nowhere, and
/// no address leads to it. Every other session, and every other address, is as it was.
pub proof fn law_disconnected_session_is_gone(
    table: SessionTable,
    session_id: u64,
    mirrorings: nat,
    other: u64,
    addr: SocketAddr,
)
    requires
        table.valid(mirrorings),
        table.sessions.contains_key(session_id),
    ensures
        ({
            let event = ServerSessionEvent::Disconnected { session_id };
            let after = table.apply(event, mirrorings);
            let listed = table.sessions[session_id].socket_addrs.contains(Some(addr));
            &&& event.session() == session_id
            &&& after == table.disconnect(session_id)
            &&& !after.sessions.contains_key(session_id)
            &&& other != session_id ==> {
                &&& after.sessions.contains_key(other) <==> table.sessions.contains_key(other)
                &&& table.sessions.contains_key(other) ==> after.sessions[other]
                    == table.sessions[other]
            }
            &&& listed ==> !after.routes.contains_key(addr)
            &&& !listed ==> (after.routes.contains_key(addr) <==> table.routes.contains_key(addr))
            &&& after.routes.contains_key(addr) ==> after.routes[addr] == table.routes[addr]
                && after.routes[addr] != session_id
        }),
{
    if table.routes.contains_key(addr) {
        assert(table.lists(table.routes[addr], addr));
    }
}

/// In a valid table every known address leads to a session that is connected and has the address
/// in one of its slots, and every session has as many slots as there are mirrorings.
pub proof fn law_routes_lead_to_sessions(
    table: SessionTable,
    addr: SocketAddr,
    session_id: u64,
    mirrorings: nat,
)
    requires
        table.valid(mirrorings),
    ensures
        table.routes.contains_key(addr) ==> {
            let id = table.routes[addr];
            &&& table.sessions.contains_key(id)
            &&& exists|i: int|
                0 <= i < mirrorings && #[trigger] table.sessions[id].socket_addrs[i] == Some(addr)
        },
        table.sessions.contains_key(session_id) ==> table.sessions[session_id].socket_addrs.len()
            == mirrorings,
{
    if table.routes.contains_key(addr) {
        let id = table.routes[addr];
        assert(table.lists(id, addr));
        let slots = table.sessions[id].socket_addrs;
        let i = choose|i: int| 0 <= i < slots.len() && slots[i] == Some(addr);
        assert(slots[i] == Some(addr));
    }
}

/// A session cannot connect twice, nor disconnect without being connected, and there is room for
/// `u32::MAX` sessions. Nothing else stands in the way of an event.
pub proof fn law_when_events_fail(table: SessionTable, session_id: u64, cipher_key: u64)
    ensures
        ({
            let known = table.sessions.contains_key(session_id);
            let full = table.sessions.dom().len() >= 0xffff_ffff;
            let connecting = table.fault(ServerSessionEvent::Connected { session_id, cipher_key });
            let leaving = table.fault(ServerSessionEvent::Disconnected { session_id });
            &&& connecting is None <==> !known && !full
            &&& full ==> connecting == Some(SessionFault::TooManySessions { session_id })
            &&& known && !full ==> connecting == Some(
                SessionFault::DuplicateSessionId { session_id },
            )
            &&& leaving is None <==> known
            &&& !known ==> leaving == Some(SessionFault::UnknownSessionId { session_id })
        }),
{
}

/// No events change nothing. An event that can be applied takes effect when it comes in a batch,
/// and one that cannot be changes nothing and is reported.
pub proof fn law_single_event_takes_effect(
    table: SessionTable,
    event: ServerSessionEvent,
    mirrorings: nat,
)
    ensures
        table.apply_all(Seq::empty(), mirrorings) == (table, None::<SessionFault>),
        table.fault(event) is None ==> table.apply_all(seq![event], mirrorings) == (
            table.apply(event, mirrorings),
            None::<SessionFault>,
        ),
        table.fault(event) is Some ==> table.apply_all(seq![event], mirrorings) == (
            table,
            table.fault(event),
        ),
{
    reveal_with_fuel(SessionTable::apply_all, 3);
    let events = seq![event];
    assert(events.drop_first() =~= Seq::empty());
}

/// What has happened so far decides what the next event of a batch does: it is applied to the
/// table that the events before it have left, and after a fault no further event is applied.
pub proof fn law_events_take_effect_in_order(
    table: SessionTable,
    events: Seq<ServerSessionEvent>,
    event: ServerSessionEvent,
    mirrorings: nat,
)
    ensures
        ({
            let (before, fault) = table.apply_all(events, mirrorings);
            let (after, fault2) = table.apply_all(events.push(event), mirrorings);
            &&& fault is Some ==> after == before && fault2 == fault
            &&& fault is None && before.fault(event) is Some ==> after == before && fault2
                == before.fault(event)
            &&& fault is None && before.fault(event) is None ==> after == before.apply(
                event,
                mirrorings,
            ) && fault2 is None
        }),
{
    law_apply_all_in_two(table, events, seq![event], mirrorings);
    assert(events + seq![event] =~= events.push(event));
    let (before, fault) = table.apply_all(events, mirrorings);
    law_single_event_takes_effect(before, event, mirrorings);
}

/// Events about other sessions leave a session alone: it is connected as it was, and no address
/// leads to it that did not before.
pub proof fn law_unnamed_session_stays(
    table: SessionTable,
    events: Seq<ServerSessionEvent>,
    session_id: u64,
    addr: SocketAddr,
    mirrorings: nat,
)
    requires
        table.valid(mirrorings),
        forall|i: int|
            0 <= i < events.len() ==> (#[trigger] events[i]).session() != session_id,
    ensures
        ({
            let after = table.apply_all(events, mirrorings).0;
            &&& after.sessions.contains_key(session_id) <==> table.sessions.contains_key(
                session_id,
            )
            &&& table.sessions.contains_key(session_id) ==> after.sessions[session_id]
                == table.sessions[session_id]
            &&& after.routes.contains_key(addr) ==> table.routes.contains_key(addr)
                && after.routes[addr] == table.routes[addr]
        }),
    decreases events.len(),
{
    reveal_with_fuel(SessionTable::apply_all, 2);
    if events.len() > 0 && table.fault(events[0]) is None {
        let rest = events.drop_first();
        let next = table.apply(events[0], mirrorings);
        law_apply_keeps_valid(table, events[0], mirrorings);
        assert forall|i: int| 0 <= i < rest.len() implies (#[trigger] rest[i]).session()
            != session_id by {
            assert(rest[i] == events[i + 1]);
        }
        law_unnamed_session_stays(next, rest, session_id, addr, mirrorings);
    }
}

/// After a batch without a fault, a session that the batch is about is connected exactly if the
/// last event about it says so. If it is connected it has the cipher key of that event and no
/// address in its slots, and if it is not, no address leads to it.
pub proof fn law_last_event_decides(
    table: SessionTable,
    events: Seq<ServerSessionEvent>,
    last: int,
    session_id: u64,
    addr: SocketAddr,
    mirrorings: nat,
)
    requires
        table.valid(mirrorings),
        table.apply_all(events, mirrorings).1 is None,
        0 <= last < events.len(),
        events[last].session() == session_id,
        forall|i: int|
            last < i < events.len() ==> (#[trigger] events[i]).session() != session_id,
    ensures
        ({
            let after = table.apply_all(events, mirrorings).0;
            match events[last] {
                ServerSessionEvent::Connected { cipher_key, .. } => {
                    &&& after.sessions.contains_key(session_id)
                    &&& after.sessions[session_id].cipher_key == cipher_key
                    &&& after.sessions[session_id].socket_addrs.len() == mirrorings
                    &&& !after.sessions[session_id].socket_addrs.contains(Some(addr))
                },
                ServerSessionEvent::Disconnected { .. } => {
                    &&& !after.sessions.contains_key(session_id)
                    &&& !(after.routes.contains_key(addr) && after.routes[addr] == session_id)
                },
            }
        }),
{
    let first = events.take(last);
    let rest = events.skip(last + 1);
    let event = events[last];
    assert(events =~= first.push(event) + rest);
    law_apply_all_in_two(table, first.push(event), rest, mirrorings);
    law_events_take_effect_in_order(table, first, event, mirrorings);
    law_apply_all_keeps_valid(table, first, mirrorings);
    let (before, fault) = table.apply_all(first, mirrorings);
    let (middle, fault2) = table.apply_all(first.push(event), mirrorings);
    law_apply_keeps_valid(before, event, mirrorings);
    assert forall|i: int| 0 <= i < rest.len() implies (#[trigger] rest[i]).session()
        != session_id by {
        assert(rest[i] == events[last + 1 + i]);
    }
    law_unnamed_session_stays(middle, rest, session_id, addr, mirrorings);
    match event {
        ServerSessionEvent::Connected { .. } => {
            assert(!middle.sessions[session_id].socket_addrs.contains(Some(addr)));
        },
        ServerSessionEvent::Disconnected { .. } => {
            law_disconnected_session_is_gone(before, session_id, mirrorings, session_id, addr);
        },
    }
}

/// Sessions that no event of a batch is about stay where they are stored.
pub proof fn law_others_stay(
    before: Map<u64, u64>,
    after: Map<u64, u64>,
    events: Seq<ServerSessionEvent>,
    session_id: u64,
)
    requires
        others_stay(before, after, events),
        forall|i: int|
            0 <= i < events.len() ==> (#[trigger] events[i]).session() != session_id,
    ensures
        after.contains_key(session_id) <==> before.contains_key(session_id),
        before.contains_key(session_id) ==> after[session_id] == before[session_id],
        !names_session(events, session_id),
{
    assert(!names_session(events, session_id));
    if before.contains_key(session_id) {
        assert(after.contains_key(session_id));
    }
}

/// A batch stops at an event of it, the first that cannot be applied to what those before it have
/// left.
pub proof fn law_stops_at_first_fault(
    table: SessionTable,
    events: Seq<ServerSessionEvent>,
    index: int,
    mirrorings: nat,
)
    requires
        stops_at(table, events, index, mirrorings),
    ensures
        0 <= index < events.len(),
        table.apply_all(events.take(index), mirrorings).1 is None,
        table.apply_all(events.take(index), mirrorings).0.fault(events[index]) is Some,
        table.apply_all(events, mirrorings) == (
            table.apply_all(events.take(index), mirrorings).0,
            table.apply_all(events.take(index), mirrorings).0.fault(events[index]),
        ),
{
    let first = events.take(index);
    law_events_take_effect_in_order(table, first, events[index], mirrorings);
    law_apply_all_in_two(table, first.push(events[index]), events.skip(index + 1), mirrorings);
    assert(first.push(events[index]) + events.skip(index + 1) =~= events);
}

/// An address leads to the session that the table has for it, and to none if it has none.
pub proof fn law_route_is_looked_up(table: SessionTable, addr: SocketAddr, session_id: u64)
    ensures
        table.route(addr) == Some(session_id) <==> table.routes.contains_key(addr)
            && table.routes[addr] == session_id,
        table.route(addr) is None <==> !table.routes.contains_key(addr),
        !SessionTable::empty().routes.contains_key(addr),
        !SessionTable::empty().sessions.contains_key(session_id),
{
}

/// Mapping an address to a session makes it lead there and enters it in the slot; the address that
/// was in the slot leads nowhere, unless it is the same one. Every other address, slot and session
/// is as it was.
pub proof fn law_mapped_address_leads_there(
    table: SessionTable,
    session_id: u64,
    mirroring: int,
    addr: SocketAddr,
    other: SocketAddr,
    other_id: u64,
    slot: int,
)
    requires
        table.sessions.contains_key(session_id),
        0 <= mirroring < table.sessions[session_id].socket_addrs.len(),
    ensures
        ({
            let after = table.map_address(session_id, mirroring, addr);
            let old_slots = table.sessions[session_id].socket_addrs;
            let slots = after.sessions[session_id].socket_addrs;
            &&& after.routes.contains_key(addr)
            &&& after.routes[addr] == session_id
            &&& after.sessions.contains_key(session_id)
            &&& after.sessions[session_id].cipher_key == table.sessions[session_id].cipher_key
            &&& slots.len() == old_slots.len()
            &&& slots[mirroring] == Some(addr)
            &&& 0 <= slot < slots.len() && slot != mirroring ==> slots[slot] == old_slots[slot]
            &&& other != addr && old_slots[mirroring] == Some(other)
                ==> !after.routes.contains_key(other)
            &&& other != addr && old_slots[mirroring] != Some(other) ==> {
                &&& after.routes.contains_key(other) <==> table.routes.contains_key(other)
                &&& table.routes.contains_key(other) ==> after.routes[other]
                    == table.routes[other]
            }
            &&& other_id != session_id ==> {
                &&& after.sessions.contains_key(other_id) <==> table.sessions.contains_key(
                    other_id,
                )
                &&& table.sessions.contains_key(other_id) ==> after.sessions[other_id]
                    == table.sessions[other_id]
            }
        }),
{
}

/// A mapping datagram is refused if it is shorter than nine bytes, if its ninth byte names no
/// mirroring, or if the session that its first eight bytes name is not connected, in this order.
/// Else it maps the sender's address, and what was in the slot is reported.
pub proof fn law_what_comes_of_a_mapping(
    table: SessionTable,
    datagram: Seq<u8>,
    addr: SocketAddr,
    session_id: u64,
    mirrorings: nat,
)
    requires
        datagram.len() >= 9 ==> session_id == crate::table::mapping_session_id(datagram),
    ensures
        ({
            let outcome = table.mapping_outcome(datagram, mirrorings);
            let after = table.after_mapping(datagram, addr, mirrorings);
            let long = datagram.len() >= 9;
            let slot = datagram[8] as int;
            let exists_slot = slot < mirrorings;
            let known = table.sessions.contains_key(session_id);
            &&& !long ==> outcome == MappingOutcome::InvalidLength && after == table
            &&& long && !exists_slot ==> outcome == (MappingOutcome::InvalidMirroring {
                session_id,
            }) && after == table
            &&& long && exists_slot && !known ==> outcome == (MappingOutcome::UnknownSession {
                session_id,
            }) && after == table
            &&& long && exists_slot && known ==> outcome == (MappingOutcome::Mapped {
                session_id,
                mirroring: slot as usize,
                replaced: table.sessions[session_id].socket_addrs[slot],
            }) && after == table.map_address(session_id, slot, addr)
        }),
{
}

/// A datagram of the right length goes to the session that its address leads to, as one that came
/// when it came; from an address that leads nowhere it is dropped, and so it is at any other length.
pub proof fn law_what_comes_of_a_datagram(
    table: SessionTable,
    timestamp: u16,
    len: nat,
    addr: SocketAddr,
    datagram_size: nat,
)
    ensures
        ({
            let outcome = table.datagram_outcome(timestamp, len, addr, datagram_size);
            let known = table.routes.contains_key(addr);
            &&& outcome == DatagramOutcome::InvalidLength <==> len != datagram_size
            &&& outcome == DatagramOutcome::UnknownAddress <==> len == datagram_size && !known
            &&& len == datagram_size && known ==> outcome == (DatagramOutcome::Deliver {
                session_id: table.routes[addr],
                timestamp,
            })
        }),
{
}

/// The life of a session: once it has connected and mapped an address, datagrams from there are
/// its own; once it has disconnected, they belong to nobody, and it may connect again.
pub proof fn law_life_of_a_session(
    table: SessionTable,
    session_id: u64,
    cipher_key: u64,
    mirroring: int,
    addr: SocketAddr,
    timestamp: u16,
    datagram_size: nat,
    mirrorings: nat,
)
    requires
        table.valid(mirrorings),
        table.fault(ServerSessionEvent::Connected { session_id, cipher_key }) is None,
        0 <= mirroring < mirrorings,
    ensures
        ({
            let connect = ServerSessionEvent::Connected { session_id, cipher_key };
            let leave = ServerSessionEvent::Disconnected { session_id };
            let (there, fault) = table.apply_all(seq![connect], mirrorings);
            let mapped = there.map_address(session_id, mirroring, addr);
            let (gone, fault2) = mapped.apply_all(seq![leave], mirrorings);
            &&& fault is None && fault2 is None
            &&& mapped.datagram_outcome(timestamp, datagram_size, addr, datagram_size) == (
            DatagramOutcome::Deliver { session_id, timestamp })
            &&& gone.datagram_outcome(timestamp, datagram_size, addr, datagram_size)
                == DatagramOutcome::UnknownAddress
            &&& gone.fault(connect) is None
            &&& gone.fault(leave) == Some(SessionFault::UnknownSessionId { session_id })
        }),
{
    let connect = ServerSessionEvent::Connected { session_id, cipher_key };
    let leave = ServerSessionEvent::Disconnected { session_id };
    law_single_event_takes_effect(table, connect, mirrorings);
    let there = table.apply(connect, mirrorings);
    let mapped = there.map_address(session_id, mirroring, addr);
    law_single_event_takes_effect(mapped, leave, mirrorings);
    let slots = mapped.sessions[session_id].socket_addrs;
    assert(slots[mirroring] == Some(addr));
    assert(slots.contains(Some(addr)));
    let gone = mapped.apply(leave, mirrorings);
    assert(gone.sessions.dom() =~= table.sessions.dom());
}

} // verus!
