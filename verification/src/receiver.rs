//! The server's end of client-to-server traffic: which session a datagram belongs to.

use flume::Receiver;
use fnv::FnvHashMap;
use thunderdome::Arena;
use vstd::prelude::*;

use crate::addr::{SocketAddr, SocketAddrKey};
use crate::bytes::read_u64;
use crate::channel::{event_batches, receive_events};
use crate::storage::{
    addr_map_get, addr_map_insert, addr_map_remove, arena_get_mut, arena_insert, arena_len,
    arena_remove, arena_sessions, id_map_get, id_map_insert, id_map_remove, new_addr_map,
    new_arena, new_id_map, ReceiverSession, ENTRY_SIZE,
};
use crate::laws::law_apply_all_in_two;
use crate::table::{
    names_session, BatchFault, DatagramOutcome, EventFault, MappingOutcome, ServerSessionEvent,
    SessionFault, SessionRecord, SessionTable, MAPPING_SIZE, MAX_SESSIONS,
};

verus! {

/// Keeps track of the connected sessions and of the addresses that they send from, and tells
/// which session each datagram belongs to.
///
/// `DATAGRAM_SIZE` is the length of a datagram, and `MIRRORINGS` the number of paths that a
/// session may send over, each from an address of its own.
pub struct ClientToServerReceiver<const DATAGRAM_SIZE: usize, const MIRRORINGS: usize> {
    name: String,
    session_receiver: Receiver<ServerSessionEvent>,
    sessions: Arena<ReceiverSession>,
    session_id_to_session_map: FnvHashMap<u64, u64>,
    socket_addr_to_session_map: FnvHashMap<SocketAddrKey, u64>,
}

/// What the table says of a stored session.
spec fn record(session: ReceiverSession) -> SessionRecord {
    SessionRecord { cipher_key: session.cipher_key, socket_addrs: session.socket_addrs@ }
}

/// The table that an arena and the two maps into it stand for.
spec fn table_of(
    arena: Map<u64, ReceiverSession>,
    ids: Map<u64, u64>,
    addrs: Map<SocketAddrKey, u64>,
) -> SessionTable {
    SessionTable {
        sessions: Map::new(|id: u64| ids.contains_key(id), |id: u64| record(arena[ids[id]])),
        routes: Map::new(
            |addr: SocketAddr| addrs.contains_key(addr.spec_key()),
            |addr: SocketAddr| arena[addrs[addr.spec_key()]].session_id,
        ),
    }
}

/// The session has an address with this key in one of its slots.
spec fn lists_key(session: ReceiverSession, key: SocketAddrKey) -> bool {
    exists|addr: SocketAddr| #[trigger]
        addr.spec_key() == key && session.socket_addrs@.contains(Some(addr))
}

/// The slot holds an address with this key.
spec fn slot_has_key(slot: Option<SocketAddr>, key: SocketAddrKey) -> bool {
    slot is Some && slot->0.spec_key() == key
}

/// The session has an address with this key in one of its first `count` slots.
spec fn lists_key_before(session: ReceiverSession, count: int, key: SocketAddrKey) -> bool {
    exists|i: int|
        0 <= i < count && i < session.socket_addrs@.len() && slot_has_key(
            #[trigger] session.socket_addrs@[i],
            key,
        )
}

/// A session lists an address in one of its slots.
proof fn lemma_lists_key(session: ReceiverSession, key: SocketAddrKey)
    ensures
        lists_key_before(session, session.socket_addrs@.len() as int, key) <==> lists_key(
            session,
            key,
        ),
{
    let slots = session.socket_addrs@;
    if lists_key_before(session, slots.len() as int, key) {
        let i = choose|i: int|
            0 <= i < slots.len() && i < slots.len() && slot_has_key(#[trigger] slots[i], key);
        let addr = slots[i]->0;
        assert(slots.contains(Some(addr)));
        assert(addr.spec_key() == key);
    }
    if lists_key(session, key) {
        let addr = choose|addr: SocketAddr| #[trigger]
            addr.spec_key() == key && slots.contains(Some(addr));
        let i = choose|i: int| 0 <= i < slots.len() && slots[i] == Some(addr);
        assert(slot_has_key(slots[i], key));
    }
}

/// The identifiers and the entries of the arena belong to each other one to one, and every known
/// address leads to an entry that lists it.
spec fn linked(
    arena: Map<u64, ReceiverSession>,
    ids: Map<u64, u64>,
    addrs: Map<SocketAddrKey, u64>,
    mirrorings: nat,
) -> bool {
    &&& arena.dom().finite()
    &&& arena.dom().len() <= MAX_SESSIONS
    &&& forall|id: u64| #[trigger]
        ids.contains_key(id) ==> arena.contains_key(ids[id]) && arena[ids[id]].session_id == id
    &&& forall|bits: u64| #[trigger]
        arena.contains_key(bits) ==> ids.contains_key(arena[bits].session_id)
            && ids[arena[bits].session_id] == bits && arena[bits].socket_addrs@.len()
            == mirrorings
    &&& forall|key: SocketAddrKey| #[trigger]
        addrs.contains_key(key) ==> arena.contains_key(addrs[key]) && lists_key(
            arena[addrs[key]],
            key,
        )
}

/// There are as many identifiers as entries in the arena.
proof fn lemma_same_size(
    arena: Map<u64, ReceiverSession>,
    ids: Map<u64, u64>,
    addrs: Map<SocketAddrKey, u64>,
    mirrorings: nat,
)
    requires
        linked(arena, ids, addrs, mirrorings),
    ensures
        table_of(arena, ids, addrs).sessions.dom() == ids.dom(),
        ids.dom().finite(),
        ids.dom().len() == arena.dom().len(),
{
    let id_of = |bits: u64| arena[bits].session_id;
    assert(arena.dom().map(id_of) =~= ids.dom()) by {
        assert forall|id: u64| ids.dom().contains(id) implies arena.dom().map(id_of).contains(
            id,
        ) by {
            assert(ids.contains_key(id));
            assert(arena.dom().contains(ids[id]) && id_of(ids[id]) == id);
        }
        assert forall|id: u64| arena.dom().map(id_of).contains(id) implies ids.dom().contains(
            id,
        ) by {
            let bits = choose|bits: u64| arena.dom().contains(bits) && id == id_of(bits);
            assert(arena.contains_key(bits));
        }
    }
    assert(vstd::relations::injective_on(id_of, arena.dom())) by {
        assert forall|a: u64, b: u64|
            arena.dom().contains(a) && arena.dom().contains(b) && #[trigger] id_of(a)
                == #[trigger] id_of(b) implies a == b by {
            assert(arena.contains_key(a) && arena.contains_key(b));
        }
    }
    vstd::set_lib::lemma_map_size(arena.dom(), ids.dom(), id_of);
    assert(table_of(arena, ids, addrs).sessions.dom() =~= ids.dom());
}

/// What is stored stands for a valid table.
proof fn lemma_linked_is_valid(
    arena: Map<u64, ReceiverSession>,
    ids: Map<u64, u64>,
    addrs: Map<SocketAddrKey, u64>,
    mirrorings: nat,
)
    requires
        linked(arena, ids, addrs, mirrorings),
    ensures
        table_of(arena, ids, addrs).valid(mirrorings),
{
    let table = table_of(arena, ids, addrs);
    lemma_same_size(arena, ids, addrs, mirrorings);
    assert forall|addr: SocketAddr| #[trigger] table.routes.contains_key(addr) implies table.lists(
        table.routes[addr],
        addr,
    ) by {
        let key = addr.spec_key();
        assert(addrs.contains_key(key));
        let bits = addrs[key];
        let listed = choose|other: SocketAddr| #[trigger]
            other.spec_key() == key && arena[bits].socket_addrs@.contains(Some(other));
        assert(listed == addr);
    }
}

/// Entering a new session under a new index connects it in the table.
proof fn lemma_connect(
    arena: Map<u64, ReceiverSession>,
    ids: Map<u64, u64>,
    addrs: Map<SocketAddrKey, u64>,
    mirrorings: nat,
    bits: u64,
    session: ReceiverSession,
)
    requires
        linked(arena, ids, addrs, mirrorings),
        arena.dom().len() < MAX_SESSIONS,
        !arena.contains_key(bits),
        !ids.contains_key(session.session_id),
        session.socket_addrs@ == Seq::new(mirrorings, |i: int| None::<SocketAddr>),
    ensures
        linked(
            arena.insert(bits, session),
            ids.insert(session.session_id, bits),
            addrs,
            mirrorings,
        ),
        table_of(arena.insert(bits, session), ids.insert(session.session_id, bits), addrs)
            == table_of(arena, ids, addrs).connect(
            session.session_id,
            session.cipher_key,
            mirrorings,
        ),
{
    let arena2 = arena.insert(bits, session);
    let ids2 = ids.insert(session.session_id, bits);
    assert(linked(arena2, ids2, addrs, mirrorings));
    let before = table_of(arena, ids, addrs);
    let after = table_of(arena2, ids2, addrs);
    let expected = before.connect(session.session_id, session.cipher_key, mirrorings);
    assert(after.sessions =~= expected.sessions);
    assert(after.routes =~= expected.routes) by {
        assert forall|addr: SocketAddr| #[trigger]
            before.routes.contains_key(addr) implies after.routes[addr]
            == before.routes[addr] by {
            assert(addrs.contains_key(addr.spec_key()));
        }
    }
}

/// Taking out a session, its identifier and its addresses disconnects it in the table.
proof fn lemma_disconnect(
    arena: Map<u64, ReceiverSession>,
    ids: Map<u64, u64>,
    addrs: Map<SocketAddrKey, u64>,
    mirrorings: nat,
    session_id: u64,
    addrs2: Map<SocketAddrKey, u64>,
)
    requires
        linked(arena, ids, addrs, mirrorings),
        ids.contains_key(session_id),
        addrs2 == addrs.remove_keys(
            Set::new(|key: SocketAddrKey| lists_key(arena[ids[session_id]], key)),
        ),
    ensures
        linked(arena.remove(ids[session_id]), ids.remove(session_id), addrs2, mirrorings),
        table_of(arena.remove(ids[session_id]), ids.remove(session_id), addrs2) == table_of(
            arena,
            ids,
            addrs,
        ).disconnect(session_id),
{
    let bits = ids[session_id];
    let arena2 = arena.remove(bits);
    let ids2 = ids.remove(session_id);
    assert(linked(arena2, ids2, addrs2, mirrorings));
    let before = table_of(arena, ids, addrs);
    let after = table_of(arena2, ids2, addrs2);
    let expected = before.disconnect(session_id);
    assert(after.sessions =~= expected.sessions);
    assert forall|addr: SocketAddr|
        lists_key(arena[bits], #[trigger] addr.spec_key())
            <==> before.sessions[session_id].socket_addrs.contains(Some(addr)) by {
        if lists_key(arena[bits], addr.spec_key()) {
            let listed = choose|other: SocketAddr| #[trigger]
                other.spec_key() == addr.spec_key() && arena[bits].socket_addrs@.contains(
                    Some(other),
                );
            assert(listed == addr);
        }
    }
    assert(after.routes.dom() =~= expected.routes.dom());
    assert(after.routes =~= expected.routes) by {
        assert forall|addr: SocketAddr| #[trigger]
            after.routes.contains_key(addr) implies after.routes[addr]
            == before.routes[addr] by {
            let key = addr.spec_key();
            assert(addrs2.contains_key(key));
            assert(addrs.contains_key(key));
            assert(addrs[key] != bits);
        }
    }
}

/// Changing one slot of a session and the routes with it maps an address in the table.
proof fn lemma_map_address(
    arena: Map<u64, ReceiverSession>,
    ids: Map<u64, u64>,
    addrs: Map<SocketAddrKey, u64>,
    mirrorings: nat,
    session_id: u64,
    mirroring: int,
    addr: SocketAddr,
    session: ReceiverSession,
    addrs2: Map<SocketAddrKey, u64>,
)
    requires
        linked(arena, ids, addrs, mirrorings),
        ids.contains_key(session_id),
        0 <= mirroring < mirrorings,
        session.session_id == session_id,
        session.cipher_key == arena[ids[session_id]].cipher_key,
        session.socket_addrs@ == arena[ids[session_id]].socket_addrs@.update(
            mirroring,
            Some(addr),
        ),
        addrs2 == (match arena[ids[session_id]].socket_addrs@[mirroring] {
            Some(replaced) => addrs.remove(replaced.spec_key()),
            None => addrs,
        }).insert(addr.spec_key(), ids[session_id]),
    ensures
        linked(arena.insert(ids[session_id], session), ids, addrs2, mirrorings),
        table_of(arena.insert(ids[session_id], session), ids, addrs2) == table_of(
            arena,
            ids,
            addrs,
        ).map_address(session_id, mirroring, addr),
{
    let bits = ids[session_id];
    let arena2 = arena.insert(bits, session);
    let before = table_of(arena, ids, addrs);
    let after = table_of(arena2, ids, addrs2);
    let expected = before.map_address(session_id, mirroring, addr);
    let slots = arena[bits].socket_addrs@;
    assert(arena.contains_key(bits));
    assert(arena2.dom() =~= arena.dom());
    assert forall|key: SocketAddrKey| #[trigger]
        addrs2.contains_key(key) implies arena2.contains_key(addrs2[key]) && lists_key(
        arena2[addrs2[key]],
        key,
    ) by {
        if key == addr.spec_key() {
            assert(session.socket_addrs@[mirroring] == Some(addr));
            assert(session.socket_addrs@.contains(Some(addr)));
        } else {
            assert(addrs.contains_key(key));
            if addrs[key] == bits {
                let listed = choose|other: SocketAddr| #[trigger]
                    other.spec_key() == key && slots.contains(Some(other));
                let i = choose|i: int| 0 <= i < slots.len() && slots[i] == Some(listed);
                assert(i != mirroring);
                assert(session.socket_addrs@[i] == Some(listed));
                assert(session.socket_addrs@.contains(Some(listed)));
            }
        }
    }
    assert(linked(arena2, ids, addrs2, mirrorings));
    assert(after.sessions =~= expected.sessions);
    assert(after.routes.dom() =~= expected.routes.dom()) by {
        assert forall|other: SocketAddr|
            after.routes.contains_key(other) <==> expected.routes.contains_key(other) by {
            assert(before.routes.contains_key(other) <==> addrs.contains_key(other.spec_key()));
        }
    }
    assert(after.routes =~= expected.routes) by {
        assert forall|other: SocketAddr| #[trigger]
            after.routes.contains_key(other) implies after.routes[other]
            == expected.routes[other] by {
            if other != addr {
                assert(addrs.contains_key(other.spec_key()));
            }
        }
    }
}

/// The events before the one at `index` can be applied one after the other, and that one then
/// cannot.
pub open spec fn stops_at(
    table: SessionTable,
    events: Seq<ServerSessionEvent>,
    index: int,
    mirrorings: nat,
) -> bool {
    let (before, fault) = table.apply_all(events.take(index), mirrorings);
    &&& 0 <= index < events.len()
    &&& fault is None
    &&& before.fault(events[index]) is Some
}

/// Sessions that no event is about stay where they are stored.
pub open spec fn others_stay(
    before: Map<u64, u64>,
    after: Map<u64, u64>,
    events: Seq<ServerSessionEvent>,
) -> bool {
    forall|id: u64|
        !names_session(events, id) ==> {
            &&& #[trigger] after.contains_key(id) <==> before.contains_key(id)
            &&& before.contains_key(id) ==> after[id] == before[id]
        }
}

/// What a receiver attends to while it is polled.
#[derive(Clone, Copy, Debug, PartialEq, Eq, Structural)]
pub enum PollStage {
    /// The session events that are waiting.
    Events,
    /// The mapping datagrams that are waiting.
    Mappings,
    /// The datagrams that are waiting.
    Datagrams,
    /// Nothing more until the next poll.
    Done,
}

/// What a receiver attends to next. Session events come first, all at once; then one mapping
/// datagram after the other until none is waiting; then likewise the datagrams. `drained` says
/// that the stage found nothing more to attend to.
pub fn poll_step(stage: PollStage, drained: bool) -> (next: PollStage)
    ensures
        !(next is Events),
        next is Mappings <==> stage is Events || stage is Mappings && !drained,
        next is Datagrams <==> stage is Mappings && drained || stage is Datagrams && !drained,
        next is Done <==> stage is Datagrams && drained || stage is Done,
{
    match stage {
        PollStage::Events => PollStage::Mappings,
        PollStage::Mappings => {
            if drained {
                PollStage::Datagrams
            } else {
                PollStage::Mappings
            }
        },
        PollStage::Datagrams => {
            if drained {
                PollStage::Done
            } else {
                PollStage::Datagrams
            }
        },
        PollStage::Done => PollStage::Done,
    }
}

impl<const DATAGRAM_SIZE: usize, const MIRRORINGS: usize> ClientToServerReceiver<
    DATAGRAM_SIZE,
    MIRRORINGS,
> {
    /// The name that the receiver was made with.
    pub closed spec fn spec_name(&self) -> Seq<char> {
        self.name@
    }

    /// The handle that the session events come through.
    pub closed spec fn end(&self) -> Receiver<ServerSessionEvent> {
        self.session_receiver
    }

    /// The session events that the receiver has taken from its channel, one batch for each time
    /// that it was polled for them, in order.
    pub closed spec fn batches(&self) -> Seq<Seq<ServerSessionEvent>> {
        event_batches(self.session_receiver)
    }

    /// The connected sessions and the addresses that lead to them.
    pub closed spec fn table(&self) -> SessionTable {
        table_of(
            arena_sessions(self.sessions),
            self.session_id_to_session_map@,
            self.socket_addr_to_session_map@,
        )
    }

    /// What is stored of each session, each under an index of its own.
    pub closed spec fn stored(&self) -> Map<u64, ReceiverSession> {
        arena_sessions(self.sessions)
    }

    /// The index that each connected session is stored under.
    pub closed spec fn session_indices(&self) -> Map<u64, u64> {
        self.session_id_to_session_map@
    }

    /// The index of the session that each known address leads to, by the key of the address.
    pub closed spec fn address_indices(&self) -> Map<SocketAddrKey, u64> {
        self.socket_addr_to_session_map@
    }

    /// The collections agree with each other.
    pub closed spec fn wf(&self) -> bool {
        linked(
            arena_sessions(self.sessions),
            self.session_id_to_session_map@,
            self.socket_addr_to_session_map@,
            MIRRORINGS as nat,
        )
    }

    /// The table of a receiver is valid: every route leads to a connected session that lists the
    /// address.
    pub proof fn lemma_table_valid(&self)
        requires
            self.wf(),
        ensures
            self.table().valid(MIRRORINGS as nat),
    {
        lemma_linked_is_valid(
            arena_sessions(self.sessions),
            self.session_id_to_session_map@,
            self.socket_addr_to_session_map@,
            MIRRORINGS as nat,
        );
    }

    /// Connected identifiers and stored sessions belong to each other one to one: each identifier
    /// has exactly one stored session, which the table speaks of, no two identifiers share one,
    /// and none is stored without an identifier. Every known address leads to a stored session.
    pub proof fn lemma_one_session_per_identifier(&self)
        requires
            self.wf(),
        ensures
            self.session_indices().dom() == self.table().sessions.dom(),
            self.stored().dom().finite(),
            self.stored().dom().len() == self.table().sessions.dom().len(),
            forall|id: u64| #[trigger]
                self.table().sessions.contains_key(id) ==> {
                    let bits = self.session_indices()[id];
                    &&& self.stored().contains_key(bits)
                    &&& self.stored()[bits].session_id == id
                    &&& self.stored()[bits].cipher_key == self.table().sessions[id].cipher_key
                    &&& self.stored()[bits].socket_addrs@
                        == self.table().sessions[id].socket_addrs
                },
            forall|id: u64, other: u64|
                self.table().sessions.contains_key(id) && self.table().sessions.contains_key(other)
                    && id != other ==> #[trigger] self.session_indices()[id]
                    != #[trigger] self.session_indices()[other],
            forall|bits: u64| #[trigger]
                self.stored().contains_key(bits) ==> {
                    let id = self.stored()[bits].session_id;
                    &&& self.table().sessions.contains_key(id)
                    &&& self.session_indices()[id] == bits
                },
            forall|addr: SocketAddr| #[trigger]
                self.table().routes.contains_key(addr) <==> self.address_indices().contains_key(
                    addr.spec_key(),
                ),
            forall|addr: SocketAddr| #[trigger]
                self.table().routes.contains_key(addr) ==> {
                    let bits = self.address_indices()[addr.spec_key()];
                    &&& self.stored().contains_key(bits)
                    &&& self.stored()[bits].session_id == self.table().routes[addr]
                },
    {
        lemma_same_size(
            arena_sessions(self.sessions),
            self.session_id_to_session_map@,
            self.socket_addr_to_session_map@,
            MIRRORINGS as nat,
        );
        let ids = self.session_id_to_session_map@;
        let arena = arena_sessions(self.sessions);
        assert forall|id: u64, other: u64|
            self.table().sessions.contains_key(id) && self.table().sessions.contains_key(other)
                && id != other implies #[trigger] self.session_indices()[id]
            != #[trigger] self.session_indices()[other] by {
            assert(arena[ids[id]].session_id == id);
            assert(arena[ids[other]].session_id == other);
        }
    }

    /// A receiver that knows of no session yet and will hear of them through `session_receiver`.
    /// Room is made ahead for `session_capacity` sessions.
    pub fn new(
        name: String,
        session_capacity: usize,
        session_receiver: Receiver<ServerSessionEvent>,
    ) -> (receiver: Self)
        requires
            session_capacity * ENTRY_SIZE <= isize::MAX,
            session_capacity * MIRRORINGS * ENTRY_SIZE <= isize::MAX,
        ensures
            receiver.wf(),
            receiver.spec_name() == name@,
            receiver.batches() == event_batches(session_receiver),
            receiver.end() == session_receiver,
            receiver.table() == SessionTable::empty(),
            receiver.stored().dom() == Set::<u64>::empty(),
            receiver.session_indices() == Map::<u64, u64>::empty(),
            receiver.address_indices() == Map::<SocketAddrKey, u64>::empty(),
    {
        assert(session_capacity * MIRRORINGS <= usize::MAX) by (nonlinear_arith)
            requires
                session_capacity * MIRRORINGS * ENTRY_SIZE <= isize::MAX,
                ENTRY_SIZE == 256,
                isize::MAX <= usize::MAX,
        ;
        let receiver = ClientToServerReceiver {
            name,
            session_receiver,
            sessions: new_arena(session_capacity),
            session_id_to_session_map: new_id_map(session_capacity),
            socket_addr_to_session_map: new_addr_map(session_capacity * MIRRORINGS),
        };
        assert(receiver.table() =~= SessionTable::empty());
        receiver
    }

    /// Enters a session that is not connected yet, without any address.
    fn connect(&mut self, session_id: u64, cipher_key: u64)
        requires
            old(self).wf(),
            old(self).table().sessions.dom().len() < MAX_SESSIONS,
            !old(self).table().sessions.contains_key(session_id),
        ensures
            final(self).wf(),
            final(self).spec_name() == old(self).spec_name(),
            final(self).batches() == old(self).batches(),
            final(self).end() == old(self).end(),
            final(self).table() == old(self).table().connect(
                session_id,
                cipher_key,
                MIRRORINGS as nat,
            ),
            final(self).session_indices() == old(self).session_indices().insert(
                session_id,
                final(self).session_indices()[session_id],
            ),
            !old(self).stored().contains_key(final(self).session_indices()[session_id]),
            final(self).address_indices() == old(self).address_indices(),
    {
        let ghost arena = arena_sessions(self.sessions);
        let ghost ids = self.session_id_to_session_map@;
        let ghost addrs = self.socket_addr_to_session_map@;
        let mut socket_addrs: Vec<Option<SocketAddr>> = Vec::new();
        let mut i: usize = 0;
        while i < MIRRORINGS
            invariant
                i <= MIRRORINGS,
                socket_addrs@ == Seq::new(i as nat, |j: int| None::<SocketAddr>),
            decreases MIRRORINGS - i,
        {
            socket_addrs.push(None);
            i = i + 1;
        }
        let session = ReceiverSession { session_id, cipher_key, socket_addrs };
        proof {
            lemma_same_size(arena, ids, addrs, MIRRORINGS as nat);
        }
        let bits: u64 = arena_insert(&mut self.sessions, session);
        id_map_insert(&mut self.session_id_to_session_map, session_id, bits);
        proof {
            lemma_connect(arena, ids, addrs, MIRRORINGS as nat, bits, session);
        }
    }

    /// Takes out a connected session, and with it every address that it listed.
    fn disconnect(&mut self, session_id: u64)
        requires
            old(self).wf(),
            old(self).table().sessions.contains_key(session_id),
        ensures
            final(self).wf(),
            final(self).spec_name() == old(self).spec_name(),
            final(self).batches() == old(self).batches(),
            final(self).end() == old(self).end(),
            final(self).table() == old(self).table().disconnect(session_id),
            final(self).session_indices() == old(self).session_indices().remove(session_id),
            final(self).address_indices().submap_of(old(self).address_indices()),
    {
        let ghost arena = arena_sessions(self.sessions);
        let ghost ids = self.session_id_to_session_map@;
        let ghost addrs = self.socket_addr_to_session_map@;
        assert(ids.contains_key(session_id));
        let removed: Option<u64> = id_map_remove(&mut self.session_id_to_session_map, session_id);
        if let Some(bits) = removed {
            let taken: Option<ReceiverSession> = arena_remove(&mut self.sessions, bits);
            if let Some(session) = taken {
                let mut i: usize = 0;
                let ghost name = self.name@;
                let ghost batches = self.batches();
                let ghost arena2 = arena_sessions(self.sessions);
                let ghost ids2 = self.session_id_to_session_map@;
                assert(addrs =~= addrs.remove_keys(
                    Set::new(|key: SocketAddrKey| lists_key_before(session, 0, key)),
                ));
                while i < session.socket_addrs.len()
                    invariant
                        i <= session.socket_addrs@.len(),
                        self.name@ == name,
                        self.batches() == batches,
                        self.end() == old(self).end(),
                        arena_sessions(self.sessions) == arena2,
                        self.session_id_to_session_map@ == ids2,
                        self.socket_addr_to_session_map@ == addrs.remove_keys(
                            Set::new(
                                |key: SocketAddrKey| lists_key_before(session, i as int, key),
                            ),
                        ),
                    decreases session.socket_addrs@.len() - i,
                {
                    let ghost before = self.socket_addr_to_session_map@;
                    if let Some(socket_addr) = session.socket_addrs[i] {
                        addr_map_remove(&mut self.socket_addr_to_session_map, socket_addr.key());
                    }
                    proof {
                        let after = self.socket_addr_to_session_map@;
                        assert forall|key: SocketAddrKey|
                            lists_key_before(session, i + 1, key) <==> (lists_key_before(
                                session,
                                i as int,
                                key,
                            ) || (session.socket_addrs@[i as int] matches Some(addr)
                                && addr.spec_key() == key)) by {
                            if session.socket_addrs@[i as int] is Some {
                                let addr = session.socket_addrs@[i as int]->0;
                                if addr.spec_key() == key {
                                    assert(slot_has_key(session.socket_addrs@[i as int], key));
                                }
                            }
                        }
                        assert(after =~= addrs.remove_keys(
                            Set::new(|key: SocketAddrKey| lists_key_before(session, i + 1, key)),
                        ));
                    }
                    i = i + 1;
                }
                proof {
                    assert forall|key: SocketAddrKey|
                        lists_key_before(session, i as int, key) <==> lists_key(session, key) by {
                        lemma_lists_key(session, key);
                    }
                    let addrs2 = self.socket_addr_to_session_map@;
                    assert(addrs2 =~= addrs.remove_keys(
                        Set::new(|key: SocketAddrKey| lists_key(arena[ids[session_id]], key)),
                    ));
                    lemma_disconnect(arena, ids, addrs, MIRRORINGS as nat, session_id, addrs2);
                }
            }
        }
    }

    /// Applies one session event, or says why it cannot be applied and changes nothing.
    pub fn apply_session_event(&mut self, event: ServerSessionEvent) -> (result: Result<
        (),
        SessionFault,
    >)
        requires
            old(self).wf(),
        ensures
            final(self).wf(),
            final(self).spec_name() == old(self).spec_name(),
            final(self).batches() == old(self).batches(),
            final(self).end() == old(self).end(),
            result == (match old(self).table().fault(event) {
                Some(fault) => Err::<(), SessionFault>(fault),
                None => Ok(()),
            }),
            final(self).table() == if result is Ok {
                old(self).table().apply(event, MIRRORINGS as nat)
            } else {
                old(self).table()
            },
            result is Err ==> {
                &&& final(self).stored() == old(self).stored()
                &&& final(self).session_indices() == old(self).session_indices()
                &&& final(self).address_indices() == old(self).address_indices()
            },
            result is Ok ==> match event {
                ServerSessionEvent::Connected { session_id, .. } => {
                    let bits = final(self).session_indices()[session_id];
                    &&& final(self).session_indices() == old(self).session_indices().insert(
                        session_id,
                        bits,
                    )
                    &&& !old(self).stored().contains_key(bits)
                    &&& final(self).address_indices() == old(self).address_indices()
                },
                ServerSessionEvent::Disconnected { session_id } => {
                    &&& final(self).session_indices() == old(self).session_indices().remove(
                        session_id,
                    )
                    &&& final(self).address_indices().submap_of(old(self).address_indices())
                },
            },
    {
        proof {
            lemma_same_size(
                arena_sessions(self.sessions),
                self.session_id_to_session_map@,
                self.socket_addr_to_session_map@,
                MIRRORINGS as nat,
            );
        }
        match event {
            ServerSessionEvent::Connected { session_id, cipher_key } => {
                if arena_len(&self.sessions) >= MAX_SESSIONS as usize {
                    return Err(SessionFault::TooManySessions { session_id });
                }
                if id_map_get(&self.session_id_to_session_map, session_id).is_some() {
                    return Err(SessionFault::DuplicateSessionId { session_id });
                }
                self.connect(session_id, cipher_key);
                Ok(())
            },
            ServerSessionEvent::Disconnected { session_id } => {
                if id_map_get(&self.session_id_to_session_map, session_id).is_none() {
                    return Err(SessionFault::UnknownSessionId { session_id });
                }
                self.disconnect(session_id);
                Ok(())
            },
        }
    }

    /// Applies session events in order, up to the first that cannot be applied.
    pub fn apply_session_events(&mut self, session_events: &Vec<ServerSessionEvent>) -> (result:
        Result<(), EventFault>)
        requires
            old(self).wf(),
        ensures
            final(self).wf(),
            final(self).spec_name() == old(self).spec_name(),
            final(self).batches() == old(self).batches(),
            final(self).end() == old(self).end(),
            ({
                let (table, fault) = old(self).table().apply_all(
                    session_events@,
                    MIRRORINGS as nat,
                );
                &&& final(self).table() == table
                &&& match result {
                    Ok(()) => fault is None,
                    Err(found) => {
                        &&& fault == Some(found.fault)
                        &&& stops_at(
                            old(self).table(),
                            session_events@,
                            found.index as int,
                            MIRRORINGS as nat,
                        )
                    },
                }
            }),
            others_stay(
                old(self).session_indices(),
                final(self).session_indices(),
                session_events@,
            ),
            final(self).address_indices().submap_of(old(self).address_indices()),
    {
        let ghost all = session_events@;
        let mut i: usize = 0;
        while i < session_events.len()
            invariant
                i <= session_events@.len(),
                session_events@ == all,
                self.wf(),
                self.spec_name() == old(self).spec_name(),
                self.batches() == old(self).batches(),
                self.end() == old(self).end(),
                old(self).table().apply_all(all.take(i as int), MIRRORINGS as nat) == (
                    self.table(),
                    None::<SessionFault>,
                ),
                others_stay(old(self).session_indices(), self.session_indices(), all),
                self.address_indices().submap_of(old(self).address_indices()),
            decreases session_events@.len() - i,
        {
            let ghost routes = self.address_indices();
            let ghost next = seq![all[i as int]];
            proof {
                law_apply_all_in_two(
                    old(self).table(),
                    all.take(i as int),
                    all.skip(i as int),
                    MIRRORINGS as nat,
                );
                assert(all.take(i as int) + all.skip(i as int) =~= all);
                assert(all.skip(i as int)[0] == all[i as int]);
                law_apply_all_in_two(old(self).table(), all.take(i as int), next, MIRRORINGS as nat);
                assert(all.take(i as int) + next =~= all.take(i + 1));
                reveal_with_fuel(SessionTable::apply_all, 2);
                assert(names_session(all, all[i as int].session()));
            }
            let applied: Result<(), SessionFault> = self.apply_session_event(session_events[i]);
            if let Err(fault) = applied {
                return Err(EventFault { index: i, fault });
            }
            assert(self.address_indices().submap_of(routes));
            assert forall|key: SocketAddrKey| #[trigger]
                self.address_indices().dom().contains(key) implies old(
                self,
            ).address_indices().dom().contains(key) && self.address_indices()[key] == old(
                self,
            ).address_indices()[key] by {
                assert(routes.dom().contains(key));
            }
            i = i + 1;
        }
        assert(all.take(i as int) =~= all);
        Ok(())
    }

    /// Takes the session events that are waiting in the channel, applies them, and gives them back
    /// in order.
    /// An event that cannot be applied ends this with its fault, and the events come back with it.
    pub fn poll_server_session_events(&mut self, _timestamp: u16) -> (result: Result<
        Vec<ServerSessionEvent>,
        BatchFault,
    >)
        requires
            old(self).wf(),
        ensures
            final(self).wf(),
            final(self).spec_name() == old(self).spec_name(),
            ({
                let taken = final(self).batches().last();
                let (table, fault) = old(self).table().apply_all(taken, MIRRORINGS as nat);
                &&& final(self).batches() == old(self).batches().push(taken)
                &&& event_batches(final(self).end()) == event_batches(old(self).end()).push(taken)
                &&& final(self).table() == table
                &&& match result {
                    Ok(events) => fault is None && events@ == taken,
                    Err(found) => {
                        &&& fault == Some(found.fault)
                        &&& found.events@ == taken
                        &&& stops_at(
                            old(self).table(),
                            taken,
                            found.index as int,
                            MIRRORINGS as nat,
                        )
                    },
                }
                &&& others_stay(
                    old(self).session_indices(),
                    final(self).session_indices(),
                    taken,
                )
            }),
            final(self).address_indices().submap_of(old(self).address_indices()),
    {
        let session_events: Vec<ServerSessionEvent> = receive_events(&mut self.session_receiver);
        match self.apply_session_events(&session_events) {
            Ok(()) => Ok(session_events),
            Err(EventFault { index, fault }) => Err(
                BatchFault { events: session_events, index, fault },
            ),
        }
    }

    /// Handles one datagram from a client that asks to be reached at the address that it was sent
    /// from: eight bytes of session identifier, lowest first, and one byte of mirroring.
    pub fn poll_for_client_socket_addresses(
        &mut self,
        datagram: &[u8],
        socket_addr: SocketAddr,
    ) -> (outcome: MappingOutcome)
        requires
            old(self).wf(),
        ensures
            final(self).wf(),
            final(self).spec_name() == old(self).spec_name(),
            final(self).batches() == old(self).batches(),
            final(self).end() == old(self).end(),
            outcome == old(self).table().mapping_outcome(datagram@, MIRRORINGS as nat),
            final(self).table() == old(self).table().after_mapping(
                datagram@,
                socket_addr,
                MIRRORINGS as nat,
            ),
            final(self).session_indices() == old(self).session_indices(),
            final(self).stored().dom() == old(self).stored().dom(),
            final(self).address_indices() == match outcome {
                MappingOutcome::Mapped { session_id, replaced, .. } => (match replaced {
                    Some(addr) => old(self).address_indices().remove(addr.spec_key()),
                    None => old(self).address_indices(),
                }).insert(socket_addr.spec_key(), old(self).session_indices()[session_id]),
                _ => old(self).address_indices(),
            },
    {
        if datagram.len() < MAPPING_SIZE {
            return MappingOutcome::InvalidLength;
        }
        let session_id: u64 = read_u64(datagram, 0);
        let mirroring: usize = datagram[8] as usize;
        if mirroring >= MIRRORINGS {
            return MappingOutcome::InvalidMirroring { session_id };
        }
        let ghost arena = arena_sessions(self.sessions);
        let ghost ids = self.session_id_to_session_map@;
        let ghost addrs = self.socket_addr_to_session_map@;
        let bits: u64 = match id_map_get(&self.session_id_to_session_map, session_id) {
            Some(bits) => bits,
            None => {
                return MappingOutcome::UnknownSession { session_id };
            },
        };
        assert(ids.contains_key(session_id));
        assert(arena.contains_key(bits));
        let replaced: Option<SocketAddr> = match arena_get_mut(&mut self.sessions, bits) {
            Some(session) => {
                let before: Option<SocketAddr> = session.socket_addrs[mirroring];
                session.socket_addrs[mirroring] = Some(socket_addr);
                before
            },
            None => {
                return MappingOutcome::UnknownSession { session_id };
            },
        };
        if let Some(old_addr) = replaced {
            addr_map_remove(&mut self.socket_addr_to_session_map, old_addr.key());
        }
        addr_map_insert(&mut self.socket_addr_to_session_map, socket_addr.key(), bits);
        proof {
            lemma_map_address(
                arena,
                ids,
                addrs,
                MIRRORINGS as nat,
                session_id,
                mirroring as int,
                socket_addr,
                arena_sessions(self.sessions)[bits],
                self.socket_addr_to_session_map@,
            );
        }
        MappingOutcome::Mapped { session_id, mirroring, replaced }
    }

    /// Says what is to be done with one datagram that came from `socket_addr` at `timestamp`.
    pub fn poll_for_client_datagrams(
        &mut self,
        timestamp: u16,
        datagram: &[u8],
        socket_addr: SocketAddr,
    ) -> (outcome: DatagramOutcome)
        requires
            old(self).wf(),
        ensures
            final(self).wf(),
            final(self).spec_name() == old(self).spec_name(),
            final(self).batches() == old(self).batches(),
            final(self).end() == old(self).end(),
            final(self).table() == old(self).table(),
            final(self).stored() == old(self).stored(),
            final(self).session_indices() == old(self).session_indices(),
            final(self).address_indices() == old(self).address_indices(),
            outcome == old(self).table().datagram_outcome(
                timestamp,
                datagram@.len(),
                socket_addr,
                DATAGRAM_SIZE as nat,
            ),
    {
        if datagram.len() != DATAGRAM_SIZE {
            return DatagramOutcome::InvalidLength;
        }
        let bits: u64 = match addr_map_get(&self.socket_addr_to_session_map, socket_addr.key()) {
            Some(bits) => bits,
            None => {
                return DatagramOutcome::UnknownAddress;
            },
        };
        let ghost arena = arena_sessions(self.sessions);
        assert(self.socket_addr_to_session_map@.contains_key(socket_addr.spec_key()));
        assert(arena.contains_key(bits));
        let session_id: u64 = match arena_get_mut(&mut self.sessions, bits) {
            Some(session) => session.session_id,
            None => {
                return DatagramOutcome::UnknownAddress;
            },
        };
        assert(arena_sessions(self.sessions) =~= arena);
        DatagramOutcome::Deliver { session_id, timestamp }
    }

    /// The index that each connected session is stored under.
    pub fn session_id_to_session_map(&self) -> (map: &FnvHashMap<u64, u64>)
        ensures
            map@ == self.session_indices(),
    {
        &self.session_id_to_session_map
    }

    /// The index of the session that each known address leads to, by the key of the address.
    pub fn socket_addr_to_session_map(&self) -> (map: &FnvHashMap<SocketAddrKey, u64>)
        ensures
            map@ == self.address_indices(),
    {
        &self.socket_addr_to_session_map
    }

    /// The name that the receiver was made with.
    pub fn name(&self) -> (name: &str)
        ensures
            name@ == self.spec_name(),
    {
        self.name.as_str()
    }
}

} // verus!
