//! What a receiver knows of its sessions, and how each event changes it.

use vstd::prelude::*;

use crate::addr::SocketAddr;
use crate::bytes::le_value;

verus! {

/// A change in the set of connected sessions.
#[derive(Clone, Copy, Debug, PartialEq, Eq, Structural)]
pub enum ServerSessionEvent {
    Connected { session_id: u64, cipher_key: u64 },
    Disconnected { session_id: u64 },
}

impl ServerSessionEvent {
    /// The session that the event is about.
    pub open spec fn session(self) -> u64 {
        match self {
            ServerSessionEvent::Connected { session_id, .. } => session_id,
            ServerSessionEvent::Disconnected { session_id } => session_id,
        }
    }
}

/// One of the events is about the session.
pub open spec fn names_session(events: Seq<ServerSessionEvent>, session_id: u64) -> bool {
    exists|i: int| 0 <= i < events.len() && (#[trigger] events[i]).session() == session_id
}

/// Why an event cannot be applied.
#[derive(Clone, Copy, Debug, PartialEq, Eq, Structural)]
pub enum SessionFault {
    /// The session that connects is connected already.
    DuplicateSessionId { session_id: u64 },
    /// The session that disconnects is not connected.
    UnknownSessionId { session_id: u64 },
    /// There is no room for another session.
    TooManySessions { session_id: u64 },
}

impl SessionFault {
    /// What is wrong, in words.
    pub open spec fn spec_message(self) -> Seq<char> {
        match self {
            SessionFault::DuplicateSessionId { .. } => "Duplicate Session ID"@,
            SessionFault::UnknownSessionId { .. } => "Unknown Session ID"@,
            SessionFault::TooManySessions { .. } => "Cannot insert more than u32::MAX elements into Arena"@,
        }
    }

    /// What is wrong, in words.
    pub fn message(&self) -> (text: &'static str)
        ensures
            text@ == self.spec_message(),
    {
        match self {
            SessionFault::DuplicateSessionId { .. } => "Duplicate Session ID",
            SessionFault::UnknownSessionId { .. } => "Unknown Session ID",
            SessionFault::TooManySessions { .. } => "Cannot insert more than u32::MAX elements into Arena",
        }
    }
}

/// Which event of some could not be applied, and why.
#[derive(Clone, Copy, Debug, PartialEq, Eq, Structural)]
pub struct EventFault {
    pub index: usize,
    pub fault: SessionFault,
}

/// The events of a batch of which one could not be applied, which one that is, and why.
#[derive(Debug, PartialEq, Eq)]
pub struct BatchFault {
    pub events: Vec<ServerSessionEvent>,
    pub index: usize,
    pub fault: SessionFault,
}

/// What came of a datagram that asks to map an address to a session.
#[derive(Clone, Copy, Debug, PartialEq, Eq, Structural)]
pub enum MappingOutcome {
    /// The datagram is too short to hold a session and a mirroring.
    InvalidLength,
    /// The datagram names a mirroring that does not exist.
    InvalidMirroring { session_id: u64 },
    /// The datagram names a session that is not connected.
    UnknownSession { session_id: u64 },
    /// The session is now reached at the sender's address, instead of at `replaced`.
    Mapped { session_id: u64, mirroring: usize, replaced: Option<SocketAddr> },
}

/// What is to be done with a datagram.
#[derive(Clone, Copy, Debug, PartialEq, Eq, Structural)]
pub enum DatagramOutcome {
    /// Dropped: it does not have the length of a datagram.
    InvalidLength,
    /// Dropped: no session is mapped to the sender's address.
    UnknownAddress,
    /// The receiver of this session handles it, as one that came at this time.
    Deliver { session_id: u64, timestamp: u16 },
}

/// The most sessions that may be connected at one time.
pub const MAX_SESSIONS: u32 = 0xffff_ffff;

/// The shortest mapping datagram: eight bytes of session identifier and one of mirroring.
pub const MAPPING_SIZE: usize = 9;

/// What is known of one connected session: its cipher key, and the address that it was last
/// reached at for each mirroring.
#[verifier::ext_equal]
pub struct SessionRecord {
    pub cipher_key: u64,
    pub socket_addrs: Seq<Option<SocketAddr>>,
}

/// The connected sessions by identifier, and the session that each known address belongs to.
#[verifier::ext_equal]
pub struct SessionTable {
    pub sessions: Map<u64, SessionRecord>,
    pub routes: Map<SocketAddr, u64>,
}

/// The session that a mapping datagram speaks of.
pub open spec fn mapping_session_id(datagram: Seq<u8>) -> u64 {
    le_value(datagram.subrange(0, 8)) as u64
}

/// The mirroring that a mapping datagram speaks of.
pub open spec fn mapping_mirroring(datagram: Seq<u8>) -> usize {
    datagram[8] as usize
}

impl SessionTable {
    /// No session at all.
    pub open spec fn empty() -> SessionTable {
        SessionTable { sessions: Map::empty(), routes: Map::empty() }
    }

    /// Every session has one address slot for each mirroring, and every route leads to a
    /// connected session that lists the address.
    pub open spec fn valid(self, mirrorings: nat) -> bool {
        &&& self.sessions.dom().finite()
        &&& self.sessions.dom().len() <= MAX_SESSIONS
        &&& forall|id: u64| #[trigger]
            self.sessions.contains_key(id) ==> self.sessions[id].socket_addrs.len() == mirrorings
        &&& forall|addr: SocketAddr| #[trigger]
            self.routes.contains_key(addr) ==> self.lists(self.routes[addr], addr)
    }

    /// The session is connected and has the address in one of its slots.
    pub open spec fn lists(self, session_id: u64, addr: SocketAddr) -> bool {
        &&& self.sessions.contains_key(session_id)
        &&& self.sessions[session_id].socket_addrs.contains(Some(addr))
    }

    /// The session that a datagram from `addr` belongs to.
    pub open spec fn route(self, addr: SocketAddr) -> Option<u64> {
        if self.routes.contains_key(addr) {
            Some(self.routes[addr])
        } else {
            None
        }
    }

    /// The table once the session has connected: it has no address yet.
    pub open spec fn connect(self, session_id: u64, cipher_key: u64, mirrorings: nat) -> Self {
        SessionTable {
            sessions: self.sessions.insert(
                session_id,
                SessionRecord {
                    cipher_key,
                    socket_addrs: Seq::new(mirrorings, |i: int| None),
                },
            ),
            routes: self.routes,
        }
    }

    /// The table once the session has disconnected: it is gone, and so is the route of every
    /// address that it listed.
    pub open spec fn disconnect(self, session_id: u64) -> Self {
        let addrs = self.sessions[session_id].socket_addrs;
        SessionTable {
            sessions: self.sessions.remove(session_id),
            routes: self.routes.remove_keys(
                Set::new(|addr: SocketAddr| addrs.contains(Some(addr))),
            ),
        }
    }

    /// The table once the session is reached at `addr` for `mirroring`: the address that it had
    /// there before loses its route, and `addr` leads to the session.
    pub open spec fn map_address(
        self,
        session_id: u64,
        mirroring: int,
        addr: SocketAddr,
    ) -> Self {
        let record = self.sessions[session_id];
        let kept = match record.socket_addrs[mirroring] {
            Some(replaced) => self.routes.remove(replaced),
            None => self.routes,
        };
        SessionTable {
            sessions: self.sessions.insert(
                session_id,
                SessionRecord {
                    cipher_key: record.cipher_key,
                    socket_addrs: record.socket_addrs.update(mirroring, Some(addr)),
                },
            ),
            routes: kept.insert(addr, session_id),
        }
    }

    /// Why `event` cannot be applied, if it cannot.
    pub open spec fn fault(self, event: ServerSessionEvent) -> Option<SessionFault> {
        match event {
            ServerSessionEvent::Connected { session_id, .. } => {
                if self.sessions.dom().len() >= MAX_SESSIONS {
                    Some(SessionFault::TooManySessions { session_id })
                } else if self.sessions.contains_key(session_id) {
                    Some(SessionFault::DuplicateSessionId { session_id })
                } else {
                    None
                }
            },
            ServerSessionEvent::Disconnected { session_id } => {
                if self.sessions.contains_key(session_id) {
                    None
                } else {
                    Some(SessionFault::UnknownSessionId { session_id })
                }
            },
        }
    }

    /// The table once `event` has been applied.
    pub open spec fn apply(self, event: ServerSessionEvent, mirrorings: nat) -> Self {
        match event {
            ServerSessionEvent::Connected { session_id, cipher_key } => self.connect(
                session_id,
                cipher_key,
                mirrorings,
            ),
            ServerSessionEvent::Disconnected { session_id } => self.disconnect(session_id),
        }
    }

    /// The table once `events` have been applied in order, up to the first that cannot be, and
    /// why that one cannot.
    pub open spec fn apply_all(
        self,
        events: Seq<ServerSessionEvent>,
        mirrorings: nat,
    ) -> (SessionTable, Option<SessionFault>)
        decreases events.len(),
    {
        if events.len() == 0 {
            (self, None)
        } else {
            match self.fault(events[0]) {
                Some(fault) => (self, Some(fault)),
                None => self.apply(events[0], mirrorings).apply_all(
                    events.drop_first(),
                    mirrorings,
                ),
            }
        }
    }

    /// What comes of a mapping datagram.
    pub open spec fn mapping_outcome(
        self,
        datagram: Seq<u8>,
        mirrorings: nat,
    ) -> MappingOutcome {
        let session_id = mapping_session_id(datagram);
        let mirroring = mapping_mirroring(datagram);
        if datagram.len() < MAPPING_SIZE {
            MappingOutcome::InvalidLength
        } else if mirroring >= mirrorings {
            MappingOutcome::InvalidMirroring { session_id }
        } else if !self.sessions.contains_key(session_id) {
            MappingOutcome::UnknownSession { session_id }
        } else {
            MappingOutcome::Mapped {
                session_id,
                mirroring,
                replaced: self.sessions[session_id].socket_addrs[mirroring as int],
            }
        }
    }

    /// The table once a mapping datagram from `addr` has been handled.
    pub open spec fn after_mapping(
        self,
        datagram: Seq<u8>,
        addr: SocketAddr,
        mirrorings: nat,
    ) -> SessionTable {
        match self.mapping_outcome(datagram, mirrorings) {
            MappingOutcome::Mapped { session_id, mirroring, .. } => self.map_address(
                session_id,
                mirroring as int,
                addr,
            ),
            _ => self,
        }
    }

    /// What is to be done with a datagram of `len` bytes that came from `addr` at `timestamp`.
    pub open spec fn datagram_outcome(
        self,
        timestamp: u16,
        len: nat,
        addr: SocketAddr,
        datagram_size: nat,
    ) -> DatagramOutcome {
        if len != datagram_size {
            DatagramOutcome::InvalidLength
        } else {
            match self.route(addr) {
                Some(session_id) => DatagramOutcome::Deliver { session_id, timestamp },
                None => DatagramOutcome::UnknownAddress,
            }
        }
    }
}

} // verus!
