//! The server's registry of players, and the ends of the queue that their messages go through.

use flume::{Receiver, Sender};
use fnv::FnvHashMap;
use vstd::prelude::*;

use crate::bytes::{le_bytes, le_value, lemma_le_bytes_len, read_u64_array, splice, write_u64};
use crate::channel::{
    clone_message_receiver, clone_message_sender, making, message_answers, message_channel,
    message_receiver_channel, message_sender_channel, messages_offered, putting, send_message,
    taking, try_receive_message, PlayerMessage,
};
use crate::storage::{id_map_get, id_map_insert, new_id_map};

verus! {

/// Why the broker cannot do as asked.
#[derive(Clone, Copy, Debug, PartialEq, Eq, Structural)]
pub enum BrokerError {
    /// Every player index has been handed out.
    MaximumPlayersReached,
}

impl BrokerError {
    /// What is wrong, in words.
    pub fn message(&self) -> (text: &'static str)
        ensures
            text@ == "Maximum number of players reached"@,
        opens_invariants none
    {
        "Maximum number of players reached"
    }
}

/// Hands out player indices and session identifiers, remembers which session plays which index,
/// and holds the ends of the message queue. One receiving end stands for those of all players,
/// which are copies of it; a broker without places has none.
pub struct SessionBroker<const MAX_PLAYERS: usize> {
    receiver_channel: Option<Receiver<PlayerMessage>>,
    broadcast_channel: Sender<PlayerMessage>,
    next_session_id: u64,
    player_sessions: FnvHashMap<u64, u64>,
    /// The player indices in use. Nothing is kept of them but that.
    player_indices_in_use: FnvHashMap<u64, u64>,
}

/// The index of the first free place at or after `from`; the length if there is none.
pub open spec fn first_free(free: Seq<bool>, from: int) -> int
    decreases free.len() - from,
{
    if from >= free.len() || free[from] {
        from
    } else {
        first_free(free, from + 1)
    }
}

/// The places in use are the lowest ones.
pub open spec fn in_order(free: Seq<bool>) -> bool {
    forall|i: int, j: int|
        0 <= i <= j < free.len() && #[trigger] free[i] ==> #[trigger] free[j]
}

/// The identifier after `session_id`: the next number, and after the last one zero again.
pub open spec fn following_id(session_id: u64) -> u64 {
    if session_id == u64::MAX {
        0
    } else {
        (session_id + 1) as u64
    }
}

/// Until every identifier has been handed out, the identifiers in use are those from one on, and
/// the one after them is next.
pub open spec fn ids_in_order(ids: Set<u64>, next_id: u64) -> bool {
    &&& ids.finite()
    &&& ids.len() <= u64::MAX ==> {
        &&& ids == Set::new(|id: u64| 1 <= id <= ids.len())
        &&& next_id == following_id(ids.len() as u64)
    }
}

/// Handing out the next identifier keeps the identifiers in order, and until every identifier has
/// been handed out it is a new one.
proof fn lemma_ids_in_order(ids: Set<u64>, next_id: u64)
    requires
        ids_in_order(ids, next_id),
    ensures
        ids_in_order(ids.insert(next_id), following_id(next_id)),
        ids.len() <= u64::MAX ==> !ids.contains(next_id),
{
    let after = ids.insert(next_id);
    if ids.len() <= u64::MAX {
        assert(!ids.contains(next_id));
        if after.len() <= u64::MAX {
            assert(after =~= Set::new(|id: u64| 1 <= id <= after.len()));
        }
    }
}

impl<const MAX_PLAYERS: usize> SessionBroker<MAX_PLAYERS> {
    /// The identifier that the next session gets.
    pub closed spec fn next_id(&self) -> u64 {
        self.next_session_id
    }

    /// The player index of each session.
    pub closed spec fn sessions(&self) -> Map<u64, usize> {
        Map::new(
            |id: u64| self.player_sessions@.contains_key(id),
            |id: u64| self.player_sessions@[id] as usize,
        )
    }

    /// Which player indices are free.
    pub closed spec fn free_list(&self) -> Seq<bool> {
        Seq::new(
            MAX_PLAYERS as nat,
            |i: int| !self.player_indices_in_use@.contains_key(i as u64),
        )
    }

    /// The broker's own handle for putting messages into the queue.
    pub closed spec fn end(&self) -> Sender<PlayerMessage> {
        self.broadcast_channel
    }

    /// The channel that messages are broadcast on.
    pub closed spec fn channel(&self) -> int {
        message_sender_channel(self.broadcast_channel)
    }

    /// The channel that each player's messages are taken from.
    pub closed spec fn player_channels(&self) -> Seq<int> {
        match self.receiver_channel {
            Some(receiver) => Seq::new(
                MAX_PLAYERS as nat,
                |i: int| message_receiver_channel(receiver),
            ),
            None => Seq::empty(),
        }
    }

    /// What has been handed to the broker's own sending end, in order, each message with whether
    /// the channel accepted it.
    pub closed spec fn offered(&self) -> Seq<(PlayerMessage, bool)> {
        messages_offered(self.broadcast_channel)
    }

    /// There is a place and a receiving end for each player, every receiving end belongs to the
    /// channel that messages are broadcast on, the indices in use are the lowest ones, and so are
    /// the identifiers of the sessions.
    pub open spec fn wf(&self) -> bool {
        &&& self.free_list().len() == MAX_PLAYERS
        &&& self.player_channels() == Seq::new(MAX_PLAYERS as nat, |i: int| self.channel())
        &&& in_order(self.free_list())
        &&& ids_in_order(self.sessions().dom(), self.next_id())
    }

    /// A broker without sessions, whose places are all free and whose channel is unused.
    pub fn new() -> (broker: Self)
        ensures
            broker.wf(),
            broker.next_id() == 1,
            broker.sessions() == Map::<u64, usize>::empty(),
            broker.free_list() == Seq::new(MAX_PLAYERS as nat, |i: int| true),
            broker.offered() == Seq::<(PlayerMessage, bool)>::empty(),
            messages_offered(broker.end()).len() == 0,
        opens_invariants [ making() ]
    {
        let (broadcast_channel, receiver) = message_channel();
        let receiver_channel: Option<Receiver<PlayerMessage>> = if MAX_PLAYERS > 0 {
            Some(receiver)
        } else {
            None
        };
        let broker = SessionBroker {
            receiver_channel,
            broadcast_channel,
            next_session_id: 1,
            player_sessions: new_id_map(0),
            player_indices_in_use: new_id_map(0),
        };
        assert(broker.player_channels() =~= Seq::new(
            MAX_PLAYERS as nat,
            |j: int| broker.channel(),
        ));
        assert(broker.sessions() =~= Map::<u64, usize>::empty());
        assert(broker.sessions().dom() =~= Set::new(|id: u64| 1 <= id <= 0));
        broker
    }

    /// Opens a session for a player and gives its identifier. No other session has it, unless
    /// every identifier has been handed out already.
    pub fn allocate_session_id(&mut self, player_index: usize) -> (session_id: u64)
        requires
            old(self).wf(),
        ensures
            final(self).wf(),
            session_id == old(self).next_id(),
            old(self).sessions().dom().len() <= u64::MAX ==> !old(self).sessions().contains_key(
                session_id,
            ),
            final(self).next_id() == following_id(session_id),
            final(self).sessions() == old(self).sessions().insert(session_id, player_index),
            final(self).free_list() == old(self).free_list(),
            final(self).channel() == old(self).channel(),
            final(self).offered() == old(self).offered(),
            final(self).end() == old(self).end(),
        opens_invariants none
    {
        let session_id: u64 = self.next_session_id;
        self.next_session_id = if session_id == u64::MAX {
            0
        } else {
            session_id + 1
        };
        id_map_insert(&mut self.player_sessions, session_id, player_index as u64);
        proof {
            lemma_ids_in_order(old(self).sessions().dom(), session_id);
            assert(self.sessions() =~= old(self).sessions().insert(session_id, player_index));
            assert(self.sessions().dom() =~= old(self).sessions().dom().insert(session_id));
        }
        session_id
    }

    /// Takes the lowest free player index, if one is left.
    pub fn next_player_index(&mut self) -> (result: Result<usize, BrokerError>)
        requires
            old(self).wf(),
        ensures
            final(self).wf(),
            final(self).next_id() == old(self).next_id(),
            final(self).sessions() == old(self).sessions(),
            final(self).channel() == old(self).channel(),
            final(self).offered() == old(self).offered(),
            final(self).end() == old(self).end(),
            ({
                let place = first_free(old(self).free_list(), 0);
                if place < MAX_PLAYERS {
                    &&& result == Ok::<usize, BrokerError>(place as usize)
                    &&& final(self).free_list() == old(self).free_list().update(place, false)
                } else {
                    &&& result == Err::<usize, BrokerError>(BrokerError::MaximumPlayersReached)
                    &&& final(self).free_list() == old(self).free_list()
                }
            }),
        opens_invariants none
    {
        let ghost free = self.free_list();
        let mut i: usize = 0;
        while i < MAX_PLAYERS
            invariant
                *self == *old(self),
                self.free_list() == free,
                i <= free.len() == MAX_PLAYERS,
                first_free(free, 0) == first_free(free, i as int),
                forall|j: int| 0 <= j < i ==> !free[j],
                old(self).wf(),
            decreases MAX_PLAYERS - i,
        {
            let free_here: bool = match id_map_get(&self.player_indices_in_use, i as u64) {
                Some(_) => false,
                None => true,
            };
            assert(free_here == free[i as int]);
            if free_here {
                id_map_insert(&mut self.player_indices_in_use, i as u64, 0);
                assert(self.free_list() =~= free.update(i as int, false));
                return Ok(i);
            }
            i = i + 1;
        }
        Err(BrokerError::MaximumPlayersReached)
    }

    /// The identifier that the next session gets.
    pub fn next_session_id(&self) -> (session_id: u64)
        ensures
            session_id == self.next_id(),
        opens_invariants none
    {
        self.next_session_id
    }

    /// The player index of a session, if there is such a session.
    pub fn player_index_of(&self, session_id: u64) -> (player_index: Option<usize>)
        ensures
            player_index == if self.sessions().contains_key(session_id) {
                Some(self.sessions()[session_id])
            } else {
                None
            },
        opens_invariants none
    {
        match id_map_get(&self.player_sessions, session_id) {
            Some(player_index) => Some(player_index as usize),
            None => None,
        }
    }
}

/// The three numbers that a buffer of player input holds.
pub open spec fn input_values(buffer: Seq<u8>) -> (u64, u64, u64) {
    (
        le_value(buffer.subrange(0, 8)) as u64,
        le_value(buffer.subrange(8, 16)) as u64,
        le_value(buffer.subrange(16, 24)) as u64,
    )
}

/// The bytes of a player message: its three numbers and the index of the player.
pub open spec fn message_bytes(message: PlayerMessage) -> Seq<u8> {
    le_bytes(message.0 as nat, 8) + le_bytes(message.1 as nat, 8) + le_bytes(message.2 as nat, 8)
        + le_bytes(message.3 as nat, 1)
}

/// The message that a buffer of input from this player stands for.
pub open spec fn input_message(buffer: Seq<u8>, player: u8) -> PlayerMessage {
    let (a, b, c) = input_values(buffer);
    (a, b, c, player)
}

/// What a buffer holds once the queue's answer has been written to it: the message at its front,
/// or, without one, what it held before.
pub open spec fn answered(buffer: Seq<u8>, answer: Option<PlayerMessage>) -> Seq<u8> {
    match answer {
        Some(message) => splice(buffer, 0, message_bytes(message)),
        None => buffer,
    }
}

/// Reads the three numbers that a buffer of player input holds.
pub fn read_input(buffer: &[u8; 28]) -> (values: (u64, u64, u64))
    ensures
        values == input_values(buffer@),
    opens_invariants none
{
    (read_u64_array(buffer, 0), read_u64_array(buffer, 8), read_u64_array(buffer, 16))
}

/// Writes a message to the front of the buffer, if there is one, and says whether there was.
pub fn write_message(buffer: &mut [u8; 28], message: Option<PlayerMessage>) -> (written: bool)
    ensures
        written == (message is Some),
        final(buffer)@ == answered(old(buffer)@, message),
    opens_invariants none
{
    match message {
        Some((a, b, c, player_index)) => {
            let ghost before = buffer@;
            write_u64(buffer, 0, a);
            write_u64(buffer, 8, b);
            write_u64(buffer, 16, c);
            buffer[24] = player_index;
            proof {
                lemma_le_bytes_len(a as nat, 8);
                lemma_le_bytes_len(b as nat, 8);
                lemma_le_bytes_len(c as nat, 8);
                reveal_with_fuel(le_bytes, 2);
                assert(le_bytes(player_index as nat, 1) =~= seq![player_index]);
                assert(buffer@ =~= splice(
                    before,
                    0,
                    message_bytes((a, b, c, player_index)),
                ));
            }
            true
        },
        None => false,
    }
}

/// Puts the input of one player into the queue.
pub struct ClientToServerSink {
    player_index: u8,
    channel: Sender<PlayerMessage>,
}

impl ClientToServerSink {
    /// The index of the player that the input comes from.
    pub closed spec fn player(&self) -> u8 {
        self.player_index
    }

    /// The handle that the input goes through.
    pub closed spec fn end(&self) -> Sender<PlayerMessage> {
        self.channel
    }

    /// The channel that the input goes to.
    pub closed spec fn channel_id(&self) -> int {
        message_sender_channel(self.channel)
    }

    /// The messages that were handed to the queue from here, in order, each with whether the
    /// queue accepted it.
    pub closed spec fn offered(&self) -> Seq<(PlayerMessage, bool)> {
        messages_offered(self.channel)
    }

    /// Hands the numbers in `buffer` to the queue, once, marked with the index of the player. The
    /// message comes back if nothing is left that could take it from the queue: whether anything
    /// is left is up to the rest of the program.
    pub fn handle(&mut self, buffer: &[u8; 28]) -> (result: Result<(), PlayerMessage>)
        ensures
            final(self).player() == old(self).player(),
            final(self).channel_id() == old(self).channel_id(),
            ({
                let message = input_message(buffer@, old(self).player());
                &&& final(self).offered() == old(self).offered().push((message, result is Ok))
                &&& messages_offered(final(self).end()) == messages_offered(old(self).end()).push(
                    (message, result is Ok),
                )
                &&& result matches Err(returned) ==> returned == message
            }),
            message_sender_channel(final(self).end()) == message_sender_channel(old(self).end()),
        opens_invariants [ putting() ]
    {
        let (a, b, c) = read_input(buffer);
        send_message(&mut self.channel, (a, b, c, self.player_index))
    }
}

/// Takes messages for one player from the queue.
pub struct ServerToClientSource {
    channel: Receiver<PlayerMessage>,
}

impl ServerToClientSource {
    /// The handle that the messages come through.
    pub closed spec fn end(&self) -> Receiver<PlayerMessage> {
        self.channel
    }

    /// The channel that the messages come from.
    pub closed spec fn channel_id(&self) -> int {
        message_receiver_channel(self.channel)
    }

    /// What the queue has answered each time that a message was asked for here, in order: the
    /// message at its head, or nothing.
    pub closed spec fn answers(&self) -> Seq<Option<PlayerMessage>> {
        message_answers(self.channel)
    }

    /// Asks the queue once for the next message, and writes it to the front of `buffer`. Without
    /// one the buffer stays as it is. Nothing else is taken from the queue, and nothing is put into
    /// it.
    pub fn poll(&mut self, buffer: &mut [u8; 28]) -> (written: bool)
        ensures
            final(self).channel_id() == old(self).channel_id(),
            ({
                let answer = final(self).answers().last();
                &&& final(self).answers() == old(self).answers().push(answer)
                &&& message_answers(final(self).end()) == message_answers(old(self).end()).push(
                    answer,
                )
                &&& written == (answer is Some)
                &&& final(buffer)@ == answered(old(buffer)@, answer)
            }),
            message_receiver_channel(final(self).end()) == message_receiver_channel(
                old(self).end(),
            ),
        opens_invariants [ taking() ]
    {
        let message: Option<PlayerMessage> = try_receive_message(&mut self.channel);
        write_message(buffer, message)
    }
}

/// Makes the ends of the queue that messages to the clients come from.
pub struct ServerBroker<'a, const MAX_PLAYERS: usize> {
    inner: &'a SessionBroker<MAX_PLAYERS>,
}

impl<'a, const MAX_PLAYERS: usize> ServerBroker<'a, MAX_PLAYERS> {
    /// The registry that sessions are looked up in.
    pub closed spec fn broker(&self) -> SessionBroker<MAX_PLAYERS> {
        *self.inner
    }

    /// Looks sessions up in this registry.
    pub fn new(session_broker: &'a SessionBroker<MAX_PLAYERS>) -> (broker: Self)
        ensures
            broker.broker() == *session_broker,
        opens_invariants none
    {
        ServerBroker { inner: session_broker }
    }

    /// The end of the queue for the player of this session. Making it takes nothing from the queue
    /// and puts nothing into it.
    pub fn invoke(&mut self, session_id: u64) -> (source: ServerToClientSource)
        requires
            old(self).broker().wf(),
            old(self).broker().sessions().contains_key(session_id),
            old(self).broker().sessions()[session_id] < MAX_PLAYERS,
        ensures
            final(self).broker() == old(self).broker(),
            source.channel_id() == old(self).broker().player_channels()[old(
                self,
            ).broker().sessions()[session_id] as int],
            source.channel_id() == old(self).broker().channel(),
            message_receiver_channel(source.end()) == message_sender_channel(
                old(self).broker().end(),
            ),
            message_answers(source.end()).len() == 0,
            source.answers() == Seq::<Option<PlayerMessage>>::empty(),
        opens_invariants [ making() ]
    {
        assert(self.inner.player_channels().len() == MAX_PLAYERS);
        match &self.inner.receiver_channel {
            Some(receiver) => ServerToClientSource { channel: clone_message_receiver(receiver) },
            None => vstd::pervasive::unreached(),
        }
    }
}

/// Makes the ends of the queue that messages from the clients go to.
pub struct ClientBroker<'a, const MAX_PLAYERS: usize> {
    inner: &'a SessionBroker<MAX_PLAYERS>,
}

impl<'a, const MAX_PLAYERS: usize> ClientBroker<'a, MAX_PLAYERS> {
    /// The registry that sessions are looked up in.
    pub closed spec fn broker(&self) -> SessionBroker<MAX_PLAYERS> {
        *self.inner
    }

    /// Looks sessions up in this registry.
    pub fn new(session_broker: &'a SessionBroker<MAX_PLAYERS>) -> (broker: Self)
        ensures
            broker.broker() == *session_broker,
        opens_invariants none
    {
        ClientBroker { inner: session_broker }
    }

    /// The end of the queue for the player of this session. It marks messages with the lowest
    /// byte of the player's index. Making it takes nothing from the queue and puts nothing into it.
    pub fn invoke(&mut self, session_id: u64) -> (sink: ClientToServerSink)
        requires
            old(self).broker().sessions().contains_key(session_id),
        ensures
            final(self).broker() == old(self).broker(),
            sink.player() == old(self).broker().sessions()[session_id] as int % 256,
            sink.channel_id() == old(self).broker().channel(),
            message_sender_channel(sink.end()) == message_sender_channel(
                old(self).broker().end(),
            ),
            messages_offered(sink.end()).len() == 0,
            sink.offered() == Seq::<(PlayerMessage, bool)>::empty(),
        opens_invariants [ making() ]
    {
        let player_index: usize = match self.inner.player_index_of(session_id) {
            Some(player_index) => player_index,
            None => 0,
        };
        ClientToServerSink {
            player_index: (player_index % 256) as u8,
            channel: clone_message_sender(&self.inner.broadcast_channel),
        }
    }
}

} // verus!
