//! The queues between the parts of the system: `flume` channels.
//!
//! A channel is shared with other threads, so what a call finds in it is open. What is stated of
//! a handle is which channel it belongs to, what was handed to it and whether the channel took it,
//! and what it has answered each time that it was asked for a message.

use flume::{Receiver, Sender};
use vstd::prelude::*;

use crate::table::ServerSessionEvent;

verus! {

/// Three numbers of player input and the index of the player that sent them.
pub type PlayerMessage = (u64, u64, u64, u8);

/// A frame number, the index of a player and that player's input.
pub type PlayerUpdate = (u32, u8, u64);

/// A frame number and the input of the player at this end.
pub type PlayerInput = (u32, u64);

/// Marks a call that takes a message from a channel.
///
/// A function that works on a channel of messages says in `opens_invariants` in which of these ways
/// it may touch it, and Verus holds it to that, through whatever handle it does so. No invariant is
/// ever opened: the names serve as marks.
pub open spec fn taking() -> int {
    0
}

/// Marks a call that puts a message into a channel.
pub open spec fn putting() -> int {
    1
}

/// Marks a call that makes a channel or another handle for one, and leaves alone what the channel
/// holds.
pub open spec fn making() -> int {
    2
}

/// The sending end of a `flume` channel.
#[verifier::external_type_specification]
#[verifier::external_body]
#[verifier::reject_recursive_types(T)]
pub struct ExSender<T>(flume::Sender<T>);

/// The receiving end of a `flume` channel.
#[verifier::external_type_specification]
#[verifier::external_body]
#[verifier::reject_recursive_types(T)]
pub struct ExReceiver<T>(flume::Receiver<T>);

/// The channel that a sending handle was made for.
pub uninterp spec fn message_sender_channel(sender: Sender<PlayerMessage>) -> int;

/// The channel that a receiving handle was made for.
pub uninterp spec fn message_receiver_channel(receiver: Receiver<PlayerMessage>) -> int;

/// The messages that were handed to this handle to send, in order, each with whether the channel
/// accepted it.
pub uninterp spec fn messages_offered(sender: Sender<PlayerMessage>) -> Seq<(PlayerMessage, bool)>;

/// What this handle has answered each time that it was asked for a message, in order: the message
/// that it took from the channel, or nothing.
pub uninterp spec fn message_answers(receiver: Receiver<PlayerMessage>) -> Seq<
    Option<PlayerMessage>,
>;

/// The updates that were handed to this handle to send, in order, each with whether the channel
/// accepted it.
pub uninterp spec fn updates_offered(sender: Sender<PlayerUpdate>) -> Seq<(PlayerUpdate, bool)>;

/// What this handle has answered each time that it was asked for an input, in order: the input
/// that it took from the channel, or nothing.
pub uninterp spec fn input_answers(receiver: Receiver<PlayerInput>) -> Seq<Option<PlayerInput>>;

/// What this handle has answered each time that it was asked for all the session events that
/// wait, in order: the events that it took from the channel, oldest first.
pub uninterp spec fn event_batches(receiver: Receiver<ServerSessionEvent>) -> Seq<
    Seq<ServerSessionEvent>,
>;

/// Calls `flume::unbounded`: a new channel, with one handle for each of its ends. Neither handle
/// has been used yet.
#[verifier::external_body]
pub(crate) fn message_channel() -> (ends: (Sender<PlayerMessage>, Receiver<PlayerMessage>))
    ensures
        message_receiver_channel(ends.1) == message_sender_channel(ends.0),
        messages_offered(ends.0).len() == 0,
        message_answers(ends.1) == Seq::<Option<PlayerMessage>>::empty(),
    opens_invariants [ making() ]
{
    flume::unbounded()
}

/// Calls `flume::Sender::clone`: another handle for the same channel, through which nothing has
/// gone yet.
#[verifier::external_body]
pub(crate) fn clone_message_sender(sender: &Sender<PlayerMessage>) -> (copy: Sender<PlayerMessage>)
    ensures
        message_sender_channel(copy) == message_sender_channel(*sender),
        messages_offered(copy).len() == 0,
    opens_invariants [ making() ]
{
    sender.clone()
}

/// Calls `flume::Receiver::clone`: another handle for the same channel, which has not been asked
/// for anything yet. The handles share the queue: each message goes to one of them.
#[verifier::external_body]
pub(crate) fn clone_message_receiver(receiver: &Receiver<PlayerMessage>) -> (copy: Receiver<
    PlayerMessage,
>)
    ensures
        message_receiver_channel(copy) == message_receiver_channel(*receiver),
        message_answers(copy) == Seq::<Option<PlayerMessage>>::empty(),
    opens_invariants [ making() ]
{
    receiver.clone()
}

/// Calls `flume::Sender::send`: the channel accepts the message, or, once every receiving handle
/// is gone, the message comes back. Whether any is left is up to the rest of the program.
#[verifier::external_body]
pub(crate) fn send_message(sender: &mut Sender<PlayerMessage>, message: PlayerMessage) -> (result:
    Result<(), PlayerMessage>)
    ensures
        message_sender_channel(*final(sender)) == message_sender_channel(*old(sender)),
        messages_offered(*final(sender)) == messages_offered(*old(sender)).push(
            (message, result is Ok),
        ),
        result matches Err(returned) ==> returned == message,
    opens_invariants [ putting() ]
{
    sender.send(message).map_err(|error| error.into_inner())
}

/// Calls `flume::Receiver::try_recv`: the message at the head of the queue, or nothing if the
/// queue is empty at that moment. Which of the two is up to the rest of the program.
#[verifier::external_body]
pub(crate) fn try_receive_message(receiver: &mut Receiver<PlayerMessage>) -> (message: Option<
    PlayerMessage,
>)
    ensures
        message_receiver_channel(*final(receiver)) == message_receiver_channel(*old(receiver)),
        message_answers(*final(receiver)) == message_answers(*old(receiver)).push(message),
    opens_invariants [ taking() ]
{
    receiver.try_recv().ok()
}

/// Calls `flume::Sender::send` for updates: the channel accepts the update, or, once every
/// receiving handle is gone, the update comes back.
#[verifier::external_body]
pub(crate) fn send_update(sender: &mut Sender<PlayerUpdate>, update: PlayerUpdate) -> (result:
    Result<(), PlayerUpdate>)
    ensures
        updates_offered(*final(sender)) == updates_offered(*old(sender)).push(
            (update, result is Ok),
        ),
        result matches Err(returned) ==> returned == update,
{
    sender.send(update).map_err(|error| error.into_inner())
}

/// Calls `flume::Receiver::recv`: waits for an input, or until every sending handle is gone and
/// the queue is empty. Which of the two comes first, and when, is up to the rest of the program.
#[verifier::external_body]
pub(crate) fn receive_input(receiver: &mut Receiver<PlayerInput>) -> (input: Option<PlayerInput>)
    ensures
        input_answers(*final(receiver)) == input_answers(*old(receiver)).push(input),
{
    receiver.recv().ok()
}

/// Calls `flume::Receiver::try_iter` and collects what it yields: the events at the head of the
/// queue, oldest first, until the queue is found empty. How many there are is up to the rest of
/// the program.
#[verifier::external_body]
pub(crate) fn receive_events(receiver: &mut Receiver<ServerSessionEvent>) -> (events: Vec<
    ServerSessionEvent,
>)
    ensures
        event_batches(*final(receiver)) == event_batches(*old(receiver)).push(events@),
{
    receiver.try_iter().collect()
}

} // verus!
