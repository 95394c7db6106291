//! The client's ends of the two streams.

use flume::{Receiver, Sender};
use vstd::prelude::*;

use crate::bytes::{
    le_bytes, le_value, lemma_le_bytes_len, read_u32, read_u64, splice, write_u32, write_u64,
};
use crate::channel::{
    input_answers, receive_input, send_update, updates_offered, PlayerInput, PlayerUpdate,
};
use crate::draw::{random_byte, Draw};

verus! {

/// The lowest character that counts as player input.
pub const FIRST_INPUT: u64 = 32;

/// The character after the highest one that counts as player input.
pub const END_INPUT: u64 = 126;

/// The bytes of a player's input: the frame and the value.
pub open spec fn input_bytes(input: PlayerInput) -> Seq<u8> {
    le_bytes(input.0 as nat, 4) + le_bytes(input.1 as nat, 8)
}

/// The update that a buffer of game state holds: a frame, a player and that player's input.
pub open spec fn update_of(buffer: Seq<u8>) -> PlayerUpdate {
    (
        le_value(buffer.subrange(0, 4)) as u32,
        buffer[4],
        le_value(buffer.subrange(5, 13)) as u64,
    )
}

/// Reads the update that a buffer of game state holds.
pub fn read_update(buffer: &[u8; 32]) -> (update: PlayerUpdate)
    ensures
        update == update_of(buffer@),
{
    (read_u32(buffer, 0), buffer[4], read_u64(buffer, 5))
}

/// Writes an input to the front of the buffer, if there is one, and says whether there was.
pub fn write_input(buffer: &mut [u8; 16], input: Option<PlayerInput>) -> (written: bool)
    ensures
        written == (input is Some),
        final(buffer)@ == match input {
            Some(taken) => splice(old(buffer)@, 0, input_bytes(taken)),
            None => old(buffer)@,
        },
{
    match input {
        Some((frame, value)) => {
            let ghost before = buffer@;
            write_u32(buffer, 0, frame);
            write_u64(buffer, 4, value);
            proof {
                lemma_le_bytes_len(frame as nat, 4);
                lemma_le_bytes_len(value as nat, 8);
                assert(buffer@ =~= splice(before, 0, input_bytes((frame, value))));
            }
            true
        },
        None => false,
    }
}

/// Hands the updates that the server sends to the rest of the client.
pub struct ServerToClientSink {
    channel: Sender<PlayerUpdate>,
}

impl ServerToClientSink {
    /// The handle that the updates go through.
    pub closed spec fn end(&self) -> Sender<PlayerUpdate> {
        self.channel
    }

    /// The updates that were handed to the channel from here, in order, each with whether the
    /// channel accepted it.
    pub closed spec fn offered(&self) -> Seq<(PlayerUpdate, bool)> {
        updates_offered(self.channel)
    }

    /// Hands updates on through this channel.
    pub fn new(channel: Sender<PlayerUpdate>) -> (sink: Self)
        ensures
            sink.offered() == updates_offered(channel),
            sink.end() == channel,
    {
        ServerToClientSink { channel }
    }

    /// Hands on the update that `buffer` holds, once. It comes back if nothing is left that could
    /// take it: whether anything is left is up to the rest of the program.
    pub fn handle(&mut self, buffer: &[u8; 32]) -> (result: Result<(), PlayerUpdate>)
        ensures
            final(self).offered() == old(self).offered().push(
                (update_of(buffer@), result is Ok),
            ),
            updates_offered(final(self).end()) == updates_offered(old(self).end()).push(
                (update_of(buffer@), result is Ok),
            ),
            result matches Err(returned) ==> returned == update_of(buffer@),
    {
        let update: PlayerUpdate = read_update(buffer);
        send_update(&mut self.channel, update)
    }
}

/// Takes the input of the player at this end from the rest of the client.
pub struct ClientToServerSource {
    channel: Receiver<PlayerInput>,
}

impl ClientToServerSource {
    /// The handle that the inputs come through.
    pub closed spec fn end(&self) -> Receiver<PlayerInput> {
        self.channel
    }

    /// What came of each wait for an input here, in order: the input, or nothing once no further
    /// input could come.
    pub closed spec fn answers(&self) -> Seq<Option<PlayerInput>> {
        input_answers(self.channel)
    }

    /// Takes inputs from this channel.
    pub fn new(channel: Receiver<PlayerInput>) -> (source: Self)
        ensures
            source.answers() == input_answers(channel),
            source.end() == channel,
    {
        ClientToServerSource { channel }
    }

    /// Waits once for the next input, and writes it to the front of `buffer`. Once no further
    /// input can come the buffer stays as it is.
    pub fn poll(&mut self, buffer: &mut [u8; 16]) -> (written: bool)
        ensures
            ({
                let answer = final(self).answers().last();
                &&& final(self).answers() == old(self).answers().push(answer)
                &&& input_answers(final(self).end()) == input_answers(old(self).end()).push(answer)
                &&& written == (answer is Some)
                &&& final(buffer)@ == match answer {
                    Some(input) => splice(old(buffer)@, 0, input_bytes(input)),
                    None => old(buffer)@,
                }
            }),
    {
        let input: Option<PlayerInput> = receive_input(&mut self.channel);
        write_input(buffer, input)
    }
}

/// The player input that a byte stands for.
pub fn player_input(byte: u8) -> (value: u64)
    ensures
        value == byte as int % (END_INPUT - FIRST_INPUT) + FIRST_INPUT,
        value == byte as int % 94 + 32,
{
    byte as u64 % (END_INPUT - FIRST_INPUT) + FIRST_INPUT
}

/// Numbers the inputs of one player by frame, from zero on.
pub struct InputFrames {
    frame: u32,
    draw: Option<Draw>,
}

impl InputFrames {
    /// The number of the current frame.
    pub closed spec fn spec_frame(&self) -> u32 {
        self.frame
    }

    /// The byte that was drawn last, if any has been drawn.
    pub closed spec fn drawn(&self) -> Option<Draw> {
        self.draw
    }

    /// Starts at frame zero, with nothing drawn.
    pub fn new() -> (frames: Self)
        ensures
            frames.spec_frame() == 0,
            frames.drawn() is None,
    {
        InputFrames { frame: 0, draw: None }
    }

    /// The number of the current frame.
    pub fn frame(&self) -> (frame: u32)
        ensures
            frame == self.spec_frame(),
    {
        self.frame
    }

    /// The input of the current frame.
    pub fn input(&self, value: u64) -> (input: PlayerInput)
        ensures
            input == (self.spec_frame(), value),
    {
        (self.frame, value)
    }

    /// Goes on to the next frame.
    pub fn advance(&mut self)
        requires
            old(self).spec_frame() < u32::MAX,
        ensures
            final(self).spec_frame() == old(self).spec_frame() + 1,
            final(self).drawn() == old(self).drawn(),
    {
        self.frame = self.frame + 1;
    }
}

/// One round of the client: the input of the current frame, with the value that `byte` stands
/// for, after which the client goes on to the next frame. Once it is cancelled there is no input,
/// and it stays at its frame.
pub fn client_step(frames: &mut InputFrames, cancelled: bool, byte: u8) -> (next: Option<
    PlayerInput,
>)
    requires
        cancelled || old(frames).spec_frame() < u32::MAX,
    ensures
        next is None <==> cancelled,
        cancelled ==> final(frames).spec_frame() == old(frames).spec_frame(),
        final(frames).drawn() == old(frames).drawn(),
        !cancelled ==> {
            &&& next == Some(
                (
                    old(frames).spec_frame(),
                    (byte as int % (END_INPUT - FIRST_INPUT) + FIRST_INPUT) as u64,
                ),
            )
            &&& next matches Some((_, value)) && value == byte as int % 94 + 32
            &&& final(frames).spec_frame() == old(frames).spec_frame() + 1
        },
{
    if cancelled {
        return None;
    }
    let input: PlayerInput = frames.input(player_input(byte));
    frames.advance();
    Some(input)
}

/// One round of the client, with an input drawn at random: the byte that is drawn for this frame
/// decides the input. Once the client is cancelled nothing is drawn.
pub fn random_client_step(frames: &mut InputFrames, cancelled: bool) -> (next: Option<PlayerInput>)
    requires
        cancelled || old(frames).spec_frame() < u32::MAX,
    ensures
        next is None <==> cancelled,
        cancelled ==> final(frames).spec_frame() == old(frames).spec_frame(),
        !cancelled ==> {
            &&& next matches Some((frame, value)) && frame == old(frames).spec_frame()
                && FIRST_INPUT <= value < END_INPUT
            &&& final(frames).spec_frame() == old(frames).spec_frame() + 1
        },
        cancelled ==> final(frames).drawn() == old(frames).drawn(),
        !cancelled ==> (final(frames).drawn() matches Some(draw) && {
            &&& draw.spec_frame() == old(frames).spec_frame()
            &&& next == Some(
                (old(frames).spec_frame(), (draw.spec_byte() as int % 94 + 32) as u64),
            )
        }),
{
    if cancelled {
        client_step(frames, true, 0)
    } else {
        let draw: Draw = random_byte(frames.frame());
        let next: Option<PlayerInput> = client_step(frames, false, draw.byte());
        frames.draw = Some(draw);
        next
    }
}

} // verus!
