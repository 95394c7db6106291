//! What each byte of the messages is, place by place.

use vstd::arithmetic::power::{lemma_pow0, pow};
use vstd::prelude::*;

use crate::broker::{answered, input_message, message_bytes};
use crate::bytes::{
    le_bytes, le_value, lemma_bytes_of_value, lemma_le_bytes_len, lemma_le_value_bound,
    lemma_pow256_values, pow256, splice,
};
use crate::channel::{PlayerInput, PlayerMessage};
use crate::client::{input_bytes, update_of};
use crate::table::{mapping_mirroring, mapping_session_id};

verus! {

/// The byte at `place` of a number, the lowest byte at place zero.
pub open spec fn byte_at(value: int, place: nat) -> int {
    value / pow(256, place) % 256
}

/// One place further up, a byte counts 256 times as much.
proof fn lemma_pow_step(n: nat)
    ensures
        pow(256, n) > 0,
        pow(256, n + 1) == 256 * pow(256, n),
        pow(256, n) == pow256(n),
    decreases n,
{
    reveal(pow);
    lemma_pow0(256);
    if n > 0 {
        lemma_pow_step((n - 1) as nat);
    }
    assert(pow(256, n + 1) == 256 * pow(256, n));
}

/// The bytes that are written for a number are its bytes by place: the byte at place `i` is what
/// is left of the number, divided by 256 to the power `i`, modulo 256.
pub proof fn law_bytes_by_place(value: nat, len: nat, i: int)
    requires
        0 <= i < len,
    ensures
        le_bytes(value, len).len() == len,
        le_bytes(value, len)[i] == value as int / pow(256, i as nat) % 256,
        le_bytes(value, len)[i] == byte_at(value as int, i as nat),
    decreases len,
{
    lemma_le_bytes_len(value, len);
    if i == 0 {
        lemma_pow0(256);
        assert(value as int / 1 == value as int);
    } else {
        let rest = (len - 1) as nat;
        lemma_le_bytes_len(value / 256, rest);
        law_bytes_by_place(value / 256, rest, i - 1);
        lemma_pow_step((i - 1) as nat);
        vstd::arithmetic::div_mod::lemma_div_denominator(
            value as int,
            256,
            pow(256, (i - 1) as nat),
        );
        assert(le_bytes(value, len)[i] == le_bytes(value / 256, rest)[i - 1]);
    }
}

/// The number that is read from some bytes has those bytes, each at its place, and no others.
pub proof fn law_value_by_place(bytes: Seq<u8>, i: int)
    requires
        0 <= i < bytes.len(),
    ensures
        le_value(bytes) as int / pow(256, i as nat) % 256 == bytes[i],
        byte_at(le_value(bytes) as int, i as nat) == bytes[i],
        le_value(bytes) < pow(256, bytes.len()),
{
    lemma_bytes_of_value(bytes);
    law_bytes_by_place(le_value(bytes), bytes.len(), i);
    lemma_le_value_bound(bytes);
    lemma_pow_step(bytes.len());
}

/// The number that is read from some bytes is the sum of the bytes, each times 256 to the power of
/// its place: no bytes spell zero, and a byte at the end adds itself at its place.
pub proof fn law_value_is_a_sum(bytes: Seq<u8>, byte: u8)
    ensures
        le_value(Seq::<u8>::empty()) == 0,
        le_value(bytes.push(byte)) == le_value(bytes) + byte * pow(256, bytes.len()),
    decreases bytes.len(),
{
    let longer = bytes.push(byte);
    let places = bytes.len();
    if places == 0 {
        lemma_pow0(256);
        assert(longer.drop_first() =~= Seq::<u8>::empty());
        assert(byte * pow(256, 0) == byte);
    } else {
        let rest = bytes.drop_first();
        law_value_is_a_sum(rest, byte);
        lemma_pow_step((places - 1) as nat);
        assert(longer.drop_first() =~= rest.push(byte));
        let p = pow(256, (places - 1) as nat);
        assert(256 * (byte * p) == byte * (256 * p)) by (nonlinear_arith);
    }
}

/// Writing bytes over a buffer puts each of them at its place, and leaves the rest of the buffer
/// and its length as they were.
pub proof fn law_splice_by_place(buffer: Seq<u8>, at: int, bytes: Seq<u8>, i: int)
    requires
        0 <= at,
        at + bytes.len() <= buffer.len(),
        0 <= i < buffer.len(),
    ensures
        splice(buffer, at, bytes).len() == buffer.len(),
        at <= i < at + bytes.len() ==> splice(buffer, at, bytes)[i] == bytes[i - at],
        i < at ==> splice(buffer, at, bytes)[i] == buffer[i],
        at + bytes.len() <= i ==> splice(buffer, at, bytes)[i] == buffer[i],
{
}

/// A client's input is twelve bytes: four of the frame and eight of the value, each lowest first.
pub proof fn law_input_layout(input: PlayerInput, i: int)
    requires
        0 <= i < 12,
    ensures
        input_bytes(input).len() == 12,
        i < 4 ==> input_bytes(input)[i] == byte_at(input.0 as int, i as nat),
        4 <= i ==> input_bytes(input)[i] == byte_at(input.1 as int, (i - 4) as nat),
{
    lemma_le_bytes_len(input.0 as nat, 4);
    lemma_le_bytes_len(input.1 as nat, 8);
    if i < 4 {
        law_bytes_by_place(input.0 as nat, 4, i);
    } else {
        law_bytes_by_place(input.1 as nat, 8, i - 4);
    }
}

/// The buffer that a client's input is written to: the twelve bytes of the input, and behind them
/// what it held before.
pub proof fn law_written_input_by_place(buffer: Seq<u8>, input: PlayerInput, i: int)
    requires
        buffer.len() == 16,
        0 <= i < 16,
    ensures
        ({
            let written = splice(buffer, 0, input_bytes(input));
            &&& written.len() == 16
            &&& i < 4 ==> written[i] == byte_at(input.0 as int, i as nat)
            &&& 4 <= i < 12 ==> written[i] == byte_at(input.1 as int, (i - 4) as nat)
            &&& 12 <= i ==> written[i] == buffer[i]
        }),
{
    if i < 12 {
        law_input_layout(input, i);
    } else {
        law_input_layout(input, 0);
    }
}

/// An update is read from the first thirteen bytes of a buffer: four of the frame, one of the
/// player, and eight of the input, each lowest first.
pub proof fn law_update_layout(buffer: Seq<u8>, i: int)
    requires
        buffer.len() == 32,
        0 <= i < 8,
    ensures
        i < 4 ==> byte_at(update_of(buffer).0 as int, i as nat) == buffer[i],
        update_of(buffer).1 == buffer[4],
        byte_at(update_of(buffer).2 as int, i as nat) == buffer[5 + i],
{
    let frame = buffer.subrange(0, 4);
    let input = buffer.subrange(5, 13);
    lemma_pow256_values();
    lemma_le_value_bound(frame);
    lemma_le_value_bound(input);
    if i < 4 {
        law_value_by_place(frame, i);
    }
    law_value_by_place(input, i);
}

/// A message is twenty-five bytes: eight of each number, lowest first, and the player's mark.
pub proof fn law_message_layout(message: PlayerMessage, i: int)
    requires
        0 <= i < 25,
    ensures
        message_bytes(message).len() == 25,
        i < 8 ==> message_bytes(message)[i] == byte_at(message.0 as int, i as nat),
        8 <= i < 16 ==> message_bytes(message)[i] == byte_at(message.1 as int, (i - 8) as nat),
        16 <= i < 24 ==> message_bytes(message)[i] == byte_at(message.2 as int, (i - 16) as nat),
        i == 24 ==> message_bytes(message)[i] == message.3,
{
    lemma_le_bytes_len(message.0 as nat, 8);
    lemma_le_bytes_len(message.1 as nat, 8);
    lemma_le_bytes_len(message.2 as nat, 8);
    lemma_le_bytes_len(message.3 as nat, 1);
    if i < 8 {
        law_bytes_by_place(message.0 as nat, 8, i);
    } else if i < 16 {
        law_bytes_by_place(message.1 as nat, 8, i - 8);
    } else if i < 24 {
        law_bytes_by_place(message.2 as nat, 8, i - 16);
    } else {
        law_bytes_by_place(message.3 as nat, 1, 0);
        lemma_pow0(256);
        assert(message.3 as int / 1 == message.3 as int);
    }
}

/// The buffer that a message is written to: the twenty-five bytes of the message, and behind them
/// what it held before. Without a message it stays as it is.
pub proof fn law_answered_by_place(buffer: Seq<u8>, message: PlayerMessage, i: int)
    requires
        buffer.len() == 28,
        0 <= i < 28,
    ensures
        answered(buffer, None) == buffer,
        answered(buffer, Some(message)).len() == 28,
        i < 25 ==> answered(buffer, Some(message))[i] == message_bytes(message)[i],
        25 <= i ==> answered(buffer, Some(message))[i] == buffer[i],
{
    if i < 25 {
        law_message_layout(message, i);
    } else {
        law_message_layout(message, 0);
    }
}

/// The message that a player's buffer stands for has the buffer's first twenty-four bytes, eight
/// to each number, lowest first, and the player's mark.
pub proof fn law_input_message_layout(buffer: Seq<u8>, player: u8, i: int)
    requires
        buffer.len() == 28,
        0 <= i < 8,
    ensures
        byte_at(input_message(buffer, player).0 as int, i as nat) == buffer[i],
        byte_at(input_message(buffer, player).1 as int, i as nat) == buffer[8 + i],
        byte_at(input_message(buffer, player).2 as int, i as nat) == buffer[16 + i],
        input_message(buffer, player).3 == player,
{
    let first = buffer.subrange(0, 8);
    let second = buffer.subrange(8, 16);
    let third = buffer.subrange(16, 24);
    lemma_pow256_values();
    lemma_le_value_bound(first);
    lemma_le_value_bound(second);
    lemma_le_value_bound(third);
    law_value_by_place(first, i);
    law_value_by_place(second, i);
    law_value_by_place(third, i);
}

/// A mapping datagram names the session in its first eight bytes, lowest first, and the mirroring
/// in the ninth.
pub proof fn law_mapping_layout(datagram: Seq<u8>, i: int)
    requires
        datagram.len() >= 9,
        0 <= i < 8,
    ensures
        byte_at(mapping_session_id(datagram) as int, i as nat) == datagram[i],
        mapping_mirroring(datagram) == datagram[8],
{
    let id = datagram.subrange(0, 8);
    lemma_pow256_values();
    lemma_le_value_bound(id);
    law_value_by_place(id, i);
}

} // verus!
