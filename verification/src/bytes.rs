//! Little-endian integers in byte buffers.

use vstd::prelude::*;

verus! {

/// `256` to the power `n`: the number of values that `n` bytes can hold.
pub open spec fn pow256(n: nat) -> nat
    decreases n,
{
    if n == 0 {
        1
    } else {
        256 * pow256((n - 1) as nat)
    }
}

/// The number that `bytes` spells, least significant byte first.
pub open spec fn le_value(bytes: Seq<u8>) -> nat
    decreases bytes.len(),
{
    if bytes.len() == 0 {
        0
    } else {
        bytes[0] as nat + 256 * le_value(bytes.drop_first())
    }
}

/// The `len` lowest bytes of `value`, least significant byte first.
pub open spec fn le_bytes(value: nat, len: nat) -> Seq<u8>
    decreases len,
{
    if len == 0 {
        Seq::empty()
    } else {
        seq![(value % 256) as u8] + le_bytes(value / 256, (len - 1) as nat)
    }
}

/// `buffer` with `bytes` written over it from position `at` on.
pub open spec fn splice(buffer: Seq<u8>, at: int, bytes: Seq<u8>) -> Seq<u8> {
    Seq::new(
        buffer.len(),
        |i: int|
            if at <= i < at + bytes.len() {
                bytes[i - at]
            } else {
                buffer[i]
            },
    )
}

/// `bytes` spells a number that its length can hold.
pub proof fn lemma_le_value_bound(bytes: Seq<u8>)
    ensures
        le_value(bytes) < pow256(bytes.len()),
    decreases bytes.len(),
{
    if bytes.len() > 0 {
        lemma_le_value_bound(bytes.drop_first());
    }
}

/// The bytes of a number are as many as were asked for.
pub proof fn lemma_le_bytes_len(value: nat, len: nat)
    ensures
        le_bytes(value, len).len() == len,
    decreases len,
{
    if len > 0 {
        lemma_le_bytes_len(value / 256, (len - 1) as nat);
    }
}

/// Reading back the bytes of a number gives the number, wherever the bytes can hold it.
pub proof fn lemma_value_of_bytes(value: nat, len: nat)
    requires
        value < pow256(len),
    ensures
        le_value(le_bytes(value, len)) == value,
    decreases len,
{
    if len > 0 {
        let rest = le_bytes(value / 256, (len - 1) as nat);
        lemma_value_of_bytes(value / 256, (len - 1) as nat);
        assert(le_bytes(value, len).drop_first() =~= rest);
    }
}

/// Writing the number that some bytes spell gives those bytes.
pub proof fn lemma_bytes_of_value(bytes: Seq<u8>)
    ensures
        le_bytes(le_value(bytes), bytes.len()) == bytes,
    decreases bytes.len(),
{
    if bytes.len() > 0 {
        let rest = bytes.drop_first();
        lemma_bytes_of_value(rest);
        let value = le_value(bytes);
        assert(value % 256 == bytes[0] as nat);
        assert(value / 256 == le_value(rest));
        assert(le_bytes(value, bytes.len()) =~= bytes);
    }
}

/// How many values some numbers of bytes can hold.
pub proof fn lemma_pow256_values()
    ensures
        pow256(1) == 0x100,
        pow256(4) == 0x1_0000_0000,
        pow256(7) == 0x100_0000_0000_0000,
        pow256(8) == 0x1_0000_0000_0000_0000,
{
    reveal_with_fuel(pow256, 9);
}

/// More bytes hold more values.
proof fn lemma_pow256_monotonic(a: nat, b: nat)
    requires
        a <= b,
    ensures
        pow256(a) <= pow256(b),
    decreases b,
{
    if a < b {
        lemma_pow256_monotonic(a, (b - 1) as nat);
    }
}

/// Reads the `len` bytes at `at` as one little-endian number.
fn read_le(buffer: &[u8], at: usize, len: usize) -> (value: u64)
    requires
        len <= 8,
        at + len <= buffer@.len(),
    ensures
        value == le_value(buffer@.subrange(at as int, at + len)),
{
    assert(buffer.len() == buffer@.len());
    let mut value: u64 = 0;
    let mut i: usize = len;
    assert(buffer@.subrange(at + i, at + len) =~= Seq::empty());
    while i > 0
        invariant
            i <= len <= 8,
            at + len <= buffer@.len() <= usize::MAX,
            value == le_value(buffer@.subrange(at + i, at + len)),
        decreases i,
    {
        let ghost tail = buffer@.subrange(at + i, at + len);
        let ghost longer = buffer@.subrange(at + i - 1, at + len);
        proof {
            lemma_le_value_bound(tail);
            lemma_pow256_monotonic(tail.len(), 7);
            lemma_pow256_values();
            assert(longer.drop_first() =~= tail);
        }
        i = i - 1;
        value = value * 256 + buffer[at + i] as u64;
    }
    value
}

/// Reads the eight bytes at `at` as a little-endian integer.
pub fn read_u64(buffer: &[u8], at: usize) -> (value: u64)
    requires
        at + 8 <= buffer@.len(),
    ensures
        value == le_value(buffer@.subrange(at as int, at + 8)),
{
    read_le(buffer, at, 8)
}

/// Reads the four bytes at `at` as a little-endian integer.
pub fn read_u32(buffer: &[u8], at: usize) -> (value: u32)
    requires
        at + 4 <= buffer@.len(),
    ensures
        value == le_value(buffer@.subrange(at as int, at + 4)),
{
    let value: u64 = read_le(buffer, at, 4);
    proof {
        lemma_le_value_bound(buffer@.subrange(at as int, at + 4));
        lemma_pow256_values();
    }
    value as u32
}

/// Reads the eight bytes at `at` of an array as a little-endian integer.
pub fn read_u64_array<const N: usize>(buffer: &[u8; N], at: usize) -> (value: u64)
    requires
        at + 8 <= N,
    ensures
        value == le_value(buffer@.subrange(at as int, at + 8)),
    opens_invariants none
{
    let mut read: u64 = 0;
    let mut i: usize = 8;
    assert(buffer@.subrange(at + i, at + 8) =~= Seq::empty());
    while i > 0
        invariant
            i <= 8,
            at + 8 <= N,
            read == le_value(buffer@.subrange(at + i, at + 8)),
        decreases i,
    {
        let ghost tail = buffer@.subrange(at + i, at + 8);
        let ghost longer = buffer@.subrange(at + i - 1, at + 8);
        proof {
            lemma_le_value_bound(tail);
            lemma_pow256_monotonic(tail.len(), 7);
            lemma_pow256_values();
            assert(longer.drop_first() =~= tail);
        }
        i = i - 1;
        read = read * 256 + buffer[at + i] as u64;
    }
    read
}

/// Writes the `len` lowest bytes of `value` at `at`, and nothing else.
fn write_le(buffer: &mut [u8], at: usize, len: usize, value: u64)
    requires
        at + len <= old(buffer)@.len(),
    ensures
        final(buffer)@ == splice(old(buffer)@, at as int, le_bytes(value as nat, len as nat)),
    opens_invariants none
{
    assert(buffer.len() == buffer@.len());
    let ghost before = buffer@;
    let ghost all = le_bytes(value as nat, len as nat);
    let mut rest: u64 = value;
    let mut i: usize = 0;
    proof {
        lemma_le_bytes_len(value as nat, len as nat);
        assert(all.skip(0) =~= all);
        assert(splice(before, at as int, all.take(0)) =~= before);
    }
    while i < len
        invariant
            i <= len,
            at + len <= before.len() <= usize::MAX,
            all.len() == len,
            all.skip(i as int) == le_bytes(rest as nat, (len - i) as nat),
            buffer@ == splice(before, at as int, all.take(i as int)),
        decreases len - i,
    {
        let byte: u8 = (rest % 256) as u8;
        proof {
            assert(all.skip(i as int)[0] == byte);
            assert(all[i as int] == byte);
            assert(all.skip(i + 1) =~= all.skip(i as int).drop_first());
            assert(le_bytes(rest as nat, (len - i) as nat).drop_first() =~= le_bytes(
                rest as nat / 256,
                (len - i - 1) as nat,
            ));
        }
        buffer[at + i] = byte;
        rest = rest / 256;
        i = i + 1;
        proof {
            assert(buffer@ =~= splice(before, at as int, all.take(i as int)));
        }
    }
    proof {
        assert(all.take(len as int) =~= all);
    }
}

/// Writes `value` into the eight bytes at `at`, least significant byte first.
pub fn write_u64(buffer: &mut [u8], at: usize, value: u64)
    requires
        at + 8 <= old(buffer)@.len(),
    ensures
        final(buffer)@ == splice(old(buffer)@, at as int, le_bytes(value as nat, 8)),
    opens_invariants none
{
    write_le(buffer, at, 8, value)
}

/// Writes `value` into the four bytes at `at`, least significant byte first.
pub fn write_u32(buffer: &mut [u8], at: usize, value: u32)
    requires
        at + 4 <= old(buffer)@.len(),
    ensures
        final(buffer)@ == splice(old(buffer)@, at as int, le_bytes(value as nat, 4)),
    opens_invariants none
{
    write_le(buffer, at, 4, value as u64)
}

} // verus!
