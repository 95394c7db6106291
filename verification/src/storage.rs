//! The collections that hold the sessions: a `thunderdome` arena, and hash maps with the `fnv`
//! hasher that lead to its entries.

use fnv::FnvHashMap;
use thunderdome::{Arena, Index};
use vstd::prelude::*;

use crate::addr::{SocketAddr, SocketAddrKey};
use crate::table::MAX_SESSIONS;

verus! {

/// One connected session.
pub struct ReceiverSession {
    pub session_id: u64,
    pub cipher_key: u64,
    /// The address that the session was last reached at, for each mirroring.
    pub socket_addrs: Vec<Option<SocketAddr>>,
}

/// The generational arena of `thunderdome`.
#[verifier::external_type_specification]
#[verifier::external_body]
#[verifier::reject_recursive_types(T)]
pub struct ExArena<T>(thunderdome::Arena<T>);

/// The hasher of `fnv`.
#[verifier::external_type_specification]
#[verifier::external_body]
pub struct ExFnvHasher(fnv::FnvHasher);

/// What makes a hash map use the hasher of `fnv`.
#[verifier::external_type_specification]
#[verifier::external_body]
#[verifier::reject_recursive_types(H)]
pub struct ExBuildHasherDefault<H>(std::hash::BuildHasherDefault<H>);

/// The sessions in an arena, each under the bits of its index.
pub uninterp spec fn arena_sessions(arena: Arena<ReceiverSession>) -> Map<u64, ReceiverSession>;

/// One entry of any of the collections here takes up fewer bytes than this, slack included. Room
/// can be made ahead for as many entries as the machine can address at this size.
pub const ENTRY_SIZE: usize = 256;

/// Calls `thunderdome::Arena::with_capacity`: an arena without sessions.
#[verifier::external_body]
pub(crate) fn new_arena(capacity: usize) -> (arena: Arena<ReceiverSession>)
    requires
        capacity * ENTRY_SIZE <= isize::MAX,
    ensures
        arena_sessions(arena).dom() == Set::<u64>::empty(),
{
    Arena::with_capacity(capacity)
}

/// Calls `thunderdome::Arena::len`: the number of sessions in the arena.
#[verifier::external_body]
pub(crate) fn arena_len(arena: &Arena<ReceiverSession>) -> (len: usize)
    ensures
        len == arena_sessions(*arena).dom().len(),
{
    arena.len()
}

/// Calls `thunderdome::Arena::insert`, which panics on a full arena: the session enters under an
/// index that no other session in the arena has. The index is handed out as its bits.
#[verifier::external_body]
pub(crate) fn arena_insert(arena: &mut Arena<ReceiverSession>, session: ReceiverSession) -> (bits:
    u64)
    requires
        arena_sessions(*old(arena)).dom().len() < MAX_SESSIONS,
    ensures
        !arena_sessions(*old(arena)).contains_key(bits),
        arena_sessions(*final(arena)) == arena_sessions(*old(arena)).insert(bits, session),
{
    arena.insert(session).to_bits()
}

/// Calls `thunderdome::Arena::remove`: takes out the session under the index with these bits.
#[verifier::external_body]
pub(crate) fn arena_remove(arena: &mut Arena<ReceiverSession>, bits: u64) -> (session: Option<
    ReceiverSession,
>)
    ensures
        arena_sessions(*final(arena)) == arena_sessions(*old(arena)).remove(bits),
        session matches Some(taken) ==> arena_sessions(*old(arena)).contains_key(bits) && taken
            == arena_sessions(*old(arena))[bits],
        session is None ==> !arena_sessions(*old(arena)).contains_key(bits),
{
    match Index::from_bits(bits) {
        Some(index) => arena.remove(index),
        None => None,
    }
}

/// Calls `thunderdome::Arena::get_mut`: lends out the session under the index with these bits.
#[verifier::external_body]
pub(crate) fn arena_get_mut(arena: &mut Arena<ReceiverSession>, bits: u64) -> (session: Option<
    &mut ReceiverSession,
>)
    ensures
        session matches Some(lent) ==> arena_sessions(*old(arena)).contains_key(bits) && *lent
            == arena_sessions(*old(arena))[bits] && arena_sessions(*final(arena))
            == arena_sessions(*old(arena)).insert(bits, *final(lent)),
        session is None ==> !arena_sessions(*old(arena)).contains_key(bits) && arena_sessions(
            *final(arena),
        ) == arena_sessions(*old(arena)),
{
    match Index::from_bits(bits) {
        Some(index) => arena.get_mut(index),
        None => None,
    }
}

/// Calls `HashMap::with_capacity_and_hasher` with the hasher of `fnv`: a map without entries.
#[verifier::external_body]
pub(crate) fn new_id_map(capacity: usize) -> (map: FnvHashMap<u64, u64>)
    requires
        capacity * ENTRY_SIZE <= isize::MAX,
    ensures
        map@.dom() == Set::<u64>::empty(),
    opens_invariants none
{
    FnvHashMap::with_capacity_and_hasher(capacity, Default::default())
}

/// Calls `HashMap::get` on a map with the hasher of `fnv`: the value under the key, if any.
#[verifier::external_body]
pub(crate) fn id_map_get(map: &FnvHashMap<u64, u64>, key: u64) -> (value: Option<u64>)
    ensures
        value == if map@.contains_key(key) {
            Some(map@[key])
        } else {
            None
        },
    opens_invariants none
{
    map.get(&key).copied()
}

/// Calls `HashMap::insert` on a map with the hasher of `fnv`: the key now has this value.
#[verifier::external_body]
pub(crate) fn id_map_insert(map: &mut FnvHashMap<u64, u64>, key: u64, value: u64)
    ensures
        final(map)@ == old(map)@.insert(key, value),
    opens_invariants none
{
    map.insert(key, value);
}

/// Calls `HashMap::remove` on a map with the hasher of `fnv`: takes out the key, and gives the
/// value that it had.
#[verifier::external_body]
pub(crate) fn id_map_remove(map: &mut FnvHashMap<u64, u64>, key: u64) -> (value: Option<u64>)
    ensures
        final(map)@ == old(map)@.remove(key),
        value == if old(map)@.contains_key(key) {
            Some(old(map)@[key])
        } else {
            None
        },
{
    map.remove(&key)
}

/// Calls `HashMap::with_capacity_and_hasher` with the hasher of `fnv`: a map without entries.
#[verifier::external_body]
pub(crate) fn new_addr_map(capacity: usize) -> (map: FnvHashMap<SocketAddrKey, u64>)
    requires
        capacity * ENTRY_SIZE <= isize::MAX,
    ensures
        map@.dom() == Set::<SocketAddrKey>::empty(),
{
    FnvHashMap::with_capacity_and_hasher(capacity, Default::default())
}

/// Calls `HashMap::get` on a map with the hasher of `fnv`: the value under the key, if any.
#[verifier::external_body]
pub(crate) fn addr_map_get(map: &FnvHashMap<SocketAddrKey, u64>, key: SocketAddrKey) -> (value:
    Option<u64>)
    ensures
        value == if map@.contains_key(key) {
            Some(map@[key])
        } else {
            None
        },
{
    map.get(&key).copied()
}

/// Calls `HashMap::insert` on a map with the hasher of `fnv`: the key now has this value.
#[verifier::external_body]
pub(crate) fn addr_map_insert(
    map: &mut FnvHashMap<SocketAddrKey, u64>,
    key: SocketAddrKey,
    value: u64,
)
    ensures
        final(map)@ == old(map)@.insert(key, value),
{
    map.insert(key, value);
}

/// Calls `HashMap::remove` on a map with the hasher of `fnv`: takes out the key.
#[verifier::external_body]
pub(crate) fn addr_map_remove(map: &mut FnvHashMap<SocketAddrKey, u64>, key: SocketAddrKey)
    ensures
        final(map)@ == old(map)@.remove(key),
{
    map.remove(&key);
}

} // verus!
