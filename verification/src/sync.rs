//! The join-count protocol: the contract every caller follows when it
//! bumps a room's `in_room_players` counter in the cache.
//!
//! The protocol is read-modify-write: read the counter field, parse it
//! (an unreadable counter counts as zero, an unparsable one is an error),
//! add one, write the decimal rendering back. The read and the write are
//! two separate store requests and nothing holds the counter still in
//! between: two callers racing on the same room can both read the same
//! base and both write the same bumped value, silently under-counting.
//! That is an accepted approximation of this protocol, not repaired here;
//! the presence set is the de-duplicated count.

use vstd::prelude::*;
use crate::cache::{
    CacheError, CacheStore, GetRoomFieldCommand, MirrorModel, UpdateRoomFieldCommand, mirror_of,
};
use crate::decimal::{all_digits, decimal_value, parse_u32_decimal, spec_decimal, u32_to_decimal};

verus! {

/// How a counter bump can fail.
#[derive(Clone, Copy, PartialEq, Eq, Structural, Debug)]
pub enum CountError {
    /// The stored counter is not a decimal number that fits the counter
    /// type.
    Malformed,
    /// The counter is at the largest representable value already.
    Overflow,
}

/// The name of the counter field.
pub open spec fn counter_field() -> Seq<char> {
    "in_room_players"@
}

/// The decision of the protocol, as a function of the outcome of the
/// read: a failed read counts as zero, so the write is one; a readable
/// counter must be a decimal number, and is written back bumped by one.
pub open spec fn next_count(read: Result<Seq<char>, CacheError>) -> Result<Seq<char>, CountError> {
    match read {
        Result::Err(_) => Result::Ok(spec_decimal(1)),
        Result::Ok(s) => {
            if !(s.len() > 0 && all_digits(s) && decimal_value(s) <= u32::MAX) {
                Result::Err(CountError::Malformed)
            } else if decimal_value(s) == u32::MAX {
                Result::Err(CountError::Overflow)
            } else {
                Result::Ok(spec_decimal(decimal_value(s) + 1))
            }
        },
    }
}

/// Mathematical image of a read outcome.
pub open spec fn read_model(read: Result<String, CacheError>) -> Result<Seq<char>, CacheError> {
    match read {
        Result::Ok(s) => Result::Ok(s@),
        Result::Err(e) => Result::Err(e),
    }
}

/// Compute the value to write back for one counter bump, from the outcome
/// of the counter read.
pub fn bump_player_count(read: &Result<String, CacheError>) -> (r: Result<String, CountError>)
    ensures
        r matches Ok(s) ==> next_count(read_model(*read)) == Result::<Seq<char>, CountError>::Ok(
            s@,
        ),
        r matches Err(e) ==> next_count(read_model(*read)) == Result::<Seq<char>, CountError>::Err(
            e,
        ),
{
    let mut base: u32 = 0;
    match read {
        Err(_) => {},
        Ok(s) => {
            match parse_u32_decimal(s.as_str()) {
                None => {
                    return Err(CountError::Malformed);
                },
                Some(v) => {
                    if v == u32::MAX {
                        return Err(CountError::Overflow);
                    }
                    base = v;
                },
            }
        },
    }
    Ok(u32_to_decimal(base + 1))
}

/// The outcome of the counter read against a given store.
pub open spec fn counter_read(m: Map<Seq<char>, MirrorModel>, tok: Seq<char>) -> Result<
    Seq<char>,
    CacheError,
> {
    if m.contains_key(tok) && m[tok].fields.contains_key(counter_field()) {
        Result::Ok(m[tok].fields[counter_field()])
    } else {
        Result::Err(CacheError::Missing)
    }
}

/// One full protocol round against a store: read the counter, bump it,
/// write it back. On an error the store is left untouched; the round is
/// atomic here only because this store is held exclusively for its whole
/// duration.
pub fn sync_join_count(store: &mut CacheStore, room_token: &String) -> (r: Result<(), CountError>)
    requires
        old(store).inv(),
    ensures
        final(store).inv(),
        next_count(counter_read(old(store)@, room_token@)) matches Ok(s) ==> r == Result::<
            (),
            CountError,
        >::Ok(()) && final(store)@ == old(store)@.insert(
            room_token@,
            MirrorModel {
                fields: mirror_of(old(store)@, room_token@).fields.insert(counter_field(), s),
                players: mirror_of(old(store)@, room_token@).players,
            },
        ),
        next_count(counter_read(old(store)@, room_token@)) matches Err(e) ==> r == Result::<
            (),
            CountError,
        >::Err(e) && final(store)@ == old(store)@,
{
    let read = store.get_room_field(
        &GetRoomFieldCommand { room_token: room_token.clone(), field: "in_room_players".to_owned() },
    );
    proof {
        assert(read_model(read) == counter_read(store@, room_token@));
    }
    match bump_player_count(&read) {
        Ok(value) => {
            store.update_room_field(
                UpdateRoomFieldCommand {
                    room_token: room_token.clone(),
                    field: "in_room_players".to_owned(),
                    value,
                },
            );
            Ok(())
        },
        Err(e) => Err(e),
    }
}

} // verus!
