//! Request payloads of the outward-facing handlers, and the decisions
//! those handlers make: admission by key, and the field set seeded into
//! the cache when a room is created. The handlers themselves — routing,
//! request parsing, socket upgrades — live with the process around this
//! crate and hand plain values in.

use vstd::prelude::*;
use crate::decimal::spec_decimal;
use crate::decimal::u32_to_decimal;
use crate::registry::RoomCreated;

verus! {

/// Query of a join request: the room, the caller's key and team name.
pub struct QueryString {
    pub room_token: String,
    pub key: String,
    pub name: String,
}

/// Query of a spectate request: only the room.
pub struct InspectatorString {
    pub room_token: String,
}

/// Body of a room-creation request.
pub struct RoomCreateRequest {
    pub name: String,
    pub max_players: u32,
    pub time_limit_seconds: u32,
}

/// Admission check for a join: development mode admits everyone,
/// otherwise the key must be one of the configured keys.
pub fn api_key_allowed(dev_mode: bool, api_keys: &Vec<String>, key: &String) -> (r: bool)
    ensures
        r == (dev_mode || exists|i: int|
            0 <= i < api_keys@.len() && (#[trigger] api_keys@[i])@ == key@),
{
    if dev_mode {
        return true;
    }
    let n = api_keys.len();
    let mut i: usize = 0;
    while i < n
        invariant
            0 <= i <= n,
            n == api_keys@.len(),
            forall|j: int| 0 <= j < i ==> (#[trigger] api_keys@[j])@ != key@,
        decreases n - i,
    {
        if api_keys[i] == *key {
            return true;
        }
        i = i + 1;
    }
    false
}

/// The fields written to a room's cache mirror at creation: the display
/// name, the time limit as a decimal string, a player counter starting at
/// zero, and the ready status tag.
pub fn create_room_fields(room: &RoomCreated) -> (fields: Vec<(String, String)>)
    ensures
        fields@.len() == 4,
        fields@[0].0@ == "name"@ && fields@[0].1@ == room.name@,
        fields@[1].0@ == "time_limit_seconds"@ && fields@[1].1@ == spec_decimal(
            room.time_limit_seconds as nat,
        ),
        fields@[2].0@ == "in_room_players"@ && fields@[2].1@ == spec_decimal(0),
        fields@[3].0@ == "status"@ && fields@[3].1@ == "ready"@,
{
    let mut fields: Vec<(String, String)> = Vec::new();
    fields.push(("name".to_owned(), room.name.clone()));
    fields.push(("time_limit_seconds".to_owned(), u32_to_decimal(room.time_limit_seconds)));
    fields.push(("in_room_players".to_owned(), u32_to_decimal(0)));
    fields.push(("status".to_owned(), "ready".to_owned()));
    fields
}

} // verus!
