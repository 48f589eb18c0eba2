//! Room tokens: the externally visible room handles.
//!
//! A token is a fixed-length random alphanumeric string drawn independently
//! of the room id. Uniqueness among live rooms is not actively checked; a
//! colliding token replaces the room it collides with, exactly as an insert
//! into the token-keyed registry map would.

use rand::Rng;
use vstd::prelude::*;

verus! {

/// Length of every room token.
pub const TOKEN_LEN: usize = 7;

/// An ASCII alphanumeric character: a digit or a letter of either case.
pub open spec fn is_token_char(c: char) -> bool {
    ('0' as u32 <= c as u32 && c as u32 <= '9' as u32) || ('A' as u32 <= c as u32 && c as u32
        <= 'Z' as u32) || ('a' as u32 <= c as u32 && c as u32 <= 'z' as u32)
}

/// The shape of a well-formed room token.
pub open spec fn is_room_token(s: Seq<char>) -> bool {
    s.len() == TOKEN_LEN && forall|i: int| 0 <= i < s.len() ==> is_token_char(#[trigger] s[i])
}

/// Relies on rand's `Alphanumeric` distribution: every sampled byte is an
/// ASCII digit or letter, so the collected string has exactly `TOKEN_LEN`
/// alphanumeric characters. The result is random; nothing beyond its shape
/// holds of it.
#[verifier::external_body]
pub(crate) fn random_token() -> (t: String)
    ensures
        is_room_token(t@),
{
    rand::thread_rng()
        .sample_iter(&rand::distributions::Alphanumeric)
        .take(TOKEN_LEN)
        .map(char::from)
        .collect()
}

} // verus!
