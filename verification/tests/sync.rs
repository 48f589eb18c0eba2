use room_registry::cache::{
    CacheError, CacheStore, GetRoomFieldCommand, SetRoomCommand, UpdateRoomFieldCommand,
};
use room_registry::sync::{CountError, bump_player_count, sync_join_count};

fn seed_counter(store: &mut CacheStore, token: &str, value: &str) {
    store.set_room(SetRoomCommand {
        room_token: token.to_string(),
        fields: vec![("in_room_players".to_string(), value.to_string())],
    });
}

fn read_counter(store: &CacheStore, token: &str) -> Result<String, CacheError> {
    store.get_room_field(&GetRoomFieldCommand {
        room_token: token.to_string(),
        field: "in_room_players".to_string(),
    })
}

#[test]
fn bump_counts_a_failed_read_as_zero() {
    let read: Result<String, CacheError> = Err(CacheError::Missing);
    assert_eq!(bump_player_count(&read).unwrap(), "1");
}

#[test]
fn bump_increments_a_readable_counter() {
    assert_eq!(bump_player_count(&Ok("0".to_string())).unwrap(), "1");
    assert_eq!(bump_player_count(&Ok("41".to_string())).unwrap(), "42");
    // leading zeros are read as their value
    assert_eq!(bump_player_count(&Ok("007".to_string())).unwrap(), "8");
}

#[test]
fn bump_rejects_a_malformed_counter() {
    assert_eq!(bump_player_count(&Ok("abc".to_string())).unwrap_err(), CountError::Malformed);
    assert_eq!(bump_player_count(&Ok("".to_string())).unwrap_err(), CountError::Malformed);
    assert_eq!(bump_player_count(&Ok("+5".to_string())).unwrap_err(), CountError::Malformed);
    assert_eq!(bump_player_count(&Ok("-1".to_string())).unwrap_err(), CountError::Malformed);
    assert_eq!(
        bump_player_count(&Ok("4294967296".to_string())).unwrap_err(),
        CountError::Malformed
    );
}

#[test]
fn bump_rejects_a_counter_at_capacity() {
    assert_eq!(
        bump_player_count(&Ok("4294967295".to_string())).unwrap_err(),
        CountError::Overflow
    );
}

#[test]
fn sync_increments_the_stored_counter() {
    let mut store = CacheStore::new();
    seed_counter(&mut store, "tok1234", "0");
    sync_join_count(&mut store, &"tok1234".to_string()).unwrap();
    assert_eq!(read_counter(&store, "tok1234").unwrap(), "1");
    sync_join_count(&mut store, &"tok1234".to_string()).unwrap();
    assert_eq!(read_counter(&store, "tok1234").unwrap(), "2");
}

#[test]
fn sync_on_an_unseeded_room_writes_one() {
    let mut store = CacheStore::new();
    sync_join_count(&mut store, &"tok1234".to_string()).unwrap();
    assert_eq!(read_counter(&store, "tok1234").unwrap(), "1");
}

#[test]
fn racing_joins_can_both_write_one() {
    // Two callers follow the read-increment-write protocol on the same
    // room without synchronization: both read the same base and both
    // write the same bumped value. The undercount is the documented,
    // accepted behavior of the protocol; this asserts the race, not its
    // absence.
    let mut store = CacheStore::new();
    seed_counter(&mut store, "tok1234", "0");

    let read_a = read_counter(&store, "tok1234");
    let read_b = read_counter(&store, "tok1234");

    let write_a = bump_player_count(&read_a).unwrap();
    let write_b = bump_player_count(&read_b).unwrap();
    assert_eq!(write_a, "1");
    assert_eq!(write_b, "1");

    store.update_room_field(UpdateRoomFieldCommand {
        room_token: "tok1234".to_string(),
        field: "in_room_players".to_string(),
        value: write_a,
    });
    store.update_room_field(UpdateRoomFieldCommand {
        room_token: "tok1234".to_string(),
        field: "in_room_players".to_string(),
        value: write_b,
    });

    let stored = read_counter(&store, "tok1234").unwrap();
    assert_eq!(stored, "1");
    assert_ne!(stored, "2");
}
