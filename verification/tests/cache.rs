use room_registry::api::create_room_fields;
use room_registry::cache::{
    AddRoomPlayerCommand, CacheError, CacheStore, GetRoomFieldCommand, GetRoomSizeCommand,
    RemoveRoomPlayerCommand, SetRoomCommand, UpdateRoomFieldCommand, room_key, room_players_key,
};
use room_registry::registry::RoomActor;

fn get(store: &CacheStore, token: &str, field: &str) -> Result<String, CacheError> {
    store.get_room_field(&GetRoomFieldCommand {
        room_token: token.to_string(),
        field: field.to_string(),
    })
}

fn size(store: &CacheStore, token: &str) -> usize {
    store.get_room_size(&GetRoomSizeCommand { room_token: token.to_string() })
}

#[test]
fn set_fields_then_get_round_trip() {
    let mut store = CacheStore::new();
    store.set_room(SetRoomCommand {
        room_token: "tok1234".to_string(),
        fields: vec![("status".to_string(), "ready".to_string())],
    });
    assert_eq!(get(&store, "tok1234", "status").unwrap(), "ready");
}

#[test]
fn get_missing_room_or_field_fails() {
    let mut store = CacheStore::new();
    assert_eq!(get(&store, "absent", "status").unwrap_err(), CacheError::Missing);
    store.set_room(SetRoomCommand {
        room_token: "tok1234".to_string(),
        fields: vec![("status".to_string(), "ready".to_string())],
    });
    assert_eq!(get(&store, "tok1234", "name").unwrap_err(), CacheError::Missing);
}

#[test]
fn update_field_overwrites_and_creates() {
    let mut store = CacheStore::new();
    store.update_room_field(UpdateRoomFieldCommand {
        room_token: "tok1234".to_string(),
        field: "status".to_string(),
        value: "ready".to_string(),
    });
    assert_eq!(get(&store, "tok1234", "status").unwrap(), "ready");
    store.update_room_field(UpdateRoomFieldCommand {
        room_token: "tok1234".to_string(),
        field: "status".to_string(),
        value: "closed".to_string(),
    });
    assert_eq!(get(&store, "tok1234", "status").unwrap(), "closed");
}

#[test]
fn presence_set_counts_without_duplicates() {
    let mut store = CacheStore::new();
    assert_eq!(size(&store, "tok1234"), 0);
    store.add_room_player(AddRoomPlayerCommand {
        room_token: "tok1234".to_string(),
        player_key: "player-a".to_string(),
    });
    assert_eq!(size(&store, "tok1234"), 1);
    // adding the same player key twice does not double-count
    store.add_room_player(AddRoomPlayerCommand {
        room_token: "tok1234".to_string(),
        player_key: "player-a".to_string(),
    });
    assert_eq!(size(&store, "tok1234"), 1);
    store.add_room_player(AddRoomPlayerCommand {
        room_token: "tok1234".to_string(),
        player_key: "player-b".to_string(),
    });
    assert_eq!(size(&store, "tok1234"), 2);
    store.remove_room_player(RemoveRoomPlayerCommand {
        room_token: "tok1234".to_string(),
        player_key: "player-a".to_string(),
    });
    assert_eq!(size(&store, "tok1234"), 1);
    // removing an absent key changes nothing
    store.remove_room_player(RemoveRoomPlayerCommand {
        room_token: "tok1234".to_string(),
        player_key: "player-c".to_string(),
    });
    assert_eq!(size(&store, "tok1234"), 1);
}

#[test]
fn key_layout() {
    assert_eq!(room_key("abcdefg"), "room:abcdefg");
    assert_eq!(room_players_key("abcdefg"), "room:abcdefg:players");
}

#[test]
fn create_arena_scenario() {
    let mut reg = RoomActor::new();
    let receipt = reg.create_room("Arena".to_string(), 4, 120);
    assert_eq!(receipt.id, "0");
    assert_eq!(receipt.name, "Arena");
    assert_eq!(receipt.token.chars().count(), 7);

    let mut store = CacheStore::new();
    let fields = create_room_fields(&receipt);
    let token = receipt.token.clone();
    store.set_room(SetRoomCommand { room_token: token.clone(), fields });
    assert_eq!(get(&store, &token, "name").unwrap(), "Arena");
    assert_eq!(get(&store, &token, "time_limit_seconds").unwrap(), "120");
    assert_eq!(get(&store, &token, "in_room_players").unwrap(), "0");
    assert_eq!(get(&store, &token, "status").unwrap(), "ready");
}

#[test]
fn set_room_later_fields_win_and_keep_players() {
    let mut store = CacheStore::new();
    store.add_room_player(AddRoomPlayerCommand {
        room_token: "tok1234".to_string(),
        player_key: "player-a".to_string(),
    });
    store.set_room(SetRoomCommand {
        room_token: "tok1234".to_string(),
        fields: vec![
            ("status".to_string(), "ready".to_string()),
            ("status".to_string(), "full".to_string()),
        ],
    });
    assert_eq!(get(&store, "tok1234", "status").unwrap(), "full");
    assert_eq!(size(&store, "tok1234"), 1);
}
