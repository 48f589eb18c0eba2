use room_registry::registry::{JoinRoom, ListRooms, RegistryError, RoomActor, SessionHandle};

fn join_msg(token: &str) -> JoinRoom {
    JoinRoom {
        room_token: token.to_string(),
        api_key: "key-1".to_string(),
        team_name: "team-1".to_string(),
    }
}

#[test]
fn create_assigns_sequential_ids() {
    let mut reg = RoomActor::new();
    let a = reg.create_room("alpha".to_string(), 2, 60);
    let b = reg.create_room("beta".to_string(), 3, 90);
    let c = reg.create_room("gamma".to_string(), 4, 120);
    assert_eq!(a.id, "0");
    assert_eq!(b.id, "1");
    assert_eq!(c.id, "2");
    assert_ne!(a.id, b.id);
    assert_ne!(b.id, c.id);
    assert_ne!(a.id, c.id);
}

#[test]
fn create_echoes_metadata_and_token_shape() {
    let mut reg = RoomActor::new();
    let r = reg.create_room("Arena".to_string(), 4, 120);
    assert_eq!(r.id, "0");
    assert_eq!(r.name, "Arena");
    assert_eq!(r.max_players, 4);
    assert_eq!(r.time_limit_seconds, 120);
    assert_eq!(r.token.chars().count(), 7);
    assert!(r.token.chars().all(|c| c.is_ascii_alphanumeric()));
}

#[test]
fn list_rooms_sorted_ascending_by_id() {
    let mut reg = RoomActor::new();
    for i in 0..5u32 {
        reg.create_room(format!("room-{}", i), 2 + i, 30 * (i + 1));
    }
    let list = reg.list_rooms(ListRooms);
    assert_eq!(list.rooms.len(), 5);
    for w in list.rooms.windows(2) {
        assert!(w[0].id < w[1].id);
    }
    for (i, d) in list.rooms.iter().enumerate() {
        assert_eq!(d.id, i as u32);
        assert_eq!(d.name, format!("room-{}", i));
    }
}

#[test]
fn join_unknown_token_is_not_found() {
    let reg = RoomActor::new();
    let r = reg.join_room(join_msg("AAAAAAA"));
    assert_eq!(r.unwrap_err(), RegistryError::NotFound);
}

#[test]
fn join_token_never_created_is_not_found() {
    let mut reg = RoomActor::new();
    reg.create_room("alpha".to_string(), 2, 60);
    reg.create_room("beta".to_string(), 3, 90);
    // tokens are always seven characters, so this one was never handed out
    let r = reg.join_room(join_msg("never-a-token"));
    assert_eq!(r.unwrap_err(), RegistryError::NotFound);
}

#[test]
fn join_returns_the_created_session() {
    let mut reg = RoomActor::new();
    let first = reg.create_room("alpha".to_string(), 2, 60);
    let second = reg.create_room("beta".to_string(), 3, 90);
    let j1 = reg.join_room(join_msg(&first.token)).unwrap();
    let j2 = reg.join_room(join_msg(&second.token)).unwrap();
    assert_eq!(j1.game_addr, SessionHandle { session_id: 0 });
    assert_eq!(j2.game_addr, SessionHandle { session_id: 1 });
    // joining again yields the same handle
    let j1_again = reg.join_room(join_msg(&first.token)).unwrap();
    assert_eq!(j1_again.game_addr, j1.game_addr);
}

#[test]
fn join_echoes_identity_fields() {
    let mut reg = RoomActor::new();
    let r = reg.create_room("alpha".to_string(), 2, 60);
    let j = reg
        .join_room(JoinRoom {
            room_token: r.token.clone(),
            api_key: "team-blue-key".to_string(),
            team_name: "blue".to_string(),
        })
        .unwrap();
    assert_eq!(j.room_token, r.token);
    assert_eq!(j.api_key, "team-blue-key");
    assert_eq!(j.team_name, "blue");
}
