use room_registry::api::{api_key_allowed, create_room_fields};
use room_registry::registry::RoomActor;

#[test]
fn dev_mode_admits_any_key() {
    let keys: Vec<String> = vec![];
    assert!(api_key_allowed(true, &keys, &"anything".to_string()));
}

#[test]
fn configured_keys_are_admitted() {
    let keys = vec!["key-a".to_string(), "key-b".to_string()];
    assert!(api_key_allowed(false, &keys, &"key-b".to_string()));
    assert!(!api_key_allowed(false, &keys, &"key-c".to_string()));
    let none: Vec<String> = vec![];
    assert!(!api_key_allowed(false, &none, &"key-a".to_string()));
}

#[test]
fn creation_seeds_the_four_mirror_fields() {
    let mut reg = RoomActor::new();
    let receipt = reg.create_room("Arena".to_string(), 4, 120);
    let fields = create_room_fields(&receipt);
    assert_eq!(fields.len(), 4);
    assert_eq!(fields[0], ("name".to_string(), "Arena".to_string()));
    assert_eq!(fields[1], ("time_limit_seconds".to_string(), "120".to_string()));
    assert_eq!(fields[2], ("in_room_players".to_string(), "0".to_string()));
    assert_eq!(fields[3], ("status".to_string(), "ready".to_string()));
}
