use smart_home::error::HomeError;
use smart_home::home::Home;
use smart_home::memory::InmemoryRoomsStorage;
use smart_home::room::Room;
use smart_home::storage::RoomsStorage;

fn names(v: &[&str]) -> Vec<String> {
    v.iter().map(|s| s.to_string()).collect()
}

fn sorted_devices(room: &Room) -> Vec<String> {
    let mut v = room.get_devices().clone();
    v.sort();
    v
}

fn home_with(rooms: &[(&str, &[&str])]) -> Home<InmemoryRoomsStorage> {
    let mut home = Home::new("SmartHome".to_string(), InmemoryRoomsStorage::new());
    for (name, devices) in rooms {
        home.add_room(name, Room::new(name.to_string(), names(devices))).unwrap();
    }
    home
}

#[test]
fn room_new_keeps_each_device_once() {
    let room = Room::new("Hall".to_string(), names(&["Lamp", "Fan", "Lamp"]));
    assert_eq!(room.get_name(), "Hall");
    assert_eq!(sorted_devices(&room), names(&["Fan", "Lamp"]));
}

#[test]
fn room_get_device_finds_stored_name() {
    let room = Room::new("Hall".to_string(), names(&["Lamp"]));
    assert_eq!(room.get_device("Lamp"), Some("Lamp"));
    assert_eq!(room.get_device("Fan"), None);
    assert_eq!(room.get_device(""), None);
}

#[test]
fn room_insert_and_remove_report_change() {
    let mut room = Room::new("Hall".to_string(), Vec::new());
    assert!(room.insert_device("Lamp".to_string()));
    assert!(!room.insert_device("Lamp".to_string()));
    assert_eq!(sorted_devices(&room), names(&["Lamp"]));
    assert!(room.remove_device("Lamp"));
    assert!(!room.remove_device("Lamp"));
    assert!(room.get_devices().is_empty());
}

#[test]
fn add_room_then_get_room_returns_it() {
    let mut home = home_with(&[]);
    let stored = home
        .add_room("Kitchen", Room::new("Kitchen".to_string(), names(&["Fridge", "Breaker"])))
        .unwrap();
    assert_eq!(stored.get_name(), "Kitchen");
    let room = home.get_room("Kitchen").unwrap();
    assert_eq!(room.get_name(), "Kitchen");
    assert_eq!(sorted_devices(room), names(&["Breaker", "Fridge"]));
}

#[test]
fn add_existing_room_is_rejected_and_keeps_original() {
    let mut home = home_with(&[("Kitchen", &["Fridge"])]);
    let r = home.add_room("Kitchen", Room::new("Other".to_string(), names(&["Oven"])));
    assert_eq!(r.err(), Some(HomeError::RoomAlreadyExists));
    let room = home.get_room("Kitchen").unwrap();
    assert_eq!(room.get_name(), "Kitchen");
    assert_eq!(sorted_devices(room), names(&["Fridge"]));
    let mut it = home.list_rooms();
    let mut count = 0;
    while it.next().is_some() {
        count += 1;
    }
    assert_eq!(count, 1);
}

#[test]
fn get_missing_room_is_not_found() {
    let home = home_with(&[("Kitchen", &[])]);
    let r = home.get_room("Garage");
    assert_eq!(r.err(), Some(HomeError::RoomNotFound));
}

#[test]
fn delete_room_then_get_room_is_not_found() {
    let mut home = home_with(&[("Kitchen", &["Fridge"]), ("Bedroom", &[])]);
    assert_eq!(home.delete_room("Kitchen"), Ok(()));
    assert_eq!(home.get_room("Kitchen").err(), Some(HomeError::RoomNotFound));
    assert!(home.get_room("Bedroom").is_ok());
    assert_eq!(home.delete_room("Kitchen"), Err(HomeError::RoomNotFound));
}

#[test]
fn add_device_cases() {
    let mut home = home_with(&[("Kitchen", &["Fridge"])]);
    let missing = home.add_device("Garage", "Lamp");
    assert_eq!(missing, Err(HomeError::RoomNotFound));
    assert!(missing.unwrap_err().is_not_found());
    assert_eq!(home.add_device("Kitchen", "Kettle"), Ok(()));
    let room = home.get_room("Kitchen").unwrap();
    assert!(room.get_devices().contains(&"Kettle".to_string()));
    assert_eq!(sorted_devices(room), names(&["Fridge", "Kettle"]));
    let again = home.add_device("Kitchen", "Kettle");
    assert_eq!(again, Err(HomeError::DeviceAlreadyExists));
    assert!(again.unwrap_err().is_already_exists());
    assert_eq!(sorted_devices(home.get_room("Kitchen").unwrap()), names(&["Fridge", "Kettle"]));
}

#[test]
fn delete_device_cases() {
    let mut home = home_with(&[("Kitchen", &["Fridge", "Kettle"])]);
    assert_eq!(home.delete_divece("Kitchen", "Oven"), Err(HomeError::DeviceNotFound));
    assert_eq!(home.delete_divece("Garage", "Oven"), Err(HomeError::RoomNotFound));
    assert_eq!(home.delete_divece("Kitchen", "Fridge"), Ok(()));
    let room = home.get_room("Kitchen").unwrap();
    assert!(!room.get_devices().contains(&"Fridge".to_string()));
    assert_eq!(sorted_devices(room), names(&["Kettle"]));
}

#[test]
fn add_delete_add_device_round_trip() {
    let mut home = home_with(&[("Kitchen", &[])]);
    assert_eq!(home.add_device("Kitchen", "Kettle"), Ok(()));
    assert_eq!(home.delete_divece("Kitchen", "Kettle"), Ok(()));
    assert_eq!(home.add_device("Kitchen", "Kettle"), Ok(()));
    assert_eq!(sorted_devices(home.get_room("Kitchen").unwrap()), names(&["Kettle"]));
}

#[test]
fn list_rooms_yields_each_room_once() {
    let home = home_with(&[("A", &["x"]), ("B", &[]), ("C", &["y", "z"])]);
    let mut it = home.list_rooms();
    let mut seen = Vec::new();
    while let Some((name, room)) = it.next() {
        assert_eq!(room.get_name(), name.as_str());
        seen.push(name.clone());
    }
    assert!(it.next().is_none());
    assert_eq!(seen.len(), 3);
    seen.sort();
    assert_eq!(seen, names(&["A", "B", "C"]));
}

#[test]
fn list_rooms_of_empty_storage_is_empty() {
    let storage = InmemoryRoomsStorage::new();
    assert_eq!(storage.room_count(), 0);
    let mut it = storage.list_rooms();
    assert!(it.next().is_none());
}

#[test]
fn storage_used_directly() {
    let mut storage = InmemoryRoomsStorage::new();
    assert!(storage.add_room("Hall", Room::new("Hall".to_string(), Vec::new())).is_ok());
    assert_eq!(storage.add_device("Hall", "Lamp"), Ok(()));
    assert_eq!(storage.delete_device("Hall", "Lamp"), Ok(()));
    assert_eq!(storage.delete_device("Hall", "Lamp"), Err(HomeError::DeviceNotFound));
    assert_eq!(storage.room_count(), 1);
    let (name, room) = storage.room_at(0);
    assert_eq!(name, "Hall");
    assert!(room.get_devices().is_empty());
    assert_eq!(storage.delete_room("Hall"), Ok(()));
    assert_eq!(storage.room_count(), 0);
}
