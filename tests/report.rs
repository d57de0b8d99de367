use smart_home::error::HomeError;
use smart_home::home::Home;
use smart_home::memory::InmemoryRoomsStorage;
use smart_home::reporter::{DeviceItem, DeviceProvider, DeviceRecord, ObjectReporter};
use smart_home::room::Room;

fn names(v: &[&str]) -> Vec<String> {
    v.iter().map(|s| s.to_string()).collect()
}

fn home_with(rooms: &[(&str, &[&str])]) -> Home<InmemoryRoomsStorage> {
    let mut home = Home::new("SmartHome".to_string(), InmemoryRoomsStorage::new());
    for (name, devices) in rooms {
        home.add_room(name, Room::new(name.to_string(), names(devices))).unwrap();
    }
    home
}

fn provider(rooms: &[(&str, &[(&str, &str)])]) -> DeviceProvider<DeviceRecord> {
    let mut map = Vec::new();
    for (room, devices) in rooms {
        let records = devices
            .iter()
            .map(|(n, s)| DeviceRecord::new(n.to_string(), s.to_string()))
            .collect();
        map.push((room.to_string(), records));
    }
    DeviceProvider::new(map)
}

fn sorted_lines(report: &str) -> (String, Vec<String>) {
    let mut lines: Vec<String> = report.lines().map(|l| l.to_string()).collect();
    let header = lines.remove(0);
    lines.sort();
    (header, lines)
}

#[test]
fn report_skips_devices_the_reporter_does_not_know() {
    let home = home_with(&[
        ("Bedroom", &["Breaker", "Thermometer"]),
        ("Kitchen", &["Breaker", "Fridge"]),
    ]);
    let reporter = provider(&[("Bedroom", &[("Breaker", "OFF"), ("Thermometer", "20")])]);
    let report = home.get_report(reporter);
    assert!(report.ends_with('\n'));
    let (header, lines) = sorted_lines(&report);
    assert_eq!(header, "Report for: SmartHome");
    assert_eq!(
        lines,
        vec![
            "Room Bedroom, has device Breaker with state - OFF".to_string(),
            "Room Bedroom, has device Thermometer with state - 20".to_string(),
        ]
    );
    assert!(!report.contains("Kitchen"));
}

#[test]
fn report_ignores_rooms_only_the_reporter_knows() {
    let home = home_with(&[("Bedroom", &["Lamp"])]);
    let reporter = provider(&[
        ("Bedroom", &[("Lamp", "ON")]),
        ("Garage", &[("Door", "OPEN"), ("Lamp", "OFF")]),
    ]);
    let report = home.get_report(reporter);
    assert_eq!(report, "Report for: SmartHome\nRoom Bedroom, has device Lamp with state - ON\n");
    assert!(!report.contains("Garage"));
    assert!(!report.contains("Door"));
}

#[test]
fn report_of_empty_home_is_the_header() {
    let home = home_with(&[]);
    let report = home.get_report(provider(&[]));
    assert_eq!(report, "Report for: SmartHome\n");
}

#[test]
fn report_lists_every_resolved_device() {
    let home = home_with(&[("Hall", &["Lamp", "Fan"]), ("Attic", &["Fan"])]);
    let reporter = provider(&[
        ("Hall", &[("Lamp", "ON"), ("Fan", "OFF")]),
        ("Attic", &[("Fan", "ON")]),
    ]);
    let (header, lines) = sorted_lines(&home.get_report(reporter));
    assert_eq!(header, "Report for: SmartHome");
    assert_eq!(
        lines,
        vec![
            "Room Attic, has device Fan with state - ON".to_string(),
            "Room Hall, has device Fan with state - OFF".to_string(),
            "Room Hall, has device Lamp with state - ON".to_string(),
        ]
    );
}

#[test]
fn report_follows_storage_changes() {
    let mut home = home_with(&[("Hall", &["Lamp"])]);
    home.add_device("Hall", "Fan").unwrap();
    home.delete_divece("Hall", "Lamp").unwrap();
    let reporter = provider(&[("Hall", &[("Lamp", "ON"), ("Fan", "OFF")])]);
    let report = home.get_report(reporter);
    assert_eq!(report, "Report for: SmartHome\nRoom Hall, has device Fan with state - OFF\n");
}

#[test]
fn provider_reports_state() {
    let reporter = provider(&[("Bedroom", &[("Breaker", "OFF"), ("Thermometer", "20")])]);
    assert_eq!(reporter.get_device_state("Bedroom", "Thermometer"), Ok("20".to_string()));
    assert_eq!(reporter.get_device_state("Bedroom", "Breaker"), Ok("OFF".to_string()));
}

#[test]
fn provider_missing_room_is_room_not_found() {
    let reporter = provider(&[("Bedroom", &[("Breaker", "OFF")])]);
    assert_eq!(reporter.get_device_state("Kitchen", "Breaker"), Err(HomeError::RoomNotFound));
}

#[test]
fn provider_missing_device_is_device_not_found() {
    let reporter = provider(&[("Bedroom", &[("Breaker", "OFF")])]);
    assert_eq!(reporter.get_device_state("Bedroom", "Fridge"), Err(HomeError::DeviceNotFound));
}

#[test]
fn provider_first_match_wins() {
    let reporter = provider(&[
        ("Bedroom", &[("Lamp", "ON"), ("Lamp", "OFF")]),
        ("Bedroom", &[("Fan", "ON")]),
    ]);
    assert_eq!(reporter.get_device_state("Bedroom", "Lamp"), Ok("ON".to_string()));
    assert_eq!(reporter.get_device_state("Bedroom", "Fan"), Err(HomeError::DeviceNotFound));
}

#[test]
fn device_record_gives_name_and_state() {
    let d = DeviceRecord::new("Thermometer".to_string(), "20".to_string());
    assert_eq!(d.get_name(), "Thermometer");
    assert_eq!(d.get_state(), "20");
}

#[test]
fn home_name_is_kept() {
    let home = home_with(&[]);
    assert_eq!(home.name(), "SmartHome");
}

#[test]
fn report_with_skips_lists_unresolved_devices() {
    let home = home_with(&[
        ("Bedroom", &["Breaker", "Thermometer"]),
        ("Kitchen", &["Breaker", "Fridge"]),
    ]);
    let reporter = provider(&[("Bedroom", &[("Breaker", "OFF")])]);
    let (report, skipped) = home.report_with_skips(reporter);
    assert_eq!(report, "Report for: SmartHome\nRoom Bedroom, has device Breaker with state - OFF\n");
    let mut skipped: Vec<(String, String, HomeError)> = skipped;
    skipped.sort_by(|a, b| (a.0.clone(), a.1.clone()).cmp(&(b.0.clone(), b.1.clone())));
    assert_eq!(
        skipped,
        vec![
            ("Bedroom".to_string(), "Thermometer".to_string(), HomeError::DeviceNotFound),
            ("Kitchen".to_string(), "Breaker".to_string(), HomeError::RoomNotFound),
            ("Kitchen".to_string(), "Fridge".to_string(), HomeError::RoomNotFound),
        ]
    );
}
