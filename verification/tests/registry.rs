//! The room registry: what is saved and what is read.

use rsrrcd::clock::{now, to_seconds, to_seconds_pointed, to_tenths, SECOND};
use rsrrcd::collections::Table;
use rsrrcd::config::{Setting, SettingValue};
use rsrrcd::registry::{sorted_hashes, split_entry, yes_no, Invitation, RoomRecord, RoomRegistry};
use rsrrcd::state::Room;

fn record(name: &str) -> RoomRecord {
    RoomRecord {
        name: name.into(),
        founder: None,
        topic: None,
        key: None,
        moderated: false,
        invite_only: false,
        private: false,
        topic_ops_only: false,
        no_outside_msgs: false,
        operators: vec![],
        voiced: vec![],
        bans: vec![],
        invited: vec![],
        last_used_ts: None,
    }
}

fn setting<'a>(settings: &'a [Setting], key: &str) -> Option<&'a SettingValue> {
    settings.iter().find(|setting| setting.key == key).map(|setting| &setting.value)
}

fn is_text(value: Option<&SettingValue>, expected: &str) -> bool {
    matches!(value, Some(SettingValue::Text(text)) if text == expected)
}

fn is_list(value: Option<&SettingValue>, expected: &[&str]) -> bool {
    matches!(value, Some(SettingValue::List(items)) if items == expected)
}

#[test]
fn registry_roundtrip_uses_rsreticulum_config() {
    let mut rooms: Table<String, Room> = Table::new();
    let mut room = Room {
        founder: Some([1; 16]),
        registered: true,
        topic: Some("Welcome, everyone".into()),
        moderated: true,
        private: true,
        last_used_ts: 42 * SECOND,
        ..Room::default()
    };
    room.operators.insert([2; 16]);
    room.invited.insert([3; 16], now() + 300 * SECOND);
    room.invited.insert([4; 16], now() - SECOND);
    rooms.insert("lobby".into(), room);
    let records = RoomRegistry::save(&rooms, now());
    let loaded = RoomRegistry::load(&records, now());
    let lobby = loaded.get(&"lobby".to_string()).unwrap();
    assert_eq!(lobby.founder, Some([1; 16]));
    assert_eq!(lobby.topic.as_deref(), Some("Welcome, everyone"));
    assert!(lobby.moderated);
    assert!(lobby.operators.contains(&[2; 16]));
    assert!(lobby.invited.contains_key(&[3; 16]));
    assert!(!lobby.invited.contains_key(&[4; 16]));
}

#[test]
fn only_registered_rooms_are_saved_in_order_of_their_names() {
    let mut rooms: Table<String, Room> = Table::new();
    for (name, registered) in [("zeta", true), ("ephemeral", false), ("alpha", true)] {
        rooms.insert(name.into(), Room { registered, ..Room::default() });
    }
    let records = RoomRegistry::save(&rooms, 0);
    let names: Vec<&str> = records.iter().map(|record| record.name.as_str()).collect();
    assert_eq!(names, vec!["alpha", "zeta"]);
}

#[test]
fn a_room_comes_back_with_everything_that_was_set() {
    let mut rooms: Table<String, Room> = Table::new();
    let mut room = Room {
        founder: Some([1; 16]),
        registered: true,
        topic: Some("Topic".into()),
        key: Some("secret phrase".into()),
        moderated: true,
        invite_only: true,
        private: true,
        topic_ops_only: true,
        no_outside_messages: true,
        last_used_ts: 7 * SECOND,
        ..Room::default()
    };
    room.members.insert([5; 16]);
    room.operators.insert([2; 16]);
    room.operators.insert([1; 16]);
    room.voiced.insert([3; 16]);
    room.banned.insert([4; 16]);
    room.invited.insert([6; 16], 100 * SECOND);
    rooms.insert("lobby".into(), room);
    let records = RoomRegistry::save(&rooms, 50 * SECOND);
    let loaded = RoomRegistry::load(&records, 60 * SECOND);
    let back = loaded.get(&"lobby".to_string()).unwrap();
    assert_eq!(back.members.len(), 0);
    assert_eq!(back.founder, Some([1; 16]));
    assert_eq!(back.topic.as_deref(), Some("Topic"));
    assert_eq!(back.key.as_deref(), Some("secret phrase"));
    assert!(back.registered && back.moderated && back.invite_only && back.private);
    assert!(back.topic_ops_only && back.no_outside_messages);
    assert!(back.operators.contains(&[1; 16]) && back.operators.contains(&[2; 16]));
    assert_eq!(back.operators.len(), 2);
    assert!(back.voiced.contains(&[3; 16]) && back.banned.contains(&[4; 16]));
    assert_eq!(back.invited.get(&[6; 16]), Some(&(100 * SECOND)));
    assert_eq!(back.last_used_ts, 7 * SECOND);
    let later = RoomRegistry::load(&records, 100 * SECOND);
    assert_eq!(later.get(&"lobby".to_string()).unwrap().invited.len(), 0);
}

#[test]
fn entries_that_spell_no_identity_are_passed_over() {
    let mut entry = record("lobby");
    entry.founder = Some("nobody".into());
    entry.operators = vec![
        "0x0b0b0b0b0b0b0b0b0b0b0b0b0b0b0b0b".into(),
        "not-a-hash".into(),
        " 16161616161616161616161616161616 ".into(),
        "16161616161616161616161616161616".into(),
        "1616".into(),
    ];
    entry.topic = Some("".into());
    entry.invited = vec![
        Invitation { hash: "0b0b0b0b0b0b0b0b0b0b0b0b0b0b0b0b".into(), expires: 20 },
        Invitation { hash: "junk".into(), expires: 20 },
    ];
    let loaded = RoomRegistry::load(&vec![entry], 10);
    let lobby = loaded.get(&"lobby".to_string()).unwrap();
    assert_eq!(lobby.founder, None);
    assert_eq!(lobby.operators.to_vec(), vec![[11; 16], [22; 16]]);
    assert_eq!(lobby.topic, None);
    assert_eq!(lobby.invited.len(), 1);
    assert_eq!(lobby.last_used_ts, 10);
}

#[test]
fn a_record_is_written_as_settings() {
    let mut entry = record("lobby");
    entry.founder = Some("0b0b".into());
    entry.topic = Some("Welcome".into());
    entry.topic_ops_only = true;
    entry.operators = vec!["aa".into(), "bb".into()];
    entry.invited = vec![Invitation { hash: "cc".into(), expires: 1_730_000_000 * SECOND }];
    entry.last_used_ts = Some(1_730_000_000 * SECOND + SECOND / 2);
    let settings = entry.to_settings();
    assert!(is_text(setting(&settings, "founder"), "0b0b"));
    assert!(is_text(setting(&settings, "topic"), "Welcome"));
    assert!(setting(&settings, "key").is_none());
    assert!(is_text(setting(&settings, "moderated"), "no"));
    assert!(is_text(setting(&settings, "topic_ops_only"), "yes"));
    assert!(is_list(setting(&settings, "operators"), &["aa", "bb"]));
    assert!(is_list(setting(&settings, "voiced"), &[]));
    assert!(is_list(setting(&settings, "invited"), &["cc:1730000000"]));
    assert!(is_text(setting(&settings, "last_used_ts"), "1730000000.5"));
}

#[test]
fn an_invitation_entry_is_split_at_its_first_colon() {
    assert_eq!(split_entry("ab:12.5"), Some(("ab".into(), "12.5".into())));
    assert_eq!(split_entry("ab:1:2"), Some(("ab".into(), "1:2".into())));
    assert_eq!(split_entry("ab"), None);
}

#[test]
fn answers_and_times_are_written_in_words() {
    assert_eq!(yes_no(true), "yes");
    assert_eq!(yes_no(false), "no");
    assert_eq!(to_seconds(0), "0");
    assert_eq!(to_seconds(1_500_000_000), "1.5");
    assert_eq!(to_seconds(1), "0.000000001");
    assert_eq!(to_seconds_pointed(3 * SECOND), "3.0");
    assert_eq!(to_seconds_pointed(SECOND / 4), "0.25");
    assert_eq!(to_seconds_pointed(0), "0.0");
    assert_eq!(to_seconds_pointed(1_000), "1e-6");
    assert_eq!(to_seconds_pointed(12_345), "1.2345e-5");
    assert_eq!(to_seconds_pointed(100_000), "0.0001");
    assert_eq!(to_seconds_pointed(10_000_000_000_000_000 * SECOND), "1e16");
    for (nanos, number) in [
        (0, 0.0f64),
        (SECOND / 4, 0.25),
        (SECOND * 3 / 4, 0.75),
        (SECOND / 8, 0.125),
        (SECOND * 5 / 4, 1.25),
        (12_340_000_000, 12.34),
        (9_990_000_000, 9.99),
    ] {
        assert_eq!(to_tenths(nanos), format!("{number:.1}"));
    }
}

#[test]
fn hashes_are_sorted_as_text() {
    let mut room = Room::default();
    room.operators.insert([0xab; 16]);
    room.operators.insert([0x0c; 16]);
    assert_eq!(sorted_hashes(&room.operators), vec!["0c".repeat(16), "ab".repeat(16)]);
}
