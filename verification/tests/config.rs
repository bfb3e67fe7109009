//! The configuration: defaults, files, changes and the command line.

use rsrrcd::cbor::{decode, Datum, FieldKey};
use rsrrcd::clock::SECOND;
use rsrrcd::config::{
    config_diff, format_bool, nonempty, parse_hash, positive_usize, OverrideError, Overrides, Span,
    Setting, SettingValue, Settings,
};
use rsrrcd::HubConfig;

fn empty_settings() -> Settings {
    Settings {
        configdir: None,
        identity_path: None,
        room_registry_path: None,
        hub_name: None,
        greeting: None,
        announce_on_start: None,
        announce_period: None,
        include_joined_member_list: None,
        room_invite_timeout: None,
        room_registry_prune_after: None,
        room_registry_prune_interval: None,
        max_nick_bytes: None,
        max_rooms_per_session: None,
        max_room_name_bytes: None,
        max_msg_body_bytes: None,
        rate_limit_msgs_per_minute: None,
        ping_interval: None,
        ping_timeout: None,
        enable_resource_transfer: None,
        max_resource_bytes: None,
        max_pending_resource_expectations: None,
        resource_expectation_ttl: None,
        trusted_identities: vec![],
        banned_identities: vec![],
        log_level: None,
        log_console: None,
        log_file: None,
    }
}

fn text_of(settings: &[Setting], key: &str) -> Option<String> {
    settings.iter().find(|setting| setting.key == key).and_then(|setting| {
        match &setting.value {
            SettingValue::Text(text) => Some(text.clone()),
            SettingValue::List(_) => None,
        }
    })
}

fn list_of(settings: &[Setting], key: &str) -> Vec<String> {
    settings
        .iter()
        .find(|setting| setting.key == key)
        .map(|setting| match &setting.value {
            SettingValue::Text(_) => vec![],
            SettingValue::List(items) => items.clone(),
        })
        .unwrap_or_default()
}

/// Reads settings as a file with these texts would be read.
fn read(hub: &[Setting], logging: &[Setting]) -> Settings {
    let number = |key: &str| text_of(hub, key).and_then(|text| text.parse::<u64>().ok());
    let seconds = |key: &str| number(key).map(|value| value as u128 * SECOND);
    let answer = |from: &[Setting], key: &str| text_of(from, key).map(|text| text == "yes");
    Settings {
        configdir: text_of(hub, "configdir"),
        identity_path: text_of(hub, "identity_path"),
        room_registry_path: text_of(hub, "room_registry_path"),
        hub_name: text_of(hub, "hub_name"),
        greeting: text_of(hub, "greeting"),
        announce_on_start: answer(hub, "announce_on_start"),
        announce_period: seconds("announce_period_s"),
        include_joined_member_list: answer(hub, "include_joined_member_list"),
        room_invite_timeout: seconds("room_invite_timeout_s"),
        room_registry_prune_after: seconds("room_registry_prune_after_s"),
        room_registry_prune_interval: seconds("room_registry_prune_interval_s"),
        max_nick_bytes: number("max_nick_bytes"),
        max_rooms_per_session: number("max_rooms_per_session"),
        max_room_name_bytes: number("max_room_name_bytes"),
        max_msg_body_bytes: number("max_msg_body_bytes"),
        rate_limit_msgs_per_minute: number("rate_limit_msgs_per_minute"),
        ping_interval: seconds("ping_interval_s"),
        ping_timeout: seconds("ping_timeout_s"),
        enable_resource_transfer: answer(hub, "enable_resource_transfer"),
        max_resource_bytes: number("max_resource_bytes"),
        max_pending_resource_expectations: number("max_pending_resource_expectations"),
        resource_expectation_ttl: seconds("resource_expectation_ttl_s"),
        trusted_identities: list_of(hub, "trusted_identities"),
        banned_identities: list_of(hub, "banned_identities"),
        log_level: text_of(logging, "level"),
        log_console: answer(logging, "console"),
        log_file: text_of(logging, "file"),
    }
}

fn load(settings: Settings) -> HubConfig {
    match HubConfig::load("config".into(), "", settings) {
        Ok(config) => config,
        Err(error) => panic!("{}", error.message()),
    }
}

fn no_overrides() -> Overrides {
    Overrides {
        rns_config_dir: None,
        default_rns_config_dir: "/home/hub/.rsReticulum".into(),
        identity_path: None,
        room_registry_path: None,
        no_announce: false,
        announce_period: None,
        hub_name: None,
        greeting: None,
        include_joined_member_list: false,
        max_rooms_per_session: None,
        max_nick_bytes: None,
        max_room_name_bytes: None,
        max_msg_body_bytes: None,
        rate_limit_msgs_per_minute: None,
        ping_interval: None,
        ping_timeout: None,
        log_level: None,
        log_file: None,
    }
}

fn overridden(overrides: Overrides) -> Result<HubConfig, OverrideError> {
    load(empty_settings()).with_overrides(overrides)
}

#[test]
fn default_uses_rsreticulum_config_roundtrip() {
    let (hub, logging) = HubConfig::write_default();
    let config = load(read(&hub, &logging));
    assert_eq!(config.config_path, "config");
    assert_eq!(config.hub_name, "rrc");
    assert_eq!(config.max_msg_body_bytes, 350);
    assert!(config_diff(&config, &load(empty_settings())).is_empty());
}

#[test]
fn invalid_identity_list_entry_is_rejected() {
    let (hub, logging) = HubConfig::write_default();
    let mut settings = read(&hub, &logging);
    settings.trusted_identities = vec!["not-a-hash".into()];
    let error = match HubConfig::load("config".into(), "", settings) {
        Ok(_) => panic!("the entry must be rejected"),
        Err(error) => error.message(),
    };
    assert!(error.contains("invalid trusted_identities entry"));
}

#[test]
fn defaults_fill_what_the_file_leaves_out() {
    let config = load(empty_settings());
    assert_eq!(config.identity_path, "hub_identity");
    assert_eq!(config.room_registry_path, "rooms");
    assert_eq!(config.rns_config_dir, None);
    assert_eq!(config.greeting, None);
    assert!(config.announce_on_start);
    assert_eq!(config.announce_period, 0);
    assert!(!config.include_joined_member_list);
    assert_eq!(config.room_invite_timeout, 900 * SECOND);
    assert_eq!(config.room_registry_prune_after, 2_592_000 * SECOND);
    assert_eq!(config.room_registry_prune_interval, 3600 * SECOND);
    assert_eq!(config.max_nick_bytes, 32);
    assert_eq!(config.max_rooms_per_session, 32);
    assert_eq!(config.max_room_name_bytes, 64);
    assert_eq!(config.rate_limit_msgs_per_minute, 240);
    assert!(config.enable_resource_transfer);
    assert_eq!(config.max_resource_bytes, 262_144);
    assert_eq!(config.max_pending_resource_expectations, 8);
    assert_eq!(config.resource_expectation_ttl, 30 * SECOND);
    assert_eq!(config.log_level, "INFO");
    assert!(config.log_console);
    assert_eq!(config.log_file, None);
}

#[test]
fn invalid_ban_names_its_list() {
    let mut settings = empty_settings();
    settings.banned_identities = vec!["0b".repeat(16), "0b0b".into()];
    match HubConfig::load("config".into(), "", settings) {
        Ok(_) => panic!("the entry must be rejected"),
        Err(error) => {
            assert_eq!(error.list, "banned_identities");
            assert_eq!(error.entry, "0b0b");
        }
    }
}

#[test]
fn hashes_are_read_in_hexadecimal() {
    assert_eq!(parse_hash(&"0b".repeat(16)), Some([11; 16]));
    assert_eq!(parse_hash(&format!(" 0x{} ", "0B".repeat(16))), Some([11; 16]));
    assert_eq!(parse_hash(&"0b".repeat(15)), None);
    assert_eq!(parse_hash(&"0g".repeat(16)), None);
    assert_eq!(parse_hash(""), None);
}

#[test]
fn limits_must_be_positive() {
    assert_eq!(positive_usize(None, 7), 7);
    assert_eq!(positive_usize(Some(0), 7), 7);
    assert_eq!(positive_usize(Some(3), 7), 3);
    assert_eq!(nonempty(Some("".into())), None);
    assert_eq!(nonempty(Some("x".into())), Some("x".into()));
    assert_eq!(nonempty(None), None);
    assert_eq!(format_bool(true), "true");
}

#[test]
fn changes_between_configurations_are_told() {
    let before = load(empty_settings());
    let mut settings = empty_settings();
    settings.max_nick_bytes = Some(16);
    settings.hub_name = Some("other".into());
    let after = load(settings);
    let changes = config_diff(&before, &after);
    assert_eq!(changes.len(), 2);
    assert!(changes.iter().any(|line| line.contains("hub_name") && line.contains("other")));
    assert!(changes.iter().any(|line| line.contains("max_nick_bytes") && line.contains("16")));
}

#[test]
fn the_command_line_goes_before_the_file() {
    let mut overrides = no_overrides();
    overrides.no_announce = true;
    overrides.hub_name = Some("mine".into());
    overrides.greeting = Some("hi".into());
    overrides.max_rooms_per_session = Some(3);
    overrides.rate_limit_msgs_per_minute = Some(9);
    overrides.ping_interval = Some(Span::Time(5 * SECOND));
    overrides.announce_period = Some(Span::Time(7));
    overrides.log_level = Some("debug".into());
    let config = match overridden(overrides) {
        Ok(config) => config,
        Err(error) => panic!("{}", error.message()),
    };
    assert!(!config.announce_on_start);
    assert_eq!(config.hub_name, "mine");
    assert_eq!(config.greeting.as_deref(), Some("hi"));
    assert_eq!(config.max_rooms_per_session, 3);
    assert_eq!(config.rate_limit_msgs_per_minute, 9);
    assert_eq!(config.ping_interval, 5 * SECOND);
    assert_eq!(config.announce_period, 7);
    assert_eq!(config.ping_timeout, 0);
    assert_eq!(config.rns_config_dir.as_deref(), Some("/home/hub/.rsReticulum"));
}

#[test]
fn a_wrong_number_on_the_command_line_is_refused() {
    let cases: [(fn(&mut Overrides), OverrideError); 8] = [
        (|o| o.announce_period = Some(Span::Invalid), OverrideError::AnnouncePeriod),
        (|o| o.max_rooms_per_session = Some(0), OverrideError::MaxRooms),
        (|o| o.max_nick_bytes = Some(0), OverrideError::MaxNickBytes),
        (|o| o.max_room_name_bytes = Some(0), OverrideError::MaxRoomNameBytes),
        (|o| o.max_msg_body_bytes = Some(0), OverrideError::MaxMsgBodyBytes),
        (|o| o.rate_limit_msgs_per_minute = Some(0), OverrideError::RateLimit),
        (|o| o.ping_interval = Some(Span::Invalid), OverrideError::PingInterval),
        (|o| o.ping_timeout = Some(Span::Invalid), OverrideError::PingTimeout),
    ];
    for (change, expected) in cases {
        let mut overrides = no_overrides();
        change(&mut overrides);
        match overridden(overrides) {
            Ok(_) => panic!("the number must be refused"),
            Err(error) => assert_eq!(error, expected),
        }
    }
}

#[test]
fn verbosity_goes_before_the_log_level() {
    let config = load(empty_settings());
    assert_eq!(config.logging_level(0), "info");
    assert_eq!(config.logging_level(1), "debug");
    assert_eq!(config.logging_level(2), "trace");
}

#[test]
fn the_announcement_names_the_hub() {
    let mut settings = empty_settings();
    settings.hub_name = Some("my hub".into());
    let Some(Datum::Fields(mut fields)) = decode(&load(settings).announce_data()) else {
        panic!("expected a map");
    };
    let mut expected = rsrrcd::cbor::Fields::new();
    expected.insert(FieldKey::Text("proto".into()), Datum::Text("rrc".into()));
    expected.insert(FieldKey::Text("v".into()), Datum::Integer(1));
    expected.insert(FieldKey::Text("hub".into()), Datum::Text("my hub".into()));
    assert_eq!(fields.encode(), expected.encode());
    fields.set(9, Datum::Null);
    assert_ne!(fields.encode(), expected.encode());
}

#[test]
fn of_two_wrong_options_the_first_is_told() {
    let mut overrides = no_overrides();
    overrides.ping_interval = Some(Span::Invalid);
    overrides.max_nick_bytes = Some(0);
    match overridden(overrides) {
        Ok(_) => panic!("the limit must be refused"),
        Err(error) => assert_eq!(error.message(), "max nick bytes must be positive"),
    }
    assert_eq!(OverrideError::AnnouncePeriod.message(), "invalid announce period");
    assert_eq!(OverrideError::PingInterval.message(), "invalid ping interval");
    assert_eq!(OverrideError::PingTimeout.message(), "invalid ping timeout");
}

#[test]
fn relative_paths_start_beside_the_file() {
    let place = |base: &str, settings: Settings| {
        match HubConfig::load("/d/config".into(), base, settings) {
            Ok(config) => (config.identity_path, config.room_registry_path, config.log_file),
            Err(error) => panic!("{}", error.message()),
        }
    };
    let texts = |identity: &str, rooms: &str, log: Option<&str>| {
        (identity.to_string(), rooms.to_string(), log.map(str::to_string))
    };
    assert_eq!(place("/d", empty_settings()), texts("/d/hub_identity", "/d/rooms", None));
    assert_eq!(place("/", empty_settings()), texts("/hub_identity", "/rooms", None));
    assert_eq!(place(".", empty_settings()), texts("./hub_identity", "./rooms", None));
    assert_eq!(place("", empty_settings()), texts("hub_identity", "rooms", None));
    let mut settings = empty_settings();
    settings.identity_path = Some("/etc/hub".into());
    settings.room_registry_path = Some("../store/rooms".into());
    settings.log_file = Some("log/hub.log".into());
    assert_eq!(
        place("/d", settings),
        texts("/etc/hub", "/d/../store/rooms", Some("/d/log/hub.log"))
    );
    let mut settings = empty_settings();
    settings.log_file = Some("/var/log/hub.log".into());
    assert_eq!(place("/d", settings).2.as_deref(), Some("/var/log/hub.log"));
    let mut settings = empty_settings();
    settings.log_file = Some("  ".into());
    assert_eq!(place("/d", settings).2, None);
}

#[test]
fn changed_durations_are_written_as_numbers_of_seconds() {
    let change = |before: u128, after: u128| {
        let (mut former, mut latter) = (empty_settings(), empty_settings());
        former.room_invite_timeout = Some(before);
        latter.room_invite_timeout = Some(after);
        config_diff(&load(former), &load(latter))
    };
    for (nanos, number) in [
        (SECOND, 1.0f64),
        (1_500_000_000, 1.5),
        (100_000, 0.0001),
        (99_999, 0.000099999),
        (12_300, 0.0000123),
        (1_000, 0.000001),
        (1, 0.000000001),
        (2_592_000 * SECOND, 2_592_000.0),
        (9_000_000_000_000_000 * SECOND, 9_000_000_000_000_000.0),
        (10_000_000_000_000_000 * SECOND, 1e16),
        (12_500_000_000_000_000 * SECOND, 1.25e16),
    ] {
        let lines = change(0, nanos);
        assert_eq!(lines, vec![format!("room_invite_timeout_s: 0.0 -> {number:?}")]);
    }
}

#[test]
fn changed_paths_are_quoted_as_paths() {
    let mut settings = empty_settings();
    settings.room_registry_path = Some("/srv/bob's \"rooms\"".into());
    settings.log_file = Some("/var/log/bob's.log".into());
    settings.hub_name = Some("bob's".into());
    let lines = config_diff(&load(empty_settings()), &load(settings));
    let rooms = std::path::Path::new("/srv/bob's \"rooms\"");
    let log = Some(std::path::Path::new("/var/log/bob's.log"));
    assert!(lines.contains(&format!("room_registry_path: \"rooms\" -> {rooms:?}")));
    assert!(lines.contains(&"hub_name: \"rrc\" -> \"bob's\"".to_string()));
    assert!(lines.iter().any(|line| line.ends_with(&format!("None -> {log:?}"))));
}
