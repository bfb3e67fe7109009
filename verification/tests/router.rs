//! The hub driven packet by packet, with its files kept in memory.

use rsrrcd::cbor::{Datum, FieldKey, Fields};
use rsrrcd::clock::{now, Clock, Nanos, SECOND};
use rsrrcd::config::{Setting, SettingValue, Settings};
use rsrrcd::constants::{
    B_HELLO_CAPS, B_RES_ENCODING, B_RES_ID, B_RES_KIND, B_RES_SHA256, B_RES_SIZE, K_BODY, K_DST,
    K_NICK, K_ROOM, K_SRC, K_T, T_ACTION, T_ERROR, T_HELLO, T_JOIN, T_JOINED, T_MSG, T_NOTICE,
    T_PART, T_PARTED, T_RESOURCE_ENVELOPE,
};
use rsrrcd::outgoing::{Action, Extension, RoomState, UserInfo};
use rsrrcd::protocol::Envelope;
use rsrrcd::registry::{RoomRecord, RoomRegistry};
use rsrrcd::router::{Extensions, Outcome, Router, Step, Work};
use rsrrcd::state::{IdentityHash, LinkId, Room};
use rsrrcd::text::utf8_chunks;
use rsrrcd::HubConfig;
use sha2::{Digest, Sha256};

const EXTENSIONS: Extensions = Extensions { room_state: 3, user_list: 4 };

fn config() -> HubConfig {
    HubConfig {
        config_path: "config".into(),
        identity_path: "identity".into(),
        room_registry_path: "rooms".into(),
        rns_config_dir: None,
        hub_name: "test".into(),
        greeting: None,
        announce_on_start: false,
        announce_period: 0,
        include_joined_member_list: true,
        room_invite_timeout: 900 * SECOND,
        room_registry_prune_after: 30 * 24 * 3600 * SECOND,
        room_registry_prune_interval: 3600 * SECOND,
        max_nick_bytes: 32,
        max_rooms_per_session: 32,
        max_room_name_bytes: 64,
        max_msg_body_bytes: 350,
        rate_limit_msgs_per_minute: 240,
        ping_interval: 0,
        ping_timeout: 0,
        enable_resource_transfer: true,
        max_resource_bytes: 262_144,
        max_pending_resource_expectations: 8,
        resource_expectation_ttl: 30 * SECOND,
        trusted_identities: vec![],
        banned_identities: vec![],
        log_level: "INFO".into(),
        log_console: true,
        log_file: None,
    }
}

/// What the hub has written to its files.
struct Files {
    rooms: Vec<RoomRecord>,
    bans: Option<Setting>,
}

impl Files {
    fn new() -> Files {
        Files { rooms: Vec::new(), bans: None }
    }
}

fn settle(router: &mut Router, files: &mut Files, step: Step) -> Vec<Action> {
    let Step { mut actions, mut pending } = step;
    while let Some(waiting) = pending {
        let outcome = match waiting.work {
            Work::SaveRooms => {
                files.rooms = RoomRegistry::save(&router.state.rooms, now());
                Outcome::Done
            }
            Work::SaveBans => {
                files.bans = Some(router.config.save_banned_identities());
                Outcome::Done
            }
            Work::Reload => Outcome::Loaded(config(), RoomRegistry::load(&files.rooms, now())),
        };
        let next = router.resume(waiting, outcome);
        actions.extend(next.actions);
        pending = next.pending;
    }
    actions
}

fn send(router: &mut Router, files: &mut Files, link: LinkId, envelope: &Envelope) -> Vec<Action> {
    let step = router.packet(link, &envelope.encode().unwrap());
    settle(router, files, step)
}

fn text(value: &str) -> Datum {
    Datum::Text(value.into())
}

fn client(message_type: u64, peer: IdentityHash) -> Envelope {
    Envelope::new(message_type, &peer)
}

fn hello(peer: IdentityHash, nick: Option<&str>) -> Envelope {
    let mut caps = Fields::new();
    caps.set(EXTENSIONS.room_state, Datum::Bool(true));
    caps.set(EXTENSIONS.user_list, Datum::Bool(true));
    let mut body = Fields::new();
    body.set(B_HELLO_CAPS, Datum::Fields(caps));
    let mut envelope = client(T_HELLO, peer);
    envelope.set(K_BODY, Datum::Fields(body));
    if let Some(nick) = nick {
        envelope.set(K_NICK, text(nick));
    }
    envelope
}

fn connect(router: &mut Router, link: LinkId, peer: IdentityHash, nick: &str) {
    router.established(link);
    router.identified(link, peer);
    let step = router.packet(link, &hello(peer, Some(nick)).encode().unwrap());
    assert!(!step.actions.is_empty());
}

fn connect_legacy(router: &mut Router, link: LinkId, peer: IdentityHash, nick: &str) {
    router.established(link);
    router.identified(link, peer);
    let mut hello = client(T_HELLO, peer);
    hello.set(K_NICK, text(nick));
    assert!(!router.packet(link, &hello.encode().unwrap()).actions.is_empty());
}

fn join(router: &mut Router, files: &mut Files, link: LinkId, peer: IdentityHash, room: &str) {
    let mut envelope = client(T_JOIN, peer);
    envelope.set(K_ROOM, text(room));
    send(router, files, link, &envelope);
}

fn slash(
    router: &mut Router,
    files: &mut Files,
    link: LinkId,
    peer: IdentityHash,
    room: &str,
    command: &str,
) -> Vec<Action> {
    let mut envelope = client(T_MSG, peer);
    envelope.set(K_ROOM, text(room));
    envelope.set(K_BODY, text(command));
    send(router, files, link, &envelope)
}

fn recipient(action: &Action) -> LinkId {
    match action {
        Action::Send(link, _) => *link,
        Action::SendExtended(link, _, _) => *link,
        Action::SendResource(link, _) => *link,
        Action::Close(link) => *link,
    }
}

fn action_envelope(action: &Action) -> Envelope {
    match action {
        Action::Send(_, payload) => Envelope::decode(payload).unwrap(),
        Action::SendExtended(_, envelope, _) => {
            Envelope::decode(&envelope.encode().unwrap()).unwrap()
        }
        _ => panic!("expected packet action"),
    }
}

fn room_state(action: &Action) -> Option<&RoomState> {
    match action {
        Action::SendExtended(_, _, Extension::RoomState(state)) => Some(state),
        _ => None,
    }
}

fn user_list(action: &Action) -> Option<&Vec<UserInfo>> {
    match action {
        Action::SendExtended(_, _, Extension::Users(users)) => Some(users),
        _ => None,
    }
}

fn of_type(actions: &[Action], message_type: u64) -> Option<&Action> {
    actions.iter().find(|action| action_envelope(action).integer(K_T) == Some(message_type))
}

fn room<'a>(router: &'a Router, name: &str) -> &'a Room {
    router.state.rooms.get(&name.to_string()).unwrap()
}

fn default_settings() -> Settings {
    Settings {
        configdir: None,
        identity_path: None,
        room_registry_path: None,
        hub_name: None,
        greeting: None,
        announce_on_start: None,
        announce_period: None,
        include_joined_member_list: None,
        room_invite_timeout: None,
        room_registry_prune_after: None,
        room_registry_prune_interval: None,
        max_nick_bytes: None,
        max_rooms_per_session: None,
        max_room_name_bytes: None,
        max_msg_body_bytes: None,
        rate_limit_msgs_per_minute: None,
        ping_interval: None,
        ping_timeout: None,
        enable_resource_transfer: None,
        max_resource_bytes: None,
        max_pending_resource_expectations: None,
        resource_expectation_ttl: None,
        trusted_identities: vec![],
        banned_identities: vec![],
        log_level: None,
        log_console: None,
        log_file: None,
    }
}

fn load_config(settings: Settings) -> HubConfig {
    match HubConfig::load("config".into(), "", settings) {
        Ok(config) => config,
        Err(error) => panic!("{}", error.message()),
    }
}

#[test]
fn join_and_message_are_broadcast_with_authoritative_source() {
    let mut files = Files::new();
    let mut router = Router::new(config(), [9; 16], EXTENSIONS);
    connect(&mut router, [1; 16], [11; 16], "alice");
    connect(&mut router, [2; 16], [22; 16], "bob");
    for (link, peer) in [([1; 16], [11; 16]), ([2; 16], [22; 16])] {
        join(&mut router, &mut files, link, peer, "Lobby");
    }

    let mut message = client(T_MSG, [0; 16]);
    message.set(K_ROOM, text("LOBBY"));
    message.set(K_BODY, text("hello"));
    let actions = send(&mut router, &mut files, [1; 16], &message);
    assert_eq!(actions.len(), 2);
    for action in actions {
        let Action::Send(_, payload) = action else {
            panic!("unexpected action");
        };
        let forwarded = Envelope::decode(&payload).unwrap();
        assert_eq!(forwarded.bytes(K_SRC), Some(&[11; 16][..]));
        assert_eq!(forwarded.text(K_ROOM), Some("lobby"));
        assert_eq!(forwarded.text(K_NICK), Some("alice"));
    }
}

#[test]
fn repeated_join_does_not_fan_out_to_the_joining_link_twice() {
    let mut files = Files::new();
    let mut router = Router::new(config(), [9; 16], EXTENSIONS);
    connect(&mut router, [1; 16], [11; 16], "alice");
    connect(&mut router, [2; 16], [22; 16], "bob");
    join(&mut router, &mut files, [1; 16], [11; 16], "lobby");
    join(&mut router, &mut files, [2; 16], [22; 16], "lobby");

    let mut envelope = client(T_JOIN, [22; 16]);
    envelope.set(K_ROOM, text("lobby"));
    let actions = send(&mut router, &mut files, [2; 16], &envelope);
    let joined_recipients: Vec<LinkId> = actions
        .iter()
        .filter(|action| action_envelope(action).integer(K_T) == Some(T_JOINED))
        .map(recipient)
        .collect();
    assert_eq!(joined_recipients, vec![[1; 16], [2; 16]]);
}

#[test]
fn commands_and_mode_flags_are_case_insensitive_and_join_reports_room_state() {
    let mut files = Files::new();
    let mut router = Router::new(config(), [9; 16], EXTENSIONS);
    connect(&mut router, [1; 16], [11; 16], "alice");

    let mut envelope = client(T_JOIN, [11; 16]);
    envelope.set(K_ROOM, text("Lobby"));
    let actions = send(&mut router, &mut files, [1; 16], &envelope);
    let notice = action_envelope(of_type(&actions, T_NOTICE).unwrap());
    assert_eq!(
        notice.text(K_BODY),
        Some("room lobby: unregistered; mode=(none); topic=(none)")
    );
    let joined = of_type(&actions, T_JOINED).unwrap();
    assert_eq!(
        room_state(joined),
        Some(&RoomState { registered: false, modes: "(none)".into(), topic: None })
    );

    let actions = slash(&mut router, &mut files, [1; 16], [11; 16], "lobby", "/MODE lobby +M");
    assert!(!actions.is_empty());
    assert!(room(&router, "lobby").moderated);
    assert!(actions
        .iter()
        .all(|action| room_state(action).is_some_and(|state| state.modes == "+m")));

    let actions = slash(&mut router, &mut files, [1; 16], [11; 16], "lobby", "/LiSt");
    assert_eq!(action_envelope(&actions[0]).text(K_BODY), Some("No public rooms registered"));
}

#[test]
fn structured_extensions_are_only_sent_to_capable_peers() {
    let mut files = Files::new();
    let mut router = Router::new(config(), [9; 16], EXTENSIONS);
    connect_legacy(&mut router, [1; 16], [11; 16], "legacy");

    let mut request = client(T_JOIN, [11; 16]);
    request.set(K_ROOM, text("lobby"));
    let actions = send(&mut router, &mut files, [1; 16], &request);
    assert_eq!(room_state(of_type(&actions, T_JOINED).unwrap()), None);

    let actions = slash(&mut router, &mut files, [1; 16], [11; 16], "lobby", "/who lobby");
    let who = actions
        .iter()
        .find(|action| {
            action_envelope(action)
                .text(K_BODY)
                .is_some_and(|body| body.starts_with("members in lobby:"))
        })
        .unwrap();
    assert_eq!(user_list(who), None);
    assert!(action_envelope(who).text(K_BODY).unwrap().contains("legacy"));

    connect(&mut router, [2; 16], [22; 16], "modern");
    let mut request = client(T_JOIN, [22; 16]);
    request.set(K_ROOM, text("lobby"));
    let actions = send(&mut router, &mut files, [2; 16], &request);
    let joined_for = |to: LinkId| {
        actions
            .iter()
            .find(|action| {
                recipient(action) == to && action_envelope(action).integer(K_T) == Some(T_JOINED)
            })
            .unwrap()
    };
    assert_eq!(room_state(joined_for([1; 16])), None);
    assert!(room_state(joined_for([2; 16])).is_some());
}

#[test]
fn part_and_close_suppress_false_departure_while_same_identity_remains() {
    let mut files = Files::new();
    let mut router = Router::new(config(), [9; 16], EXTENSIONS);
    connect(&mut router, [1; 16], [11; 16], "alice-phone");
    connect(&mut router, [2; 16], [11; 16], "alice-laptop");
    connect(&mut router, [3; 16], [33; 16], "bob");
    for (link, peer) in [([1; 16], [11; 16]), ([2; 16], [11; 16]), ([3; 16], [33; 16])] {
        join(&mut router, &mut files, link, peer, "lobby");
    }

    let step = router.closed([1; 16]);
    assert!(settle(&mut router, &mut files, step).is_empty());

    let mut envelope = client(T_PART, [11; 16]);
    envelope.set(K_ROOM, text("lobby"));
    let actions = send(&mut router, &mut files, [2; 16], &envelope);
    let notification = actions.iter().find(|action| recipient(action) == [3; 16]);
    let notification = action_envelope(notification.expect("bob must receive final PARTED"));
    assert_eq!(notification.integer(K_T), Some(T_PARTED));
    assert_eq!(notification.text(K_NICK), Some("alice-laptop"));
    assert_eq!(
        notification.get(K_BODY),
        Some(&Datum::Array(vec![Datum::Bytes([11; 16].to_vec())]))
    );
}

#[test]
fn direct_notice_has_exactly_one_recipient() {
    let mut files = Files::new();
    let mut router = Router::new(config(), [9; 16], EXTENSIONS);
    connect(&mut router, [1; 16], [11; 16], "alice");
    connect(&mut router, [2; 16], [22; 16], "bob");
    let mut notice = client(T_NOTICE, [11; 16]);
    notice.set(K_DST, Datum::Bytes(vec![22; 16]));
    notice.set(K_BODY, text("private"));
    let actions = send(&mut router, &mut files, [1; 16], &notice);
    assert!(matches!(actions.as_slice(), [Action::Send(link, _)] if *link == [2; 16]));
}

#[test]
fn direct_notice_falls_back_to_another_link_for_same_identity() {
    let mut files = Files::new();
    let mut router = Router::new(config(), [9; 16], EXTENSIONS);
    connect(&mut router, [1; 16], [11; 16], "alice-phone");
    connect(&mut router, [2; 16], [11; 16], "alice-laptop");
    connect(&mut router, [3; 16], [33; 16], "bob");
    router.closed([2; 16]);

    let mut notice = client(T_NOTICE, [33; 16]);
    notice.set(K_DST, Datum::Bytes([11; 16].to_vec()));
    notice.set(K_BODY, text("hello"));
    let actions = send(&mut router, &mut files, [3; 16], &notice);
    assert!(matches!(actions.as_slice(), [Action::Send(link, _)] if *link == [1; 16]));
}

#[test]
fn kline_closes_every_link_for_target_identity() {
    let mut files = Files::new();
    let mut cfg = load_config(default_settings());
    cfg.trusted_identities.push([99; 16]);
    let mut router = Router::new(cfg, [9; 16], EXTENSIONS);
    connect(&mut router, [9; 16], [99; 16], "operator");
    connect(&mut router, [1; 16], [11; 16], "alice-phone");
    connect(&mut router, [2; 16], [11; 16], "alice-laptop");

    let actions = slash(
        &mut router,
        &mut files,
        [9; 16],
        [99; 16],
        "ignored",
        &format!("/kline add {}", hex::encode([11; 16])),
    );
    let mut closed: Vec<LinkId> = actions
        .iter()
        .filter_map(|action| match action {
            Action::Close(link) => Some(*link),
            _ => None,
        })
        .collect();
    closed.sort();
    assert_eq!(closed, vec![[1; 16], [2; 16]]);
    assert!(router.config.banned_identities.contains(&[11; 16]));
    let saved = files.bans.expect("the bans must be saved");
    assert_eq!(saved.key, "banned_identities");
    let SettingValue::List(entries) = saved.value else {
        panic!("expected a list");
    };
    let mut settings = default_settings();
    settings.banned_identities = entries;
    assert!(load_config(settings).banned_identities.contains(&[11; 16]));
}

#[test]
fn expected_notice_resource_is_verified_and_forwarded() {
    let mut files = Files::new();
    let mut router = Router::new(config(), [9; 16], EXTENSIONS);
    connect(&mut router, [1; 16], [11; 16], "alice");
    connect(&mut router, [2; 16], [22; 16], "bob");
    for (link, peer) in [([1; 16], [11; 16]), ([2; 16], [22; 16])] {
        join(&mut router, &mut files, link, peer, "lobby");
    }
    let payload = vec![b'x'; 1024];
    let mut body = Fields::new();
    body.insert(FieldKey::Integer(B_RES_ID), Datum::Bytes(vec![7; 8]));
    body.insert(FieldKey::Integer(B_RES_KIND), text("notice"));
    body.insert(FieldKey::Integer(B_RES_SIZE), Datum::Integer(payload.len() as i128));
    body.insert(
        FieldKey::Integer(B_RES_SHA256),
        Datum::Bytes(Sha256::digest(&payload).to_vec()),
    );
    body.insert(FieldKey::Integer(B_RES_ENCODING), text("utf-8"));
    let mut announcement = client(T_RESOURCE_ENVELOPE, [11; 16]);
    announcement.set(K_ROOM, text("lobby"));
    announcement.set(K_BODY, Datum::Fields(body));
    assert!(send(&mut router, &mut files, [1; 16], &announcement).is_empty());
    let step = router.resource_received([1; 16], payload);
    let actions = settle(&mut router, &mut files, step);
    assert!(matches!(
        actions.as_slice(),
        [
            Action::Send(link, envelope),
            Action::SendResource(resource_link, resource)
        ] if *link == [2; 16] && *resource_link == [2; 16] && resource.len() == 1024
            && Envelope::decode(envelope).unwrap().integer(K_T) == Some(T_RESOURCE_ENVELOPE)
            && Envelope::decode(envelope).unwrap().bytes(K_SRC) == Some(&[11; 16][..])
            && Envelope::decode(envelope).unwrap().text(K_NICK) == Some("alice")
    ));
    assert_eq!(router.state.counters.resources_received, 1);
    assert_eq!(router.state.counters.resources_sent, 1);
    assert_eq!(router.state.counters.resource_bytes_received, 1024);
    assert_eq!(router.state.counters.resource_bytes_sent, 1024);
}

#[test]
fn expected_message_resource_is_forwarded_as_message() {
    let mut files = Files::new();
    let mut router = Router::new(config(), [9; 16], EXTENSIONS);
    connect(&mut router, [1; 16], [11; 16], "alice");
    connect(&mut router, [2; 16], [22; 16], "bob");
    for (link, peer) in [([1; 16], [11; 16]), ([2; 16], [22; 16])] {
        join(&mut router, &mut files, link, peer, "lobby");
    }
    let payload = vec![b'x'; 400];
    let mut body = Fields::new();
    body.set(B_RES_ID, Datum::Bytes(vec![7; 8]));
    body.set(B_RES_KIND, text("message"));
    body.set(B_RES_SIZE, Datum::Integer(400));
    body.set(B_RES_SHA256, Datum::Bytes(Sha256::digest(&payload).to_vec()));
    body.set(B_RES_ENCODING, text("utf-8"));
    let mut announcement = client(T_RESOURCE_ENVELOPE, [11; 16]);
    announcement.set(K_ROOM, text("lobby"));
    announcement.set(K_BODY, Datum::Fields(body));
    assert!(send(&mut router, &mut files, [1; 16], &announcement).is_empty());

    let step = router.resource_received([1; 16], payload);
    let actions = settle(&mut router, &mut files, step);
    assert_eq!(actions.len(), 2);
    assert!(actions.iter().all(|action| {
        matches!(
            action,
            Action::Send(_, envelope)
                if Envelope::decode(envelope).unwrap().integer(K_T) == Some(T_MSG)
        )
    }));
    assert_eq!(router.state.counters.messages_forwarded, 1);
}

#[test]
fn large_greeting_uses_resource_envelope_and_payload() {
    let mut cfg = config();
    cfg.greeting = Some("x".repeat(1024));
    let mut router = Router::new(cfg, [9; 16], EXTENSIONS);
    router.established([1; 16]);
    router.identified([1; 16], [11; 16]);
    let hello = client(T_HELLO, [11; 16]);
    let actions = router.packet([1; 16], &hello.encode().unwrap()).actions;
    assert!(matches!(
        actions.as_slice(),
        [
            Action::Send(_, _),
            Action::Send(_, _),
            Action::SendResource(_, payload)
        ] if payload.len() == 1024
    ));
}

#[test]
fn large_notice_falls_back_to_utf8_safe_packets_when_resources_are_disabled() {
    let mut cfg = config();
    cfg.enable_resource_transfer = false;
    cfg.greeting = Some("🙂".repeat(300));
    let mut router = Router::new(cfg, [9; 16], EXTENSIONS);
    router.established([1; 16]);
    router.identified([1; 16], [11; 16]);
    let hello = client(T_HELLO, [11; 16]);
    let actions = router.packet([1; 16], &hello.encode().unwrap()).actions;
    assert!(actions.len() > 2);
    let chunks: Vec<String> = actions
        .iter()
        .skip(1)
        .map(|action| match action {
            Action::Send(_, payload) => {
                Envelope::decode(payload).unwrap().text(K_BODY).unwrap().to_string()
            }
            Action::SendExtended(_, _, _) => panic!("unexpected extension"),
            Action::SendResource(_, _) => panic!("resource fallback was not used"),
            Action::Close(_) => panic!("unexpected close"),
        })
        .collect();
    assert!(chunks.iter().all(|chunk| chunk.len() <= 300));
    assert_eq!(chunks.concat(), "🙂".repeat(300));
}

#[test]
fn utf8_chunker_never_splits_codepoints() {
    let value = "a🙂б".repeat(100);
    let chunks = utf8_chunks(&value, 17);
    assert!(chunks.iter().all(|chunk| chunk.len() <= 17));
    assert_eq!(chunks.concat(), value);
}

#[test]
fn chunks_are_as_long_as_they_can_be() {
    assert_eq!(utf8_chunks("abcdefg", 3), vec!["abc", "def", "g"]);
    assert_eq!(utf8_chunks("ab\u{e9}cd", 3), vec!["ab", "\u{e9}c", "d"]);
    assert_eq!(utf8_chunks("a\u{1f600}b\u{e9}", 2), vec!["a", "\u{1f600}", "b", "\u{e9}"]);
    assert!(utf8_chunks("abc", 0).is_empty());
}

#[test]
fn room_ban_command_matches_python_syntax_and_evicts_member() {
    let mut files = Files::new();
    let mut router = Router::new(config(), [9; 16], EXTENSIONS);
    connect(&mut router, [1; 16], [11; 16], "alice");
    connect(&mut router, [2; 16], [22; 16], "bob");
    join(&mut router, &mut files, [1; 16], [11; 16], "lobby");
    join(&mut router, &mut files, [2; 16], [22; 16], "lobby");
    let actions = slash(&mut router, &mut files, [1; 16], [11; 16], "lobby", "/ban lobby add bob");
    assert!(room(&router, "lobby").banned.contains(&[22; 16]));
    assert!(!room(&router, "lobby").members.contains(&[2; 16]));
    assert!(!router.state.sessions.get(&[2; 16]).unwrap().rooms.contains(&"lobby".to_string()));
    assert_eq!(actions.len(), 2);
    // Rooms that nobody has registered are not saved.
    assert_eq!(RoomRegistry::load(&files.rooms, now()).len(), 0);
}

#[test]
fn every_boolean_and_key_room_mode_is_broadcast() {
    let mut files = Files::new();
    let mut router = Router::new(config(), [9; 16], EXTENSIONS);
    for (link, peer, nick) in [
        ([1; 16], [11; 16], "alice"),
        ([2; 16], [22; 16], "bob"),
        ([3; 16], [33; 16], "carol"),
    ] {
        connect(&mut router, link, peer, nick);
        join(&mut router, &mut files, link, peer, "lobby");
    }
    for command in [
        "/mode lobby +m",
        "/mode lobby +i",
        "/mode lobby +t",
        "/mode lobby +n",
        "/mode lobby +p",
        "/mode lobby +k secret phrase",
    ] {
        let actions = slash(&mut router, &mut files, [1; 16], [11; 16], "lobby", command);
        assert_eq!(actions.len(), 3, "{command} was not broadcast");
    }
    let lobby = room(&router, "lobby");
    assert!(lobby.moderated);
    assert!(lobby.invite_only);
    assert!(lobby.topic_ops_only);
    assert!(lobby.no_outside_messages);
    assert!(lobby.private);
    assert_eq!(lobby.key.as_deref(), Some("secret phrase"));
    assert_eq!(router.room_mode_string(&"lobby".to_string()), "+ikmnpt");

    for command in [
        "/mode lobby -m",
        "/mode lobby -i",
        "/mode lobby -t",
        "/mode lobby -n",
        "/mode lobby -p",
        "/mode lobby -k",
    ] {
        let actions = slash(&mut router, &mut files, [1; 16], [11; 16], "lobby", command);
        assert_eq!(actions.len(), 3, "{command} was not broadcast");
    }
    assert_eq!(router.room_mode_string(&"lobby".to_string()), "(none)");
}

#[test]
fn member_modes_broadcast_and_invite_notifies_target() {
    let mut files = Files::new();
    let mut router = Router::new(config(), [9; 16], EXTENSIONS);
    connect(&mut router, [1; 16], [11; 16], "alice");
    connect(&mut router, [2; 16], [22; 16], "bob");
    join(&mut router, &mut files, [1; 16], [11; 16], "lobby");
    join(&mut router, &mut files, [2; 16], [22; 16], "lobby");

    for command in [
        "/op lobby bob",
        "/deop lobby bob",
        "/voice lobby bob",
        "/devoice lobby bob",
        "/mode lobby +o bob",
        "/mode lobby -o bob",
        "/mode lobby +v bob",
        "/mode lobby -v bob",
    ] {
        let actions = slash(&mut router, &mut files, [1; 16], [11; 16], "lobby", command);
        assert_eq!(actions.len(), 2, "{command} was not broadcast");
    }

    router.state.sessions.get_mut(&[2; 16]).unwrap().rooms.remove(&"lobby".to_string());
    let lobby = router.state.rooms.get_mut(&"lobby".to_string()).unwrap();
    lobby.members.remove(&[2; 16]);
    lobby.invite_only = true;
    let actions =
        slash(&mut router, &mut files, [1; 16], [11; 16], "lobby", "/invite lobby add bob");
    assert_eq!(actions.len(), 2);
    assert!(room(&router, "lobby").is_invited(&[22; 16], now()));
}

#[test]
fn ambiguous_nickname_reports_candidates_without_mutation() {
    let mut files = Files::new();
    let mut router = Router::new(config(), [9; 16], EXTENSIONS);
    connect(&mut router, [1; 16], [11; 16], "alice");
    connect(&mut router, [2; 16], [22; 16], "duplicate");
    connect(&mut router, [3; 16], [33; 16], "duplicate");
    for (link, peer) in [([1; 16], [11; 16]), ([2; 16], [22; 16]), ([3; 16], [33; 16])] {
        join(&mut router, &mut files, link, peer, "lobby");
    }
    let actions =
        slash(&mut router, &mut files, [1; 16], [11; 16], "lobby", "/kick lobby duplicate");
    assert_eq!(actions.len(), 1);
    let Action::Send(_, payload) = &actions[0] else {
        panic!("expected ambiguity notice");
    };
    let envelope = Envelope::decode(payload).unwrap();
    assert!(envelope.text(K_BODY).unwrap().contains("matches 2 identities"));
    assert_eq!(room(&router, "lobby").members.len(), 3);
}

#[test]
fn registered_and_topic_modes_enforce_founder_and_operator_rules() {
    let mut files = Files::new();
    let mut router = Router::new(config(), [9; 16], EXTENSIONS);
    connect(&mut router, [1; 16], [11; 16], "alice");
    connect(&mut router, [2; 16], [22; 16], "bob");
    join(&mut router, &mut files, [1; 16], [11; 16], "lobby");
    join(&mut router, &mut files, [2; 16], [22; 16], "lobby");

    slash(&mut router, &mut files, [1; 16], [11; 16], "lobby", "/register lobby");
    assert!(room(&router, "lobby").registered);
    assert_eq!(router.room_mode_string(&"lobby".to_string()), "+nrt");

    let denied =
        slash(&mut router, &mut files, [2; 16], [22; 16], "lobby", "/topic lobby unauthorized");
    let Action::Send(_, payload) = &denied[0] else {
        panic!("expected authorization error");
    };
    assert_eq!(Envelope::decode(payload).unwrap().integer(K_T), Some(T_ERROR));
    assert!(room(&router, "lobby").topic.is_none());

    let topic =
        slash(&mut router, &mut files, [1; 16], [11; 16], "lobby", "/topic lobby Welcome everyone");
    assert_eq!(topic.len(), 2);
    assert_eq!(room(&router, "lobby").topic.as_deref(), Some("Welcome everyone"));

    let read_only = slash(&mut router, &mut files, [1; 16], [11; 16], "lobby", "/mode lobby -r");
    assert_eq!(read_only.len(), 1);
    assert!(room(&router, "lobby").registered);
}

#[test]
fn registered_room_survives_restart_and_reload_preserves_live_members() {
    let mut files = Files::new();
    let mut first = Router::new(load_config(default_settings()), [9; 16], EXTENSIONS);
    connect(&mut first, [1; 16], [11; 16], "alice");
    join(&mut first, &mut files, [1; 16], [11; 16], "lobby");
    slash(&mut first, &mut files, [1; 16], [11; 16], "lobby", "/register lobby");
    slash(&mut first, &mut files, [1; 16], [11; 16], "lobby", "/mode lobby +m");
    slash(&mut first, &mut files, [1; 16], [11; 16], "lobby", "/topic lobby Persistent topic");

    let mut restarted = Router::new(load_config(default_settings()), [9; 16], EXTENSIONS);
    restarted.state.rooms = RoomRegistry::load(&files.rooms, now());
    let lobby = room(&restarted, "lobby");
    assert!(lobby.registered);
    assert!(lobby.moderated);
    assert_eq!(lobby.topic.as_deref(), Some("Persistent topic"));

    connect(&mut restarted, [2; 16], [22; 16], "bob");
    join(&mut restarted, &mut files, [2; 16], [22; 16], "lobby");
    let mut disk = RoomRegistry::load(&files.rooms, now());
    disk.get_mut(&"lobby".to_string()).unwrap().topic = Some("Changed on disk".into());
    files.rooms = RoomRegistry::save(&disk, now());
    restarted.reload(load_config(default_settings()), RoomRegistry::load(&files.rooms, now()));
    assert_eq!(room(&restarted, "lobby").topic.as_deref(), Some("Changed on disk"));
    assert!(room(&restarted, "lobby").members.contains(&[2; 16]));
    assert!(restarted.state.sessions.get(&[2; 16]).unwrap().rooms.contains(&"lobby".to_string()));
}

#[test]
fn list_returns_only_sorted_public_registered_rooms_with_topics() {
    let mut files = Files::new();
    let mut router = Router::new(config(), [9; 16], EXTENSIONS);
    connect(&mut router, [1; 16], [11; 16], "alice");
    router.state.rooms.insert(
        "zeta".into(),
        Room { registered: true, topic: Some("Last room".into()), ..Room::default() },
    );
    router.state.rooms.insert("alpha".into(), Room { registered: true, ..Room::default() });
    router.state.rooms.insert(
        "secret".into(),
        Room { registered: true, private: true, ..Room::default() },
    );
    router.state.rooms.insert("temporary".into(), Room::default());

    let actions = slash(&mut router, &mut files, [1; 16], [11; 16], "ignored", "/list");
    assert_eq!(actions.len(), 1);
    let response = action_envelope(&actions[0]);
    assert_eq!(response.integer(K_T), Some(T_NOTICE));
    assert_eq!(response.text(K_ROOM), None);
    assert_eq!(
        response.text(K_BODY),
        Some("Registered public rooms:\n  alpha\n  zeta - Last room")
    );
}

#[test]
fn help_lists_available_commands_in_a_single_notice() {
    let mut files = Files::new();
    let mut router = Router::new(config(), [9; 16], EXTENSIONS);
    connect(&mut router, [1; 16], [11; 16], "alice");

    let actions = slash(&mut router, &mut files, [1; 16], [11; 16], "ignored", "/help");
    assert_eq!(actions.len(), 1);
    let response = action_envelope(&actions[0]);
    assert_eq!(response.integer(K_T), Some(T_NOTICE));
    assert_eq!(response.text(K_ROOM), None);
    let help = response.text(K_BODY).unwrap();
    for command in [
        "/help",
        "/list",
        "/who",
        "/names",
        "/topic",
        "/register",
        "/unregister",
        "/mode",
        "/op",
        "/deop",
        "/voice",
        "/devoice",
        "/invite",
        "/ban",
        "/unban",
        "/kick",
        "/stats",
        "/reload",
        "/kline",
    ] {
        assert!(help.contains(command), "help omits {command}");
    }
}

#[test]
fn who_normalizes_room_and_formats_nicks_hashes_and_private_denial() {
    let mut files = Files::new();
    let mut router = Router::new(config(), [9; 16], EXTENSIONS);
    connect(&mut router, [1; 16], [11; 16], "alice");
    connect(&mut router, [2; 16], [22; 16], "bob");
    join(&mut router, &mut files, [1; 16], [11; 16], "Lobby");
    join(&mut router, &mut files, [2; 16], [22; 16], "Lobby");
    router.state.set_nick([2; 16], None);

    let actions = slash(&mut router, &mut files, [1; 16], [11; 16], "ignored", "/names LOBBY");
    assert_eq!(actions.len(), 1);
    assert_eq!(
        action_envelope(&actions[0]).text(K_BODY),
        Some("members in lobby: 16161616161616161616161616161616, alice (0b0b0b0b0b0b)")
    );

    router.state.rooms.get_mut(&"lobby".to_string()).unwrap().private = true;
    let actions = slash(&mut router, &mut files, [1; 16], [11; 16], "lobby", "/who");
    assert_eq!(actions.len(), 1);
    let response = action_envelope(&actions[0]);
    assert_eq!(response.integer(K_T), Some(T_NOTICE));
    assert_eq!(response.text(K_BODY), Some("room lobby is private"));
}

#[test]
fn nickname_change_on_command_updates_who_and_notifies_room() {
    let mut files = Files::new();
    let mut router = Router::new(config(), [9; 16], EXTENSIONS);
    connect(&mut router, [1; 16], [11; 16], "alice");
    connect(&mut router, [2; 16], [22; 16], "bob");
    join(&mut router, &mut files, [1; 16], [11; 16], "lobby");
    join(&mut router, &mut files, [2; 16], [22; 16], "lobby");

    let mut command = client(T_MSG, [11; 16]);
    command.set(K_ROOM, text("lobby"));
    command.set(K_BODY, text("/who lobby"));
    command.set(K_NICK, text("alice-new"));
    let actions = send(&mut router, &mut files, [1; 16], &command);

    assert_eq!(
        router.state.sessions.get(&[1; 16]).unwrap().nick.as_deref(),
        Some("alice-new")
    );
    let who = actions
        .iter()
        .find(|action| {
            action_envelope(action)
                .text(K_BODY)
                .is_some_and(|body| body.starts_with("members in lobby:"))
        })
        .unwrap();
    assert!(user_list(who)
        .unwrap()
        .iter()
        .any(|user| user.nick.as_deref() == Some("alice-new")));
    assert_eq!(
        actions
            .iter()
            .map(action_envelope)
            .filter(|envelope| {
                envelope
                    .text(K_BODY)
                    .is_some_and(|body| body == "nick changed: alice -> alice-new")
            })
            .count(),
        2
    );
}

#[test]
fn stats_require_server_operator_and_report_detailed_counters() {
    let mut files = Files::new();
    let mut cfg = config();
    cfg.trusted_identities.push([11; 16]);
    let mut router = Router::new(cfg, [9; 16], EXTENSIONS);
    connect(&mut router, [1; 16], [11; 16], "operator");
    connect(&mut router, [2; 16], [22; 16], "guest");

    let denied = slash(&mut router, &mut files, [2; 16], [22; 16], "ignored", "/stats");
    assert_eq!(denied.len(), 1);
    let denied = action_envelope(&denied[0]);
    assert_eq!(denied.integer(K_T), Some(T_ERROR));
    assert_eq!(denied.text(K_BODY), Some("not authorized"));

    router.count_forwarded(T_MSG);
    router.count_forwarded(T_NOTICE);
    router.count_forwarded(T_ACTION);
    router.state.counters.pings_in = 2;
    router.state.counters.pings_out = 3;
    router.state.counters.pongs_in = 4;
    router.state.counters.pongs_out = 5;
    router.state.counters.announces = 6;
    let report = router.format_stats(0);
    assert!(report.contains("clients_total=2 clients_identified=2 clients_welcomed=2"));
    assert!(report.contains("msgs_fwd=1 notices_fwd=1 actions_fwd=1"));
    assert!(report.contains("pings: in=2 out=3 pongs: in=4 out=5"));
    assert!(report.contains("announces=6"));

    let allowed = slash(&mut router, &mut files, [1; 16], [11; 16], "ignored", "/stats");
    assert!(!allowed.is_empty());
    let envelope = action_envelope(&allowed[0]);
    assert!(matches!(
        envelope.integer(K_T),
        Some(T_NOTICE) | Some(T_RESOURCE_ENVELOPE)
    ));
}

#[test]
fn maintenance_expires_invites_and_prunes_only_stale_empty_registered_rooms() {
    let mut files = Files::new();
    let mut cfg = config();
    cfg.room_registry_prune_after = 10 * SECOND;
    cfg.room_registry_prune_interval = SECOND;
    let mut router = Router::new(cfg, [9; 16], EXTENSIONS);
    let wall: Nanos = now();
    let mut stale =
        Room { registered: true, last_used_ts: wall - 20 * SECOND, ..Room::default() };
    stale.invited.insert([1; 16], wall - SECOND);
    router.state.rooms.insert("stale".into(), stale);
    let mut active =
        Room { registered: true, last_used_ts: wall - 20 * SECOND, ..Room::default() };
    active.members.insert([7; 16]);
    router.state.rooms.insert("active".into(), active);
    let step = router.liveness_tick_at(Clock { wall, mono: 2 * SECOND });
    settle(&mut router, &mut files, step);
    assert!(!router.state.rooms.contains_key(&"stale".to_string()));
    assert!(router.state.rooms.contains_key(&"active".to_string()));
    let loaded = RoomRegistry::load(&files.rooms, now());
    assert!(!loaded.contains_key(&"stale".to_string()));
    assert!(loaded.contains_key(&"active".to_string()));
}
