//! Two clients and a restart, through the public interface alone.

use rsrrcd::cbor::{Datum, Fields};
use rsrrcd::clock::{now, SECOND};
use rsrrcd::collections::Table;
use rsrrcd::constants::{
    B_HELLO_CAPS, B_WELCOME_CAPS, B_WELCOME_HUB, K_BODY, K_NICK, K_ROOM, K_SRC, K_T, T_ERROR,
    T_HELLO, T_JOIN, T_JOINED, T_MSG, T_WELCOME,
};
use rsrrcd::outgoing::Extension;
use rsrrcd::protocol::{map_get, Envelope};
use rsrrcd::registry::{RoomRecord, RoomRegistry};
use rsrrcd::router::{Extensions, Outcome, Work};
use rsrrcd::{Action, HubConfig, Room, Router};

const EXTENSIONS: Extensions = Extensions { room_state: 3, user_list: 4 };

fn config() -> HubConfig {
    HubConfig {
        config_path: "rooms.conf".into(),
        identity_path: "rooms.identity".into(),
        room_registry_path: "rooms".into(),
        rns_config_dir: None,
        hub_name: "integration".into(),
        greeting: None,
        announce_on_start: false,
        announce_period: 0,
        include_joined_member_list: true,
        room_invite_timeout: 900 * SECOND,
        room_registry_prune_after: 30 * 24 * 3600 * SECOND,
        room_registry_prune_interval: 3600 * SECOND,
        max_nick_bytes: 32,
        max_rooms_per_session: 32,
        max_room_name_bytes: 64,
        max_msg_body_bytes: 350,
        rate_limit_msgs_per_minute: 240,
        ping_interval: 0,
        ping_timeout: 0,
        enable_resource_transfer: true,
        max_resource_bytes: 262_144,
        max_pending_resource_expectations: 8,
        resource_expectation_ttl: 30 * SECOND,
        trusted_identities: Vec::new(),
        banned_identities: Vec::new(),
        log_level: "INFO".into(),
        log_console: false,
        log_file: None,
    }
}

fn raw(router: &mut Router, saved: &mut Vec<RoomRecord>, link: [u8; 16], data: &[u8]) -> Vec<Action> {
    let mut step = router.packet(link, data);
    let mut actions = step.actions;
    while let Some(pending) = step.pending {
        assert_eq!(pending.work, Work::SaveRooms);
        *saved = RoomRegistry::save(&router.state.rooms, now());
        step = router.resume(pending, Outcome::Done);
        actions.append(&mut step.actions);
    }
    actions
}

fn send(
    router: &mut Router,
    saved: &mut Vec<RoomRecord>,
    link: [u8; 16],
    envelope: Envelope,
) -> Vec<Action> {
    raw(router, saved, link, &envelope.encode().unwrap())
}

struct Packet<'a> {
    to: [u8; 16],
    envelope: Envelope,
    extension: Option<&'a Extension>,
}

fn packets(actions: &[Action]) -> Vec<Packet<'_>> {
    actions
        .iter()
        .filter_map(|action| match action {
            Action::Send(to, payload) => Some(Packet {
                to: *to,
                envelope: Envelope::decode(payload).unwrap(),
                extension: None,
            }),
            Action::SendExtended(to, envelope, extension) => Some(Packet {
                to: *to,
                envelope: Envelope::decode(&envelope.encode().unwrap()).unwrap(),
                extension: Some(extension),
            }),
            _ => None,
        })
        .collect()
}

fn hello(peer: [u8; 16], nick: Option<&str>) -> Envelope {
    let mut caps = Fields::new();
    caps.set(EXTENSIONS.room_state, Datum::Bool(true));
    caps.set(EXTENSIONS.user_list, Datum::Bool(true));
    let mut body = Fields::new();
    body.set(B_HELLO_CAPS, Datum::Fields(caps));
    let mut envelope = Envelope::new(T_HELLO, &peer);
    envelope.set(K_BODY, Datum::Fields(body));
    if let Some(nick) = nick {
        envelope.set(K_NICK, Datum::Text(nick.into()));
    }
    envelope
}

fn join(peer: [u8; 16], room: &str) -> Envelope {
    let mut envelope = Envelope::new(T_JOIN, &peer);
    envelope.set(K_ROOM, Datum::Text(room.into()));
    envelope
}

fn message(peer: [u8; 16], room: &str, body: &str) -> Envelope {
    let mut envelope = Envelope::new(T_MSG, &peer);
    envelope.set(K_ROOM, Datum::Text(room.into()));
    envelope.set(K_BODY, Datum::Text(body.into()));
    envelope
}

fn connect(router: &mut Router, link: [u8; 16], peer: [u8; 16], nick: &str) {
    router.established(link);
    router.identified(link, peer);
    let actions = send(router, &mut Vec::new(), link, hello(peer, Some(nick)));
    let sent = packets(&actions);
    let welcome = sent
        .iter()
        .find(|packet| packet.envelope.integer(K_T) == Some(T_WELCOME))
        .unwrap();
    let body = welcome.envelope.map(K_BODY).unwrap();
    assert_eq!(map_get(body, B_WELCOME_HUB), Some(&Datum::Text("integration".into())));
    let Some(Datum::Fields(caps)) = map_get(body, B_WELCOME_CAPS) else {
        panic!("WELCOME must name capabilities");
    };
    assert_eq!(map_get(caps, EXTENSIONS.room_state), Some(&Datum::Bool(true)));
    assert_eq!(map_get(caps, EXTENSIONS.user_list), Some(&Datum::Bool(true)));
}

#[test]
fn two_clients_complete_room_and_directory_flow() {
    let mut saved = Vec::new();
    let mut router = Router::new(config(), [9; 16], EXTENSIONS);
    let alice_link = [1; 16];
    let alice = [11; 16];
    let bob_link = [2; 16];
    let bob = [22; 16];
    connect(&mut router, alice_link, alice, "alice");
    connect(&mut router, bob_link, bob, "bob");

    for (link, peer) in [(alice_link, alice), (bob_link, bob)] {
        let actions = send(&mut router, &mut saved, link, join(peer, "lobby"));
        let sent = packets(&actions);
        let joined = sent
            .iter()
            .find(|packet| {
                packet.to == link && packet.envelope.integer(K_T) == Some(T_JOINED)
            })
            .unwrap();
        assert_eq!(joined.envelope.text(K_ROOM), Some("lobby"));
        assert!(matches!(joined.extension, Some(Extension::RoomState(_))));
    }

    let actions = send(&mut router, &mut saved, alice_link, message(alice, "lobby", "hello"));
    let sent = packets(&actions);
    let delivered: Vec<&Packet> = sent
        .iter()
        .filter(|packet| {
            packet.envelope.integer(K_T) == Some(T_MSG)
                && packet.envelope.text(K_BODY) == Some("hello")
        })
        .collect();
    assert_eq!(delivered.len(), 2);
    assert!(delivered.iter().all(|packet| {
        packet.envelope.bytes(K_SRC) == Some(&alice[..])
            && packet.envelope.text(K_NICK) == Some("alice")
    }));

    let actions =
        send(&mut router, &mut saved, alice_link, message(alice, "lobby", "/register lobby"));
    assert!(packets(&actions).iter().any(|packet| matches!(
        packet.extension,
        Some(Extension::RoomState(state)) if state.registered && state.modes.contains('r')
    )));

    let actions = send(&mut router, &mut saved, bob_link, message(bob, "lobby", "/list"));
    assert!(packets(&actions)
        .iter()
        .any(|packet| packet.envelope.text(K_BODY).is_some_and(|text| text.contains("lobby"))));

    let actions = send(&mut router, &mut saved, bob_link, message(bob, "lobby", "/who lobby"));
    let sent = packets(&actions);
    let users = sent
        .iter()
        .find_map(|packet| match packet.extension {
            Some(Extension::Users(users)) => Some(users),
            _ => None,
        })
        .unwrap();
    assert_eq!(users.len(), 2);
    assert!(users.iter().any(|user| user.nick.as_deref() == Some("alice")));
    assert!(users.iter().any(|user| user.nick.as_deref() == Some("bob")));

    let actions =
        send(&mut router, &mut saved, alice_link, message(alice, "lobby", "/mode lobby +m"));
    assert!(packets(&actions).iter().any(|packet| matches!(
        packet.extension,
        Some(Extension::RoomState(state)) if state.modes.contains('m')
    )));
}

#[test]
fn malformed_packet_is_rejected_and_claimed_source_is_replaced() {
    let mut saved = Vec::new();
    let mut router = Router::new(config(), [9; 16], EXTENSIONS);
    let link = [1; 16];
    router.established(link);
    router.identified(link, [11; 16]);

    let actions = raw(&mut router, &mut saved, link, &[0xff, 0x00]);
    assert!(packets(&actions).iter().any(|packet| {
        packet.envelope.integer(K_T) == Some(T_ERROR) && packet.envelope.text(K_BODY).is_some()
    }));

    let mut wrong_source = hello([22; 16], None);
    wrong_source.set(K_BODY, Datum::Null);
    let actions = send(&mut router, &mut saved, link, wrong_source);
    assert!(packets(&actions)
        .iter()
        .any(|packet| packet.envelope.integer(K_T) == Some(T_WELCOME)));

    send(&mut router, &mut saved, link, join([22; 16], "lobby"));
    let actions = send(&mut router, &mut saved, link, message([22; 16], "lobby", "spoof attempt"));
    let sent = packets(&actions);
    let forwarded =
        sent.iter().find(|packet| packet.envelope.integer(K_T) == Some(T_MSG)).unwrap();
    assert_eq!(forwarded.envelope.bytes(K_SRC), Some(&[11; 16][..]));
}

#[test]
fn registered_room_state_survives_public_api_restart() {
    let mut saved: Vec<RoomRecord> = Vec::new();
    let alice_link = [1; 16];
    let alice = [11; 16];
    let bob_link = [2; 16];
    let bob = [22; 16];
    let nothing: Table<String, Room> = RoomRegistry::load(&saved, now());
    let mut router = Router::load(config(), [9; 16], EXTENSIONS, nothing);
    connect(&mut router, alice_link, alice, "alice");
    connect(&mut router, bob_link, bob, "bob");
    for (link, peer) in [(alice_link, alice), (bob_link, bob)] {
        send(&mut router, &mut saved, link, join(peer, "lobby"));
    }

    for text in [
        "/register lobby",
        "/topic lobby Persistent topic",
        "/mode lobby +m",
        "/mode lobby +i",
        "/mode lobby +k secret",
        "/op lobby bob",
        "/voice lobby bob",
        "/ban lobby add bob",
    ] {
        let actions = send(&mut router, &mut saved, alice_link, message(alice, "lobby", text));
        assert!(!actions.is_empty(), "administrative command produced no response: {text}");
    }
    drop(router);

    let rooms = RoomRegistry::load(&saved, now());
    let restarted = Router::load(config(), [9; 16], EXTENSIONS, rooms);
    let room = restarted.state.rooms.get(&"lobby".to_string()).unwrap();
    assert!(room.registered);
    assert_eq!(room.founder, Some(alice));
    assert_eq!(room.topic.as_deref(), Some("Persistent topic"));
    assert_eq!(room.key.as_deref(), Some("secret"));
    assert!(room.moderated);
    assert!(room.invite_only);
    assert!(room.operators.contains(&alice));
    assert!(room.operators.contains(&bob));
    assert!(room.voiced.contains(&bob));
    assert!(room.banned.contains(&bob));
    assert_eq!(room.members.len(), 0);
}
