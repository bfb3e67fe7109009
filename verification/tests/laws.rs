//! What holds of the hub as a whole, on concrete hubs.

use rsrrcd::cbor::{Datum, Fields};
use rsrrcd::clock::{Clock, Nanos, SECOND};
use rsrrcd::config::Settings;
use rsrrcd::constants::{
    B_HELLO_CAPS, B_HELLO_NICK_LEGACY, B_RES_ENCODING, B_RES_ID, B_RES_KIND, B_RES_SHA256,
    B_RES_SIZE, B_WELCOME_CAPS, B_WELCOME_LIMITS, CAP_ACTION, CAP_DIRECT_NOTICE,
    CAP_RESOURCE_ENVELOPE, K_BODY, K_DST, K_ID, K_NICK, K_ROOM, K_SRC, K_T, T_ACTION, T_ERROR,
    T_HELLO, T_JOIN, T_JOINED, T_MSG, T_NOTICE, T_PART, T_PARTED, T_PING, T_PONG,
    T_RESOURCE_ENVELOPE, T_WELCOME,
};
use rsrrcd::outgoing::{Action, Extension};
use rsrrcd::protocol::{map_get, Envelope};
use rsrrcd::registry::{RoomRecord, RoomRegistry};
use rsrrcd::router::{Extensions, Outcome, Router, Step, Work};
use rsrrcd::state::{IdentityHash, LinkId, Room};
use rsrrcd::HubConfig;
use sha2::{Digest, Sha256};

const EXTENSIONS: Extensions = Extensions { room_state: 3, user_list: 4 };
const WALL: Nanos = 1_730_000_000 * SECOND;

const ALICE: (LinkId, IdentityHash) = ([1; 16], [11; 16]);
const BOB: (LinkId, IdentityHash) = ([2; 16], [22; 16]);
const CAROL: (LinkId, IdentityHash) = ([3; 16], [33; 16]);

fn settings() -> Settings {
    Settings {
        configdir: None,
        identity_path: None,
        room_registry_path: None,
        hub_name: Some("laws".into()),
        greeting: None,
        announce_on_start: None,
        announce_period: None,
        include_joined_member_list: Some(true),
        room_invite_timeout: None,
        room_registry_prune_after: Some(10 * SECOND),
        room_registry_prune_interval: Some(SECOND),
        max_nick_bytes: None,
        max_rooms_per_session: Some(3),
        max_room_name_bytes: Some(16),
        max_msg_body_bytes: None,
        rate_limit_msgs_per_minute: None,
        ping_interval: None,
        ping_timeout: None,
        enable_resource_transfer: None,
        max_resource_bytes: Some(4096),
        max_pending_resource_expectations: Some(2),
        resource_expectation_ttl: None,
        trusted_identities: vec![],
        banned_identities: vec![],
        log_level: None,
        log_console: None,
        log_file: None,
    }
}

fn config() -> HubConfig {
    match HubConfig::load("config".into(), "", settings()) {
        Ok(config) => config,
        Err(error) => panic!("{}", error.message()),
    }
}

/// A hub with its files and a clock that the test sets.
struct Hub {
    router: Router,
    clock: Clock,
    saved: Vec<RoomRecord>,
    failing: Option<String>,
}

impl Hub {
    fn new(config: HubConfig) -> Hub {
        Hub {
            router: Router::new(config, [9; 16], EXTENSIONS),
            clock: Clock { wall: WALL, mono: 0 },
            saved: Vec::new(),
            failing: None,
        }
    }

    fn pass(&mut self, time: Nanos) {
        self.clock.wall += time;
        self.clock.mono += time;
    }

    fn settle(&mut self, step: Step) -> Vec<Action> {
        let Step { mut actions, mut pending } = step;
        while let Some(waiting) = pending {
            let outcome = match (&self.failing, waiting.work) {
                (Some(error), _) => Outcome::Failed(error.clone()),
                (None, Work::SaveRooms) => {
                    self.saved = RoomRegistry::save(&self.router.state.rooms, self.clock.wall);
                    Outcome::Done
                }
                (None, Work::SaveBans) => Outcome::Done,
                (None, Work::Reload) => {
                    Outcome::Loaded(config(), RoomRegistry::load(&self.saved, self.clock.wall))
                }
            };
            let next = self.router.resume_at(self.clock, waiting, outcome);
            actions.extend(next.actions);
            pending = next.pending;
        }
        agrees(&self.router);
        actions
    }

    fn send(&mut self, link: LinkId, envelope: &Envelope) -> Vec<Action> {
        let step = self.router.packet_at(self.clock, link, &envelope.encode().unwrap());
        self.settle(step)
    }

    fn connect(&mut self, (link, peer): (LinkId, IdentityHash), nick: &str) -> Vec<Action> {
        self.router.established_at(self.clock, link);
        assert!(self.router.identified(link, peer).is_empty());
        let mut caps = Fields::new();
        caps.set(EXTENSIONS.room_state, Datum::Bool(false));
        let mut body = Fields::new();
        body.set(B_HELLO_CAPS, Datum::Fields(caps));
        let mut hello = Envelope::new(T_HELLO, &peer);
        hello.set(K_BODY, Datum::Fields(body));
        hello.set(K_NICK, text(nick));
        self.send(link, &hello)
    }

    fn say(&mut self, link: LinkId, kind: u64, room: Option<&str>, body: &str) -> Vec<Action> {
        let mut envelope = Envelope::new(kind, &[0; 16]);
        if let Some(room) = room {
            envelope.set(K_ROOM, text(room));
        }
        if !body.is_empty() {
            envelope.set(K_BODY, text(body));
        }
        self.send(link, &envelope)
    }

    fn join(&mut self, link: LinkId, room: &str) -> Vec<Action> {
        self.say(link, T_JOIN, Some(room), "")
    }

    fn command(&mut self, link: LinkId, body: &str) -> Vec<Action> {
        self.say(link, T_MSG, None, body)
    }

    fn close(&mut self, link: LinkId) -> Vec<Action> {
        let step = self.router.closed_at(self.clock, link);
        self.settle(step)
    }

    fn tick(&mut self) -> Vec<Action> {
        let step = self.router.liveness_tick_at(self.clock);
        self.settle(step)
    }

    fn receive(&mut self, link: LinkId, payload: &[u8]) -> Vec<Action> {
        let step = self.router.resource_received_at(self.clock, link, payload.to_vec());
        self.settle(step)
    }

    fn room(&self, name: &str) -> &Room {
        self.router.state.rooms.get(&name.to_string()).unwrap()
    }
}

fn text(value: &str) -> Datum {
    Datum::Text(value.into())
}

/// Checks that sessions, rooms and indexes agree with each other.
fn agrees(router: &Router) {
    let state = &router.state;
    for i in 0..state.sessions.len() {
        let link = state.sessions.key(i);
        let session = state.sessions.value(i);
        for name in session.rooms.to_vec() {
            assert!(state.rooms.get(&name).unwrap().members.contains(link));
        }
        if let Some(peer) = session.peer {
            let found = state.links_by_identity.get(&peer).unwrap();
            assert_eq!(state.sessions.get(found).unwrap().peer, Some(peer));
        }
        if let Some(nick) = &session.nick {
            assert!(state.links_by_nick.get(&nick.to_lowercase()).unwrap().contains(link));
        }
    }
    for i in 0..state.rooms.len() {
        let members = state.rooms.value(i).members.to_vec();
        for (j, link) in members.iter().enumerate() {
            assert!(state.sessions.get(link).unwrap().rooms.contains(state.rooms.key(i)));
            assert!(!members[..j].contains(link));
        }
    }
    for i in 0..state.links_by_nick.len() {
        assert!(state.links_by_nick.value(i).len() > 0);
        for link in state.links_by_nick.value(i).to_vec() {
            let nick = state.sessions.get(&link).unwrap().nick.as_ref().unwrap();
            assert_eq!(&nick.to_lowercase(), state.links_by_nick.key(i));
        }
    }
}

fn packet(action: &Action) -> Envelope {
    match action {
        Action::Send(_, payload) => Envelope::decode(payload).unwrap(),
        Action::SendExtended(_, envelope, _) => {
            Envelope::decode(&envelope.encode().unwrap()).unwrap()
        }
        _ => panic!("expected a packet"),
    }
}

fn to(action: &Action) -> LinkId {
    match action {
        Action::Send(link, _) => *link,
        Action::SendExtended(link, _, _) => *link,
        Action::SendResource(link, _) => *link,
        Action::Close(link) => *link,
    }
}

fn kinds(actions: &[Action]) -> Vec<u64> {
    actions.iter().map(|action| packet(action).integer(K_T).unwrap()).collect()
}

fn bodies(actions: &[Action]) -> Vec<String> {
    actions.iter().filter_map(|action| packet(action).text(K_BODY).map(String::from)).collect()
}

fn is_error(actions: &[Action], link: LinkId, expected: &str) -> bool {
    actions.len() == 1
        && to(&actions[0]) == link
        && kinds(actions) == vec![T_ERROR]
        && bodies(actions) == vec![expected.to_string()]
}

fn announce(kind: &str, payload: &[u8], digest: &[u8]) -> Envelope {
    let mut body = Fields::new();
    body.set(B_RES_ID, Datum::Bytes(vec![7; 8]));
    body.set(B_RES_KIND, text(kind));
    body.set(B_RES_SIZE, Datum::Integer(payload.len() as i128));
    body.set(B_RES_SHA256, Datum::Bytes(digest.to_vec()));
    body.set(B_RES_ENCODING, text("UTF-8"));
    let mut envelope = Envelope::new(T_RESOURCE_ENVELOPE, &[0; 16]);
    envelope.set(K_ROOM, text("lobby"));
    envelope.set(K_BODY, Datum::Fields(body));
    envelope
}

fn lobby() -> Hub {
    let mut hub = Hub::new(config());
    for (who, nick) in [(ALICE, "alice"), (BOB, "bob")] {
        hub.connect(who, nick);
        hub.join(who.0, "lobby");
    }
    hub
}

#[test]
fn nothing_has_an_effect_before_hello() {
    let mut hub = Hub::new(config());
    hub.router.established_at(hub.clock, ALICE.0);
    assert!(hub.join(ALICE.0, "lobby").is_empty());
    hub.router.identified(ALICE.0, ALICE.1);
    assert!(is_error(&hub.join(ALICE.0, "lobby"), ALICE.0, "send HELLO first"));
    let list = hub.command(ALICE.0, "/list");
    assert!(is_error(&list, ALICE.0, "send HELLO first"));
    let ping = hub.say(ALICE.0, T_PING, None, "x");
    assert!(is_error(&ping, ALICE.0, "send HELLO first"));
    assert_eq!(hub.router.state.rooms.len(), 0);
    assert!(!hub.router.state.sessions.get(&ALICE.0).unwrap().welcomed);
}

#[test]
fn welcome_comes_first_and_tells_what_is_supported() {
    for enabled in [true, false] {
        let mut config = config();
        config.enable_resource_transfer = enabled;
        config.greeting = Some("hello there".into());
        let mut hub = Hub::new(config);
        let actions = hub.connect(ALICE, "alice");
        assert_eq!(kinds(&actions), vec![T_WELCOME, T_NOTICE]);
        assert_eq!(bodies(&actions), vec!["hello there".to_string()]);
        let welcome = packet(&actions[0]);
        let body = welcome.map(K_BODY).unwrap();
        let Some(Datum::Fields(caps)) = map_get(body, B_WELCOME_CAPS) else {
            panic!("expected capabilities");
        };
        assert_eq!(map_get(caps, CAP_ACTION), Some(&Datum::Bool(true)));
        assert_eq!(map_get(caps, CAP_DIRECT_NOTICE), Some(&Datum::Bool(true)));
        let resources = map_get(caps, CAP_RESOURCE_ENVELOPE);
        assert_eq!(resources, if enabled { Some(&Datum::Bool(true)) } else { None });
        let Some(Datum::Fields(limits)) = map_get(body, B_WELCOME_LIMITS) else {
            panic!("expected limits");
        };
        assert_eq!(map_get(limits, 1), Some(&Datum::Integer(16)));
        assert_eq!(map_get(limits, 3), Some(&Datum::Integer(3)));
    }
}

#[test]
fn an_older_hello_carries_the_nickname_in_its_body() {
    let mut hub = Hub::new(config());
    hub.router.established_at(hub.clock, ALICE.0);
    hub.router.identified(ALICE.0, ALICE.1);
    let mut body = Fields::new();
    body.set(B_HELLO_NICK_LEGACY, text(" old alice "));
    let mut hello = Envelope::new(T_HELLO, &ALICE.1);
    hello.set(K_BODY, Datum::Fields(body));
    hub.send(ALICE.0, &hello);
    let session = hub.router.state.sessions.get(&ALICE.0).unwrap();
    assert_eq!(session.nick.as_deref(), Some("old alice"));
}

#[test]
fn a_command_is_answered_and_not_passed_on() {
    let mut hub = lobby();
    let actions = hub.say(ALICE.0, T_NOTICE, Some("lobby"), "  /frobnicate now");
    assert!(is_error(&actions, ALICE.0, "unrecognized command"));
    let actions = hub.say(ALICE.0, T_MSG, Some("lobby"), "/who");
    assert!(actions.iter().all(|action| to(action) == ALICE.0));
    assert_eq!(packet(&actions[0]).bytes(K_SRC), Some(&[9; 16][..]));
}

#[test]
fn an_action_is_passed_on_even_with_a_slash() {
    let mut hub = lobby();
    let actions = hub.say(ALICE.0, T_ACTION, Some("lobby"), "/list");
    assert_eq!(kinds(&actions), vec![T_ACTION, T_ACTION]);
    assert_eq!(bodies(&actions), vec!["/list".to_string(), "/list".to_string()]);
    assert!(actions.iter().all(|action| packet(action).bytes(K_SRC) == Some(&ALICE.1[..])));
}

#[test]
fn what_is_passed_on_keeps_its_identifier_and_what_is_said_has_its_own() {
    let mut hub = lobby();
    let mut message = Envelope::new(T_MSG, &[0; 16]);
    message.set(K_ROOM, text("lobby"));
    message.set(K_BODY, text("hi"));
    message.set(77, Datum::Integer(5));
    let actions = hub.send(ALICE.0, &message);
    for action in &actions {
        assert_eq!(packet(action).bytes(K_ID), message.bytes(K_ID));
        assert_eq!(packet(action).get(77), Some(&Datum::Integer(5)));
    }
    let pong = hub.say(ALICE.0, T_PING, None, "token");
    assert_eq!(kinds(&pong), vec![T_PONG]);
    assert_eq!(bodies(&pong), vec!["token".to_string()]);
    let again = hub.say(ALICE.0, T_PING, None, "token");
    assert_ne!(packet(&pong[0]).bytes(K_ID), packet(&again[0]).bytes(K_ID));
}

#[test]
fn direct_notices_keep_their_destination_and_name_no_room() {
    let mut hub = lobby();
    let mut notice = Envelope::new(T_NOTICE, &[0; 16]);
    notice.set(K_DST, Datum::Bytes(BOB.1.to_vec()));
    notice.set(K_BODY, text("psst"));
    let actions = hub.send(ALICE.0, &notice);
    assert_eq!(actions.len(), 1);
    assert_eq!(to(&actions[0]), BOB.0);
    let passed = packet(&actions[0]);
    assert_eq!(passed.bytes(K_DST), Some(&BOB.1[..]));
    assert_eq!(passed.get(K_ROOM), None);
    notice.set(K_ROOM, text("lobby"));
    let actions = hub.send(ALICE.0, &notice);
    assert!(is_error(&actions, ALICE.0, "direct notice must not include room"));
    notice.remove(K_ROOM);
    notice.set(K_DST, Datum::Bytes(vec![22; 15]));
    let actions = hub.send(ALICE.0, &notice);
    assert!(is_error(&actions, ALICE.0, "direct notice requires destination identity"));
    notice.set(K_DST, Datum::Bytes(vec![77; 16]));
    let actions = hub.send(ALICE.0, &notice);
    assert!(is_error(&actions, ALICE.0, "destination not connected"));
}

#[test]
fn departures_are_told_with_the_last_nickname() {
    let mut hub = lobby();
    let actions = hub.close(ALICE.0);
    assert_eq!(kinds(&actions), vec![T_PARTED]);
    assert_eq!(to(&actions[0]), BOB.0);
    assert_eq!(packet(&actions[0]).text(K_NICK), Some("alice"));
    assert!(hub.close(BOB.0).is_empty());
    assert_eq!(hub.router.state.rooms.len(), 0);
    assert_eq!(hub.router.state.links_by_nick.len(), 0);
    assert_eq!(hub.router.state.links_by_identity.len(), 0);
}

#[test]
fn everyone_hears_of_a_join_once() {
    let mut hub = lobby();
    hub.connect(CAROL, "carol");
    let actions = hub.join(CAROL.0, "LOBBY");
    assert_eq!(kinds(&actions), vec![T_JOINED, T_JOINED, T_JOINED, T_NOTICE]);
    let told: Vec<LinkId> = actions.iter().map(to).collect();
    assert_eq!(told, vec![ALICE.0, BOB.0, CAROL.0, CAROL.0]);
    let members = packet(&actions[2]);
    let expected: Vec<Datum> =
        [ALICE.1, BOB.1, CAROL.1].iter().map(|peer| Datum::Bytes(peer.to_vec())).collect();
    assert_eq!(members.get(K_BODY), Some(&Datum::Array(expected)));
}

#[test]
fn the_first_to_join_founds_the_room() {
    let hub = lobby();
    assert_eq!(hub.room("lobby").founder, Some(ALICE.1));
    assert!(hub.room("lobby").is_operator(&ALICE.1));
    assert!(!hub.room("lobby").is_operator(&BOB.1));
}

#[test]
fn room_names_are_checked() {
    let mut hub = Hub::new(config());
    hub.connect(ALICE, "alice");
    assert!(is_error(&hub.join(ALICE.0, "  "), ALICE.0, "room name is empty"));
    assert!(is_error(&hub.join(ALICE.0, &"x".repeat(17)), ALICE.0, "room name too long"));
    assert!(is_error(&hub.join(ALICE.0, "a\nb"), ALICE.0, "invalid room name"));
    let unnamed = hub.say(ALICE.0, T_JOIN, None, "");
    assert!(is_error(&unnamed, ALICE.0, "JOIN requires room name"));
    let unnamed = hub.say(ALICE.0, T_PART, None, "");
    assert!(is_error(&unnamed, ALICE.0, "PART requires room name"));
    hub.join(ALICE.0, " ÄÖ ");
    assert!(hub.router.state.rooms.contains_key(&"äö".to_string()));
}

#[test]
fn a_link_joins_no_more_rooms_than_allowed() {
    let mut hub = Hub::new(config());
    hub.connect(ALICE, "alice");
    for name in ["a", "b", "c"] {
        assert!(hub.join(ALICE.0, name).len() > 1);
    }
    assert!(is_error(&hub.join(ALICE.0, "d"), ALICE.0, "too many rooms"));
    assert!(hub.join(ALICE.0, "a").len() > 1);
    assert!(!hub.router.state.rooms.contains_key(&"d".to_string()));
}

#[test]
fn the_rate_of_a_link_is_limited() {
    let mut config = config();
    config.rate_limit_msgs_per_minute = 6;
    let mut hub = Hub::new(config);
    hub.connect(ALICE, "alice");
    for _ in 0..5 {
        assert_eq!(kinds(&hub.say(ALICE.0, T_PING, None, "x")), vec![T_PONG]);
    }
    assert!(is_error(&hub.say(ALICE.0, T_PING, None, "x"), ALICE.0, "rate limited"));
    assert_eq!(hub.router.state.counters.rate_limited, 1);
    hub.pass(10 * SECOND - 1);
    assert!(is_error(&hub.say(ALICE.0, T_PING, None, "x"), ALICE.0, "rate limited"));
    hub.pass(1);
    assert_eq!(kinds(&hub.say(ALICE.0, T_PING, None, "x")), vec![T_PONG]);
    assert!(is_error(&hub.say(ALICE.0, T_PING, None, "x"), ALICE.0, "rate limited"));
    hub.pass(3600 * SECOND);
    let mut granted = 0;
    for _ in 0..20 {
        if kinds(&hub.say(ALICE.0, T_PING, None, "x")) == vec![T_PONG] {
            granted += 1;
        }
    }
    assert_eq!(granted, 6);
}

#[test]
fn the_banned_neither_join_nor_speak() {
    let mut hub = lobby();
    hub.command(ALICE.0, "/ban lobby add bob");
    assert!(is_error(&hub.join(BOB.0, "lobby"), BOB.0, "banned from room"));
    let actions = hub.say(BOB.0, T_MSG, Some("lobby"), "hello?");
    assert!(is_error(&actions, BOB.0, "banned from room"));
    assert_eq!(hub.room("lobby").members.to_vec(), vec![ALICE.0]);
    let list = hub.command(ALICE.0, "/ban lobby list");
    assert_eq!(bodies(&list), vec!["16".repeat(16)]);
    assert!(is_error(&hub.command(BOB.0, "/ban lobby list"), BOB.0, "not authorized"));
    hub.command(ALICE.0, &format!("/unban lobby {}", "16".repeat(16)));
    assert!(hub.join(BOB.0, "lobby").len() > 1);
    let list = hub.command(ALICE.0, "/ban lobby list");
    assert_eq!(bodies(&list), vec!["(none)".to_string()]);
}

#[test]
fn moderation_and_outside_messages() {
    let mut hub = lobby();
    hub.connect(CAROL, "carol");
    assert_eq!(hub.say(CAROL.0, T_MSG, Some("lobby"), "hi").len(), 2);
    hub.command(ALICE.0, "/mode lobby +n");
    let actions = hub.say(CAROL.0, T_MSG, Some("lobby"), "hi");
    assert!(is_error(&actions, CAROL.0, "no outside messages (+n)"));
    hub.command(ALICE.0, "/mode lobby +m");
    let actions = hub.say(BOB.0, T_MSG, Some("lobby"), "hi");
    assert!(is_error(&actions, BOB.0, "room is moderated (+m)"));
    hub.command(ALICE.0, "/voice lobby bob");
    assert_eq!(hub.say(BOB.0, T_MSG, Some("lobby"), "hi").len(), 2);
    hub.command(ALICE.0, "/devoice lobby bob");
    let actions = hub.say(BOB.0, T_MSG, Some("lobby"), "hi");
    assert!(is_error(&actions, BOB.0, "room is moderated (+m)"));
    let actions = hub.say(ALICE.0, T_MSG, Some("lobby"), &"x".repeat(351));
    assert!(is_error(&actions, ALICE.0, "message too large"));
    let actions = hub.say(ALICE.0, T_MSG, Some("nowhere"), "hi");
    assert!(is_error(&actions, ALICE.0, "no such room"));
    let actions = hub.say(ALICE.0, T_MSG, None, "hi");
    assert!(is_error(&actions, ALICE.0, "message requires room name"));
}

#[test]
fn an_invitation_lets_in_once_and_until_it_expires() {
    let mut hub = Hub::new(config());
    hub.connect(ALICE, "alice");
    hub.connect(BOB, "bob");
    hub.join(ALICE.0, "lobby");
    hub.command(ALICE.0, "/mode lobby +i");
    hub.command(ALICE.0, "/mode lobby +k top secret");
    assert!(is_error(&hub.join(BOB.0, "lobby"), BOB.0, "invite-only (+i)"));
    let actions = hub.command(ALICE.0, "/invite lobby add bob");
    assert_eq!(
        bodies(&actions),
        vec![
            "invite added in lobby (expires in 900s)".to_string(),
            "You have been invited to join lobby. This invite allows joining without the key (+k)."
                .to_string(),
        ]
    );
    hub.pass(60 * SECOND);
    let list = hub.command(ALICE.0, "/invite lobby list");
    assert_eq!(bodies(&list), vec![format!("{} expires_in=840s", "16".repeat(16))]);
    assert!(hub.join(BOB.0, "lobby").len() > 1);
    assert!(!hub.room("lobby").is_invited(&BOB.1, hub.clock.wall));
    hub.say(BOB.0, T_PART, Some("lobby"), "");
    assert!(is_error(&hub.join(BOB.0, "lobby"), BOB.0, "invite-only (+i)"));
    hub.command(ALICE.0, "/invite lobby add bob");
    hub.pass(900 * SECOND);
    assert!(is_error(&hub.join(BOB.0, "lobby"), BOB.0, "invite-only (+i)"));
    hub.command(ALICE.0, "/invite lobby add bob");
    hub.command(ALICE.0, "/invite lobby del bob");
    assert!(is_error(&hub.join(BOB.0, "lobby"), BOB.0, "invite-only (+i)"));
    hub.command(ALICE.0, "/mode lobby -i");
    assert!(is_error(&hub.join(BOB.0, "lobby"), BOB.0, "bad key (+k)"));
    let mut join = Envelope::new(T_JOIN, &BOB.1);
    join.set(K_ROOM, text("lobby"));
    join.set(K_BODY, text("top secret"));
    assert!(hub.send(BOB.0, &join).len() > 1);
}

#[test]
fn checking_the_rooms_drops_what_is_stale() {
    let mut hub = lobby();
    hub.command(ALICE.0, "/register lobby");
    hub.command(ALICE.0, "/mode lobby +i");
    hub.command(ALICE.0, &format!("/invite lobby add {}", "21".repeat(16)));
    hub.say(BOB.0, T_JOIN, Some("temporary"), "");
    hub.pass(2 * SECOND);
    hub.tick();
    assert_eq!(hub.room("lobby").invited.len(), 1);
    hub.pass(900 * SECOND);
    hub.tick();
    assert_eq!(hub.room("lobby").invited.len(), 0);
    assert_eq!(hub.room("lobby").members.len(), 2);
    hub.close(ALICE.0);
    hub.say(BOB.0, T_PART, Some("lobby"), "");
    hub.pass(9 * SECOND);
    hub.tick();
    assert!(hub.router.state.rooms.contains_key(&"lobby".to_string()));
    hub.pass(2 * SECOND);
    hub.tick();
    assert!(!hub.router.state.rooms.contains_key(&"lobby".to_string()));
    assert!(hub.router.state.rooms.contains_key(&"temporary".to_string()));
    assert!(hub.saved.is_empty());
}

#[test]
fn commands_need_authority() {
    let mut hub = lobby();
    for command in [
        "/mode lobby +m",
        "/op lobby bob",
        "/voice lobby bob",
        "/kick lobby alice",
        "/invite lobby add alice",
        "/invite lobby list",
        "/ban lobby add alice",
        "/ban lobby list",
        "/BAN lobby LIST",
        "/ban nowhere list",
        "/unban lobby alice",
    ] {
        assert!(is_error(&hub.command(BOB.0, command), BOB.0, "not authorized"), "{command}");
    }
    for command in ["/stats", "/reload", "/kline add alice", "/kline list"] {
        assert!(is_error(&hub.command(BOB.0, command), BOB.0, "not authorized"), "{command}");
    }
    let actions = hub.command(BOB.0, "/register lobby");
    assert!(is_error(&actions, BOB.0, "only the room founder can do that"));
    hub.connect(CAROL, "carol");
    let actions = hub.command(CAROL.0, "/register lobby");
    assert!(is_error(&actions, CAROL.0, "must be present in the room"));
    assert_eq!(hub.router.room_mode_string(&"lobby".to_string()), "(none)");
    assert_eq!(hub.room("lobby").members.len(), 2);
    let actions = hub.command(ALICE.0, "/deop lobby alice");
    assert!(is_error(&actions, ALICE.0, "cannot deop founder"));
}

#[test]
fn incomplete_commands_are_told_how_they_are_used() {
    let mut hub = lobby();
    for (command, usage) in [
        ("/register", "usage: /register|unregister <room>"),
        ("/topic", "usage: /topic <room> [topic]"),
        ("/mode lobby", "usage: /mode <room> <mode> [key]"),
        ("/op lobby", "usage: /op|deop|voice|devoice <room> <nick|hash>"),
        ("/kick lobby", "usage: /kick <room> <nick|hash>"),
        ("/ban lobby", "usage: /invite|ban <room> add|del|list [nick|hash]"),
        ("/ban lobby burn", "usage: /invite|ban <room> add|del|list [nick|hash]"),
        ("/who", "usage: /who [room]"),
        ("/mode lobby +r", "use /register or /unregister to change +r"),
        ("/topic lobby", "topic for lobby: (none)"),
    ] {
        assert_eq!(bodies(&hub.command(ALICE.0, command)), vec![usage.to_string()], "{command}");
    }
    let actions = hub.command(ALICE.0, "/mode lobby +k");
    assert!(is_error(&actions, ALICE.0, "unknown or incomplete room mode"));
    let actions = hub.command(ALICE.0, "/ban lobby add");
    assert!(is_error(&actions, ALICE.0, "target is required"));
}

#[test]
fn case_does_not_matter_in_commands() {
    for (first, second) in [
        ("/mode lobby +m", "/MoDe lobby +M"),
        ("/ban lobby add bob", "/BAN lobby ADD bob"),
        ("/kick lobby bob", "/Kick lobby BOB"),
        ("/voice lobby bob", "/VOICE lobby bob"),
    ] {
        let mut left = lobby();
        let mut right = lobby();
        let said = bodies(&left.command(ALICE.0, first));
        let also = bodies(&right.command(ALICE.0, second));
        if first.starts_with("/kick") {
            assert_eq!(said[0], also[0]);
        } else {
            assert_eq!(said, also);
        }
        let (a, b) = (left.room("lobby"), right.room("lobby"));
        assert_eq!(a.moderated, b.moderated);
        assert_eq!(a.banned.to_vec(), b.banned.to_vec());
        assert_eq!(a.members.to_vec(), b.members.to_vec());
        assert_eq!(a.voiced.to_vec(), b.voiced.to_vec());
    }
}

#[test]
fn targets_are_named_by_nickname_prefix_or_hash() {
    let mut hub = lobby();
    hub.connect(CAROL, "Bob");
    hub.join(CAROL.0, "lobby");
    let report = bodies(&hub.command(ALICE.0, "/op lobby bob")).remove(0);
    assert!(report.starts_with("ambiguous: 'bob' matches 2 identities:\n"));
    assert!(report.contains("  - 1616161616161616 nick=\"bob\"\n"));
    assert!(report.contains("  - 2121212121212121 nick=\"Bob\"\n"));
    assert!(report.ends_with("Use full or longer identity hash to disambiguate."));
    assert_eq!(hub.room("lobby").operators.len(), 0);
    hub.command(ALICE.0, "/op lobby 0x161616");
    assert_eq!(hub.room("lobby").operators.to_vec(), vec![BOB.1]);
    let missing = bodies(&hub.command(ALICE.0, "/op lobby 16161"));
    assert_eq!(missing, vec!["target '16161' not found".to_string()]);
}

#[test]
fn a_ban_from_the_hub_keeps_out_until_it_is_lifted() {
    let mut config = config();
    config.trusted_identities.push(ALICE.1);
    let mut hub = Hub::new(config);
    hub.connect(ALICE, "alice");
    hub.connect(BOB, "bob");
    hub.connect(([4; 16], BOB.1), "bob again");
    let mut closed: Vec<LinkId> = hub
        .command(ALICE.0, "/kline add 161616")
        .iter()
        .filter(|action| matches!(action, Action::Close(_)))
        .map(to)
        .collect();
    closed.sort();
    assert_eq!(closed, vec![BOB.0, [4; 16]]);
    hub.router.established_at(hub.clock, [5; 16]);
    let refused = hub.router.identified([5; 16], BOB.1);
    assert!(matches!(refused.as_slice(), [Action::Close(link)] if *link == [5; 16]));
    assert_eq!(bodies(&hub.command(ALICE.0, "/kline list")), vec!["16".repeat(16)]);
    hub.command(ALICE.0, &format!("/kline del {}", "16".repeat(16)));
    assert!(hub.router.identified([5; 16], BOB.1).is_empty());
    assert_eq!(bodies(&hub.command(ALICE.0, "/kline list")), vec!["no klines".to_string()]);
}

#[test]
fn a_failure_to_save_is_told_and_undoes_nothing() {
    let mut hub = lobby();
    hub.failing = Some("disk full".into());
    let actions = hub.command(ALICE.0, "/mode lobby +m");
    assert!(is_error(&actions, ALICE.0, "room persist failed: disk full"));
    assert!(hub.room("lobby").moderated);
    hub.router.config.trusted_identities.push(ALICE.1);
    let actions = hub.command(ALICE.0, "/reload");
    assert!(is_error(&actions, ALICE.0, "reload failed: disk full"));
    let actions = hub.command(ALICE.0, "/kline add bob");
    assert!(is_error(&actions, ALICE.0, "kline persist failed: disk full"));
    assert!(hub.router.config.trusted_identities.contains(&ALICE.1));
}

#[test]
fn a_reload_takes_over_the_files_and_drops_nobody() {
    let mut hub = lobby();
    hub.router.config.trusted_identities.push(ALICE.1);
    hub.command(ALICE.0, "/register lobby");
    hub.join(BOB.0, "den");
    hub.saved[0].topic = Some("From disk".into());
    hub.saved[0].founder = None;
    let report = bodies(&hub.command(ALICE.0, "/reload")).remove(0);
    assert!(report.starts_with("reloaded: trusted=1->0 banned=0->0 registered_rooms=1->1\n"));
    assert!(report.contains("rooms_changes:\n- (none)"));
    let room = hub.room("lobby");
    assert_eq!(room.topic.as_deref(), Some("From disk"));
    assert_eq!(room.founder, Some(ALICE.1));
    assert_eq!(room.members.to_vec(), vec![ALICE.0, BOB.0]);
    assert_eq!(hub.room("den").members.to_vec(), vec![BOB.0]);
    assert_eq!(hub.router.state.sessions.len(), 2);
    assert!(!hub.router.config.trusted_identities.contains(&ALICE.1));
}

#[test]
fn silent_links_are_pinged_and_closed() {
    let mut config = config();
    config.ping_interval = 30 * SECOND;
    config.ping_timeout = 10 * SECOND;
    let mut hub = Hub::new(config);
    hub.connect(ALICE, "alice");
    hub.connect(BOB, "bob");
    assert!(hub.tick().is_empty());
    hub.pass(30 * SECOND);
    assert_eq!(kinds(&hub.tick()), vec![T_PING, T_PING]);
    assert!(hub.tick().is_empty());
    assert!(hub.say(ALICE.0, T_PONG, None, "").is_empty());
    hub.pass(10 * SECOND);
    let actions = hub.tick();
    assert!(matches!(actions.as_slice(), [Action::Close(link)] if *link == BOB.0));
}

#[test]
fn only_expected_resources_are_accepted() {
    let mut hub = lobby();
    let payload = vec![b'y'; 600];
    let digest = Sha256::digest(&payload);
    let refused = hub.receive(ALICE.0, &payload);
    assert!(is_error(&refused, ALICE.0, "resource received without expectation"));
    assert!(hub.send(ALICE.0, &announce("message", &payload, &digest)).is_empty());
    let refused = hub.receive(ALICE.0, &[b'y'; 599]);
    assert!(is_error(&refused, ALICE.0, "resource does not match expectation"));
    let refused = hub.receive(ALICE.0, &[b'z'; 600]);
    assert!(is_error(&refused, ALICE.0, "resource does not match expectation"));
    let refused = hub.receive(BOB.0, &payload);
    assert!(is_error(&refused, BOB.0, "resource received without expectation"));
    let actions = hub.receive(ALICE.0, &payload);
    assert_eq!(actions.len(), 4);
    assert!(matches!(&actions[1], Action::SendResource(_, sent) if *sent == payload));
    let refused = hub.receive(ALICE.0, &payload);
    assert!(is_error(&refused, ALICE.0, "resource does not match expectation"));
    hub.send(ALICE.0, &announce("message", &payload, &digest));
    hub.pass(30 * SECOND);
    let refused = hub.receive(ALICE.0, &payload);
    assert!(is_error(&refused, ALICE.0, "resource does not match expectation"));
    assert_eq!(hub.router.state.counters.resources_rejected, 6);
}

#[test]
fn announcements_of_resources_are_checked() {
    let mut hub = lobby();
    let payload = vec![0xff; 600];
    let digest = Sha256::digest(&payload);
    let large = vec![0; 4097];
    let refused = hub.send(ALICE.0, &announce("blob", &large, &digest));
    assert!(is_error(&refused, ALICE.0, "resource too large"));
    let refused = hub.send(ALICE.0, &announce("", &payload, &digest));
    assert!(is_error(&refused, ALICE.0, "resource envelope missing kind"));
    let refused = hub.send(ALICE.0, &announce("blob", &payload, &digest[1..]));
    assert!(is_error(&refused, ALICE.0, "invalid resource envelope"));
    assert!(hub.send(ALICE.0, &announce("blob", &payload, &digest)).is_empty());
    assert!(hub.send(ALICE.0, &announce("notice", &payload, &digest)).is_empty());
    let refused = hub.send(ALICE.0, &announce("motd", &payload, &digest));
    assert!(is_error(&refused, ALICE.0, "too many pending resource expectations"));
    assert!(hub.receive(ALICE.0, &payload).is_empty());
    let refused = hub.receive(ALICE.0, &payload);
    assert!(is_error(&refused, ALICE.0, "resource is not valid UTF-8"));
    let words = "plain".repeat(120);
    let digest = Sha256::digest(words.as_bytes());
    hub.send(ALICE.0, &announce("riddle", words.as_bytes(), &digest));
    let refused = hub.receive(ALICE.0, words.as_bytes());
    assert!(is_error(&refused, ALICE.0, "unknown resource kind"));
    hub.router.config.enable_resource_transfer = false;
    let refused = hub.send(ALICE.0, &announce("blob", words.as_bytes(), &digest));
    assert!(is_error(&refused, ALICE.0, "resource transfer disabled"));
}

#[test]
fn long_texts_of_the_hub_are_offered_with_their_digest() {
    let mut config = config();
    config.greeting = Some("long ".repeat(200));
    let mut hub = Hub::new(config);
    let actions = hub.connect(ALICE, "alice");
    assert_eq!(actions.len(), 3);
    let offer = packet(&actions[1]);
    assert_eq!(offer.integer(K_T), Some(T_RESOURCE_ENVELOPE));
    let body = offer.map(K_BODY).unwrap();
    assert_eq!(map_get(body, B_RES_SIZE), Some(&Datum::Integer(1000)));
    assert_eq!(map_get(body, B_RES_KIND), Some(&text("motd")));
    let digest = Sha256::digest("long ".repeat(200).as_bytes()).to_vec();
    assert_eq!(map_get(body, B_RES_SHA256), Some(&Datum::Bytes(digest)));
}

#[test]
fn a_nickname_that_is_not_accepted_is_not_passed_on() {
    let mut hub = lobby();
    let mut message = Envelope::new(T_MSG, &[0; 16]);
    message.set(K_ROOM, text("lobby"));
    message.set(K_BODY, text("hi"));
    message.set(K_NICK, text("bad\nnick"));
    let actions = hub.send(ALICE.0, &message);
    assert!(actions.iter().all(|action| packet(action).text(K_NICK) == Some("alice")));
    message.set(K_NICK, text(" Alicia "));
    let actions = hub.send(ALICE.0, &message);
    assert_eq!(
        bodies(&actions),
        vec![
            "hi".to_string(),
            "hi".to_string(),
            "nick changed: alice -> Alicia".to_string(),
            "nick changed: alice -> Alicia".to_string(),
        ]
    );
    assert_eq!(packet(&actions[0]).text(K_NICK), Some("Alicia"));
    let session = hub.router.state.sessions.get(&ALICE.0).unwrap();
    assert_eq!(session.nick.as_deref(), Some("Alicia"));
}

#[test]
fn a_kick_puts_out_and_tells_both() {
    let mut hub = lobby();
    let actions = hub.command(ALICE.0, "/kick lobby bob");
    assert_eq!(
        bodies(&actions),
        vec!["kicked from lobby".to_string(), "kicked bob from lobby".to_string()]
    );
    assert_eq!(to(&actions[0]), BOB.0);
    assert_eq!(hub.room("lobby").members.to_vec(), vec![ALICE.0]);
}

#[test]
fn identities_may_change_on_a_link() {
    let mut hub = lobby();
    hub.router.identified(ALICE.0, CAROL.1);
    agrees(&hub.router);
    assert!(!hub.router.state.links_by_identity.contains_key(&ALICE.1));
    assert_eq!(hub.router.state.links_by_identity.get(&CAROL.1), Some(&ALICE.0));
    let actions = hub.say(ALICE.0, T_MSG, Some("lobby"), "now carol");
    assert_eq!(packet(&actions[0]).bytes(K_SRC), Some(&CAROL.1[..]));
}

#[test]
fn statistics_show_the_busiest_rooms() {
    let mut hub = lobby();
    hub.join(ALICE.0, "attic");
    let report = hub.router.format_stats(12_340_000_000);
    assert!(report.starts_with("rrcd-rs 0.1.0 stats\nuptime_s=12.3\n"));
    assert!(report.contains("rooms=2 memberships=3"));
    assert!(report.contains("top_rooms=lobby:2, attic:1"));
    assert!(report.contains("announce_on_start=true announce_period_s=0"));
    hub.router.count_announce();
    assert!(hub.router.format_stats(0).contains("announces=1"));
}

#[test]
fn what_is_sent_is_counted() {
    let mut hub = Hub::new(config());
    let actions = hub.connect(ALICE, "alice");
    let sent: usize = actions
        .iter()
        .map(|action| match action {
            Action::Send(_, payload) => payload.len(),
            _ => 0,
        })
        .sum();
    assert_eq!(hub.router.state.counters.bytes_out, sent as u64);
    hub.router.count_extended(10);
    assert_eq!(hub.router.state.counters.bytes_out, sent as u64 + 10);
    assert_eq!(hub.router.state.counters.packets_in, 1);
}

#[test]
fn structured_users_name_operators_and_voices() {
    let mut hub = lobby();
    hub.command(ALICE.0, "/op lobby alice");
    hub.command(ALICE.0, "/voice lobby bob");
    let mut caps = Fields::new();
    caps.set(EXTENSIONS.user_list, Datum::Bool(true));
    let mut body = Fields::new();
    body.set(B_HELLO_CAPS, Datum::Fields(caps));
    let mut hello = Envelope::new(T_HELLO, &ALICE.1);
    hello.set(K_BODY, Datum::Fields(body));
    hub.send(ALICE.0, &hello);
    let actions = hub.command(ALICE.0, "/who lobby");
    let Action::SendExtended(_, _, Extension::Users(users)) = &actions[0] else {
        panic!("expected a structured list");
    };
    assert_eq!(users.len(), 2);
    assert!(users[0].operator && !users[0].voiced);
    assert!(!users[1].operator && users[1].voiced);
    assert_eq!(users[1].identity, "16".repeat(16));
}

#[test]
fn one_announcement_admits_one_resource() {
    let mut hub = lobby();
    let payload = b"hello";
    let digest = Sha256::digest(payload);
    hub.send(ALICE.0, &announce("message", payload, &digest));
    hub.send(ALICE.0, &announce("message", payload, &digest));
    hub.send(BOB.0, &announce("message", payload, &digest));
    assert_eq!(bodies(&hub.receive(ALICE.0, payload)), vec!["hello", "hello"]);
    assert_eq!(bodies(&hub.receive(ALICE.0, payload)), vec!["hello", "hello"]);
    let refused = hub.receive(ALICE.0, payload);
    assert!(is_error(&refused, ALICE.0, "resource does not match expectation"));
    assert_eq!(bodies(&hub.receive(BOB.0, payload)), vec!["hello", "hello"]);
}

#[test]
fn a_reload_may_lower_the_bound_on_announcements() {
    let mut higher = config();
    higher.trusted_identities.push(ALICE.1);
    higher.max_pending_resource_expectations = 5;
    let mut hub = Hub::new(higher);
    hub.connect(ALICE, "alice");
    hub.join(ALICE.0, "lobby");
    let digest = Sha256::digest(b"hello");
    for _ in 0..5 {
        assert!(hub.send(ALICE.0, &announce("message", b"hello", &digest)).is_empty());
    }
    hub.command(ALICE.0, "/reload");
    assert_eq!(hub.router.config.max_pending_resource_expectations, 2);
    let refused = hub.send(ALICE.0, &announce("message", b"hello", &digest));
    assert!(is_error(&refused, ALICE.0, "too many pending resource expectations"));
    assert_eq!(bodies(&hub.receive(ALICE.0, b"hello")), vec!["hello"]);
}

#[test]
fn a_new_link_may_send_a_minutes_worth_at_once() {
    let mut config = config();
    config.rate_limit_msgs_per_minute = 3;
    let mut hub = Hub::new(config);
    hub.router.established_at(hub.clock, CAROL.0);
    hub.router.identified(CAROL.0, CAROL.1);
    let hello = Envelope::new(T_HELLO, &CAROL.1);
    for _ in 0..3 {
        assert!(!is_error(&hub.send(CAROL.0, &hello), CAROL.0, "rate limited"));
    }
    assert!(is_error(&hub.send(CAROL.0, &hello), CAROL.0, "rate limited"));
}

#[test]
fn each_room_hears_once_that_a_link_has_closed() {
    let mut hub = lobby();
    for room in ["attic", "cellar"] {
        hub.join(ALICE.0, room);
        hub.join(BOB.0, room);
    }
    hub.join(ALICE.0, "empty");
    let actions = hub.close(ALICE.0);
    let mut rooms: Vec<String> = actions
        .iter()
        .map(|action| {
            assert_eq!(to(action), BOB.0);
            packet(action).text(K_ROOM).unwrap().to_string()
        })
        .collect();
    rooms.sort();
    assert_eq!(rooms, vec!["attic", "cellar", "lobby"]);
}
