//! Coming and going: HELLO, JOIN, PART and closed links.

use crate::cbor::{lemma_array_tree, switches, trees, Cbor, Datum, Fields};
use crate::clock::Nanos;
use crate::collections::{
    copy_links, dropped, group_collections, group_sequences, holds, lookup, models, put, with,
    without, Key, Model,
};
use crate::config::ConfigModel;
use crate::constants::{
    B_HELLO_CAPS, B_HELLO_NICK_LEGACY, B_WELCOME_CAPS, B_WELCOME_HUB, B_WELCOME_LIMITS,
    B_WELCOME_VER, CAP_ACTION, CAP_DIRECT_NOTICE, CAP_RESOURCE_ENVELOPE, K_BODY, K_NICK, K_ROOM,
    K_T, SOFTWARE_VERSION, T_HELLO, T_JOINED, T_PARTED, T_WELCOME,
};
use crate::outgoing::{
    borrowed, draft, new_draft, set_text, single, to_one, Out, Outgoing, Parcel, ParcelModel,
};
use crate::protocol::{
    integer_field, map_field, map_get, nick_of, normalize_nick, text_field, with_field, with_text,
    Envelope, FieldMap,
};
use crate::state::{
    close_notes, closed, count, counted, empty_room, invitation, nick_on, nicked, operates,
    peer_among, room_error_text, room_name, swept, Capabilities, Counters, HubState, IdentityHash,
    LinkId, PartModel, Room, RoomModel, SessionModel, StateModel,
};
use crate::text::same_text;
use super::rooms::{mode_string, modes, with_state};
use super::{
    after, ask, asking, failing, idle, noticing, nothing, only, recounted, saying, telling, turn,
    Hub, Reply, Resume, ResumeModel, Router, Turn, Work,
};
use vstd::prelude::*;

verus! {

broadcast use {group_collections, group_sequences};

/// The nickname that an envelope carries, where it is valid.
pub open spec fn carried_nick(fields: FieldMap, max_bytes: nat) -> Option<Seq<char>> {
    match text_field(fields, K_NICK) {
        Some(text) => nick_of(text, max_bytes),
        None => None,
    }
}

/// The nickname that a HELLO carries, in its own field or else in its body, where it is valid.
pub open spec fn hello_nick(fields: FieldMap, max_bytes: nat) -> Option<Seq<char>> {
    match text_field(fields, K_NICK) {
        Some(text) => nick_of(text, max_bytes),
        None => match map_field(fields, K_BODY) {
            Some(body) => match text_field(body, B_HELLO_NICK_LEGACY) {
                Some(text) => nick_of(text, max_bytes),
                None => None,
            },
            None => None,
        },
    }
}

/// The capabilities that a HELLO announces, if it does.
pub open spec fn hello_caps(fields: FieldMap) -> Option<Map<i128, bool>> {
    match map_field(fields, K_BODY) {
        Some(body) => match map_field(body, B_HELLO_CAPS) {
            Some(caps) => Some(switches(caps)),
            None => None,
        },
        None => None,
    }
}

/// The state in which `link` has a nickname where one is given.
pub open spec fn nicked_if(state: StateModel, link: LinkId, nick: Option<Seq<char>>) -> StateModel {
    match nick {
        Some(_) => nicked(state, link, nick),
        None => state,
    }
}

/// The state after the HELLO of a client.
pub open spec fn welcomed(state: StateModel, link: LinkId, fields: FieldMap) -> StateModel {
    match lookup(state.sessions, link) {
        Some(session) => StateModel {
            sessions: put(
                state.sessions,
                link,
                SessionModel {
                    welcomed: true,
                    peer_caps: match hello_caps(fields) {
                        Some(caps) => caps,
                        None => session.peer_caps,
                    },
                    ..session
                },
            ),
            ..state
        },
        None => state,
    }
}

/// The limits that a WELCOME tells.
pub open spec fn welcome_limits(config: ConfigModel) -> FieldMap {
    with_field(
        with_field(
            with_field(
                with_field(
                    with_field(Map::empty(), 0, Cbor::Integer(config.max_nick_bytes as int)),
                    1,
                    Cbor::Integer(config.max_room_name_bytes as int),
                ),
                2,
                Cbor::Integer(config.max_msg_body_bytes as int),
            ),
            3,
            Cbor::Integer(config.max_rooms_per_session as int),
        ),
        4,
        Cbor::Integer(config.rate_limit_msgs_per_minute as int),
    )
}

/// The capabilities that a WELCOME tells.
pub open spec fn welcome_caps(hub: Hub) -> FieldMap {
    let always = with_field(
        with_field(
            with_field(
                with_field(Map::empty(), CAP_ACTION, Cbor::Bool(true)),
                CAP_DIRECT_NOTICE,
                Cbor::Bool(true),
            ),
            hub.extensions.room_state,
            Cbor::Bool(true),
        ),
        hub.extensions.user_list,
        Cbor::Bool(true),
    );
    if hub.config.enable_resource_transfer {
        with_field(always, CAP_RESOURCE_ENVELOPE, Cbor::Bool(true))
    } else {
        always
    }
}

/// The body of a WELCOME.
pub open spec fn welcome_body(hub: Hub) -> FieldMap {
    with_field(
        with_field(
            with_field(
                with_field(Map::empty(), B_WELCOME_HUB, Cbor::Text(hub.config.hub_name)),
                B_WELCOME_VER,
                Cbor::Text(SOFTWARE_VERSION@),
            ),
            B_WELCOME_CAPS,
            Cbor::Fields(welcome_caps(hub)),
        ),
        B_WELCOME_LIMITS,
        Cbor::Fields(welcome_limits(hub.config)),
    )
}

/// The draft of a WELCOME.
pub open spec fn welcome_draft(hub: Hub) -> FieldMap {
    with_field(draft(T_WELCOME, hub.identity@), K_BODY, Cbor::Fields(welcome_body(hub)))
}

/// What the hub does with the first envelope of a client, and with every HELLO.
pub open spec fn greeting(hub: Hub, link: LinkId, fields: FieldMap) -> Turn {
    if integer_field(fields, K_T) != Some(T_HELLO) {
        failing(hub, link, None, "send HELLO first"@)
    } else {
        let named = nicked_if(
            hub.state,
            link,
            hello_nick(fields, hub.config.max_nick_bytes as nat),
        );
        let known = Hub { state: welcomed(named, link, fields), ..hub };
        let outs = seq![single(link, welcome_draft(known))];
        match hub.config.greeting {
            Some(text) => after(
                outs,
                telling(known, link, hub.identity, None, None, "motd"@, text),
            ),
            None => saying(known, outs),
        }
    }
}

/// Why `peer` may not join a room, if it may not.
pub open spec fn join_refusal(
    room: RoomModel,
    peer: IdentityHash,
    now: Nanos,
    key: Option<Seq<char>>,
) -> Option<Seq<char>> {
    let admitted = operates(room, peer) || invitation(room, peer, now);
    if room.banned.contains(peer) {
        Some("banned from room"@)
    } else if room.invite_only && !admitted {
        Some("invite-only (+i)"@)
    } else if room.key is Some && !admitted && key != room.key {
        Some("bad key (+k)"@)
    } else {
        None
    }
}

/// The room after `link` of `peer` has joined it. The first to join a room that nobody founded
/// is its founder, and an invitation is used up.
pub open spec fn joined_room(
    room: RoomModel,
    link: LinkId,
    peer: IdentityHash,
    now: Nanos,
) -> RoomModel {
    RoomModel {
        founder: if room.members.len() == 0 && room.founder is None {
            Some(peer)
        } else {
            room.founder
        },
        members: with(room.members, link),
        invited: dropped(room.invited, peer),
        last_used_ts: now,
        ..room
    }
}

/// The identities of the peers on the links, as CBOR byte strings.
pub open spec fn peers_on(
    sessions: Seq<(LinkId, SessionModel)>,
    links: Seq<LinkId>,
) -> Seq<Cbor>
    decreases links.len(),
{
    if links.len() == 0 {
        Seq::empty()
    } else {
        let before = peers_on(sessions, links.drop_last());
        match lookup(sessions, links.last()) {
            Some(session) => match session.peer {
                Some(peer) => before.push(Cbor::Bytes(peer@)),
                None => before,
            },
            None => before,
        }
    }
}

/// A draft with a list of members for a body, where the hub gives them out.
pub open spec fn with_members(config: ConfigModel, fields: FieldMap, members: Seq<Cbor>) -> FieldMap {
    if config.include_joined_member_list {
        with_field(fields, K_BODY, Cbor::Array(members))
    } else {
        fields
    }
}

/// The draft that tells others of a new member.
pub open spec fn joined_draft(
    hub: Hub,
    name: Seq<char>,
    nick: Option<Seq<char>>,
    peer: IdentityHash,
) -> FieldMap {
    with_members(
        hub.config,
        with_text(
            with_field(draft(T_JOINED, hub.identity@), K_ROOM, Cbor::Text(name)),
            K_NICK,
            nick,
        ),
        seq![Cbor::Bytes(peer@)],
    )
}

/// The draft that tells a new member who is there.
pub open spec fn own_joined_draft(hub: Hub, name: Seq<char>, members: Seq<LinkId>) -> FieldMap {
    with_members(
        hub.config,
        with_field(draft(T_JOINED, hub.identity@), K_ROOM, Cbor::Text(name)),
        peers_on(hub.state.sessions, members),
    )
}

/// What a new member is told of the room.
pub open spec fn room_summary(name: Seq<char>, room: RoomModel) -> Seq<char> {
    "room "@ + name + ": "@ + (if room.registered {
        "registered"@
    } else {
        "unregistered"@
    }) + "; mode="@ + modes(room) + "; topic="@ + match room.topic {
        Some(topic) => topic,
        None => "(none)"@,
    }
}

/// The room `name`, or an empty one where there is none.
pub open spec fn room_or_empty(state: StateModel, name: Seq<char>) -> RoomModel {
    match lookup(state.rooms, name) {
        Some(room) => room,
        None => empty_room(),
    }
}

/// The state after `link` has joined the room `name`.
pub open spec fn joined_state(
    state: StateModel,
    link: LinkId,
    peer: IdentityHash,
    name: Seq<char>,
    now: Nanos,
) -> StateModel {
    StateModel {
        rooms: put(
            state.rooms,
            name,
            joined_room(room_or_empty(state, name), link, peer, now),
        ),
        sessions: match lookup(state.sessions, link) {
            Some(session) => put(
                state.sessions,
                link,
                SessionModel { rooms: with(session.rooms, name), ..session },
            ),
            None => state.sessions,
        },
        ..state
    }
}

/// What is said when `link` has joined the room `name`: to those who were there, and to `link`.
pub open spec fn join_notes(
    hub: Hub,
    link: LinkId,
    peer: IdentityHash,
    name: Seq<char>,
    existing: Seq<LinkId>,
    nick: Option<Seq<char>>,
) -> Seq<Out> {
    Seq::new(
        existing.len(),
        |i: int| with_state(hub, existing[i], name, joined_draft(hub, name, nick, peer)),
    ).push(
        with_state(
            hub,
            link,
            name,
            own_joined_draft(hub, name, room_or_empty(hub.state, name).members),
        ),
    )
}

/// `link` joins the room `name`.
pub open spec fn entering(
    hub: Hub,
    now: Nanos,
    link: LinkId,
    peer: IdentityHash,
    name: Seq<char>,
    session: SessionModel,
    fields: FieldMap,
) -> Turn {
    let former = room_or_empty(hub.state, name);
    if session.rooms.len() >= hub.config.max_rooms_per_session && !session.rooms.contains(name) {
        failing(hub, link, Some(name), "too many rooms"@)
    } else {
        match join_refusal(former, peer, now, text_field(fields, K_BODY)) {
            Some(text) => failing(hub, link, Some(name), text),
            None => {
                let entered = Hub {
                    state: joined_state(hub.state, link, peer, name, now),
                    ..hub
                };
                let notes = join_notes(
                    entered,
                    link,
                    peer,
                    name,
                    without(former.members, link),
                    session.nick,
                );
                let summary = noticing(
                    entered,
                    link,
                    Some(name),
                    room_summary(name, room_or_empty(entered.state, name)),
                );
                if former.registered {
                    asking(
                        summary.hub,
                        notes + summary.outs,
                        Work::SaveRooms,
                        ResumeModel::Complain { link, room: name },
                    )
                } else {
                    saying(summary.hub, notes + summary.outs)
                }
            },
        }
    }
}

/// What the hub does with a JOIN.
pub open spec fn joining(
    hub: Hub,
    now: Nanos,
    link: LinkId,
    peer: IdentityHash,
    fields: FieldMap,
) -> Turn {
    let counters = hub.state.counters;
    let tried = recounted(hub, Counters { joins: counted(counters.joins, 1), ..counters });
    match text_field(fields, K_ROOM) {
        None => failing(tried, link, None, "JOIN requires room name"@),
        Some(text) => match room_name(text, hub.config.max_room_name_bytes as nat) {
            Err(error) => failing(tried, link, None, room_error_text(error)),
            Ok(name) => {
                let named = Hub {
                    state: nicked_if(
                        tried.state,
                        link,
                        carried_nick(fields, hub.config.max_nick_bytes as nat),
                    ),
                    ..tried
                };
                match lookup(named.state.sessions, link) {
                    None => idle(named),
                    Some(session) => entering(named, now, link, peer, name, session, fields),
                }
            },
        },
    }
}

/// The draft that tells of a member that has left.
pub open spec fn parted_draft(hub: Hub, name: Seq<char>, peer: IdentityHash) -> FieldMap {
    with_members(
        hub.config,
        with_field(draft(T_PARTED, hub.identity@), K_ROOM, Cbor::Text(name)),
        seq![Cbor::Bytes(peer@)],
    )
}

/// The room `name` without `link`, used at `now`.
pub open spec fn parted_rooms(
    state: StateModel,
    link: LinkId,
    name: Seq<char>,
    now: Nanos,
) -> Seq<(Seq<char>, RoomModel)> {
    match lookup(state.rooms, name) {
        Some(room) => put(
            state.rooms,
            name,
            RoomModel { members: without(room.members, link), last_used_ts: now, ..room },
        ),
        None => state.rooms,
    }
}

/// The state after `link` has left the room `name`.
pub open spec fn parted_state(
    state: StateModel,
    link: LinkId,
    name: Seq<char>,
    now: Nanos,
) -> StateModel {
    StateModel {
        sessions: match lookup(state.sessions, link) {
            Some(session) => put(
                state.sessions,
                link,
                SessionModel { rooms: without(session.rooms, name), ..session },
            ),
            None => state.sessions,
        },
        rooms: swept(parted_rooms(state, link, name, now), name),
        ..state
    }
}

/// Who is still in the room `name` once `link` has left it.
pub open spec fn stayed(state: StateModel, link: LinkId, name: Seq<char>) -> Seq<LinkId> {
    match lookup(state.rooms, name) {
        Some(room) => without(room.members, link),
        None => Seq::empty(),
    }
}

/// Whether the room `name` is registered.
pub open spec fn registered_room(state: StateModel, name: Seq<char>) -> bool {
    match lookup(state.rooms, name) {
        Some(room) => room.registered,
        None => false,
    }
}

/// What the hub does with a PART. Those who are still in the room hear of it, unless the same
/// peer is among them on another link.
pub open spec fn parting(
    hub: Hub,
    now: Nanos,
    link: LinkId,
    peer: IdentityHash,
    fields: FieldMap,
) -> Turn {
    let counters = hub.state.counters;
    let tried = recounted(hub, Counters { parts: counted(counters.parts, 1), ..counters });
    match text_field(fields, K_ROOM) {
        None => failing(tried, link, None, "PART requires room name"@),
        Some(text) => match room_name(text, hub.config.max_room_name_bytes as nat) {
            Err(error) => failing(tried, link, None, room_error_text(error)),
            Ok(name) => {
                let left = Hub { state: parted_state(tried.state, link, name, now), ..tried };
                let others = stayed(tried.state, link, name);
                let own = ParcelModel { to: seq![link], fields: parted_draft(hub, name, peer) };
                let told = ParcelModel {
                    to: others,
                    fields: with_text(
                        parted_draft(hub, name, peer),
                        K_NICK,
                        nick_on(tried.state, link),
                    ),
                };
                let outs = seq![
                    Out::Packets(
                        if peer_among(left.state.sessions, others, peer) {
                            seq![own]
                        } else {
                            seq![own, told]
                        },
                    ),
                ];
                if registered_room(left.state, name) {
                    asking(
                        left,
                        outs,
                        Work::SaveRooms,
                        ResumeModel::Complain { link, room: name },
                    )
                } else {
                    saying(left, outs)
                }
            },
        },
    }
}

/// The rooms `names` marked as used at `now`.
pub open spec fn touched(
    rooms: Seq<(Seq<char>, RoomModel)>,
    names: Seq<Seq<char>>,
    now: Nanos,
) -> Seq<(Seq<char>, RoomModel)>
    decreases names.len(),
{
    if names.len() == 0 {
        rooms
    } else {
        let before = touched(rooms, names.drop_last(), now);
        match lookup(before, names.last()) {
            Some(room) => put(before, names.last(), RoomModel { last_used_ts: now, ..room }),
            None => before,
        }
    }
}

/// Whether one of the rooms `names` is registered.
pub open spec fn touches_registered(state: StateModel, names: Seq<Seq<char>>) -> bool {
    exists|i: int| 0 <= i < names.len() && registered_room(state, #[trigger] names[i])
}

/// What those who are still in a room hear of a closed link.
pub open spec fn close_out(hub: Hub, note: PartModel) -> Option<Out> {
    match note.peer {
        Some(peer) => Some(
            Out::Packets(
                seq![
                    ParcelModel {
                        to: note.recipients,
                        fields: with_text(
                            parted_draft(hub, note.room, peer),
                            K_NICK,
                            note.nick,
                        ),
                    },
                ],
            ),
        ),
        None => None,
    }
}

/// What is said of a closed link, room by room.
pub open spec fn close_outs(hub: Hub, notes: Seq<PartModel>) -> Seq<Out>
    decreases notes.len(),
{
    if notes.len() == 0 {
        Seq::empty()
    } else {
        match close_out(hub, notes.last()) {
            Some(out) => close_outs(hub, notes.drop_last()).push(out),
            None => close_outs(hub, notes.drop_last()),
        }
    }
}

/// The rooms of the session on `link`.
pub open spec fn rooms_on(state: StateModel, link: LinkId) -> Seq<Seq<char>> {
    match lookup(state.sessions, link) {
        Some(session) => session.rooms,
        None => Seq::empty(),
    }
}

/// What the hub does when `link` has closed.
pub open spec fn closing(hub: Hub, now: Nanos, link: LinkId) -> Turn {
    let names = rooms_on(hub.state, link);
    let used = StateModel { rooms: touched(hub.state.rooms, names, now), ..hub.state };
    let gone = Hub {
        state: closed(used, link),
        expected: dropped(hub.expected, link),
        ..hub
    };
    let outs = close_outs(hub, close_notes(used, link));
    if touches_registered(hub.state, names) {
        asking(gone, outs, Work::SaveRooms, ResumeModel::Quiet)
    } else {
        saying(gone, outs)
    }
}

impl Room {
    /// Why `peer` may not join the room, if it may not.
    fn join_refusal(&self, peer: &IdentityHash, now: Nanos, key: Option<&str>) -> (result: Option<
        String,
    >)
        ensures
            result.model() == join_refusal(
                self.model(),
                *peer,
                now,
                crate::outgoing::text_view(key),
            ),
    {
        let admitted = self.is_operator(peer) || self.is_invited(peer, now);
        if self.banned.contains(peer) {
            return Some(String::from_str("banned from room"));
        }
        if self.invite_only && !admitted {
            return Some(String::from_str("invite-only (+i)"));
        }
        if let Some(own) = &self.key {
            if !admitted {
                let fits = match key {
                    Some(key) => same_text(key, own.as_str()),
                    None => false,
                };
                if !fits {
                    return Some(String::from_str("bad key (+k)"));
                }
            }
        }
        None
    }

    /// Lets `link` of `peer` in.
    fn let_in(&mut self, link: LinkId, peer: IdentityHash, now: Nanos)
        ensures
            final(self).model() == joined_room(old(self).model(), link, peer, now),
    {
        if self.members.len() == 0 && self.founder.is_none() {
            self.founder = Some(peer);
        }
        self.last_used_ts = now;
        self.members.insert(link);
        self.invited.remove(&peer);
    }
}

/// One byte string in an array.
fn one_member(peer: &IdentityHash) -> (result: Datum)
    ensures
        result.tree() == Cbor::Array(seq![Cbor::Bytes(peer@)]),
{
    let mut members: Vec<Datum> = Vec::new();
    members.push(Datum::Bytes(crate::cbor::copy_bytes(peer.as_slice())));
    proof {
        lemma_array_tree(members);
        assert(trees(members@) =~= seq![Cbor::Bytes(peer@)]);
    }
    Datum::Array(members)
}

impl HubState {
    /// The identities of the peers on the links, as an array.
    fn members_datum(&self, links: &Vec<LinkId>) -> (result: Datum)
        ensures
            result.tree() == Cbor::Array(peers_on(self.sessions.model(), links@)),
    {
        let mut members: Vec<Datum> = Vec::new();
        let mut i: usize = 0;
        assert(trees(members@) =~= Seq::empty());
        while i < links.len()
            invariant
                i <= links@.len(),
                trees(members@) == peers_on(self.sessions.model(), links@.take(i as int)),
            decreases links@.len() - i,
        {
            assert(links@.take(i + 1).drop_last() == links@.take(i as int));
            if let Some(session) = self.sessions.get(&links[i]) {
                if let Some(peer) = session.peer {
                    let ghost before = trees(members@);
                    members.push(Datum::Bytes(crate::cbor::copy_bytes(peer.as_slice())));
                    assert(trees(members@) =~= before.push(Cbor::Bytes(peer@)));
                }
            }
            i += 1;
        }
        proof {
            lemma_array_tree(members);
        }
        Datum::Array(members)
    }
}

/// The nickname that an envelope carries, where it is valid.
pub(crate) fn read_nick(envelope: &Envelope, max_bytes: usize) -> (result: Option<String>)
    ensures
        result.model() == carried_nick(envelope.fields.map(), max_bytes as nat),
{
    match envelope.text(K_NICK) {
        Some(text) => normalize_nick(text, max_bytes),
        None => None,
    }
}

fn read_hello_nick(envelope: &Envelope, max_bytes: usize) -> (result: Option<String>)
    ensures
        result.model() == hello_nick(envelope.fields.map(), max_bytes as nat),
{
    match envelope.text(K_NICK) {
        Some(text) => normalize_nick(text, max_bytes),
        None => match envelope.map(K_BODY) {
            Some(body) => match map_get(body, B_HELLO_NICK_LEGACY) {
                Some(Datum::Text(text)) => normalize_nick(text.as_str(), max_bytes),
                _ => None,
            },
            None => None,
        },
    }
}

fn read_caps(envelope: &Envelope) -> (result: Option<Capabilities>)
    ensures
        result.model() == hello_caps(envelope.fields.map()),
{
    match envelope.map(K_BODY) {
        Some(body) => match map_get(body, B_HELLO_CAPS) {
            Some(Datum::Fields(caps)) => Some(Capabilities::read(caps)),
            _ => None,
        },
        None => None,
    }
}

/// What a new member is told of the room.
fn summarize(name: &String, room: &Room) -> (result: String)
    ensures
        result@ == room_summary(name@, room.model()),
{
    let mut text = String::from_str("room ");
    text.append(name.as_str());
    text.append(": ");
    text.append(
        if room.registered {
            "registered"
        } else {
            "unregistered"
        },
    );
    text.append("; mode=");
    text.append(mode_string(room).as_str());
    text.append("; topic=");
    match &room.topic {
        Some(topic) => text.append(topic.as_str()),
        None => text.append("(none)"),
    }
    text
}

impl Router {
    fn welcome_fields(&self) -> (result: Fields)
        ensures
            result.map() == welcome_draft(self.model()),
    {
        let mut limits = Fields::new();
        limits.set(0, Datum::Integer(self.config.max_nick_bytes as i128));
        limits.set(1, Datum::Integer(self.config.max_room_name_bytes as i128));
        limits.set(2, Datum::Integer(self.config.max_msg_body_bytes as i128));
        limits.set(3, Datum::Integer(self.config.max_rooms_per_session as i128));
        limits.set(4, Datum::Integer(self.config.rate_limit_msgs_per_minute as i128));
        let mut caps = Fields::new();
        caps.set(CAP_ACTION, Datum::Bool(true));
        caps.set(CAP_DIRECT_NOTICE, Datum::Bool(true));
        caps.set(self.extensions.room_state, Datum::Bool(true));
        caps.set(self.extensions.user_list, Datum::Bool(true));
        if self.config.enable_resource_transfer {
            caps.set(CAP_RESOURCE_ENVELOPE, Datum::Bool(true));
        }
        let mut body = Fields::new();
        body.set(B_WELCOME_HUB, Datum::Text(self.config.hub_name.clone()));
        body.set(B_WELCOME_VER, Datum::Text(String::from_str(SOFTWARE_VERSION)));
        body.set(B_WELCOME_CAPS, Datum::Fields(caps));
        body.set(B_WELCOME_LIMITS, Datum::Fields(limits));
        let mut fields = new_draft(T_WELCOME, self.hub_identity.as_slice());
        fields.set(K_BODY, Datum::Fields(body));
        fields
    }

    /// Handles the first envelope of a client, and every HELLO.
    pub(crate) fn hello(&mut self, link: LinkId, envelope: &Envelope) -> (result: Reply)
        ensures
            turn(final(self).model(), result) == greeting(
                old(self).model(),
                link,
                envelope.fields.map(),
            ),
    {
        let is_hello = match envelope.integer(K_T) {
            Some(kind) => kind == T_HELLO,
            None => false,
        };
        if !is_hello {
            return self.refuse(link, None, "send HELLO first");
        }
        let nick = read_hello_nick(envelope, self.config.max_nick_bytes);
        if nick.is_some() {
            self.state.set_nick(link, nick);
        }
        let caps = read_caps(envelope);
        if let Some(session) = self.state.sessions.get_mut(&link) {
            session.welcomed = true;
            if let Some(caps) = caps {
                session.peer_caps = caps;
            }
        }
        let mut outs: Vec<Outgoing> = Vec::new();
        outs.push(to_one(link, self.welcome_fields()));
        assert(models(outs@) =~= seq![single(link, welcome_draft(self.model()))]);
        let text = self.config.greeting.duplicate();
        if let Some(text) = text {
            let mut more = self.resource_text_actions(
                link,
                self.hub_identity,
                None,
                None,
                "motd",
                text.as_str(),
            );
            outs.append(&mut more);
        }
        only(outs)
    }
}

impl Router {
    /// What is said when `link` has joined a room.
    fn join_notices(
        &self,
        link: LinkId,
        peer: IdentityHash,
        room_name: &String,
        existing: &Vec<LinkId>,
        nick: &Option<String>,
    ) -> (result: Vec<Outgoing>)
        ensures
            models(result@) == join_notes(
                self.model(),
                link,
                peer,
                room_name@,
                existing@,
                nick.model(),
            ),
    {
        let ghost all = join_notes(
            self.model(),
            link,
            peer,
            room_name@,
            existing@,
            nick.model(),
        );
        let mut outs: Vec<Outgoing> = Vec::new();
        let mut i: usize = 0;
        assert(models(outs@) =~= all.take(0));
        while i < existing.len()
            invariant
                i <= existing@.len(),
                all == join_notes(
                    self.model(),
                    link,
                    peer,
                    room_name@,
                    existing@,
                    nick.model(),
                ),
                models(outs@) == all.take(i as int),
            decreases existing@.len() - i,
        {
            let mut fields = new_draft(T_JOINED, self.hub_identity.as_slice());
            fields.set(K_ROOM, Datum::Text(room_name.clone()));
            set_text(&mut fields, K_NICK, borrowed(nick));
            if self.config.include_joined_member_list {
                fields.set(K_BODY, one_member(&peer));
            }
            outs.push(self.send_with_state(existing[i], room_name, fields));
            i += 1;
            assert(models(outs@) =~= all.take(i as int));
        }
        let mut fields = new_draft(T_JOINED, self.hub_identity.as_slice());
        fields.set(K_ROOM, Datum::Text(room_name.clone()));
        if self.config.include_joined_member_list {
            let members = self.room_members(room_name);
            fields.set(K_BODY, self.state.members_datum(&members));
        }
        outs.push(self.send_with_state(link, room_name, fields));
        assert(models(outs@) =~= all);
        outs
    }

    /// Handles a JOIN.
    pub(crate) fn join(
        &mut self,
        now: Nanos,
        link: LinkId,
        peer: IdentityHash,
        envelope: &Envelope,
    ) -> (result: Reply)
        ensures
            turn(final(self).model(), result) == joining(
                old(self).model(),
                now,
                link,
                peer,
                envelope.fields.map(),
            ),
    {
        self.state.counters.joins = count(self.state.counters.joins, 1);
        let room_name = match envelope.text(K_ROOM) {
            None => return self.refuse(link, None, "JOIN requires room name"),
            Some(text) => match self.state.normalize_room(text, &self.config) {
                Ok(name) => name,
                Err(error) => return self.refuse(link, None, error.message().as_str()),
            },
        };
        let nick = read_nick(envelope, self.config.max_nick_bytes);
        if nick.is_some() {
            self.state.set_nick(link, nick);
        }
        self.enter(now, link, peer, &room_name, envelope)
    }

    /// Lets `link` into a room, or says why it may not join.
    fn enter(
        &mut self,
        now: Nanos,
        link: LinkId,
        peer: IdentityHash,
        room_name: &String,
        envelope: &Envelope,
    ) -> (result: Reply)
        ensures
            turn(final(self).model(), result) == match lookup(
                old(self).model().state.sessions,
                link,
            ) {
                Some(session) => entering(
                    old(self).model(),
                    now,
                    link,
                    peer,
                    room_name@,
                    session,
                    envelope.fields.map(),
                ),
                None => idle(old(self).model()),
            },
    {
        let ghost start = self.model();
        let (too_many, nick) = match self.state.sessions.get(&link) {
            Some(session) => (
                session.rooms.len() >= self.config.max_rooms_per_session
                    && !session.rooms.contains(room_name),
                session.nick.duplicate(),
            ),
            None => return nothing(),
        };
        if too_many {
            return self.refuse(link, Some(room_name.as_str()), "too many rooms");
        }
        let refusal = match self.state.rooms.get(room_name) {
            Some(room) => room.join_refusal(&peer, now, envelope.text(K_BODY)),
            None => None,
        };
        if let Some(text) = refusal {
            return self.refuse(link, Some(room_name.as_str()), text.as_str());
        }
        if !self.state.rooms.contains_key(room_name) {
            self.state.rooms.insert(room_name.clone(), Room::default());
        }
        let mut existing: Vec<LinkId> = Vec::new();
        let mut registered = false;
        let mut summary = String::new();
        if let Some(room) = self.state.rooms.get_mut(room_name) {
            existing = room.other_members(&link);
            registered = room.registered;
            room.let_in(link, peer, now);
            summary = summarize(room_name, room);
        }
        if let Some(session) = self.state.sessions.get_mut(&link) {
            session.rooms.insert(room_name.clone());
        }
        assert(self.model() == (Hub {
            state: joined_state(start.state, link, peer, room_name@, now),
            ..start
        }));
        let mut outs = self.join_notices(link, peer, room_name, &existing, &nick);
        let mut more = self.notice(link, Some(room_name.as_str()), summary.as_str());
        outs.append(&mut more);
        if registered {
            ask(outs, Work::SaveRooms, Resume::Complain { link, room: room_name.clone() })
        } else {
            only(outs)
        }
    }

    /// Handles a PART.
    pub(crate) fn part(
        &mut self,
        now: Nanos,
        link: LinkId,
        peer: IdentityHash,
        envelope: &Envelope,
    ) -> (result: Reply)
        ensures
            turn(final(self).model(), result) == parting(
                old(self).model(),
                now,
                link,
                peer,
                envelope.fields.map(),
            ),
    {
        self.state.counters.parts = count(self.state.counters.parts, 1);
        let room_name = match envelope.text(K_ROOM) {
            None => return self.refuse(link, None, "PART requires room name"),
            Some(text) => match self.state.normalize_room(text, &self.config) {
                Ok(name) => name,
                Err(error) => return self.refuse(link, None, error.message().as_str()),
            },
        };
        let (nick, recipients) = self.leave(now, &link, &room_name);
        let still_there = self.state.has_peer_among(&recipients, &peer);
        let mut own_link: Vec<LinkId> = Vec::new();
        own_link.push(link);
        assert(own_link@ =~= seq![link]);
        let own = Parcel { to: own_link, fields: self.parted_fields(&room_name, &peer) };
        let mut parcels: Vec<Parcel> = Vec::new();
        parcels.push(own);
        assert(models(parcels@) =~= seq![own.model()]);
        if !still_there {
            let mut fields = self.parted_fields(&room_name, &peer);
            set_text(&mut fields, K_NICK, borrowed(&nick));
            let told = Parcel { to: recipients, fields };
            parcels.push(told);
            assert(models(parcels@) =~= seq![own.model(), told.model()]);
        }
        let mut outs: Vec<Outgoing> = Vec::new();
        outs.push(Outgoing::Packets(parcels));
        assert(models(outs@) =~= seq![Out::Packets(models(parcels@))]);
        let registered = match self.state.rooms.get(&room_name) {
            Some(room) => room.registered,
            None => false,
        };
        if registered {
            ask(outs, Work::SaveRooms, Resume::Complain { link, room: room_name })
        } else {
            only(outs)
        }
    }

    /// Takes `link` out of a room. Gives its nickname and those who are still there.
    fn leave(&mut self, now: Nanos, link: &LinkId, room_name: &String) -> (result: (
        Option<String>,
        Vec<LinkId>,
    ))
        ensures
            final(self).model() == (Hub {
                state: parted_state(old(self).model().state, *link, room_name@, now),
                ..old(self).model()
            }),
            result.0.model() == nick_on(old(self).model().state, *link),
            result.1@ == stayed(old(self).model().state, *link, room_name@),
    {
        let mut nick: Option<String> = None;
        if let Some(session) = self.state.sessions.get_mut(link) {
            session.rooms.remove(room_name);
            nick = session.nick.duplicate();
        }
        let mut recipients: Vec<LinkId> = Vec::new();
        if let Some(room) = self.state.rooms.get_mut(room_name) {
            room.members.remove(link);
            room.last_used_ts = now;
            recipients = room.members.to_links();
        }
        self.state.remove_ephemeral_room_if_empty(room_name);
        (nick, recipients)
    }

    fn parted_fields(&self, room_name: &String, peer: &IdentityHash) -> (result: Fields)
        ensures
            result.map() == parted_draft(self.model(), room_name@, *peer),
    {
        let mut fields = new_draft(T_PARTED, self.hub_identity.as_slice());
        fields.set(K_ROOM, Datum::Text(room_name.clone()));
        if self.config.include_joined_member_list {
            fields.set(K_BODY, one_member(peer));
        }
        fields
    }

    /// Marks the rooms of `link` as used, and says whether one of them is registered.
    fn touch_rooms(&mut self, link: &LinkId, now: Nanos) -> (result: bool)
        ensures
            final(self).model() == (Hub {
                state: StateModel {
                    rooms: touched(
                        old(self).model().state.rooms,
                        rooms_on(old(self).model().state, *link),
                        now,
                    ),
                    ..old(self).model().state
                },
                ..old(self).model()
            }),
            result == touches_registered(
                old(self).model().state,
                rooms_on(old(self).model().state, *link),
            ),
    {
        let ghost start = self.model();
        let rooms = match self.state.sessions.get(link) {
            Some(session) => session.rooms.to_vec(),
            None => Vec::new(),
        };
        let ghost names = models(rooms@);
        assert(names == rooms_on(start.state, *link));
        let mut registered = false;
        let mut i: usize = 0;
        while i < rooms.len()
            invariant
                i <= rooms@.len(),
                names == models(rooms@),
                self.model() == (Hub {
                    state: StateModel {
                        rooms: touched(start.state.rooms, names.take(i as int), now),
                        ..start.state
                    },
                    ..start
                }),
                registered == touches_registered(start.state, names.take(i as int)),
            decreases rooms@.len() - i,
        {
            let ghost before = names.take(i as int);
            let ghost next = names.take(i + 1);
            assert(next.drop_last() == before);
            proof {
                lemma_touched(start.state.rooms, before, now, names[i as int]);
                assert(touches_registered(start.state, next) == (touches_registered(
                    start.state,
                    before,
                ) || registered_room(start.state, names[i as int]))) by {
                    if touches_registered(start.state, before) {
                        let j = choose|j: int|
                            0 <= j < before.len() && registered_room(
                                start.state,
                                #[trigger] before[j],
                            );
                        assert(registered_room(start.state, next[j]));
                    }
                    if registered_room(start.state, names[i as int]) {
                        assert(registered_room(start.state, next[i as int]));
                    }
                    if touches_registered(start.state, next) {
                        let j = choose|j: int|
                            0 <= j < next.len() && registered_room(
                                start.state,
                                #[trigger] next[j],
                            );
                        if j < i {
                            assert(registered_room(start.state, before[j]));
                        }
                    }
                }
            }
            if let Some(room) = self.state.rooms.get_mut(&rooms[i]) {
                room.last_used_ts = now;
                registered = registered || room.registered;
            }
            i += 1;
        }
        registered
    }

    /// Handles a closed link.
    pub(crate) fn close_link(&mut self, now: Nanos, link: LinkId) -> (result: Reply)
        ensures
            turn(final(self).model(), result) == closing(old(self).model(), now, link),
    {
        let ghost start = self.model();
        self.pending_resources.remove(&link);
        let registered = self.touch_rooms(&link, now);
        let notes = self.state.close(link);
        let ghost all = models(notes@);
        let mut outs: Vec<Outgoing> = Vec::new();
        let mut i: usize = 0;
        while i < notes.len()
            invariant
                i <= notes@.len(),
                all == models(notes@),
                self.config.model() == start.config,
                self.hub_identity == start.identity,
                models(outs@) == close_outs(start, all.take(i as int)),
            decreases notes@.len() - i,
        {
            assert(all.take(i + 1).drop_last() == all.take(i as int));
            let note = &notes[i];
            if let Some(peer) = note.2 {
                let mut fields = self.parted_fields(&note.0, &peer);
                set_text(&mut fields, K_NICK, borrowed(&note.3));
                let parcel = Parcel { to: copy_links(&note.1), fields };
                let mut parcels: Vec<Parcel> = Vec::new();
                parcels.push(parcel);
                assert(models(parcels@) =~= seq![parcel.model()]);
                outs.push(Outgoing::Packets(parcels));
            }
            i += 1;
        }
        if registered {
            ask(outs, Work::SaveRooms, Resume::Quiet)
        } else {
            only(outs)
        }
    }
}

impl Room {
    /// The members other than `link`.
    fn other_members(&self, link: &LinkId) -> (result: Vec<LinkId>)
        ensures
            result@ == without(self.model().members, *link),
    {
        let mut others = self.members.duplicate();
        others.remove(link);
        others.to_links()
    }
}

/// Marking rooms as used leaves their names and their registration as they are.
pub proof fn lemma_touched(
    rooms: Seq<(Seq<char>, RoomModel)>,
    names: Seq<Seq<char>>,
    now: Nanos,
    name: Seq<char>,
)
    ensures
        holds(touched(rooms, names, now), name) == holds(rooms, name),
        holds(rooms, name) ==> ({
            let before = crate::collections::at(rooms, name);
            let after = crate::collections::at(touched(rooms, names, now), name);
            &&& after == (RoomModel { last_used_ts: after.last_used_ts, ..before })
            &&& after.last_used_ts == before.last_used_ts || after.last_used_ts == now
        }),
    decreases names.len(),
{
    if names.len() > 0 {
        lemma_touched(rooms, names.drop_last(), now, name);
        lemma_touched(rooms, names.drop_last(), now, names.last());
    }
}

} // verus!
