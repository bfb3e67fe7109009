//! Every envelope that leaves the hub is valid, can be written, and carries as its source either
//! the hub's own identity or the identity of the link that it came from.

use crate::cbor::{in_range, key_writable, lemma_scalar, scalar, writable, Cbor, CborKey};
use crate::clock::{Clock, Nanos};
use crate::collections::{at, group_collections, group_sequences, holds, lookup, without};
use crate::constants::{
    K_BODY, K_DST, K_ID, K_NICK, K_ROOM, K_SRC, K_T, K_TS, K_V, T_ERROR, T_HELLO, T_JOINED,
    T_NOTICE, T_PARTED, T_PING, T_PONG, VERSION,
};
use crate::outgoing::{draft, single, stamped, Out, ParcelModel};
use crate::protocol::{
    bytes_field, decoded, encoded, field, flaw, integer_field, text_field, unsigned_keys,
    with_field, with_text, EnvelopeError, FieldMap,
};
use crate::router::access::accessing;
use crate::router::admin::{banning, reload_summary, reloaded};
use crate::router::commands::{command_name, command_words, commanding, running};
use crate::router::directory::{listing_users, users_draft, users_in, users_text};
use crate::router::liveness::{closes, pings, pruning, ticking};
use crate::router::membership::{
    carried_nick, close_outs, closing, entering, greeting, hello_nick, join_notes, joined_draft,
    joined_state, joining, nicked_if, own_joined_draft, parted_draft, parting, peers_on,
    room_or_empty, room_summary, rooms_on, touched, welcome_body, welcome_caps, welcome_draft,
    welcome_limits, welcomed, with_members,
};
use crate::router::messages::{
    is_command, passed_fields, passed_hub, passed_nick, passing, passing_direct, passing_room,
    watching,
};
use crate::router::moderation::{kicking, registering, setting_member, setting_mode, setting_topic};
use crate::router::resources::{
    announcing_resource, awaited, fitting_index, passing_text, received, receiving, rejecting,
    telling_all, text_kind,
};
use crate::router::rooms::{
    announcing, announcing_in, members_of, renaming, room_draft, shown, stating, with_state,
};
use crate::router::{
    after_success, answering, closing_all, error_draft, failing, following, handling, noticing,
    packet_counted, pong_draft, reading, resuming, telling, text_draft, Hub, OutcomeModel,
    PendingModel, ResumeModel, Turn,
};
use crate::state::{nick_on, token_taken, IdentityHash, LinkId, PartModel, SessionModel, StateModel};
use crate::text::{byte_len, chunks};
use super::turns::{asks, fine, law_running_is_fine};
use vstd::prelude::*;

verus! {

broadcast use {group_collections, group_sequences};

/// Whether an envelope is valid but for its identifier and its time, can be written, and carries
/// the source.
pub open spec fn proper(fields: FieldMap, source: IdentityHash) -> bool {
    &&& unsigned_keys(fields)
    &&& integer_field(fields, K_V) == Some(VERSION)
    &&& integer_field(fields, K_T) is Some
    &&& field(fields, K_SRC) == Some(Cbor::Bytes(source@))
    &&& field(fields, K_ROOM) is Some ==> text_field(fields, K_ROOM) is Some
    &&& field(fields, K_NICK) is Some ==> text_field(fields, K_NICK) is Some
    &&& field(fields, K_DST) is Some ==> bytes_field(fields, K_DST) is Some
    &&& writable(Cbor::Fields(fields))
}

/// Whether what is said consists of proper envelopes of the source, none of them passed on for a
/// client.
#[verifier::opaque]
pub open spec fn from(out: Out, source: IdentityHash) -> bool {
    &&& out is Packets ==> forall|i: int|
        0 <= i < out->Packets_0.len() ==> proper((#[trigger] out->Packets_0[i]).fields, source)
    &&& !(out is Forward)
    &&& out is Extended ==> proper(out->Extended_1, source)
    &&& out is Offer ==> out->Offer_0.source == source
}

/// Whether everything that is said is of the source.
pub open spec fn all_from(outs: Seq<Out>, source: IdentityHash) -> bool {
    forall|i: int| 0 <= i < outs.len() ==> from(#[trigger] outs[i], source)
}

proof fn lemma_writable_with(fields: FieldMap, key: i128, value: Cbor)
    requires
        writable(Cbor::Fields(fields)),
        in_range(key as int),
        writable(value),
    ensures
        writable(Cbor::Fields(with_field(fields, key, value))),
{
    let after = with_field(fields, key, value);
    assert forall|other: CborKey| #[trigger] after.dom().contains(other) implies key_writable(other)
        && writable(after[other]) by {
        if other != CborKey::Integer(key as int) {
            assert(Cbor::Fields(fields)->Fields_0.dom().contains(other));
        }
    }
}

proof fn lemma_writable_empty()
    ensures
        writable(Cbor::Fields(Map::empty())),
{
}

proof fn lemma_writable_scalar(value: Cbor)
    requires
        scalar(value),
    ensures
        writable(value),
{
    lemma_scalar(value, 0);
}

proof fn lemma_proper_draft(kind: u64, source: IdentityHash)
    ensures
        proper(draft(kind, source@), source),
{
    lemma_writable_empty();
    lemma_writable_scalar(Cbor::Integer(VERSION as int));
    lemma_writable_scalar(Cbor::Integer(kind as int));
    lemma_writable_scalar(Cbor::Bytes(source@));
    let first = with_field(Map::empty(), K_V, Cbor::Integer(VERSION as int));
    lemma_writable_with(Map::empty(), K_V, Cbor::Integer(VERSION as int));
    let second = with_field(first, K_T, Cbor::Integer(kind as int));
    lemma_writable_with(first, K_T, Cbor::Integer(kind as int));
    lemma_writable_with(second, K_SRC, Cbor::Bytes(source@));
}

proof fn lemma_proper_text(
    fields: FieldMap,
    key: i128,
    text: Option<Seq<char>>,
    source: IdentityHash,
)
    requires
        proper(fields, source),
        key == K_ROOM || key == K_NICK || key == K_BODY,
    ensures
        proper(with_text(fields, key, text), source),
{
    match text {
        Some(text) => {
            lemma_writable_scalar(Cbor::Text(text));
            lemma_writable_with(fields, key, Cbor::Text(text));
        },
        None => {},
    }
}

proof fn lemma_proper_body(fields: FieldMap, body: Cbor, source: IdentityHash)
    requires
        proper(fields, source),
        writable(body),
    ensures
        proper(with_field(fields, K_BODY, body), source),
{
    lemma_writable_with(fields, K_BODY, body);
}

/// An envelope that the hub drafts is valid once it has an identifier and a time, and can be
/// written.
pub proof fn law_proper_is_sent(
    fields: FieldMap,
    source: IdentityHash,
    id: Seq<u8>,
    millis: int,
)
    requires
        proper(fields, source),
        0 <= millis <= u64::MAX,
    ensures
        flaw(stamped(fields, id, millis)) is None,
        encoded(stamped(fields, id, millis)) is Ok,
{
    lemma_writable_scalar(Cbor::Bytes(id));
    lemma_writable_scalar(Cbor::Integer(millis));
    lemma_writable_with(fields, K_ID, Cbor::Bytes(id));
    lemma_writable_with(
        with_field(fields, K_ID, Cbor::Bytes(id)),
        K_TS,
        Cbor::Integer(millis),
    );
}

/// An envelope may carry further keys, as long as they are unsigned: a valid envelope stays valid
/// with one.
pub proof fn law_extension_keys_are_accepted(fields: FieldMap, key: i128, value: Cbor)
    requires
        flaw(fields) is None,
        key > K_DST || key == K_BODY,
    ensures
        flaw(with_field(fields, key, value)) is None,
{
}

/// An envelope with a key that is no unsigned integer is refused, whatever else it holds.
pub proof fn law_other_keys_are_refused(fields: FieldMap, key: CborKey)
    requires
        fields.dom().contains(key),
        !(key is Integer) || key->Integer_0 < 0,
    ensures
        flaw(fields) == Some(EnvelopeError::BadKey),
{
}

proof fn lemma_single(link: LinkId, fields: FieldMap, source: IdentityHash)
    requires
        proper(fields, source),
    ensures
        from(single(link, fields), source),
{
    reveal(from);
}

proof fn lemma_failing(hub: Hub, link: LinkId, room: Option<Seq<char>>, text: Seq<char>)
    ensures
        all_from(failing(hub, link, room, text).outs, hub.identity),
{
    lemma_proper_draft(T_ERROR, hub.identity);
    let drafted = draft(T_ERROR, hub.identity@);
    lemma_proper_text(drafted, K_ROOM, room, hub.identity);
    lemma_writable_scalar(Cbor::Text(text));
    lemma_proper_body(with_text(drafted, K_ROOM, room), Cbor::Text(text), hub.identity);
    lemma_single(link, error_draft(hub, room, text), hub.identity);
}

proof fn lemma_text_draft(
    source: IdentityHash,
    nick: Option<Seq<char>>,
    room: Option<Seq<char>>,
    kind: Seq<char>,
    text: Seq<char>,
)
    ensures
        proper(text_draft(source, nick, room, kind, text), source),
{
    let drafted = draft(crate::router::kind_type(kind), source@);
    lemma_proper_draft(crate::router::kind_type(kind), source);
    lemma_proper_text(drafted, K_ROOM, room, source);
    lemma_proper_text(with_text(drafted, K_ROOM, room), K_NICK, nick, source);
    lemma_writable_scalar(Cbor::Text(text));
    lemma_proper_body(
        with_text(with_text(drafted, K_ROOM, room), K_NICK, nick),
        Cbor::Text(text),
        source,
    );
}

proof fn lemma_telling(
    hub: Hub,
    link: LinkId,
    source: IdentityHash,
    nick: Option<Seq<char>>,
    room: Option<Seq<char>>,
    kind: Seq<char>,
    text: Seq<char>,
)
    ensures
        all_from(telling(hub, link, source, nick, room, kind, text).outs, source),
        telling(hub, link, source, nick, room, kind, text).hub.identity == hub.identity,
{
    let done = telling(hub, link, source, nick, room, kind, text);
    assert forall|i: int| 0 <= i < done.outs.len() implies from(#[trigger] done.outs[i], source) by {
        if byte_len(text) <= 512 {
            lemma_text_draft(source, nick, room, kind, text);
            lemma_single(link, text_draft(source, nick, room, kind, text), source);
        } else if !hub.config.enable_resource_transfer || byte_len(text)
            > hub.config.max_resource_bytes {
            let part = chunks(text, 300)[i];
            lemma_text_draft(source, nick, room, kind, part);
            lemma_single(link, text_draft(source, nick, room, kind, part), source);
        } else {
            reveal(from);
        }
    }
}

proof fn lemma_noticing(hub: Hub, link: LinkId, room: Option<Seq<char>>, text: Seq<char>)
    ensures
        all_from(noticing(hub, link, room, text).outs, hub.identity),
        noticing(hub, link, room, text).hub.identity == hub.identity,
{
    lemma_telling(hub, link, hub.identity, None, room, "notice"@, text);
}

proof fn lemma_announcing(hub: Hub, name: Seq<char>, to: Seq<LinkId>, text: Seq<char>)
    ensures
        all_from(announcing(hub, name, to, text).outs, hub.identity),
        announcing(hub, name, to, text).hub.identity == hub.identity,
    decreases to.len(),
{
    if to.len() > 0 {
        lemma_announcing(hub, name, to.drop_last(), text);
        let before = announcing(hub, name, to.drop_last(), text);
        lemma_noticing(before.hub, to.last(), Some(name), text);
    }
}

proof fn lemma_announcing_in(hub: Hub, names: Seq<Seq<char>>, text: Seq<char>)
    ensures
        all_from(announcing_in(hub, names, text).outs, hub.identity),
        announcing_in(hub, names, text).hub.identity == hub.identity,
    decreases names.len(),
{
    if names.len() > 0 {
        lemma_announcing_in(hub, names.drop_last(), text);
        let before = announcing_in(hub, names.drop_last(), text);
        lemma_announcing(
            before.hub,
            names.last(),
            members_of(before.hub.state, names.last()),
            text,
        );
    }
}

pub proof fn lemma_renaming(
    hub: Hub,
    link: LinkId,
    peer: IdentityHash,
    previous: Option<Seq<char>>,
)
    ensures
        all_from(renaming(hub, link, peer, previous).outs, hub.identity),
        renaming(hub, link, peer, previous).hub.identity == hub.identity,
{
    match lookup(hub.state.sessions, link) {
        None => {},
        Some(session) => {
            if session.nick != previous {
                lemma_announcing_in(
                    hub,
                    session.rooms,
                    "nick changed: "@ + shown(previous, peer) + " -> "@ + shown(
                        session.nick,
                        peer,
                    ),
                );
            }
        },
    }
}

proof fn lemma_with_state(hub: Hub, link: LinkId, name: Seq<char>, fields: FieldMap)
    requires
        proper(fields, hub.identity),
    ensures
        from(with_state(hub, link, name, fields), hub.identity),
{
    lemma_single(link, fields, hub.identity);
    reveal(from);
}

proof fn lemma_stating(hub: Hub, name: Seq<char>, to: Seq<LinkId>, text: Seq<char>)
    ensures
        all_from(stating(hub, name, to, text), hub.identity),
{
    let drafted = draft(T_NOTICE, hub.identity@);
    lemma_proper_draft(T_NOTICE, hub.identity);
    lemma_proper_text(drafted, K_ROOM, Some(name), hub.identity);
    lemma_writable_scalar(Cbor::Text(text));
    lemma_proper_body(
        with_text(drafted, K_ROOM, Some(name)),
        Cbor::Text(text),
        hub.identity,
    );
    let outs = stating(hub, name, to, text);
    assert forall|i: int| 0 <= i < outs.len() implies from(#[trigger] outs[i], hub.identity) by {
        lemma_with_state(hub, to[i], name, room_draft(hub, name, text));
    }
}

proof fn lemma_welcome(hub: Hub)
    requires
        in_range(hub.extensions.room_state as int),
        in_range(hub.extensions.user_list as int),
    ensures
        proper(welcome_draft(hub), hub.identity),
{
    lemma_writable_empty();
    let config = hub.config;
    lemma_writable_scalar(Cbor::Integer(config.max_nick_bytes as int));
    lemma_writable_scalar(Cbor::Integer(config.max_room_name_bytes as int));
    lemma_writable_scalar(Cbor::Integer(config.max_msg_body_bytes as int));
    lemma_writable_scalar(Cbor::Integer(config.max_rooms_per_session as int));
    lemma_writable_scalar(Cbor::Integer(config.rate_limit_msgs_per_minute as int));
    let l0 = with_field(Map::empty(), 0, Cbor::Integer(config.max_nick_bytes as int));
    lemma_writable_with(Map::empty(), 0, Cbor::Integer(config.max_nick_bytes as int));
    let l1 = with_field(l0, 1, Cbor::Integer(config.max_room_name_bytes as int));
    lemma_writable_with(l0, 1, Cbor::Integer(config.max_room_name_bytes as int));
    let l2 = with_field(l1, 2, Cbor::Integer(config.max_msg_body_bytes as int));
    lemma_writable_with(l1, 2, Cbor::Integer(config.max_msg_body_bytes as int));
    let l3 = with_field(l2, 3, Cbor::Integer(config.max_rooms_per_session as int));
    lemma_writable_with(l2, 3, Cbor::Integer(config.max_rooms_per_session as int));
    lemma_writable_with(l3, 4, Cbor::Integer(config.rate_limit_msgs_per_minute as int));
    lemma_writable_scalar(Cbor::Bool(true));
    let c0 = with_field(Map::empty(), crate::constants::CAP_ACTION, Cbor::Bool(true));
    lemma_writable_with(Map::empty(), crate::constants::CAP_ACTION, Cbor::Bool(true));
    let c1 = with_field(c0, crate::constants::CAP_DIRECT_NOTICE, Cbor::Bool(true));
    lemma_writable_with(c0, crate::constants::CAP_DIRECT_NOTICE, Cbor::Bool(true));
    let c2 = with_field(c1, hub.extensions.room_state, Cbor::Bool(true));
    lemma_writable_with(c1, hub.extensions.room_state, Cbor::Bool(true));
    let c3 = with_field(c2, hub.extensions.user_list, Cbor::Bool(true));
    lemma_writable_with(c2, hub.extensions.user_list, Cbor::Bool(true));
    lemma_writable_with(c3, crate::constants::CAP_RESOURCE_ENVELOPE, Cbor::Bool(true));
    assert(writable(Cbor::Fields(welcome_limits(config))));
    assert(writable(Cbor::Fields(welcome_caps(hub))));
    lemma_welcome_body(hub);
    lemma_proper_draft(crate::constants::T_WELCOME, hub.identity);
    lemma_proper_body(
        draft(crate::constants::T_WELCOME, hub.identity@),
        Cbor::Fields(welcome_body(hub)),
        hub.identity,
    );
}

proof fn lemma_welcome_body(hub: Hub)
    requires
        writable(Cbor::Fields(welcome_limits(hub.config))),
        writable(Cbor::Fields(welcome_caps(hub))),
    ensures
        writable(Cbor::Fields(welcome_body(hub))),
{
    let name = Cbor::Text(hub.config.hub_name);
    let version = Cbor::Text(crate::constants::SOFTWARE_VERSION@);
    lemma_writable_empty();
    lemma_writable_scalar(name);
    lemma_writable_scalar(version);
    let b0 = with_field(Map::empty(), crate::constants::B_WELCOME_HUB, name);
    lemma_writable_with(Map::empty(), crate::constants::B_WELCOME_HUB, name);
    let b1 = with_field(b0, crate::constants::B_WELCOME_VER, version);
    lemma_writable_with(b0, crate::constants::B_WELCOME_VER, version);
    let caps = Cbor::Fields(welcome_caps(hub));
    let b2 = with_field(b1, crate::constants::B_WELCOME_CAPS, caps);
    lemma_writable_with(b1, crate::constants::B_WELCOME_CAPS, caps);
    let limits = Cbor::Fields(welcome_limits(hub.config));
    lemma_writable_with(b2, crate::constants::B_WELCOME_LIMITS, limits);
}

proof fn lemma_greeting(hub: Hub, link: LinkId, fields: FieldMap)
    requires
        in_range(hub.extensions.room_state as int),
        in_range(hub.extensions.user_list as int),
    ensures
        all_from(greeting(hub, link, fields).outs, hub.identity),
{
    if integer_field(fields, K_T) != Some(T_HELLO) {
        lemma_failing(hub, link, None, "send HELLO first"@);
    } else {
        let named = nicked_if(
            hub.state,
            link,
            hello_nick(fields, hub.config.max_nick_bytes as nat),
        );
        let known = Hub { state: welcomed(named, link, fields), ..hub };
        lemma_welcome(known);
        lemma_single(link, welcome_draft(known), hub.identity);
        match hub.config.greeting {
            Some(text) => {
                lemma_telling(known, link, hub.identity, None, None, "motd"@, text);
            },
            None => {},
        }
    }
}

proof fn lemma_peers_writable(sessions: Seq<(LinkId, SessionModel)>, links: Seq<LinkId>)
    ensures
        writable(Cbor::Array(peers_on(sessions, links))),
    decreases links.len(),
{
    if links.len() > 0 {
        lemma_peers_writable(sessions, links.drop_last());
        let before = peers_on(sessions, links.drop_last());
        let after = peers_on(sessions, links);
        assert forall|i: int| 0 <= i < after.len() implies writable(#[trigger] after[i]) by {
            if i < before.len() {
                assert(Cbor::Array(before)->Array_0[i] == after[i]);
            } else {
                lemma_writable_scalar(after[i]);
            }
        }
        assert(Cbor::Array(after)->Array_0 == after);
    } else {
        assert(Cbor::Array(peers_on(sessions, links))->Array_0.len() == 0);
    }
}

proof fn lemma_with_members(hub: Hub, fields: FieldMap, members: Seq<Cbor>)
    requires
        proper(fields, hub.identity),
        writable(Cbor::Array(members)),
    ensures
        proper(with_members(hub.config, fields, members), hub.identity),
{
    lemma_proper_body(fields, Cbor::Array(members), hub.identity);
}

proof fn lemma_one_peer(peer: IdentityHash)
    ensures
        writable(Cbor::Array(seq![Cbor::Bytes(peer@)])),
{
    let members = seq![Cbor::Bytes(peer@)];
    lemma_writable_scalar(Cbor::Bytes(peer@));
    assert forall|i: int| 0 <= i < members.len() implies writable(#[trigger] members[i]) by {}
    assert(Cbor::Array(members)->Array_0 == members);
}

proof fn lemma_join_notes(
    hub: Hub,
    link: LinkId,
    peer: IdentityHash,
    name: Seq<char>,
    existing: Seq<LinkId>,
    nick: Option<Seq<char>>,
)
    ensures
        all_from(join_notes(hub, link, peer, name, existing, nick), hub.identity),
{
    let drafted = draft(T_JOINED, hub.identity@);
    lemma_proper_draft(T_JOINED, hub.identity);
    lemma_proper_text(drafted, K_ROOM, Some(name), hub.identity);
    let roomed = with_text(drafted, K_ROOM, Some(name));
    lemma_proper_text(roomed, K_NICK, nick, hub.identity);
    lemma_one_peer(peer);
    lemma_with_members(hub, with_text(roomed, K_NICK, nick), seq![Cbor::Bytes(peer@)]);
    let members = room_or_empty(hub.state, name).members;
    lemma_peers_writable(hub.state.sessions, members);
    lemma_with_members(hub, roomed, peers_on(hub.state.sessions, members));
    let outs = join_notes(hub, link, peer, name, existing, nick);
    assert forall|i: int| 0 <= i < outs.len() implies from(#[trigger] outs[i], hub.identity) by {
        if i < existing.len() {
            lemma_with_state(hub, existing[i], name, joined_draft(hub, name, nick, peer));
        } else {
            lemma_with_state(hub, link, name, own_joined_draft(hub, name, members));
        }
    }
}

proof fn lemma_entering(
    hub: Hub,
    now: Nanos,
    link: LinkId,
    peer: IdentityHash,
    name: Seq<char>,
    session: SessionModel,
    fields: FieldMap,
)
    ensures
        all_from(entering(hub, now, link, peer, name, session, fields).outs, hub.identity),
{
    let former = room_or_empty(hub.state, name);
    if session.rooms.len() >= hub.config.max_rooms_per_session && !session.rooms.contains(name) {
        lemma_failing(hub, link, Some(name), "too many rooms"@);
    } else {
        match crate::router::membership::join_refusal(
            former,
            peer,
            now,
            text_field(fields, K_BODY),
        ) {
            Some(text) => {
                lemma_failing(hub, link, Some(name), text);
            },
            None => {
                let entered = Hub {
                    state: joined_state(hub.state, link, peer, name, now),
                    ..hub
                };
                lemma_join_notes(
                    entered,
                    link,
                    peer,
                    name,
                    without(former.members, link),
                    session.nick,
                );
                lemma_noticing(
                    entered,
                    link,
                    Some(name),
                    room_summary(name, room_or_empty(entered.state, name)),
                );
            },
        }
    }
}

proof fn lemma_parted_draft(hub: Hub, name: Seq<char>, peer: IdentityHash, nick: Option<Seq<char>>)
    ensures
        proper(parted_draft(hub, name, peer), hub.identity),
        proper(with_text(parted_draft(hub, name, peer), K_NICK, nick), hub.identity),
{
    let drafted = draft(T_PARTED, hub.identity@);
    lemma_proper_draft(T_PARTED, hub.identity);
    lemma_proper_text(drafted, K_ROOM, Some(name), hub.identity);
    lemma_one_peer(peer);
    lemma_with_members(hub, with_text(drafted, K_ROOM, Some(name)), seq![Cbor::Bytes(peer@)]);
    lemma_proper_text(parted_draft(hub, name, peer), K_NICK, nick, hub.identity);
}

proof fn lemma_joining(hub: Hub, now: Nanos, link: LinkId, peer: IdentityHash, fields: FieldMap)
    ensures
        all_from(joining(hub, now, link, peer, fields).outs, hub.identity),
{
    let counters = hub.state.counters;
    let tried = crate::router::recounted(
        hub,
        crate::state::Counters { joins: crate::state::counted(counters.joins, 1), ..counters },
    );
    match text_field(fields, K_ROOM) {
        None => {
            lemma_failing(tried, link, None, "JOIN requires room name"@);
        },
        Some(text) => match crate::state::room_name(text, hub.config.max_room_name_bytes as nat) {
            Err(error) => {
                lemma_failing(tried, link, None, crate::state::room_error_text(error));
            },
            Ok(name) => {
                let named = Hub {
                    state: nicked_if(
                        tried.state,
                        link,
                        carried_nick(fields, hub.config.max_nick_bytes as nat),
                    ),
                    ..tried
                };
                match lookup(named.state.sessions, link) {
                    None => {},
                    Some(session) => {
                        lemma_entering(named, now, link, peer, name, session, fields);
                    },
                }
            },
        },
    }
}

proof fn lemma_parting(hub: Hub, now: Nanos, link: LinkId, peer: IdentityHash, fields: FieldMap)
    ensures
        all_from(parting(hub, now, link, peer, fields).outs, hub.identity),
{
    let counters = hub.state.counters;
    let tried = crate::router::recounted(
        hub,
        crate::state::Counters { parts: crate::state::counted(counters.parts, 1), ..counters },
    );
    match text_field(fields, K_ROOM) {
        None => {
            lemma_failing(tried, link, None, "PART requires room name"@);
        },
        Some(text) => match crate::state::room_name(text, hub.config.max_room_name_bytes as nat) {
            Err(error) => {
                lemma_failing(tried, link, None, crate::state::room_error_text(error));
            },
            Ok(name) => {
                reveal(from);
                lemma_parted_draft(hub, name, peer, nick_on(tried.state, link));
            },
        },
    }
}

proof fn lemma_rooms_commands(
    hub: Hub,
    now: Nanos,
    link: LinkId,
    peer: IdentityHash,
    context: Option<Seq<char>>,
    parts: Seq<Seq<char>>,
    register: bool,
)
    ensures
        all_from(registering(hub, now, link, peer, context, parts, register).outs, hub.identity),
        all_from(setting_topic(hub, now, link, peer, context, parts).outs, hub.identity),
        all_from(setting_member(hub, now, link, peer, context, parts).outs, hub.identity),
        all_from(accessing(hub, now, link, peer, context, parts).outs, hub.identity),
{
    assert forall|room: Option<Seq<char>>, text: Seq<char>|
        all_from((#[trigger] noticing(hub, link, room, text)).outs, hub.identity) by {
        lemma_noticing(hub, link, room, text);
    }
    assert forall|room: Option<Seq<char>>, text: Seq<char>|
        all_from((#[trigger] failing(hub, link, room, text)).outs, hub.identity) by {
        lemma_failing(hub, link, room, text);
    }
    assert(all_from(registering(hub, now, link, peer, context, parts, register).outs, hub.identity));
    assert(all_from(setting_topic(hub, now, link, peer, context, parts).outs, hub.identity));
    assert(all_from(setting_member(hub, now, link, peer, context, parts).outs, hub.identity));
    assert(all_from(accessing(hub, now, link, peer, context, parts).outs, hub.identity));
}

proof fn lemma_setting_mode(
    hub: Hub,
    now: Nanos,
    link: LinkId,
    peer: IdentityHash,
    context: Option<Seq<char>>,
    parts: Seq<Seq<char>>,
)
    ensures
        all_from(setting_mode(hub, now, link, peer, context, parts).outs, hub.identity),
{
    assert forall|room: Option<Seq<char>>, text: Seq<char>|
        all_from((#[trigger] noticing(hub, link, room, text)).outs, hub.identity) by {
        lemma_noticing(hub, link, room, text);
    }
    assert forall|room: Option<Seq<char>>, text: Seq<char>|
        all_from((#[trigger] failing(hub, link, room, text)).outs, hub.identity) by {
        lemma_failing(hub, link, room, text);
    }
    let flag = crate::text::ascii_lower(parts[2]);
    match crate::router::moderation::member_command(flag) {
        Some(command) => {
            let words = seq![
                command,
                parts[1],
                if parts.len() > 3 {
                    parts[3]
                } else {
                    ""@
                },
            ];
            lemma_rooms_commands(hub, now, link, peer, context, words, true);
        },
        None => {},
    }
}

proof fn lemma_kicking(
    hub: Hub,
    link: LinkId,
    peer: IdentityHash,
    context: Option<Seq<char>>,
    parts: Seq<Seq<char>>,
)
    ensures
        all_from(kicking(hub, link, peer, context, parts).outs, hub.identity),
{
    assert forall|one: Hub, to: LinkId, room: Option<Seq<char>>, text: Seq<char>|
        all_from((#[trigger] noticing(one, to, room, text)).outs, one.identity) by {
        lemma_noticing(one, to, room, text);
    }
    assert forall|one: Hub, to: LinkId, room: Option<Seq<char>>, text: Seq<char>|
        all_from((#[trigger] failing(one, to, room, text)).outs, one.identity) by {
        lemma_failing(one, to, room, text);
    }
    if parts.len() >= 3 {
        match crate::state::room_name(parts[1], hub.config.max_room_name_bytes as nat) {
            Err(error) => {
                assert(all_from(
                    failing(hub, link, context, crate::state::room_error_text(error)).outs,
                    hub.identity,
                ));
            },
            Ok(name) => {
                let found = crate::router::targets::resolved(hub, parts[2], Some(name));
                match crate::router::targets::sole(found) {
                    None => {
                        let text = crate::router::targets::target_report(parts[2], found);
                        assert(all_from(noticing(hub, link, context, text).outs, hub.identity));
                        assert(all_from(
                            failing(hub, link, Some(name), "not authorized"@).outs,
                            hub.identity,
                        ));
                    },
                    Some(target) => {
                        assert(all_from(
                            failing(hub, link, Some(name), "not authorized"@).outs,
                            hub.identity,
                        ));
                        assert(all_from(
                            failing(hub, link, context, "target is not connected"@).outs,
                            hub.identity,
                        ));
                        let target_link = at(hub.state.links_by_identity, target);
                        let out = Hub {
                            state: crate::router::moderation::evicted(
                                hub.state,
                                target_link,
                                name,
                            ),
                            ..hub
                        };
                        let told = failing(out, target_link, Some(name), "kicked from "@ + name);
                        assert(all_from(told.outs, out.identity));
                        let text = "kicked "@ + parts[2] + " from "@ + name;
                        assert(all_from(
                            noticing(told.hub, link, context, text).outs,
                            told.hub.identity,
                        ));
                    },
                }
            },
        }
    } else {
        lemma_noticing(hub, link, context, "usage: /kick <room> <nick|hash>"@);
    }
}

proof fn lemma_listing_users(
    hub: Hub,
    link: LinkId,
    peer: IdentityHash,
    context: Option<Seq<char>>,
    parts: Seq<Seq<char>>,
)
    ensures
        all_from(listing_users(hub, link, peer, context, parts).outs, hub.identity),
        all_from(banning(hub, link, peer, parts).outs, hub.identity),
{
    assert forall|room: Option<Seq<char>>, text: Seq<char>|
        all_from((#[trigger] noticing(hub, link, room, text)).outs, hub.identity) by {
        lemma_noticing(hub, link, room, text);
    }
    assert forall|room: Option<Seq<char>>, text: Seq<char>|
        all_from((#[trigger] failing(hub, link, room, text)).outs, hub.identity) by {
        lemma_failing(hub, link, room, text);
    }
    assert forall|name: Seq<char>| proper(#[trigger] users_draft(hub, name), hub.identity) by {
        let text = users_text(name, users_in(hub.state, name));
        lemma_proper_draft(T_NOTICE, hub.identity);
        lemma_writable_scalar(Cbor::Text(text));
        lemma_proper_body(draft(T_NOTICE, hub.identity@), Cbor::Text(text), hub.identity);
    }
    reveal(from);
    assert(all_from(listing_users(hub, link, peer, context, parts).outs, hub.identity));
    assert(all_from(banning(hub, link, peer, parts).outs, hub.identity));
}

proof fn lemma_running_asks(
    hub: Hub,
    clock: Clock,
    link: LinkId,
    peer: IdentityHash,
    context: Option<Seq<char>>,
    parts: Seq<Seq<char>>,
)
    requires
        asks(command_name(parts)),
    ensures
        all_from(running(hub, clock, link, peer, context, parts).outs, hub.identity),
{
    let name = command_name(parts);
    lemma_listing_users(hub, link, peer, context, parts);
    lemma_failing(hub, link, None, "not authorized"@);
    if name == "/help"@ {
        lemma_noticing(hub, link, None, crate::router::commands::COMMAND_HELP@);
    } else if name == "/stats"@ {
        lemma_noticing(hub, link, None, crate::router::admin::report(hub, clock.mono));
    } else if name == "/reload"@ {
    } else if name == "/kline"@ {
    } else if name == "/list"@ {
        let text = crate::router::directory::listing_text(hub.state.rooms);
        lemma_noticing(hub, link, None, text);
    } else {
    }
}

proof fn lemma_running(
    hub: Hub,
    clock: Clock,
    link: LinkId,
    peer: IdentityHash,
    context: Option<Seq<char>>,
    parts: Seq<Seq<char>>,
)
    ensures
        all_from(running(hub, clock, link, peer, context, parts).outs, hub.identity),
{
    let name = command_name(parts);
    let now = clock.wall;
    if asks(name) {
        lemma_running_asks(hub, clock, link, peer, context, parts);
    } else if name == "/register"@ {
        lemma_rooms_commands(hub, now, link, peer, context, parts, true);
    } else if name == "/unregister"@ {
        lemma_rooms_commands(hub, now, link, peer, context, parts, false);
    } else if name == "/mode"@ {
        lemma_rooms_commands(hub, now, link, peer, context, parts, true);
        lemma_setting_mode(hub, now, link, peer, context, parts);
    } else if name == "/kick"@ {
        lemma_rooms_commands(hub, now, link, peer, context, parts, true);
        lemma_kicking(hub, link, peer, context, parts);
    } else {
        lemma_rooms_commands(hub, now, link, peer, context, parts, true);
        lemma_failing(hub, link, context, "unrecognized command"@);
    }
}

proof fn lemma_passed_fields(
    hub: Hub,
    link: LinkId,
    peer: IdentityHash,
    fields: FieldMap,
    room: Option<Seq<char>>,
)
    requires
        flaw(fields) is None,
        writable(Cbor::Fields(fields)),
    ensures
        proper(passed_fields(hub, link, peer, fields, room), peer),
        flaw(passed_fields(hub, link, peer, fields, room)) is None,
{
    lemma_writable_scalar(Cbor::Bytes(peer@));
    let first = with_field(fields, K_SRC, Cbor::Bytes(peer@));
    lemma_writable_with(fields, K_SRC, Cbor::Bytes(peer@));
    lemma_proper_text(first, K_ROOM, room, peer);
    let sourced = with_text(first, K_ROOM, room);
    match passed_nick(hub, link, fields) {
        Some(nick) => {
            lemma_proper_text(sourced, K_NICK, Some(nick), peer);
        },
        None => {
            let after = sourced.remove(CborKey::Integer(K_NICK as int));
            assert forall|key: CborKey| #[trigger] after.dom().contains(key) implies key_writable(
                key,
            ) && writable(after[key]) by {
                assert(Cbor::Fields(sourced)->Fields_0.dom().contains(key));
            }
            assert(Cbor::Fields(after)->Fields_0 == after);
            assert forall|key: CborKey| #[trigger] after.dom().contains(key) implies key is Integer
                && key->Integer_0 >= 0 by {
                assert(sourced.dom().contains(key));
            }
        },
    }
}

/// Whether what is said is a valid envelope that is passed on for a client, as of the source.
pub open spec fn passed_on(out: Out, source: IdentityHash) -> bool {
    out is Forward && proper(out->Forward_0.fields, source) && flaw(out->Forward_0.fields) is None
}

/// Whether everything that is said is either of the hub, or passed on as of the peer.
pub open spec fn attributed(outs: Seq<Out>, hub: IdentityHash, peer: IdentityHash) -> bool {
    forall|i: int|
        0 <= i < outs.len() ==> from(#[trigger] outs[i], hub) || passed_on(outs[i], peer)
}

proof fn lemma_passing_command(
    hub: Hub,
    clock: Clock,
    link: LinkId,
    peer: IdentityHash,
    previous: Option<Seq<char>>,
    fields: FieldMap,
)
    ensures
        all_from(
            watching(commanding(hub, clock, link, peer, fields), link, peer, previous).outs,
            hub.identity,
        ),
{
    let context = text_field(fields, K_ROOM);
    let parts = command_words(fields);
    let ran = running(hub, clock, link, peer, context, parts);
    lemma_running(hub, clock, link, peer, context, parts);
    assert(ran.hub.identity == hub.identity) by {
        law_running_is_fine(hub, clock, link, peer, context, parts);
        reveal(fine);
    }
    lemma_renaming(ran.hub, link, peer, previous);
    assert(commanding(hub, clock, link, peer, fields) == ran);
    lemma_watching(ran, link, peer, previous, hub.identity);
}

proof fn lemma_watching(
    ran: Turn,
    link: LinkId,
    peer: IdentityHash,
    previous: Option<Seq<char>>,
    source: IdentityHash,
)
    requires
        all_from(ran.outs, source),
        all_from(renaming(ran.hub, link, peer, previous).outs, source),
    ensures
        all_from(watching(ran, link, peer, previous).outs, source),
{
}

proof fn lemma_passing_direct(
    hub: Hub,
    link: LinkId,
    peer: IdentityHash,
    message_type: u64,
    fields: FieldMap,
)
    requires
        flaw(fields) is None,
        writable(Cbor::Fields(fields)),
    ensures
        attributed(
            passing_direct(hub, link, peer, message_type, fields).outs,
            hub.identity,
            peer,
        ),
{
    assert forall|room: Option<Seq<char>>, text: Seq<char>|
        all_from((#[trigger] failing(hub, link, room, text)).outs, hub.identity) by {
        lemma_failing(hub, link, room, text);
    }
    lemma_passed_fields(hub, link, peer, fields, None);
    reveal(from);
}

proof fn lemma_passing_room(
    hub: Hub,
    link: LinkId,
    peer: IdentityHash,
    message_type: u64,
    fields: FieldMap,
)
    requires
        flaw(fields) is None,
        writable(Cbor::Fields(fields)),
    ensures
        attributed(
            passing_room(hub, link, peer, message_type, fields).outs,
            hub.identity,
            peer,
        ),
{
    assert forall|room: Option<Seq<char>>, text: Seq<char>|
        all_from((#[trigger] failing(hub, link, room, text)).outs, hub.identity) by {
        lemma_failing(hub, link, room, text);
    }
    match text_field(fields, K_ROOM) {
        None => {},
        Some(text) => match crate::state::room_name(
            text,
            hub.config.max_room_name_bytes as nat,
        ) {
            Err(error) => {},
            Ok(name) => {
                lemma_passed_fields(hub, link, peer, fields, Some(name));
                lemma_renaming(
                    passed_hub(hub, link, fields),
                    link,
                    peer,
                    nick_on(hub.state, link),
                );
                let out = Out::Forward(
                    ParcelModel {
                        to: lookup(hub.state.rooms, name)->0.members,
                        fields: passed_fields(hub, link, peer, fields, Some(name)),
                    },
                );
                assert(passed_on(out, peer));
            },
        },
    }
}

proof fn lemma_passing(
    hub: Hub,
    clock: Clock,
    link: LinkId,
    peer: IdentityHash,
    message_type: u64,
    fields: FieldMap,
)
    requires
        flaw(fields) is None,
        writable(Cbor::Fields(fields)),
    ensures
        attributed(
            passing(hub, clock, link, peer, message_type, fields).outs,
            hub.identity,
            peer,
        ),
{
    if is_command(message_type, fields) {
        let named = Hub {
            state: nicked_if(
                hub.state,
                link,
                carried_nick(fields, hub.config.max_nick_bytes as nat),
            ),
            ..hub
        };
        lemma_passing_command(named, clock, link, peer, nick_on(hub.state, link), fields);
    } else if message_type == T_NOTICE && field(fields, K_DST) is Some {
        lemma_passing_direct(hub, link, peer, message_type, fields);
    } else {
        lemma_passing_room(hub, link, peer, message_type, fields);
    }
}

/// A command is handled by the hub alone: nothing is passed on, and what is said is the hub's own.
pub proof fn law_command_is_not_passed_on(
    hub: Hub,
    clock: Clock,
    link: LinkId,
    peer: IdentityHash,
    message_type: u64,
    fields: FieldMap,
)
    requires
        is_command(message_type, fields),
    ensures
        all_from(passing(hub, clock, link, peer, message_type, fields).outs, hub.identity),
{
    let named = Hub {
        state: nicked_if(
            hub.state,
            link,
            carried_nick(fields, hub.config.max_nick_bytes as nat),
        ),
        ..hub
    };
    lemma_passing_command(named, clock, link, peer, nick_on(hub.state, link), fields);
}

proof fn lemma_announcing_resource(hub: Hub, now: Nanos, link: LinkId, fields: FieldMap)
    ensures
        all_from(announcing_resource(hub, now, link, fields).outs, hub.identity),
{
    assert forall|one: Hub, room: Option<Seq<char>>, text: Seq<char>|
        all_from((#[trigger] failing(one, link, room, text)).outs, one.identity) by {
        lemma_failing(one, link, room, text);
    }
    let done = announcing_resource(hub, now, link, fields);
    assert(done.hub.identity == hub.identity);
}

proof fn lemma_pong(hub: Hub, link: LinkId, fields: FieldMap)
    requires
        writable(Cbor::Fields(fields)),
    ensures
        all_from(answering(hub, link, fields).outs, hub.identity),
{
    lemma_proper_draft(T_PONG, hub.identity);
    match field(fields, K_BODY) {
        Some(body) => {
            assert(Cbor::Fields(fields)->Fields_0.dom().contains(
                CborKey::Integer(K_BODY as int),
            ));
            lemma_proper_body(draft(T_PONG, hub.identity@), body, hub.identity);
        },
        None => {},
    }
    lemma_single(link, pong_draft(hub, fields), hub.identity);
}

/// Everything that the hub says upon a packet is a valid envelope of its own, or one that it passes
/// on as of the identity of the link that the packet came from. (What a packet holds can be written
/// again; the extensions' capability numbers must fit into CBOR.)
pub proof fn law_packet_is_attributed(
    hub: Hub,
    clock: Clock,
    link: LinkId,
    peer: IdentityHash,
    data: Seq<u8>,
)
    requires
        decoded(data) is Ok ==> writable(Cbor::Fields(decoded(data)->Ok_0)),
        in_range(hub.extensions.room_state as int),
        in_range(hub.extensions.user_list as int),
        holds(hub.state.sessions, link),
        at(hub.state.sessions, link).peer == Some(peer),
    ensures
        attributed(reading(hub, clock, link, data).outs, hub.identity, peer),
{
    let got = packet_counted(hub, data.len() as int);
    let session = at(got.state.sessions, link);
    let (taken, granted) = token_taken(
        session,
        hub.config.rate_limit_msgs_per_minute,
        clock.mono,
    );
    let limited = Hub {
        state: StateModel {
            sessions: crate::collections::put(got.state.sessions, link, taken),
            ..got.state
        },
        ..got
    };
    let counters = limited.state.counters;
    if !granted {
        lemma_failing(
            crate::router::recounted(
                limited,
                crate::state::Counters {
                    rate_limited: crate::state::counted(counters.rate_limited, 1),
                    ..counters
                },
            ),
            link,
            None,
            "rate limited"@,
        );
    } else {
        match decoded(data) {
            Err(error) => {
                lemma_failing(
                    crate::router::recounted(
                        limited,
                        crate::state::Counters {
                            packets_bad: crate::state::counted(counters.packets_bad, 1),
                            ..counters
                        },
                    ),
                    link,
                    None,
                    "bad message: "@ + crate::protocol::error_text(error),
                );
            },
            Ok(fields) => {
                let kind = integer_field(fields, K_T)->0;
                lemma_announcing_resource(limited, clock.mono, link, fields);
                lemma_greeting(limited, link, fields);
                lemma_joining(limited, clock.wall, link, peer, fields);
                lemma_parting(limited, clock.wall, link, peer, fields);
                lemma_passing(limited, clock, link, peer, kind, fields);
                lemma_pong(limited, link, fields);
                lemma_failing(limited, link, None, "unsupported message type"@);
                lemma_handled(limited, clock, link, peer, session.welcomed, fields);
            },
        }
    }
}

proof fn lemma_handled(
    hub: Hub,
    clock: Clock,
    link: LinkId,
    peer: IdentityHash,
    known: bool,
    fields: FieldMap,
)
    requires
        all_from(announcing_resource(hub, clock.mono, link, fields).outs, hub.identity),
        all_from(greeting(hub, link, fields).outs, hub.identity),
        all_from(joining(hub, clock.wall, link, peer, fields).outs, hub.identity),
        all_from(parting(hub, clock.wall, link, peer, fields).outs, hub.identity),
        attributed(
            passing(hub, clock, link, peer, integer_field(fields, K_T)->0, fields).outs,
            hub.identity,
            peer,
        ),
        all_from(answering(hub, link, fields).outs, hub.identity),
        all_from(failing(hub, link, None, "unsupported message type"@).outs, hub.identity),
    ensures
        attributed(handling(hub, clock, link, peer, known, fields).outs, hub.identity, peer),
{
}

/// Everything that the hub says after work on its files is a valid envelope of its own.
pub proof fn law_resume_is_attributed(hub: Hub, pending: PendingModel, outcome: OutcomeModel)
    ensures
        all_from(resuming(hub, pending, outcome).outs, hub.identity),
{
    let followed = following(hub, pending.resume, outcome);
    lemma_following(hub, pending.resume, outcome);
    match pending.watch {
        Some(watch) => {
            lemma_renaming(followed.hub, watch.link, watch.peer, watch.previous);
        },
        None => {},
    }
}

proof fn lemma_following(hub: Hub, resume: ResumeModel, outcome: OutcomeModel)
    ensures
        all_from(following(hub, resume, outcome).outs, hub.identity),
        following(hub, resume, outcome).hub.identity == hub.identity,
{
    match outcome {
        OutcomeModel::Failed(error) => {
            lemma_after_failure(hub, resume, error);
        },
        OutcomeModel::Done => {
            lemma_after_success(hub, resume);
        },
        OutcomeModel::Loaded(config, rooms) => {
            match resume {
                ResumeModel::Reload { link } => {
                    lemma_noticing(
                        reloaded(hub, config, rooms),
                        link,
                        None,
                        reload_summary(hub, config, rooms),
                    );
                },
                _ => {
                    lemma_after_success(hub, resume);
                },
            }
        },
    }
}

proof fn lemma_after_failure(hub: Hub, resume: ResumeModel, error: Seq<char>)
    ensures
        all_from(crate::router::after_failure(hub, resume, error).outs, hub.identity),
{
    assert forall|link: LinkId, room: Option<Seq<char>>, text: Seq<char>|
        all_from((#[trigger] failing(hub, link, room, text)).outs, hub.identity) by {
        lemma_failing(hub, link, room, text);
    }
}

proof fn lemma_after_success(hub: Hub, resume: ResumeModel)
    ensures
        all_from(after_success(hub, resume).outs, hub.identity),
        after_success(hub, resume).hub.identity == hub.identity,
{
    match resume {
        ResumeModel::RoomState { link, room, to, text } => {
            lemma_stating(hub, room, to, text);
        },
        ResumeModel::Members { link, room, to, text } => {
            lemma_announcing(hub, room, to, text);
        },
        ResumeModel::Access { link, context, room, status, invite, evicted } => {
            let told = noticing(hub, link, context, status);
            lemma_noticing(hub, link, context, status);
            let invited = match invite {
                Some((to, text)) => crate::router::after(
                    told.outs,
                    noticing(told.hub, to, Some(room), text),
                ),
                None => told,
            };
            match invite {
                Some((to, text)) => {
                    lemma_noticing(told.hub, to, Some(room), text);
                },
                None => {},
            }
            match evicted {
                Some(to) => {
                    lemma_failing(invited.hub, to, Some(room), "banned from "@ + room);
                },
                None => {},
            }
        },
        ResumeModel::Bans { link, text, close } => {
            lemma_noticing(hub, link, None, text);
            lemma_closes(closing_all(close), hub.identity);
        },
        _ => {},
    }
}

proof fn lemma_closes(outs: Seq<Out>, source: IdentityHash)
    requires
        forall|i: int| 0 <= i < outs.len() ==> #[trigger] outs[i] is Close,
    ensures
        all_from(outs, source),
{
    reveal(from);
}

proof fn lemma_telling_all(
    hub: Hub,
    to: Seq<LinkId>,
    source: IdentityHash,
    nick: Option<Seq<char>>,
    room: Seq<char>,
    kind: Seq<char>,
    text: Seq<char>,
)
    ensures
        all_from(telling_all(hub, to, source, nick, room, kind, text).outs, source),
    decreases to.len(),
{
    if to.len() > 0 {
        lemma_telling_all(hub, to.drop_last(), source, nick, room, kind, text);
        let before = telling_all(hub, to.drop_last(), source, nick, room, kind, text);
        lemma_telling(before.hub, to.last(), source, nick, Some(room), kind, text);
    }
}

proof fn lemma_passing_text(
    hub: Hub,
    link: LinkId,
    name: Option<Seq<char>>,
    kind: Seq<char>,
    message_type: u64,
    text: Seq<char>,
    peer: IdentityHash,
)
    requires
        holds(hub.state.sessions, link),
        at(hub.state.sessions, link).peer == Some(peer),
    ensures
        all_from(passing_text(hub, link, name, kind, message_type, text).outs, hub.identity)
            || all_from(passing_text(hub, link, name, kind, message_type, text).outs, peer),
{
    let session = at(hub.state.sessions, link);
    let rejecting = crate::router::resources::rejected(hub);
    match name {
        None => {},
        Some(name) => {
            lemma_failing(rejecting, link, Some(name), "no such room"@);
            lemma_failing(rejecting, link, Some(name), "resource message is not allowed"@);
            match lookup(hub.state.rooms, name) {
                None => {},
                Some(room) => {
                    let to = if message_type == T_NOTICE {
                        without(room.members, link)
                    } else {
                        room.members
                    };
                    lemma_telling_all(hub, to, peer, session.nick, name, kind, text);
                },
            }
        },
    }
}

/// Everything that the hub says upon a resource is of the hub, or is passed on as of the identity
/// of the link that the resource came from.
pub proof fn law_resource_is_attributed(
    hub: Hub,
    now: Nanos,
    link: LinkId,
    payload: Seq<u8>,
    peer: IdentityHash,
)
    requires
        holds(hub.state.sessions, link),
        at(hub.state.sessions, link).peer == Some(peer),
    ensures
        all_from(receiving(hub, now, link, payload).outs, hub.identity) || all_from(
            receiving(hub, now, link, payload).outs,
            peer,
        ),
{
    assert forall|one: Hub, room: Option<Seq<char>>, text: Seq<char>|
        all_from((#[trigger] rejecting(one, link, room, text)).outs, one.identity) by {
        lemma_failing(crate::router::resources::rejected(one), link, room, text);
    }
    match lookup(hub.expected, link) {
        None => {},
        Some(_) => {
            let live = awaited(hub, link, now);
            match fitting_index(live, payload) {
                None => {},
                Some(index) => {
                    let held = crate::router::resources::expecting(hub, link, live.remove(index));
                    let taken = received(held, payload.len() as int);
                    match text_kind(live[index].kind) {
                        Some((kind, message_type)) => {
                            lemma_passing_text(
                                taken,
                                link,
                                live[index].room,
                                kind,
                                message_type,
                                vstd::utf8::decode_utf8(payload),
                                peer,
                            );
                        },
                        None => {},
                    }
                },
            }
        },
    }
}

proof fn lemma_close_outs(hub: Hub, notes: Seq<PartModel>)
    ensures
        all_from(close_outs(hub, notes), hub.identity),
    decreases notes.len(),
{
    if notes.len() > 0 {
        lemma_close_outs(hub, notes.drop_last());
        match notes.last().peer {
            Some(peer) => {
                lemma_parted_draft(hub, notes.last().room, peer, notes.last().nick);
                reveal(from);
            },
            None => {},
        }
    }
}

proof fn lemma_liveness(
    sessions: Seq<(LinkId, SessionModel)>,
    identity: IdentityHash,
    now: Nanos,
    timeout: Nanos,
    interval: Nanos,
)
    ensures
        all_from(closes(sessions, now, timeout), identity),
        all_from(pings(identity, sessions, now, interval), identity),
    decreases sessions.len(),
{
    if sessions.len() > 0 {
        lemma_liveness(sessions.drop_last(), identity, now, timeout, interval);
        lemma_proper_draft(T_PING, identity);
        lemma_single(sessions.last().0, draft(T_PING, identity@), identity);
        assert(from(Out::Close(sessions.last().0), identity)) by {
            reveal(from);
        }
    }
}

/// Everything that the hub says of its own accord, when a link closes and when it checks the links,
/// is a valid envelope of its own.
pub proof fn law_own_accord_is_attributed(hub: Hub, clock: Clock, link: LinkId)
    ensures
        all_from(closing(hub, clock.wall, link).outs, hub.identity),
        all_from(ticking(hub, clock).outs, hub.identity),
{
    let names = rooms_on(hub.state, link);
    let used = StateModel { rooms: touched(hub.state.rooms, names, clock.wall), ..hub.state };
    lemma_close_outs(hub, crate::state::close_notes(used, link));
    let state = pruning(hub, clock).hub.state;
    lemma_liveness(
        state.sessions,
        hub.identity,
        clock.mono,
        hub.config.ping_timeout,
        hub.config.ping_interval,
    );
}

} // verus!
