//! What is said to whom: the greeting, direct notices, joins and departures.

use crate::cbor::Cbor;
use crate::clock::{Clock, Nanos};
use crate::collections::{
    at, distinct, dropped, group_collections, group_sequences, holds, lemma_distinct_without, put,
    unique, with, without,
};
use crate::config::hash_from;
use crate::constants::{
    B_WELCOME_CAPS, CAP_ACTION, CAP_DIRECT_NOTICE, CAP_RESOURCE_ENVELOPE, K_BODY, K_DST, K_ROOM,
    K_SRC, K_T, T_ACTION, T_ERROR, T_HELLO, T_NOTICE, T_PONG, T_RESOURCE_ENVELOPE,
};
use crate::outgoing::{single, Out};
use crate::protocol::{bytes_field, decoded, field, integer_field, map_field, FieldMap};
use crate::router::membership::{
    greeting, hello_nick, join_notes, joined_state, nicked_if, room_or_empty, welcome_draft,
    welcomed,
};
use crate::router::messages::{passing, passing_direct, passing_room};
use crate::router::moderation::is_in;
use crate::router::rooms::members_of;
use crate::router::{error_draft, failing, handling, packet_counted, reading, Hub};
use crate::state::{
    close_notes, closed, is_on, left_rooms, nick_on, part_note, part_notes, peer_among, token_taken,
    IdentityHash, LinkId, PartModel, SessionModel, StateModel,
};
use super::sound::{orderly, sound};
use super::steps::{law_closed_is_sound, lemma_left_rooms};
use vstd::prelude::*;

verus! {

broadcast use {group_collections, group_sequences};

/// Whether nothing has changed in the rooms, in the indexes, in the configuration and in what any
/// session says of its peer, its nickname, its rooms and its welcome.
pub open spec fn untouched(before: Hub, after: Hub) -> bool {
    &&& after.config == before.config
    &&& after.state.rooms == before.state.rooms
    &&& after.state.links_by_identity == before.state.links_by_identity
    &&& after.state.links_by_nick == before.state.links_by_nick
    &&& forall|link: LinkId| #[trigger]
        holds(after.state.sessions, link) == holds(before.state.sessions, link)
    &&& forall|link: LinkId| #[trigger]
        holds(after.state.sessions, link) ==> {
            let a = at(after.state.sessions, link);
            let b = at(before.state.sessions, link);
            a.peer == b.peer && a.nick == b.nick && a.rooms == b.rooms && a.welcomed == b.welcomed
        }
}

/// Before a link has said HELLO, nothing else that it sends has an effect on rooms, indexes, the
/// configuration or sessions; the hub asks for no work on files, and answers with errors to that
/// link, or not at all.
pub proof fn law_hello_comes_first(hub: Hub, clock: Clock, link: LinkId, data: Seq<u8>)
    requires
        holds(hub.state.sessions, link) ==> !at(hub.state.sessions, link).welcomed,
        decoded(data) is Ok ==> integer_field(decoded(data)->Ok_0, K_T) != Some(T_HELLO),
    ensures
        untouched(hub, reading(hub, clock, link, data).hub),
        reading(hub, clock, link, data).pending is None,
        only_errors(reading(hub, clock, link, data).outs, link),
{
    assert forall|one: Hub, room: Option<Seq<char>>, text: Seq<char>| only_errors(
        (#[trigger] failing(one, link, room, text)).outs,
        link,
    ) by {
        lemma_failing(one, link, room, text);
    }
    let got = packet_counted(hub, data.len() as int);
    if holds(hub.state.sessions, link) && at(hub.state.sessions, link).peer is Some {
        let session = at(hub.state.sessions, link);
        let (taken, granted) = token_taken(
            session,
            hub.config.rate_limit_msgs_per_minute,
            clock.mono,
        );
        let limited = Hub {
            state: StateModel { sessions: put(got.state.sessions, link, taken), ..got.state },
            ..got
        };
        assert(untouched(hub, limited));
        if granted && decoded(data) is Ok {
            lemma_before_hello(limited, clock, link, session.peer->0, decoded(data)->Ok_0);
        }
    }
}

/// Whether nothing is said but errors to the link.
pub open spec fn only_errors(outs: Seq<Out>, link: LinkId) -> bool {
    outs.len() == 0 || exists|fields: FieldMap|
        outs == seq![#[trigger] single(link, fields)] && integer_field(fields, K_T) == Some(T_ERROR)
}

pub proof fn lemma_failing(hub: Hub, link: LinkId, room: Option<Seq<char>>, text: Seq<char>)
    ensures
        only_errors(failing(hub, link, room, text).outs, link),
{
    let fields = error_draft(hub, room, text);
    assert(integer_field(fields, K_T) == Some(T_ERROR));
    assert(failing(hub, link, room, text).outs == seq![single(link, fields)]);
}

proof fn lemma_before_hello(
    hub: Hub,
    clock: Clock,
    link: LinkId,
    peer: IdentityHash,
    fields: FieldMap,
)
    requires
        integer_field(fields, K_T) != Some(T_HELLO),
        integer_field(fields, K_T) is Some,
    ensures
        untouched(hub, handling(hub, clock, link, peer, false, fields).hub),
        handling(hub, clock, link, peer, false, fields).pending is None,
        only_errors(handling(hub, clock, link, peer, false, fields).outs, link),
{
    let kind = integer_field(fields, K_T)->0;
    if kind == T_PONG {
    } else if kind == T_RESOURCE_ENVELOPE {
        assert forall|one: Hub, room: Option<Seq<char>>, text: Seq<char>| only_errors(
            (#[trigger] failing(one, link, room, text)).outs,
            link,
        ) by {
            lemma_failing(one, link, room, text);
        }
    } else {
        lemma_failing(hub, link, None, "send HELLO first"@);
    }
}

/// A HELLO makes the link welcome, and is answered with WELCOME before anything else. WELCOME
/// advertises actions and direct notices, and resources exactly where they are enabled.
pub proof fn law_hello_is_welcomed(hub: Hub, link: LinkId, fields: FieldMap)
    requires
        integer_field(fields, K_T) == Some(T_HELLO),
        holds(hub.state.sessions, link),
        hub.extensions.room_state != CAP_RESOURCE_ENVELOPE,
        hub.extensions.user_list != CAP_RESOURCE_ENVELOPE,
    ensures
        at(greeting(hub, link, fields).hub.state.sessions, link).welcomed,
        greeting(hub, link, fields).outs.len() >= 1,
        greeting(hub, link, fields).outs[0] == single(link, welcome_draft(hub)),
        ({
            let body = map_field(welcome_draft(hub), K_BODY)->0;
            let caps = map_field(body, B_WELCOME_CAPS)->0;
            &&& map_field(welcome_draft(hub), K_BODY) is Some
            &&& map_field(body, B_WELCOME_CAPS) is Some
            &&& field(caps, CAP_ACTION) == Some(Cbor::Bool(true))
            &&& field(caps, CAP_DIRECT_NOTICE) == Some(Cbor::Bool(true))
            &&& field(caps, CAP_RESOURCE_ENVELOPE) == if hub.config.enable_resource_transfer {
                Some(Cbor::Bool(true))
            } else {
                None
            }
        }),
{
    let named = nicked_if(
        hub.state,
        link,
        hello_nick(fields, hub.config.max_nick_bytes as nat),
    );
    let known = Hub { state: welcomed(named, link, fields), ..hub };
    assert(welcome_draft(known) == welcome_draft(hub));
}

/// A direct notice is passed on to exactly one link, on which the identity that it names is
/// connected, with the destination kept and no room; or else it is answered with one error. It is
/// never passed on where it names a room too.
pub proof fn law_direct_notice_has_one_recipient(
    hub: Hub,
    link: LinkId,
    peer: IdentityHash,
    fields: FieldMap,
)
    requires
        sound(hub.state),
    ensures
        ({
            let outs = passing_direct(hub, link, peer, T_NOTICE, fields).outs;
            only_errors(outs, link) || {
                &&& field(fields, K_ROOM) is None
                &&& outs.len() == 1
                &&& outs[0] is Forward
                &&& outs[0]->Forward_0.to.len() == 1
                &&& bytes_field(fields, K_DST) is Some
                &&& hash_from(bytes_field(fields, K_DST)->0) is Some
                &&& is_on(
                    hub.state.sessions,
                    outs[0]->Forward_0.to[0],
                    hash_from(bytes_field(fields, K_DST)->0)->0,
                )
                &&& field(outs[0]->Forward_0.fields, K_DST) == field(fields, K_DST)
                &&& field(outs[0]->Forward_0.fields, K_ROOM) is None
                &&& field(outs[0]->Forward_0.fields, K_SRC) == Some(Cbor::Bytes(peer@))
            }
        }),
        (field(fields, K_ROOM) is None && bytes_field(fields, K_DST) is Some && hash_from(
            bytes_field(fields, K_DST)->0,
        ) is Some && exists|other: LinkId| #[trigger]
            is_on(hub.state.sessions, other, hash_from(bytes_field(fields, K_DST)->0)->0)) ==> (
        passing_direct(hub, link, peer, T_NOTICE, fields).outs.len() == 1 && passing_direct(
            hub,
            link,
            peer,
            T_NOTICE,
            fields,
        ).outs[0] is Forward),
{
    assert forall|room: Option<Seq<char>>, text: Seq<char>| only_errors(
        (#[trigger] failing(hub, link, room, text)).outs,
        link,
    ) by {
        lemma_failing(hub, link, room, text);
    }
    if bytes_field(fields, K_DST) is Some {
        match hash_from(bytes_field(fields, K_DST)->0) {
            Some(identity) => {
                if holds(hub.state.links_by_identity, identity) {
                    assert(is_on(
                        hub.state.sessions,
                        at(hub.state.links_by_identity, identity),
                        identity,
                    ));
                }
            },
            None => {},
        }
    }
}

/// Where one link of an identity closes while another is open, direct notices reach the identity
/// still, on a link that is open.
pub proof fn law_direct_notice_falls_back(
    state: StateModel,
    link: LinkId,
    other: LinkId,
    identity: IdentityHash,
)
    requires
        sound(state),
        other != link,
        is_on(state.sessions, other, identity),
    ensures
        holds(closed(state, link).links_by_identity, identity),
        at(closed(state, link).links_by_identity, identity) != link,
        is_on(
            closed(state, link).sessions,
            at(closed(state, link).links_by_identity, identity),
            identity,
        ),
{
    law_closed_is_sound(state, link);
    let after = closed(state, link);
    assert(is_on(after.sessions, other, identity)) by {
        if holds(state.sessions, link) {
            assert(after.sessions == dropped(state.sessions, link));
        }
    }
    assert(!holds(after.sessions, link));
}

/// An action is passed on as what it says, never taken for a command.
pub proof fn law_action_is_no_command(
    hub: Hub,
    clock: Clock,
    link: LinkId,
    peer: IdentityHash,
    fields: FieldMap,
)
    ensures
        passing(hub, clock, link, peer, T_ACTION, fields) == passing_room(
            hub,
            link,
            peer,
            T_ACTION,
            fields,
        ),
{
}

/// To whom what is said in the course of a join is said.
pub open spec fn note_link(out: Out) -> LinkId {
    match out {
        Out::Packets(parcels) => parcels[0].to[0],
        Out::Extended(to, _, _) => to,
        _ => arbitrary(),
    }
}

/// A join tells everyone who is then in the room, and nobody else, and each of them once, however
/// often the link joins.
pub proof fn law_join_tells_each_member_once(
    hub: Hub,
    link: LinkId,
    peer: IdentityHash,
    name: Seq<char>,
    now: Nanos,
    nick: Option<Seq<char>>,
)
    requires
        sound(hub.state),
        holds(hub.state.sessions, link),
    ensures
        ({
            let entered = Hub { state: joined_state(hub.state, link, peer, name, now), ..hub };
            let existing = without(members_of(hub.state, name), link);
            let notes = join_notes(entered, link, peer, name, existing, nick);
            let told = Seq::new(notes.len(), |i: int| note_link(notes[i]));
            &&& distinct(told)
            &&& forall|one: LinkId| #[trigger]
                told.contains(one) == members_of(entered.state, name).contains(one)
            &&& told.last() == link
        }),
{
    let entered = Hub { state: joined_state(hub.state, link, peer, name, now), ..hub };
    let members = members_of(hub.state, name);
    let existing = without(members, link);
    let notes = join_notes(entered, link, peer, name, existing, nick);
    let told = Seq::new(notes.len(), |i: int| note_link(notes[i]));
    assert(told =~= existing.push(link)) by {
        assert forall|i: int| 0 <= i < told.len() implies told[i] == existing.push(link)[i] by {
            assert(notes[i] == join_notes(entered, link, peer, name, existing, nick)[i]);
        }
    }
    assert(distinct(members));
    lemma_distinct_without(members, link);
    assert(!existing.contains(link));
    assert(distinct(existing.push(link))) by {
        assert forall|i: int, j: int| 0 <= i < j < existing.push(link).len() implies
            #[trigger] existing.push(link)[i] != #[trigger] existing.push(link)[j] by {
            if j == existing.len() {
                assert(existing.contains(existing[i]));
            }
        }
    }
    assert(room_or_empty(hub.state, name).members == members);
    assert(members_of(entered.state, name) == with(members, link));
    assert forall|one: LinkId| #[trigger] told.contains(one) == members_of(
        entered.state,
        name,
    ).contains(one) by {
        if one == link {
            assert(told[existing.len() as int] == link);
        }
        if existing.contains(one) {
            let i = choose|i: int| 0 <= i < existing.len() && existing[i] == one;
            assert(told[i] == one);
        }
        if told.contains(one) {
            let i = choose|i: int| 0 <= i < told.len() && told[i] == one;
            if i < existing.len() {
                assert(existing[i] == one);
            }
        }
    }
}

/// Joining a room again changes nobody's membership.
pub proof fn law_repeated_join_changes_no_membership(
    state: StateModel,
    link: LinkId,
    peer: IdentityHash,
    name: Seq<char>,
    now: Nanos,
    one: LinkId,
    other: Seq<char>,
)
    requires
        sound(state),
        is_in(state, link, name),
    ensures
        members_of(joined_state(state, link, peer, name, now), other) == members_of(state, other),
        is_in(joined_state(state, link, peer, name, now), one, other) == is_in(state, one, other),
{
    assert(members_of(state, name).contains(link));
}

/// Whether closing a link tells the others in a room that its identity has left.
pub open spec fn notes_departure(notes: Seq<PartModel>, name: Seq<char>) -> bool {
    exists|i: int| 0 <= i < notes.len() && (#[trigger] notes[i]).room == name
}

/// Whether no room is told twice.
pub open spec fn told_once(notes: Seq<PartModel>) -> bool {
    forall|i: int, j: int|
        0 <= i < j < notes.len() ==> (#[trigger] notes[i]).room != (#[trigger] notes[j]).room
}

proof fn lemma_part_notes(
    state: StateModel,
    sessions: Seq<(LinkId, SessionModel)>,
    link: LinkId,
    session: SessionModel,
    names: Seq<Seq<char>>,
    name: Seq<char>,
)
    requires
        unique(state.rooms),
        orderly(state.rooms),
        forall|one: Seq<char>| distinct(#[trigger] members_of(state, one)),
        distinct(names),
    ensures
        notes_departure(part_notes(sessions, state.rooms, link, session, names), name) == (
        names.contains(name) && without(members_of(state, name), link).len() > 0 && !(session.peer
            is Some && peer_among(
            sessions,
            without(members_of(state, name), link),
            session.peer->0,
        ))),
        forall|i: int|
            0 <= i < part_notes(sessions, state.rooms, link, session, names).len() ==> {
                let note = #[trigger] part_notes(sessions, state.rooms, link, session, names)[i];
                note.recipients == without(members_of(state, note.room), link) && note.nick
                    == session.nick && note.peer == session.peer && names.contains(note.room)
            },
        told_once(part_notes(sessions, state.rooms, link, session, names)),
    decreases names.len(),
{
    let notes = part_notes(sessions, state.rooms, link, session, names);
    if names.len() > 0 {
        let rest = names.drop_last();
        let last = names.last();
        assert(distinct(rest)) by {
            assert forall|i: int, j: int| 0 <= i < j < rest.len() implies #[trigger] rest[i]
                != #[trigger] rest[j] by {
                assert(names[i] != names[j]);
            }
        }
        lemma_part_notes(state, sessions, link, session, rest, name);
        lemma_left_rooms(state, link, rest);
        let moved = StateModel { rooms: left_rooms(state.rooms, link, rest), ..state };
        assert(!rest.contains(last)) by {
            if rest.contains(last) {
                let i = choose|i: int| 0 <= i < rest.len() && rest[i] == last;
                assert(names[i] != names[names.len() - 1]);
            }
        }
        assert(members_of(moved, last) == members_of(state, last));
        let before = part_notes(sessions, state.rooms, link, session, rest);
        let note = part_note(sessions, moved.rooms, link, session, last);
        if members_of(state, last).len() == 0 {
            assert(without(members_of(state, last), link).len() == 0);
        }
        assert(note is Some == (without(members_of(state, last), link).len() > 0 && !(session.peer
            is Some && peer_among(
            sessions,
            without(members_of(state, last), link),
            session.peer->0,
        ))));
        if note is Some {
            assert(note->0.recipients == without(members_of(state, last), link));
        }
        assert(names.contains(name) == (name == last || rest.contains(name))) by {
            if names.contains(name) {
                let i = choose|i: int| 0 <= i < names.len() && names[i] == name;
                if i < rest.len() {
                    assert(rest[i] == name);
                }
            }
            if rest.contains(name) {
                let i = choose|i: int| 0 <= i < rest.len() && rest[i] == name;
                assert(names[i] == name);
            }
            assert(names[names.len() - 1] == last);
        }
        assert(notes_departure(notes, name) == (notes_departure(before, name) || (note is Some
            && last == name))) by {
            if notes_departure(notes, name) {
                let i = choose|i: int| 0 <= i < notes.len() && (#[trigger] notes[i]).room == name;
                if i < before.len() {
                    assert(before[i].room == name);
                }
            }
            if notes_departure(before, name) {
                let i = choose|i: int|
                    0 <= i < before.len() && (#[trigger] before[i]).room == name;
                assert(notes[i].room == name);
            }
            if note is Some && last == name {
                assert(notes[before.len() as int].room == name);
            }
        }
        assert forall|i: int| 0 <= i < notes.len() implies {
            let note = #[trigger] notes[i];
            note.recipients == without(members_of(state, note.room), link) && note.nick
                == session.nick && note.peer == session.peer && names.contains(note.room)
        } by {
            if i < before.len() {
                assert(notes[i] == before[i]);
                let k = choose|k: int| 0 <= k < rest.len() && rest[k] == notes[i].room;
                assert(names[k] == notes[i].room);
            } else {
                assert(names[names.len() - 1] == last);
            }
        }
        assert forall|i: int, j: int| 0 <= i < j < notes.len() implies (
        #[trigger] notes[i]).room != (#[trigger] notes[j]).room by {
            assert(notes[i] == before[i]);
            if j < before.len() {
                assert(notes[j] == before[j]);
            }
        }
    }
}

/// When a link closes, the others in a room are told that its identity has left exactly if the link
/// was in the room, there are others, and none of them is another link of that identity. They are
/// told the nickname that the link had, and no room is told twice.
pub proof fn law_close_tells_departure(
    state: StateModel,
    link: LinkId,
    peer: IdentityHash,
    name: Seq<char>,
)
    requires
        sound(state),
        is_on(state.sessions, link, peer),
    ensures
        notes_departure(close_notes(state, link), name) == (is_in(state, link, name) && without(
            members_of(state, name),
            link,
        ).len() > 0 && !exists|other: LinkId|
            other != link && is_in(state, other, name) && #[trigger] is_on(
                state.sessions,
                other,
                peer,
            )),
        forall|i: int|
            0 <= i < close_notes(state, link).len() ==> {
                let note = #[trigger] close_notes(state, link)[i];
                note.recipients == without(members_of(state, note.room), link) && note.nick
                    == nick_on(state, link) && note.peer == Some(peer)
            },
        told_once(close_notes(state, link)),
{
    let session = at(state.sessions, link);
    let left = dropped(state.sessions, link);
    lemma_part_notes(state, left, link, session, session.rooms, name);
    let others = without(members_of(state, name), link);
    let remains = exists|other: LinkId|
        other != link && is_in(state, other, name) && #[trigger] is_on(state.sessions, other, peer);
    assert(peer_among(left, others, peer) == remains) by {
        if peer_among(left, others, peer) {
            let i = choose|i: int| 0 <= i < others.len() && is_on(left, #[trigger] others[i], peer);
            let other = others[i];
            assert(others.contains(other));
            assert(members_of(state, name).contains(other));
            assert(is_in(state, other, name));
            assert(is_on(state.sessions, other, peer));
        }
        if remains {
            let other = choose|other: LinkId|
                other != link && is_in(state, other, name) && #[trigger] is_on(
                    state.sessions,
                    other,
                    peer,
                );
            assert(members_of(state, name).contains(other));
            assert(others.contains(other));
            let i = choose|i: int| 0 <= i < others.len() && others[i] == other;
            assert(is_on(left, others[i], peer));
        }
    }
}

} // verus!
