//! Coming and going: who gets into a room and what changes then, who leaves it, and who is told.

use crate::cbor::Cbor;
use crate::clock::Nanos;
use crate::collections::{
    at, distinct, gathered, group_collections, group_sequences, holds, lookup, with, without,
};
use crate::constants::{
    B_HELLO_CAPS, B_HELLO_NICK_LEGACY, B_WELCOME_CAPS, B_WELCOME_HUB, B_WELCOME_LIMITS,
    B_WELCOME_VER, CAP_ACTION, CAP_DIRECT_NOTICE, CAP_RESOURCE_ENVELOPE, K_BODY, K_NICK, K_ROOM, K_T, SOFTWARE_VERSION, T_ERROR, T_HELLO, T_JOINED,
    T_NOTICE, T_PARTED, T_WELCOME,
};
use crate::outgoing::Out;
use crate::protocol::{field, integer_field, map_field, nick_of, text_field, FieldMap};
use crate::router::membership::{
    close_outs, closing, greeting, joined_draft, joining, parting, peers_on, touched,
};
use crate::router::rooms::modes;
use crate::router::{Hub, Turn, Work};
use crate::state::{
    close_notes, counted, empty_room, is_on, left_rooms, room_name, Counters, IdentityHash, LinkId,
    PartModel, RoomModel, RoomNameError, SessionModel, StateModel,
};
use super::effects::{
    differ_at, envelope, goes_to, law_error, law_notice, law_room_state, law_text, reads, refuses,
    utters,
};
use super::passing::{own_nick, same_but_nick, spoken_nick};
use vstd::prelude::*;

verus! {

broadcast use {group_collections, group_sequences};

/// A room that has just come into being has no members, no founder, nobody who operates it, speaks
/// in it, is banned from it or invited to it, no topic, no key, and no mode.
pub proof fn law_new_rooms_are_open()
    ensures
        empty_room() == (RoomModel {
            members: Seq::empty(),
            founder: None,
            operators: Seq::empty(),
            voiced: Seq::empty(),
            banned: Seq::empty(),
            invited: Seq::empty(),
            topic: None,
            key: None,
            registered: false,
            moderated: false,
            invite_only: false,
            private: false,
            topic_ops_only: false,
            no_outside_messages: false,
            last_used_ts: 0,
        }),
{
}

/// The room of a name, or a new one.
pub open spec fn found(hub: Hub, name: Seq<char>) -> RoomModel {
    if holds(hub.state.rooms, name) {
        at(hub.state.rooms, name)
    } else {
        empty_room()
    }
}

/// The text with which a join is refused, where it is: the link is in as many other rooms as it may
/// be, its identity is banned, the room is for the invited alone, or has another key. The founder,
/// the operators, and whoever has an invitation that has not expired need neither invitation nor
/// key.
pub open spec fn entry_refusal(
    hub: Hub,
    now: Nanos,
    link: LinkId,
    peer: IdentityHash,
    name: Seq<char>,
    key: Option<Seq<char>>,
) -> Option<Seq<char>> {
    let session = at(hub.state.sessions, link);
    let room = found(hub, name);
    let admitted = room.founder == Some(peer) || room.operators.contains(peer) || (holds(
        room.invited,
        peer,
    ) && at(room.invited, peer) > now);
    if !session.rooms.contains(name) && session.rooms.len() >= hub.config.max_rooms_per_session {
        Some("too many rooms"@)
    } else if room.banned.contains(peer) {
        Some("banned from room"@)
    } else if room.invite_only && !admitted {
        Some("invite-only (+i)"@)
    } else if room.key is Some && room.key != key && !admitted {
        Some("bad key (+k)"@)
    } else {
        None
    }
}

/// Whether a link gets an error, and no work on files is asked for.
pub open spec fn answers(
    identity: IdentityHash,
    done: Turn,
    link: LinkId,
    room: Option<Seq<char>>,
    text: Seq<char>,
) -> bool {
    &&& done.pending is None
    &&& done.outs.len() == 1
    &&& done.outs[0] is Packets
    &&& goes_to(done.outs[0], link)
    &&& reads(envelope(done.outs[0]), T_ERROR, identity, room, None, Some(Cbor::Text(text)))
}

/// What the list of members in an envelope is, where the hub gives it out.
pub open spec fn member_list(hub: Hub, members: Seq<Cbor>) -> Option<Cbor> {
    if hub.config.include_joined_member_list {
        Some(Cbor::Array(members))
    } else {
        None
    }
}

/// The identity on a link as a value, as a function.
pub open spec fn identity_on(
    sessions: Seq<(LinkId, SessionModel)>,
) -> spec_fn(LinkId) -> Option<Cbor> {
    |link: LinkId|
        if holds(sessions, link) && at(sessions, link).peer is Some {
            Some(Cbor::Bytes(at(sessions, link).peer->0@))
        } else {
            None
        }
}

proof fn lemma_peers(sessions: Seq<(LinkId, SessionModel)>, links: Seq<LinkId>)
    ensures
        peers_on(sessions, links) == gathered(links, identity_on(sessions)),
    decreases links.len(),
{
    if links.len() > 0 {
        lemma_peers(sessions, links.drop_last());
    } else {
        assert(gathered(links, identity_on(sessions)) =~= Seq::empty());
    }
}

/// What the new member of a room is told of it.
pub open spec fn introduction(name: Seq<char>, room: RoomModel) -> Seq<char> {
    "room "@ + name + ": "@ + (if room.registered {
        "registered"@
    } else {
        "unregistered"@
    }) + "; mode="@ + modes(room) + "; topic="@ + (if room.topic is Some {
        room.topic->0
    } else {
        "(none)"@
    })
}

/// A join that is refused changes no membership, and is answered with its reason. One that is not
/// puts the link into the room and the room among those of the link; whoever comes first to a room
/// without a founder founds it; an invitation is used up; and nothing else of the room changes, nor
/// of any other room or session. A registered room is saved.
#[verifier::rlimit(40)]
pub proof fn law_join(
    hub: Hub,
    now: Nanos,
    link: LinkId,
    peer: IdentityHash,
    fields: FieldMap,
    name: Seq<char>,
)
    requires
        holds(hub.state.sessions, link),
        text_field(fields, K_ROOM) is Some,
        room_name(text_field(fields, K_ROOM)->0, hub.config.max_room_name_bytes as nat) == Ok::<
            Seq<char>,
            RoomNameError,
        >(name),
    ensures
        ({
            let done = joining(hub, now, link, peer, fields);
            let nick = spoken_nick(hub, link, fields);
            let former = found(hub, name);
            let session = at(hub.state.sessions, link);
            let state = done.hub.state;
            match entry_refusal(hub, now, link, peer, name, text_field(fields, K_BODY)) {
                Some(text) => {
                    &&& answers(hub.identity, done, link, Some(name), text)
                    &&& same_but_nick(hub, done.hub, link, nick)
                },
                None => {
                    &&& holds(state.rooms, name)
                    &&& ({
                        let room = at(state.rooms, name);
                        &&& room.members == with(former.members, link)
                        &&& room.founder == if former.founder is None && former.members.len() == 0 {
                            Some(peer)
                        } else {
                            former.founder
                        }
                        &&& !holds(room.invited, peer)
                        &&& differ_at(former.invited, room.invited, peer)
                        &&& room == (RoomModel {
                            members: room.members,
                            founder: room.founder,
                            invited: room.invited,
                            last_used_ts: now,
                            ..former
                        })
                    })
                    &&& differ_at(hub.state.rooms, state.rooms, name)
                    &&& differ_at(hub.state.sessions, state.sessions, link)
                    &&& lookup(state.sessions, link) == Some(
                        SessionModel { nick, rooms: with(session.rooms, name), ..session },
                    )
                    &&& state.links_by_identity == hub.state.links_by_identity
                    &&& done.hub.config == hub.config
                    &&& done.hub.expected == hub.expected
                    &&& state.counters.joins == counted(hub.state.counters.joins, 1)
                    &&& done.pending is Some == former.registered
                    &&& done.pending is Some ==> done.pending->0.work == Work::SaveRooms
                },
            }
        }),
{
    let counters = hub.state.counters;
    let tried = crate::router::recounted(
        hub,
        Counters { joins: counted(counters.joins, 1), ..counters },
    );
    let named = Hub {
        state: crate::router::membership::nicked_if(
            tried.state,
            link,
            crate::router::membership::carried_nick(fields, hub.config.max_nick_bytes as nat),
        ),
        ..tried
    };
    assert forall|text: Seq<char>| refuses(
        named,
        #[trigger] crate::router::failing(named, link, Some(name), text),
        link,
        Some(name),
        text,
    ) by {
        law_error(named, link, Some(name), text);
    }
    let entered = Hub {
        state: crate::router::membership::joined_state(named.state, link, peer, name, now),
        ..named
    };
    let text = crate::router::membership::room_summary(
        name,
        crate::router::membership::room_or_empty(entered.state, name),
    );
    law_notice(entered, link, Some(name), text);
}

/// Whoever was in a room before a join hears of it, and of who has come: the nickname on the
/// joining link, and the joining identity where lists of members are given out. The joining link
/// hears that it is in, with the identities of all members where lists are given out, and then what
/// there is to know of the room.
#[verifier::rlimit(40)]
pub proof fn law_join_is_told(
    hub: Hub,
    now: Nanos,
    link: LinkId,
    peer: IdentityHash,
    fields: FieldMap,
    name: Seq<char>,
)
    requires
        holds(hub.state.sessions, link),
        text_field(fields, K_ROOM) is Some,
        room_name(text_field(fields, K_ROOM)->0, hub.config.max_room_name_bytes as nat) == Ok::<
            Seq<char>,
            RoomNameError,
        >(name),
        entry_refusal(hub, now, link, peer, name, text_field(fields, K_BODY)) is None,
    ensures
        ({
            let done = joining(hub, now, link, peer, fields);
            let nick = spoken_nick(hub, link, fields);
            let others = without(found(hub, name).members, link);
            let count = others.len() as int;
            let room = at(done.hub.state.rooms, name);
            &&& done.outs.len() > count
            &&& forall|i: int|
                0 <= i < count ==> {
                    let out = #[trigger] done.outs[i];
                    &&& goes_to(out, others[i])
                    &&& reads(
                        envelope(out),
                        T_JOINED,
                        hub.identity,
                        Some(name),
                        nick,
                        member_list(hub, seq![Cbor::Bytes(peer@)]),
                    )
                }
            &&& goes_to(done.outs[count], link)
            &&& reads(
                envelope(done.outs[count]),
                T_JOINED,
                hub.identity,
                Some(name),
                None,
                member_list(hub, gathered(room.members, identity_on(done.hub.state.sessions))),
            )
            &&& utters(
                done.outs.skip(count + 1),
                link,
                T_NOTICE,
                hub.identity,
                Some(name),
                None,
                introduction(name, room),
            )
        }),
{
    let counters = hub.state.counters;
    let tried = crate::router::recounted(
        hub,
        Counters { joins: counted(counters.joins, 1), ..counters },
    );
    let named = Hub {
        state: crate::router::membership::nicked_if(
            tried.state,
            link,
            crate::router::membership::carried_nick(fields, hub.config.max_nick_bytes as nat),
        ),
        ..tried
    };
    let entered = Hub {
        state: crate::router::membership::joined_state(named.state, link, peer, name, now),
        ..named
    };
    let nick = spoken_nick(hub, link, fields);
    let others = without(found(hub, name).members, link);
    let done = joining(hub, now, link, peer, fields);
    let room = at(entered.state.rooms, name);
    let text = crate::router::membership::room_summary(name, room);
    assert(crate::router::membership::room_or_empty(entered.state, name) == room);
    law_notice(entered, link, Some(name), text);
    let summary = crate::router::noticing(entered, link, Some(name), text);
    let notes = crate::router::membership::join_notes(entered, link, peer, name, others, nick);
    assert(at(named.state.sessions, link).nick == nick);
    assert(done.outs == notes + summary.outs);
    assert(done.outs.skip(others.len() as int + 1) =~= summary.outs);
    assert forall|i: int| 0 <= i < others.len() implies {
        let out = #[trigger] done.outs[i];
        &&& goes_to(out, others[i])
        &&& reads(
            envelope(out),
            T_JOINED,
            hub.identity,
            Some(name),
            nick,
            member_list(hub, seq![Cbor::Bytes(peer@)]),
        )
    } by {
        law_room_state(entered, others[i], name, joined_draft(entered, name, nick, peer));
        assert(done.outs[i] == notes[i]);
    }
    lemma_peers(entered.state.sessions, room.members);
    law_room_state(
        entered,
        link,
        name,
        crate::router::membership::own_joined_draft(entered, name, room.members),
    );
}

/// A JOIN or PART without a room, or with none that can be one, is refused.
pub proof fn law_join_needs_a_room(
    hub: Hub,
    now: Nanos,
    link: LinkId,
    peer: IdentityHash,
    fields: FieldMap,
)
    ensures
        text_field(fields, K_ROOM) is None ==> {
            &&& refuses(
                hub,
                joining(hub, now, link, peer, fields),
                link,
                None,
                "JOIN requires room name"@,
            )
            &&& refuses(
                hub,
                parting(hub, now, link, peer, fields),
                link,
                None,
                "PART requires room name"@,
            )
        },
        text_field(fields, K_ROOM) is Some ==> match room_name(
            text_field(fields, K_ROOM)->0,
            hub.config.max_room_name_bytes as nat,
        ) {
            Err(error) => {
                &&& refuses(
                    hub,
                    joining(hub, now, link, peer, fields),
                    link,
                    None,
                    crate::state::room_error_text(error),
                )
                &&& refuses(
                    hub,
                    parting(hub, now, link, peer, fields),
                    link,
                    None,
                    crate::state::room_error_text(error),
                )
            },
            Ok(_) => true,
        },
{
    assert forall|one: Hub, text: Seq<char>| refuses(
        one,
        #[trigger] crate::router::failing(one, link, None, text),
        link,
        None,
        text,
    ) by {
        law_error(one, link, None, text);
    }
}

/// Whether another of the links has the same identity.
pub open spec fn peer_stays(
    sessions: Seq<(LinkId, SessionModel)>,
    links: Seq<LinkId>,
    peer: IdentityHash,
) -> bool {
    exists|i: int|
        0 <= i < links.len() && holds(sessions, #[trigger] links[i]) && at(
            sessions,
            links[i],
        ).peer == Some(peer)
}

/// A PART takes the link out of the room and the room from those of the link, and changes nothing
/// else of the room but when it was used; the room goes once it is empty, unless it is registered,
/// and is then saved. The link hears that it has left, and so do those who stay, with the nickname
/// of who has left, unless the same identity is still there on another link.
#[verifier::rlimit(40)]
pub proof fn law_part(
    hub: Hub,
    now: Nanos,
    link: LinkId,
    peer: IdentityHash,
    fields: FieldMap,
    name: Seq<char>,
)
    requires
        holds(hub.state.sessions, link),
        text_field(fields, K_ROOM) is Some,
        room_name(text_field(fields, K_ROOM)->0, hub.config.max_room_name_bytes as nat) == Ok::<
            Seq<char>,
            RoomNameError,
        >(name),
    ensures
        ({
            let done = parting(hub, now, link, peer, fields);
            let state = done.hub.state;
            let session = at(hub.state.sessions, link);
            let former = at(hub.state.rooms, name);
            let others = if holds(hub.state.rooms, name) {
                without(former.members, link)
            } else {
                Seq::empty()
            };
            let list = member_list(hub, seq![Cbor::Bytes(peer@)]);
            &&& lookup(state.rooms, name) == if !holds(hub.state.rooms, name) || (others.len() == 0
                && !former.registered) {
                None
            } else {
                Some(RoomModel { members: others, last_used_ts: now, ..former })
            }
            &&& differ_at(hub.state.rooms, state.rooms, name)
            &&& differ_at(hub.state.sessions, state.sessions, link)
            &&& lookup(state.sessions, link) == Some(
                SessionModel { rooms: without(session.rooms, name), ..session },
            )
            &&& state.links_by_identity == hub.state.links_by_identity
            &&& state.links_by_nick == hub.state.links_by_nick
            &&& done.hub.config == hub.config
            &&& done.hub.expected == hub.expected
            &&& state.counters.parts == counted(hub.state.counters.parts, 1)
            &&& done.pending is Some == (holds(hub.state.rooms, name) && former.registered)
            &&& done.pending is Some ==> done.pending->0.work == Work::SaveRooms
            &&& done.outs.len() == 1
            &&& done.outs[0] is Packets
            &&& ({
                let parcels = done.outs[0]->Packets_0;
                let told = !peer_stays(state.sessions, others, peer);
                &&& parcels.len() == if told {
                    2int
                } else {
                    1int
                }
                &&& parcels[0].to == seq![link]
                &&& reads(parcels[0].fields, T_PARTED, hub.identity, Some(name), None, list)
                &&& told ==> parcels[1].to == others && reads(
                    parcels[1].fields,
                    T_PARTED,
                    hub.identity,
                    Some(name),
                    own_nick(hub, link),
                    list,
                )
            })
        }),
{
    let done = parting(hub, now, link, peer, fields);
    let others = crate::router::membership::stayed(hub.state, link, name);
    let sessions = done.hub.state.sessions;
    assert(crate::state::peer_among(sessions, others, peer) == peer_stays(
        sessions,
        others,
        peer,
    )) by {
        if crate::state::peer_among(sessions, others, peer) {
            let i = choose|i: int|
                0 <= i < others.len() && is_on(sessions, #[trigger] others[i], peer);
            assert(holds(sessions, others[i]));
        }
        if peer_stays(sessions, others, peer) {
            let i = choose|i: int|
                0 <= i < others.len() && holds(sessions, #[trigger] others[i]) && at(
                    sessions,
                    others[i],
                ).peer == Some(peer);
            assert(is_on(sessions, others[i], peer));
        }
    }
}

/// What becomes of a room when a link that was in it closes.
pub open spec fn deserted_room(room: RoomModel, link: LinkId) -> Option<RoomModel> {
    let others = without(room.members, link);
    if others.len() == 0 && !room.registered {
        None
    } else {
        Some(RoomModel { members: others, ..room })
    }
}

proof fn lemma_left(
    rooms: Seq<(Seq<char>, RoomModel)>,
    link: LinkId,
    names: Seq<Seq<char>>,
    name: Seq<char>,
)
    requires
        distinct(names),
    ensures
        lookup(left_rooms(rooms, link, names), name) == if names.contains(name) && holds(
            rooms,
            name,
        ) {
            deserted_room(at(rooms, name), link)
        } else {
            lookup(rooms, name)
        },
    decreases names.len(),
{
    if names.len() > 0 {
        let rest = names.drop_last();
        let last = names.last();
        lemma_prefix(names, name);
        lemma_left(rooms, link, rest, name);
        lemma_left(rooms, link, rest, last);
    }
}

proof fn lemma_prefix(names: Seq<Seq<char>>, name: Seq<char>)
    requires
        distinct(names),
        names.len() > 0,
    ensures
        distinct(names.drop_last()),
        !names.drop_last().contains(names.last()),
        names.contains(name) == (name == names.last() || names.drop_last().contains(name)),
{
    let rest = names.drop_last();
    assert forall|i: int, j: int| 0 <= i < j < rest.len() implies #[trigger] rest[i]
        != #[trigger] rest[j] by {
        assert(names[i] != names[j]);
    }
    if rest.contains(names.last()) {
        let i = choose|i: int| 0 <= i < rest.len() && rest[i] == names.last();
        assert(names[i] != names[names.len() - 1]);
    }
    if names.contains(name) {
        let i = choose|i: int| 0 <= i < names.len() && names[i] == name;
        if i < rest.len() {
            assert(rest[i] == name);
        }
    }
    if rest.contains(name) {
        let i = choose|i: int| 0 <= i < rest.len() && rest[i] == name;
        assert(names[i] == name);
    }
    assert(names[names.len() - 1] == names.last());
}

proof fn lemma_touched(
    rooms: Seq<(Seq<char>, RoomModel)>,
    names: Seq<Seq<char>>,
    now: Nanos,
    name: Seq<char>,
)
    requires
        distinct(names),
    ensures
        lookup(touched(rooms, names, now), name) == if names.contains(name) && holds(rooms, name) {
            Some(RoomModel { last_used_ts: now, ..at(rooms, name) })
        } else {
            lookup(rooms, name)
        },
    decreases names.len(),
{
    if names.len() > 0 {
        lemma_prefix(names, name);
        lemma_touched(rooms, names.drop_last(), now, name);
        lemma_touched(rooms, names.drop_last(), now, names.last());
    }
}

/// A link that closes loses its session, and what was announced on it is no longer waited for. It
/// leaves every room that it was in; such a room changes in nothing but its members and when it was
/// used, and goes once it is empty, unless it is registered. No other room and no other session
/// changes. Where one of its rooms is registered, the rooms are saved.
#[verifier::rlimit(40)]
pub proof fn law_close(hub: Hub, now: Nanos, link: LinkId, name: Seq<char>)
    requires
        holds(hub.state.sessions, link),
        distinct(at(hub.state.sessions, link).rooms),
    ensures
        ({
            let done = closing(hub, now, link);
            let state = done.hub.state;
            let session = at(hub.state.sessions, link);
            &&& !holds(state.sessions, link)
            &&& differ_at(hub.state.sessions, state.sessions, link)
            &&& !holds(done.hub.expected, link)
            &&& differ_at(hub.expected, done.hub.expected, link)
            &&& done.hub.config == hub.config
            &&& lookup(state.rooms, name) == if session.rooms.contains(name) && holds(
                hub.state.rooms,
                name,
            ) {
                deserted_room(
                    RoomModel { last_used_ts: now, ..at(hub.state.rooms, name) },
                    link,
                )
            } else {
                lookup(hub.state.rooms, name)
            }
            &&& done.pending is Some == exists|i: int|
                0 <= i < session.rooms.len() && holds(
                    hub.state.rooms,
                    #[trigger] session.rooms[i],
                ) && at(hub.state.rooms, session.rooms[i]).registered
            &&& done.pending is Some ==> done.pending->0.work == Work::SaveRooms
        }),
{
    let session = at(hub.state.sessions, link);
    lemma_touched(hub.state.rooms, session.rooms, now, name);
    lemma_left(touched(hub.state.rooms, session.rooms, now), link, session.rooms, name);
    if crate::router::membership::touches_registered(hub.state, session.rooms) {
        let i = choose|i: int|
            0 <= i < session.rooms.len() && crate::router::membership::registered_room(
                hub.state,
                #[trigger] session.rooms[i],
            );
        assert(holds(hub.state.rooms, session.rooms[i]));
    }
    if exists|i: int|
        0 <= i < session.rooms.len() && holds(hub.state.rooms, #[trigger] session.rooms[i]) && at(
            hub.state.rooms,
            session.rooms[i],
        ).registered {
        let i = choose|i: int|
            0 <= i < session.rooms.len() && holds(hub.state.rooms, #[trigger] session.rooms[i])
                && at(hub.state.rooms, session.rooms[i]).registered;
        assert(crate::router::membership::registered_room(hub.state, session.rooms[i]));
    }
}

proof fn lemma_close_outs(hub: Hub, notes: Seq<PartModel>, peer: IdentityHash)
    requires
        forall|i: int| 0 <= i < notes.len() ==> (#[trigger] notes[i]).peer == Some(peer),
    ensures
        close_outs(hub, notes).len() == notes.len(),
        forall|i: int|
            0 <= i < notes.len() ==> {
                let out = #[trigger] close_outs(hub, notes)[i];
                &&& out is Packets
                &&& out->Packets_0.len() == 1
                &&& out->Packets_0[0].to == notes[i].recipients
                &&& reads(
                    out->Packets_0[0].fields,
                    T_PARTED,
                    hub.identity,
                    Some(notes[i].room),
                    notes[i].nick,
                    member_list(hub, seq![Cbor::Bytes(peer@)]),
                )
            },
    decreases notes.len(),
{
    if notes.len() > 0 {
        let rest = notes.drop_last();
        assert forall|i: int| 0 <= i < rest.len() implies (#[trigger] rest[i]).peer == Some(
            peer,
        ) by {
            assert(notes[i].peer == Some(peer));
        }
        lemma_close_outs(hub, rest, peer);
        assert(notes[notes.len() - 1].peer == Some(peer));
        assert forall|i: int| 0 <= i < notes.len() implies {
            let out = #[trigger] close_outs(hub, notes)[i];
            &&& out is Packets
            &&& out->Packets_0.len() == 1
            &&& out->Packets_0[0].to == notes[i].recipients
            &&& reads(
                out->Packets_0[0].fields,
                T_PARTED,
                hub.identity,
                Some(notes[i].room),
                notes[i].nick,
                member_list(hub, seq![Cbor::Bytes(peer@)]),
            )
        } by {
            if i < rest.len() {
                assert(close_outs(hub, notes)[i] == close_outs(hub, rest)[i]);
            }
        }
    }
}

/// Whether one envelope tells links that an identity has left a room.
pub open spec fn tells_departure(
    hub: Hub,
    out: Out,
    to: Seq<LinkId>,
    name: Seq<char>,
    nick: Option<Seq<char>>,
    peer: IdentityHash,
) -> bool {
    &&& out is Packets
    &&& out->Packets_0.len() == 1
    &&& out->Packets_0[0].to == to
    &&& reads(
        out->Packets_0[0].fields,
        T_PARTED,
        hub.identity,
        Some(name),
        nick,
        member_list(hub, seq![Cbor::Bytes(peer@)]),
    )
}

/// Whether one envelope tells of a departure from some room.
pub open spec fn tells_some_departure(
    hub: Hub,
    out: Out,
    nick: Option<Seq<char>>,
    peer: IdentityHash,
) -> bool {
    exists|name: Seq<char>, to: Seq<LinkId>| #[trigger]
        tells_departure(hub, out, to, name, nick, peer)
}

/// Who stays in a room when a link leaves it.
pub open spec fn staying(hub: Hub, link: LinkId, name: Seq<char>) -> Seq<LinkId> {
    if holds(hub.state.rooms, name) {
        without(at(hub.state.rooms, name).members, link)
    } else {
        Seq::empty()
    }
}

/// Whether an identity is in a room on another link.
pub open spec fn stays_on_another(
    hub: Hub,
    link: LinkId,
    peer: IdentityHash,
    name: Seq<char>,
) -> bool {
    exists|other: LinkId|
        other != link && #[trigger] is_on(hub.state.sessions, other, peer) && at(
            hub.state.sessions,
            other,
        ).rooms.contains(name)
}

/// Whether some of what is said tells those who stay in a room of a departure.
pub open spec fn departure_told(
    hub: Hub,
    outs: Seq<Out>,
    to: Seq<LinkId>,
    name: Seq<char>,
    nick: Option<Seq<char>>,
    peer: IdentityHash,
) -> bool {
    exists|i: int|
        0 <= i < outs.len() && tells_departure(hub, #[trigger] outs[i], to, name, nick, peer)
}

/// When a link closes, those who stay in a room that it was in hear from the hub that its identity
/// has left, and its last nickname, unless the same identity is still in the room on another link.
/// Nothing else is said.
#[verifier::rlimit(40)]
pub proof fn law_close_is_told(
    hub: Hub,
    now: Nanos,
    link: LinkId,
    peer: IdentityHash,
    name: Seq<char>,
)
    requires
        super::sound::sound(hub.state),
        is_on(hub.state.sessions, link, peer),
    ensures
        departure_told(
            hub,
            closing(hub, now, link).outs,
            staying(hub, link, name),
            name,
            at(hub.state.sessions, link).nick,
            peer,
        ) == (at(hub.state.sessions, link).rooms.contains(name) && staying(hub, link, name).len()
            > 0 && !stays_on_another(hub, link, peer, name)),
        forall|i: int|
            0 <= i < closing(hub, now, link).outs.len() ==> tells_some_departure(
                hub,
                #[trigger] closing(hub, now, link).outs[i],
                at(hub.state.sessions, link).nick,
                peer,
            ),
{
    let session = at(hub.state.sessions, link);
    let used = StateModel {
        rooms: touched(hub.state.rooms, session.rooms, now),
        ..hub.state
    };
    super::steps::law_touched_is_sound(hub.state, session.rooms, now);
    super::speech::law_close_tells_departure(used, link, peer, name);
    lemma_touched(hub.state.rooms, session.rooms, now, name);
    let notes = close_notes(used, link);
    let outs = closing(hub, now, link).outs;
    assert(outs == close_outs(hub, notes));
    lemma_close_outs(hub, notes, peer);
    let others = staying(hub, link, name);
    assert(crate::router::rooms::members_of(used, name)
        == crate::router::rooms::members_of(hub.state, name));
    assert(without(crate::router::rooms::members_of(used, name), link) =~= others);
    if super::speech::notes_departure(notes, name) {
        let i = choose|i: int| 0 <= i < notes.len() && (#[trigger] notes[i]).room == name;
        assert(tells_departure(hub, outs[i], others, name, session.nick, peer));
    }
    if departure_told(hub, outs, others, name, session.nick, peer) {
        let i = choose|i: int|
            0 <= i < outs.len() && tells_departure(
                hub,
                #[trigger] outs[i],
                others,
                name,
                session.nick,
                peer,
            );
        assert(outs[i] == close_outs(hub, notes)[i]);
        assert(notes[i].room == name);
    }
    assert forall|i: int| 0 <= i < outs.len() implies tells_some_departure(
        hub,
        #[trigger] outs[i],
        session.nick,
        peer,
    ) by {
        assert(outs[i] == close_outs(hub, notes)[i]);
        assert(tells_departure(
            hub,
            outs[i],
            notes[i].recipients,
            notes[i].room,
            session.nick,
            peer,
        ));
    }
    if stays_on_another(hub, link, peer, name) {
        let other = choose|other: LinkId|
            other != link && #[trigger] is_on(hub.state.sessions, other, peer) && at(
                hub.state.sessions,
                other,
            ).rooms.contains(name);
        assert(crate::router::moderation::is_in(used, other, name) && is_on(
            used.sessions,
            other,
            peer,
        ));
    } else {
        assert forall|other: LinkId| other != link && #[trigger] is_on(
            used.sessions,
            other,
            peer,
        ) implies !crate::router::moderation::is_in(used, other, name) by {}
    }
}

/// The nickname that a HELLO brings: the one in its own field, or else in its body, where that is
/// accepted.
pub open spec fn brought_nick(hub: Hub, fields: FieldMap) -> Option<Seq<char>> {
    let max = hub.config.max_nick_bytes as nat;
    if text_field(fields, K_NICK) is Some {
        nick_of(text_field(fields, K_NICK)->0, max)
    } else if map_field(fields, K_BODY) is Some && text_field(
        map_field(fields, K_BODY)->0,
        B_HELLO_NICK_LEGACY,
    ) is Some {
        nick_of(text_field(map_field(fields, K_BODY)->0, B_HELLO_NICK_LEGACY)->0, max)
    } else {
        None
    }
}

/// Whether the body of a WELCOME names the hub and its version, what the hub supports, and the
/// limits that it keeps.
pub open spec fn welcomes(hub: Hub, body: FieldMap) -> bool {
    let caps = map_field(body, B_WELCOME_CAPS)->0;
    let limits = map_field(body, B_WELCOME_LIMITS)->0;
    &&& field(body, B_WELCOME_HUB) == Some(Cbor::Text(hub.config.hub_name))
    &&& field(body, B_WELCOME_VER) == Some(Cbor::Text(SOFTWARE_VERSION@))
    &&& map_field(body, B_WELCOME_CAPS) is Some
    &&& map_field(body, B_WELCOME_LIMITS) is Some
    &&& field(caps, hub.extensions.room_state) == Some(Cbor::Bool(true))
    &&& field(caps, hub.extensions.user_list) == Some(Cbor::Bool(true))
    &&& field(caps, CAP_ACTION) == Some(Cbor::Bool(true))
    &&& field(caps, CAP_DIRECT_NOTICE) == Some(Cbor::Bool(true))
    &&& hub.config.enable_resource_transfer ==> field(caps, CAP_RESOURCE_ENVELOPE) == Some(
        Cbor::Bool(true),
    )
    &&& forall|key: i128|
        key != hub.extensions.room_state && key != hub.extensions.user_list && key != CAP_ACTION
            && key != CAP_DIRECT_NOTICE && (key != CAP_RESOURCE_ENVELOPE
            || !hub.config.enable_resource_transfer) ==> #[trigger] field(caps, key) is None
    &&& field(limits, 0) == Some(Cbor::Integer(hub.config.max_nick_bytes as int))
    &&& field(limits, 1) == Some(Cbor::Integer(hub.config.max_room_name_bytes as int))
    &&& field(limits, 2) == Some(Cbor::Integer(hub.config.max_msg_body_bytes as int))
    &&& field(limits, 3) == Some(Cbor::Integer(hub.config.max_rooms_per_session as int))
    &&& field(limits, 4) == Some(Cbor::Integer(hub.config.rate_limit_msgs_per_minute as int))
}

/// A HELLO is answered with a WELCOME that says who the hub is, what it supports and which limits
/// it keeps, and then with the greeting where there is one. The link is then welcome, has the
/// nickname that it brings where that is accepted, and the capabilities that it announces; nothing
/// else changes.
#[verifier::rlimit(40)]
pub proof fn law_hello(hub: Hub, link: LinkId, fields: FieldMap)
    requires
        integer_field(fields, K_T) == Some(T_HELLO),
        holds(hub.state.sessions, link),
    ensures
        ({
            let done = greeting(hub, link, fields);
            let session = at(hub.state.sessions, link);
            let state = done.hub.state;
            let brought = brought_nick(hub, fields);
            let body = map_field(fields, K_BODY)->0;
            let announces = map_field(fields, K_BODY) is Some && map_field(body, B_HELLO_CAPS)
                is Some;
            &&& done.outs.len() >= 1
            &&& done.outs[0] is Packets
            &&& goes_to(done.outs[0], link)
            &&& map_field(envelope(done.outs[0]), K_BODY) is Some
            &&& reads(
                envelope(done.outs[0]),
                T_WELCOME,
                hub.identity,
                None,
                None,
                field(envelope(done.outs[0]), K_BODY),
            )
            &&& welcomes(hub, map_field(envelope(done.outs[0]), K_BODY)->0)
            &&& match hub.config.greeting {
                None => done.outs.len() == 1,
                Some(text) => utters(
                    done.outs.skip(1),
                    link,
                    T_NOTICE,
                    hub.identity,
                    None,
                    None,
                    text,
                ),
            }
            &&& done.pending is None
            &&& state.rooms == hub.state.rooms
            &&& state.links_by_identity == hub.state.links_by_identity
            &&& done.hub.config == hub.config
            &&& done.hub.expected == hub.expected
            &&& differ_at(hub.state.sessions, state.sessions, link)
            &&& lookup(state.sessions, link) == Some(
                SessionModel {
                    welcomed: true,
                    nick: if brought is Some {
                        brought
                    } else {
                        session.nick
                    },
                    peer_caps: if announces {
                        crate::cbor::switches(map_field(body, B_HELLO_CAPS)->0)
                    } else {
                        session.peer_caps
                    },
                    ..session
                },
            )
        }),
{
    let done = greeting(hub, link, fields);
    let named = crate::router::membership::nicked_if(
        hub.state,
        link,
        crate::router::membership::hello_nick(fields, hub.config.max_nick_bytes as nat),
    );
    let known = Hub {
        state: crate::router::membership::welcomed(named, link, fields),
        ..hub
    };
    match hub.config.greeting {
        None => {},
        Some(text) => {
            law_text(known, link, hub.identity, None, None, "motd"@, text);
            super::effects::law_kinds("motd"@);
            assert(done.outs.skip(1) =~= crate::router::telling(
                known,
                link,
                hub.identity,
                None,
                None,
                "motd"@,
                text,
            ).outs);
        },
    }
}

} // verus!
