//! The steps that change sessions, rooms or indexes, and that each keeps the invariant.

use crate::clock::Nanos;
use crate::collections::{
    at, distinct, dropped, group_collections, group_sequences, holds, kept, lemma_distinct_with,
    lemma_distinct_without, lemma_unique_dropped, lemma_unique_put, lookup, put, unique, with,
    without,
};
use crate::router::admin::merged;
use crate::router::liveness::{being_valid, lasting, pinged_all, uninvited, uninvited_all};
use crate::router::membership::{
    joined_room, joined_state, parted_rooms, parted_state, room_or_empty, touched,
};
use crate::router::moderation::{evicted, is_in};
use crate::router::rooms::members_of;
use crate::state::{
    closed, established, identified, is_on, left_room, left_rooms, new_session, nick_added,
    nick_dropped, nick_on, nicked, other_link, released, swept, IdentityHash, LinkId, RoomModel,
    SessionModel, StateModel,
};
use crate::text::lowercase;
use super::sound::{
    has_nick, identities_agree, lemma_other_link, lemma_same_view, lemma_unique_kept, nick_listed,
    orderly, sound,
};
use vstd::prelude::*;

verus! {

broadcast use {group_collections, group_sequences};

/// A new session keeps the invariant.
pub proof fn law_established_is_sound(state: StateModel, link: LinkId, rate: u32, now: Nanos)
    requires
        sound(state),
    ensures
        sound(established(state, link, rate, now)),
{
    let after = established(state, link, rate, now);
    if !holds(state.sessions, link) {
        lemma_unique_put(state.sessions, link, new_session(rate, now));
        assert forall|other: LinkId, name: Seq<char>| #[trigger]
            is_in(after, other, name) == members_of(after, name).contains(other) by {
            assert(is_in(state, other, name) == members_of(state, name).contains(other));
        }
        assert forall|name: Seq<char>| distinct(#[trigger] members_of(after, name)) by {
            assert(distinct(members_of(state, name)));
        }
        assert forall|other: LinkId| #[trigger] holds(after.sessions, other) implies distinct(
            at(after.sessions, other).rooms,
        ) by {
            if other != link {
                assert(holds(state.sessions, other));
            }
        }
        assert forall|other: LinkId, peer: IdentityHash| #[trigger]
            is_on(after.sessions, other, peer) == is_on(state.sessions, other, peer) by {}
        assert forall|peer: IdentityHash| #[trigger]
            holds(after.links_by_identity, peer) implies is_on(
            after.sessions,
            at(after.links_by_identity, peer),
            peer,
        ) by {
            assert(holds(state.links_by_identity, peer));
            assert(is_on(state.sessions, at(state.links_by_identity, peer), peer));
        }
        assert forall|key: Seq<char>, other: LinkId| #[trigger]
            nick_listed(after.links_by_nick, key, other) == has_nick(after, key, other) by {
            assert(nick_listed(state.links_by_nick, key, other) == has_nick(state, key, other));
        }
    }
}

/// Releasing a link that no longer is the peer's restores the index of identities.
proof fn lemma_released(state: StateModel, peer: IdentityHash, link: LinkId)
    requires
        unique(state.sessions),
        forall|other: IdentityHash| #[trigger]
            holds(state.links_by_identity, other) ==> is_on(
                state.sessions,
                at(state.links_by_identity, other),
                other,
            ) || (other == peer && at(state.links_by_identity, other) == link),
        forall|other: LinkId, one: IdentityHash| #[trigger]
            is_on(state.sessions, other, one) ==> holds(state.links_by_identity, one),
        !is_on(state.sessions, link, peer),
    ensures
        identities_agree(released(state, peer, link)),
{
    let after = released(state, peer, link);
    lemma_other_link(state.sessions, peer, link);
    assert forall|other: IdentityHash| #[trigger]
        holds(after.links_by_identity, other) implies is_on(
        after.sessions,
        at(after.links_by_identity, other),
        other,
    ) by {
        if other != peer {
            assert(holds(state.links_by_identity, other));
        } else {
            assert(holds(state.links_by_identity, peer));
        }
    }
    assert forall|other: LinkId, one: IdentityHash| #[trigger]
        is_on(after.sessions, other, one) implies holds(after.links_by_identity, one) by {
        assert(is_on(state.sessions, other, one));
    }
}

/// Identifying a link keeps the invariant.
pub proof fn law_identified_is_sound(state: StateModel, link: LinkId, peer: IdentityHash)
    requires
        sound(state),
    ensures
        sound(identified(state, link, peer)),
{
    let after = identified(state, link, peer);
    match lookup(state.sessions, link) {
        None => {},
        Some(session) => {
            let renewed = SessionModel { peer: Some(peer), ..session };
            lemma_unique_put(state.sessions, link, renewed);
            assert forall|other: LinkId, name: Seq<char>| #[trigger]
                is_in(after, other, name) == members_of(after, name).contains(other) by {
                assert(is_in(state, other, name) == members_of(state, name).contains(other));
            }
            assert forall|name: Seq<char>| distinct(#[trigger] members_of(after, name)) by {
                assert(distinct(members_of(state, name)));
            }
            assert forall|other: LinkId| #[trigger] holds(after.sessions, other) implies distinct(
                at(after.sessions, other).rooms,
            ) by {
                assert(holds(state.sessions, other));
            }
            assert forall|key: Seq<char>, other: LinkId| #[trigger]
                nick_listed(after.links_by_nick, key, other) == has_nick(after, key, other) by {
                assert(nick_listed(state.links_by_nick, key, other) == has_nick(state, key, other));
            }
            lemma_identified_index(state, link, peer, session);
        },
    }
}

proof fn lemma_identified_index(
    state: StateModel,
    link: LinkId,
    peer: IdentityHash,
    session: SessionModel,
)
    requires
        sound(state),
        lookup(state.sessions, link) == Some(session),
    ensures
        identities_agree(identified(state, link, peer)),
{
    let after = identified(state, link, peer);
    let index = after.links_by_identity;
    assert forall|other: IdentityHash| #[trigger] holds(index, other) implies is_on(
        after.sessions,
        at(index, other),
        other,
    ) by {
        if other != peer {
            match session.peer {
                Some(former) => {
                    if former != peer && former == other && lookup(
                        state.links_by_identity,
                        former,
                    ) == Some(link) {
                        lemma_other_link(state.sessions, former, link);
                        let found = other_link(state.sessions, former, link)->0;
                        assert(is_on(state.sessions, found, former));
                    } else {
                        assert(holds(state.links_by_identity, other));
                        assert(is_on(
                            state.sessions,
                            at(state.links_by_identity, other),
                            other,
                        ));
                    }
                },
                None => {
                    assert(holds(state.links_by_identity, other));
                    assert(is_on(state.sessions, at(state.links_by_identity, other), other));
                },
            }
        }
    }
    assert forall|other: LinkId, one: IdentityHash| #[trigger]
        is_on(after.sessions, other, one) implies holds(index, one) by {
        if one != peer {
            assert(is_on(state.sessions, other, one));
            assert(other != link);
            assert(holds(state.links_by_identity, one));
            match session.peer {
                Some(former) => {
                    if former != peer && former == one {
                        lemma_other_link(state.sessions, former, link);
                    }
                },
                None => {},
            }
        }
    }
}

/// What the index of nicknames lists once a link is dropped from it.
proof fn lemma_nick_dropped(
    index: Seq<(Seq<char>, Seq<LinkId>)>,
    nick: Option<Seq<char>>,
    link: LinkId,
    key: Seq<char>,
    other: LinkId,
)
    ensures
        nick_listed(nick_dropped(index, nick, link), key, other) == (nick_listed(index, key, other)
            && !(other == link && nick is Some && lowercase(nick->0) == key)),
{
    match nick {
        None => {},
        Some(nick) => {
            let folded = lowercase(nick);
            match lookup(index, folded) {
                None => {},
                Some(links) => {
                    let rest = without(links, link);
                    if key == folded {
                        assert(rest.contains(other) == (other != link && links.contains(other)));
                        if rest.len() == 0 {
                            assert(!rest.contains(other));
                        }
                    }
                },
            }
        },
    }
}

/// What the index of nicknames lists once a link is added to it.
proof fn lemma_nick_added(
    index: Seq<(Seq<char>, Seq<LinkId>)>,
    nick: Option<Seq<char>>,
    link: LinkId,
    key: Seq<char>,
    other: LinkId,
)
    ensures
        nick_listed(nick_added(index, nick, link), key, other) == (nick_listed(index, key, other)
            || (other == link && nick is Some && lowercase(nick->0) == key)),
{
}

/// A change of nickname keeps the invariant.
pub proof fn law_nicked_is_sound(state: StateModel, link: LinkId, nick: Option<Seq<char>>)
    requires
        sound(state),
        holds(state.sessions, link),
    ensures
        sound(nicked(state, link, nick)),
{
    let after = nicked(state, link, nick);
    let session = at(state.sessions, link);
    lemma_unique_put(state.sessions, link, SessionModel { nick, ..session });
    assert forall|other: LinkId, name: Seq<char>| #[trigger]
        is_in(after, other, name) == members_of(after, name).contains(other) by {
        assert(is_in(state, other, name) == members_of(state, name).contains(other));
    }
    assert forall|name: Seq<char>| distinct(#[trigger] members_of(after, name)) by {
        assert(distinct(members_of(state, name)));
    }
    assert forall|other: LinkId| #[trigger] holds(after.sessions, other) implies distinct(
        at(after.sessions, other).rooms,
    ) by {
        assert(holds(state.sessions, other));
    }
    assert forall|other: LinkId, peer: IdentityHash| #[trigger]
        is_on(after.sessions, other, peer) == is_on(state.sessions, other, peer) by {}
    assert forall|peer: IdentityHash| #[trigger] holds(after.links_by_identity, peer) implies is_on(
        after.sessions,
        at(after.links_by_identity, peer),
        peer,
    ) by {
        assert(is_on(state.sessions, at(state.links_by_identity, peer), peer));
    }
    assert forall|key: Seq<char>, other: LinkId| #[trigger]
        nick_listed(after.links_by_nick, key, other) == has_nick(after, key, other) by {
        assert(nick_listed(state.links_by_nick, key, other) == has_nick(state, key, other));
        let former = nick_on(state, link);
        lemma_nick_dropped(state.links_by_nick, former, link, key, other);
        lemma_nick_added(
            nick_dropped(state.links_by_nick, former, link),
            nick,
            link,
            key,
            other,
        );
    }
}

/// A change of one room's members and of one session's rooms that agree with each other keeps the
/// invariant.
proof fn lemma_sound_move(
    state: StateModel,
    after: StateModel,
    link: LinkId,
    name: Seq<char>,
)
    requires
        sound(state),
        unique(after.sessions),
        unique(after.rooms),
        orderly(after.rooms),
        after.links_by_identity == state.links_by_identity,
        after.links_by_nick == state.links_by_nick,
        forall|other: LinkId| #[trigger]
            holds(after.sessions, other) == holds(state.sessions, other),
        forall|other: LinkId| #[trigger]
            holds(after.sessions, other) ==> {
                let a = at(after.sessions, other);
                let b = at(state.sessions, other);
                a.peer == b.peer && a.nick == b.nick && (other != link ==> a.rooms == b.rooms)
            },
        holds(state.sessions, link) ==> distinct(at(after.sessions, link).rooms),
        holds(state.sessions, link) ==> forall|one: Seq<char>| #[trigger]
            at(after.sessions, link).rooms.contains(one) == if one == name {
                members_of(after, name).contains(link)
            } else {
                at(state.sessions, link).rooms.contains(one)
            },
        forall|one: Seq<char>| one != name ==> #[trigger] members_of(after, one) == members_of(
            state,
            one,
        ),
        distinct(members_of(after, name)),
        forall|other: LinkId| other != link ==> #[trigger] members_of(after, name).contains(other)
            == members_of(state, name).contains(other),
        !holds(state.sessions, link) ==> !members_of(after, name).contains(link),
    ensures
        sound(after),
{
    assert forall|other: LinkId, one: Seq<char>| #[trigger]
        is_in(after, other, one) == members_of(after, one).contains(other) by {
        assert(is_in(state, other, one) == members_of(state, one).contains(other));
        assert(holds(after.sessions, other) == holds(state.sessions, other));
        if other == link && holds(state.sessions, link) {
            assert(at(after.sessions, link).rooms.contains(one) == if one == name {
                members_of(after, name).contains(link)
            } else {
                at(state.sessions, link).rooms.contains(one)
            });
        }
        if one == name && other != link {
            assert(members_of(after, name).contains(other) == members_of(state, name).contains(
                other,
            ));
        }
    }
    assert forall|one: Seq<char>| distinct(#[trigger] members_of(after, one)) by {
        assert(distinct(members_of(state, one)));
    }
    assert forall|other: LinkId| #[trigger] holds(after.sessions, other) implies distinct(
        at(after.sessions, other).rooms,
    ) by {
        assert(holds(state.sessions, other));
    }
    assert forall|other: LinkId, peer: IdentityHash| #[trigger]
        is_on(after.sessions, other, peer) == is_on(state.sessions, other, peer) by {
        assert(holds(after.sessions, other) == holds(state.sessions, other));
    }
    assert forall|peer: IdentityHash| #[trigger] holds(after.links_by_identity, peer) implies is_on(
        after.sessions,
        at(after.links_by_identity, peer),
        peer,
    ) by {
        assert(is_on(state.sessions, at(state.links_by_identity, peer), peer));
    }
    assert forall|key: Seq<char>, other: LinkId| #[trigger]
        nick_listed(after.links_by_nick, key, other) == has_nick(after, key, other) by {
        assert(nick_listed(state.links_by_nick, key, other) == has_nick(state, key, other));
        assert(holds(after.sessions, other) == holds(state.sessions, other));
    }
}

/// Joining a room keeps the invariant.
pub proof fn law_joined_is_sound(
    state: StateModel,
    link: LinkId,
    peer: IdentityHash,
    name: Seq<char>,
    now: Nanos,
)
    requires
        sound(state),
        holds(state.sessions, link),
    ensures
        sound(joined_state(state, link, peer, name, now)),
{
    let after = joined_state(state, link, peer, name, now);
    let session = at(state.sessions, link);
    let room = room_or_empty(state, name);
    assert(room.members == members_of(state, name));
    lemma_unique_put(
        state.sessions,
        link,
        SessionModel { rooms: with(session.rooms, name), ..session },
    );
    lemma_unique_put(state.rooms, name, joined_room(room, link, peer, now));
    assert(unique(room.invited));
    lemma_unique_dropped(room.invited, peer);
    lemma_distinct_with(session.rooms, name);
    assert(distinct(members_of(state, name)));
    lemma_distinct_with(room.members, link);
    lemma_sound_move(state, after, link, name);
}

/// Sweeping away an empty room changes no members.
proof fn lemma_swept(rooms: Seq<(Seq<char>, RoomModel)>, name: Seq<char>)
    requires
        unique(rooms),
    ensures
        unique(swept(rooms, name)),
        forall|state: StateModel, one: Seq<char>|
            state.rooms == rooms ==> #[trigger] members_of(
                (StateModel { rooms: swept(rooms, name), ..state }),
                one,
            ) == members_of(state, one),
{
    lemma_unique_dropped(rooms, name);
    assert forall|state: StateModel, one: Seq<char>| state.rooms == rooms implies #[trigger] members_of(
        (StateModel { rooms: swept(rooms, name), ..state }),
        one,
    ) == members_of(state, one) by {
        if one == name && holds(rooms, name) && at(rooms, name).members.len() == 0 {
            assert(at(rooms, name).members =~= Seq::empty());
        }
    }
}

/// Leaving a room keeps the invariant.
pub proof fn law_parted_is_sound(state: StateModel, link: LinkId, name: Seq<char>, now: Nanos)
    requires
        sound(state),
    ensures
        sound(parted_state(state, link, name, now)),
{
    let after = parted_state(state, link, name, now);
    let rooms = parted_rooms(state, link, name, now);
    let unswept = StateModel { rooms, sessions: after.sessions, ..state };
    assert(distinct(members_of(state, name)));
    if holds(state.rooms, name) {
        let room = at(state.rooms, name);
        lemma_unique_put(
            state.rooms,
            name,
            RoomModel { members: without(room.members, link), last_used_ts: now, ..room },
        );
        lemma_distinct_without(room.members, link);
    }
    lemma_swept(rooms, name);
    assert forall|one: Seq<char>| #[trigger] members_of(after, one) == members_of(
        unswept,
        one,
    ) by {
        assert(after == (StateModel { rooms: swept(rooms, name), ..unswept }));
    }
    assert(members_of(unswept, name) == without(members_of(state, name), link)) by {
        if !holds(state.rooms, name) {
            assert(without(Seq::<LinkId>::empty(), link) =~= Seq::empty());
        }
    }
    assert(is_in(state, link, name) == members_of(state, name).contains(link));
    if holds(state.sessions, link) {
        let session = at(state.sessions, link);
        lemma_unique_put(
            state.sessions,
            link,
            SessionModel { rooms: without(session.rooms, name), ..session },
        );
        lemma_distinct_without(session.rooms, name);
    }
    assert forall|one: Seq<char>| one != name implies #[trigger] members_of(after, one)
        == members_of(state, one) by {
        assert(members_of(after, one) == members_of(unswept, one));
    }
    lemma_sound_move(state, after, link, name);
}

/// Putting a link out of a room keeps the invariant.
pub proof fn law_evicted_is_sound(state: StateModel, link: LinkId, name: Seq<char>)
    requires
        sound(state),
    ensures
        sound(evicted(state, link, name)),
{
    let after = evicted(state, link, name);
    assert(distinct(members_of(state, name)));
    if holds(state.rooms, name) {
        let room = at(state.rooms, name);
        lemma_unique_put(
            state.rooms,
            name,
            RoomModel { members: without(room.members, link), ..room },
        );
        lemma_distinct_without(room.members, link);
    }
    assert(members_of(after, name) == without(members_of(state, name), link)) by {
        if !holds(state.rooms, name) {
            assert(without(Seq::<LinkId>::empty(), link) =~= Seq::empty());
        }
    }
    if holds(state.sessions, link) {
        let session = at(state.sessions, link);
        lemma_unique_put(
            state.sessions,
            link,
            SessionModel { rooms: without(session.rooms, name), ..session },
        );
        lemma_distinct_without(session.rooms, name);
    }
    lemma_sound_move(state, after, link, name);
}

/// Who is in which room once a link has left some of them.
pub proof fn lemma_left_rooms(
    state: StateModel,
    link: LinkId,
    names: Seq<Seq<char>>,
)
    requires
        unique(state.rooms),
        orderly(state.rooms),
        forall|name: Seq<char>| distinct(#[trigger] members_of(state, name)),
    ensures
        unique(left_rooms(state.rooms, link, names)),
        orderly(left_rooms(state.rooms, link, names)),
        forall|name: Seq<char>|
            #![trigger members_of((StateModel { rooms: left_rooms(state.rooms, link, names), ..state }), name)]
            {
                let after = StateModel { rooms: left_rooms(state.rooms, link, names), ..state };
                &&& distinct(members_of(after, name))
                &&& names.contains(name) ==> members_of(after, name) == without(
                    members_of(state, name),
                    link,
                )
                &&& !names.contains(name) ==> members_of(after, name) == members_of(state, name)
            },
    decreases names.len(),
{
    if names.len() > 0 {
        let rest = names.drop_last();
        let name = names.last();
        lemma_left_rooms(state, link, rest);
        let before = StateModel { rooms: left_rooms(state.rooms, link, rest), ..state };
        let after = StateModel { rooms: left_rooms(state.rooms, link, names), ..state };
        assert(after.rooms == left_room(before.rooms, link, name));
        if holds(before.rooms, name) {
            let room = at(before.rooms, name);
            let put_out = RoomModel { members: without(room.members, link), ..room };
            lemma_unique_put(before.rooms, name, put_out);
            lemma_swept(put(before.rooms, name, put_out), name);
            let unswept = StateModel { rooms: put(before.rooms, name, put_out), ..state };
            assert forall|one: Seq<char>| #[trigger] members_of(after, one) == members_of(
                unswept,
                one,
            ) by {
                assert(after == (StateModel {
                    rooms: swept(put(before.rooms, name, put_out), name),
                    ..unswept
                }));
            }
        }
        assert forall|one: Seq<char>| #[trigger] names.contains(one) == (one == name
            || rest.contains(one)) by {
            if names.contains(one) && one != name {
                let i = choose|i: int| 0 <= i < names.len() && names[i] == one;
                assert(rest[i] == one);
            }
            if rest.contains(one) {
                let i = choose|i: int| 0 <= i < rest.len() && rest[i] == one;
                assert(names[i] == one);
            }
            assert(names[names.len() - 1] == name);
        }
        assert forall|one: Seq<char>| {
            &&& distinct(#[trigger] members_of(after, one))
            &&& names.contains(one) ==> members_of(after, one) == without(
                members_of(state, one),
                link,
            )
            &&& !names.contains(one) ==> members_of(after, one) == members_of(state, one)
        } by {
            let now_in = members_of(before, one);
            assert(distinct(now_in));
            assert(distinct(members_of(state, one)));
            lemma_distinct_without(now_in, link);
            lemma_distinct_without(members_of(state, one), link);
            lemma_without_twice(members_of(state, one), link);
            if one == name && !holds(before.rooms, name) {
                assert(now_in =~= Seq::empty());
                assert(without(now_in, link) =~= Seq::empty());
            }
        }
    }
}

proof fn lemma_without_twice<T>(items: Seq<T>, item: T)
    ensures
        without(without(items, item), item) == without(items, item),
    decreases items.len(),
{
    if items.len() > 0 {
        lemma_without_twice(items.drop_last(), item);
    }
}

/// Closing a link keeps the invariant.
pub proof fn law_closed_is_sound(state: StateModel, link: LinkId)
    requires
        sound(state),
    ensures
        sound(closed(state, link)),
{
    let after = closed(state, link);
    match lookup(state.sessions, link) {
        None => {},
        Some(session) => {
            lemma_unique_dropped(state.sessions, link);
            lemma_left_rooms(state, link, session.rooms);
            let moved = StateModel {
                rooms: left_rooms(state.rooms, link, session.rooms),
                ..state
            };
            assert forall|name: Seq<char>| #[trigger] members_of(after, name) == members_of(
                moved,
                name,
            ) by {}
            assert forall|other: LinkId, name: Seq<char>| #[trigger]
                is_in(after, other, name) == members_of(after, name).contains(other) by {
                assert(is_in(state, other, name) == members_of(state, name).contains(other));
                assert(is_in(state, link, name) == members_of(state, name).contains(link));
                assert(members_of(after, name) == members_of(moved, name));
            }
            assert forall|name: Seq<char>| distinct(#[trigger] members_of(after, name)) by {
                assert(distinct(members_of(moved, name)));
            }
            assert forall|other: LinkId| #[trigger] holds(after.sessions, other) implies distinct(
                at(after.sessions, other).rooms,
            ) by {
                assert(holds(state.sessions, other));
            }
            assert forall|key: Seq<char>, other: LinkId| #[trigger]
                nick_listed(after.links_by_nick, key, other) == has_nick(after, key, other) by {
                assert(nick_listed(state.links_by_nick, key, other) == has_nick(state, key, other));
                lemma_nick_dropped(state.links_by_nick, session.nick, link, key, other);
            }
            lemma_closed_index(state, link, session);
        },
    }
}

proof fn lemma_closed_index(state: StateModel, link: LinkId, session: SessionModel)
    requires
        sound(state),
        lookup(state.sessions, link) == Some(session),
    ensures
        identities_agree(closed(state, link)),
{
    let after = closed(state, link);
    let gone = StateModel { sessions: dropped(state.sessions, link), ..state };
    lemma_unique_dropped(state.sessions, link);
    assert forall|other: LinkId, one: IdentityHash| #[trigger]
        is_on(gone.sessions, other, one) implies holds(gone.links_by_identity, one) by {
        assert(is_on(state.sessions, other, one));
    }
    assert forall|one: IdentityHash| #[trigger] holds(gone.links_by_identity, one) implies is_on(
        gone.sessions,
        at(gone.links_by_identity, one),
        one,
    ) || (session.peer == Some(one) && at(gone.links_by_identity, one) == link) by {
        assert(is_on(state.sessions, at(state.links_by_identity, one), one));
    }
    match session.peer {
        Some(peer) => {
            lemma_released(gone, peer, link);
            let freed = released(gone, peer, link);
            assert forall|one: IdentityHash| #[trigger]
                holds(after.links_by_identity, one) implies is_on(
                after.sessions,
                at(after.links_by_identity, one),
                one,
            ) by {
                assert(holds(freed.links_by_identity, one));
            }
            assert forall|other: LinkId, one: IdentityHash| #[trigger]
                is_on(after.sessions, other, one) implies holds(after.links_by_identity, one) by {
                assert(is_on(freed.sessions, other, one));
            }
        },
        None => {
            assert forall|one: IdentityHash| #[trigger]
                holds(after.links_by_identity, one) implies is_on(
                after.sessions,
                at(after.links_by_identity, one),
                one,
            ) by {
                assert(holds(gone.links_by_identity, one));
            }
            assert forall|other: LinkId, one: IdentityHash| #[trigger]
                is_on(after.sessions, other, one) implies holds(after.links_by_identity, one) by {
                assert(is_on(gone.sessions, other, one));
            }
        },
    }
}

/// A change of what is set in a room keeps the invariant.
pub proof fn law_room_set_is_sound(
    state: StateModel,
    after: StateModel,
    name: Seq<char>,
    room: RoomModel,
)
    requires
        sound(state),
        holds(state.rooms, name),
        room.members == at(state.rooms, name).members,
        unique(room.invited),
        after == (StateModel {
            rooms: put(state.rooms, name, room),
            counters: after.counters,
            ..state
        }),
    ensures
        sound(after),
{
    lemma_unique_put(state.rooms, name, room);
    lemma_same_view(state, after);
}

/// Marking rooms as used keeps the invariant.
pub proof fn law_touched_is_sound(state: StateModel, names: Seq<Seq<char>>, now: Nanos)
    requires
        sound(state),
    ensures
        sound((StateModel { rooms: touched(state.rooms, names, now), ..state })),
    decreases names.len(),
{
    if names.len() == 0 {
        assert((StateModel { rooms: touched(state.rooms, names, now), ..state }) == state);
    } else {
        law_touched_is_sound(state, names.drop_last(), now);
        let before = StateModel { rooms: touched(state.rooms, names.drop_last(), now), ..state };
        let after = StateModel { rooms: touched(state.rooms, names, now), ..state };
        if holds(before.rooms, names.last()) {
            let room = at(before.rooms, names.last());
            law_room_set_is_sound(
                before,
                after,
                names.last(),
                RoomModel { last_used_ts: now, ..room },
            );
        }
    }
}

pub proof fn lemma_uninvited_all(rooms: Seq<(Seq<char>, RoomModel)>, now: Nanos, name: Seq<char>)
    ensures
        holds(uninvited_all(rooms, now), name) == holds(rooms, name),
        holds(rooms, name) ==> at(uninvited_all(rooms, now), name) == uninvited(
            at(rooms, name),
            now,
        ),
    decreases rooms.len(),
{
    let after = uninvited_all(rooms, now);
    if rooms.len() > 0 {
        lemma_uninvited_all(rooms.drop_last(), now, name);
        assert(after.drop_last() =~= uninvited_all(rooms.drop_last(), now));
    }
    if holds(rooms, name) {
        let i = choose|i: int| 0 <= i < rooms.len() && (#[trigger] rooms[i]).0 == name;
        assert(after[i].0 == name);
        if rooms.last().0 != name {
            assert(rooms.drop_last()[i].0 == name);
        }
    }
    if holds(after, name) {
        let i = choose|i: int| 0 <= i < after.len() && (#[trigger] after[i]).0 == name;
        assert(rooms[i].0 == name);
    }
}

/// What is found once some entries are left out.
pub proof fn lemma_kept_lookup<K, V>(
    entries: Seq<(K, V)>,
    keep: spec_fn((K, V)) -> bool,
    key: K,
)
    requires
        unique(entries),
    ensures
        holds(kept(entries, keep), key) == (holds(entries, key) && keep((key, at(entries, key)))),
        holds(kept(entries, keep), key) ==> at(kept(entries, keep), key) == at(entries, key),
    decreases entries.len(),
{
    if entries.len() > 0 {
        let rest = entries.drop_last();
        let after = kept(entries, keep);
        assert(unique(rest)) by {
            assert forall|i: int, j: int| 0 <= i < j < rest.len() implies (#[trigger] rest[i]).0 != (
            #[trigger] rest[j]).0 by {
                assert(entries[i].0 != entries[j].0);
            }
        }
        lemma_kept_lookup(rest, keep, key);
        let last = entries.last();
        assert(holds(entries, key) == (last.0 == key || holds(rest, key))) by {
            if holds(entries, key) {
                let i = choose|i: int| 0 <= i < entries.len() && (#[trigger] entries[i]).0 == key;
                if i < rest.len() {
                    assert(rest[i].0 == key);
                }
            }
            if holds(rest, key) {
                let i = choose|i: int| 0 <= i < rest.len() && (#[trigger] rest[i]).0 == key;
                assert(entries[i].0 == key);
            }
            if last.0 == key {
                assert(entries[entries.len() - 1].0 == key);
            }
        }
        if last.0 == key {
            assert(!holds(rest, key)) by {
                if holds(rest, key) {
                    let i = choose|i: int| 0 <= i < rest.len() && (#[trigger] rest[i]).0 == key;
                    assert(entries[i].0 != entries[entries.len() - 1].0);
                }
            }
        }
        if keep(last) {
            let less = kept(rest, keep);
            assert(after.drop_last() =~= less);
            assert(holds(after, key) == (last.0 == key || holds(less, key))) by {
                if holds(after, key) {
                    let i = choose|i: int| 0 <= i < after.len() && (#[trigger] after[i]).0 == key;
                    if i < less.len() {
                        assert(less[i].0 == key);
                    }
                }
                if holds(less, key) {
                    let i = choose|i: int| 0 <= i < less.len() && (#[trigger] less[i]).0 == key;
                    assert(after[i].0 == key);
                }
                assert(after[less.len() as int].0 == last.0);
            }
        }
    }
}

/// Dropping expired invitations keeps the invariant.
pub proof fn law_uninvited_is_sound(state: StateModel, now: Nanos)
    requires
        sound(state),
    ensures
        sound((StateModel { rooms: uninvited_all(state.rooms, now), ..state })),
{
    let after = StateModel { rooms: uninvited_all(state.rooms, now), ..state };
    assert forall|name: Seq<char>| #[trigger] members_of(after, name) == members_of(
        state,
        name,
    ) by {
        lemma_uninvited_all(state.rooms, now, name);
    }
    assert(unique(after.rooms)) by {
        assert forall|i: int, j: int| 0 <= i < j < after.rooms.len() implies (
        #[trigger] after.rooms[i]).0 != (#[trigger] after.rooms[j]).0 by {
            assert(state.rooms[i].0 != state.rooms[j].0);
        }
    }
    assert forall|name: Seq<char>| #[trigger] holds(after.rooms, name) implies unique(
        at(after.rooms, name).invited,
    ) by {
        lemma_uninvited_all(state.rooms, now, name);
        lemma_unique_kept(at(state.rooms, name).invited, being_valid(now));
    }
    lemma_same_view(state, after);
}

/// Pruning stale rooms keeps the invariant: nobody is in a room that is pruned.
pub proof fn law_pruned_is_sound(state: StateModel, now: Nanos, prune_after: Nanos)
    requires
        sound(state),
    ensures
        sound((StateModel { rooms: kept(state.rooms, lasting(now, prune_after)), ..state })),
{
    let after = StateModel { rooms: kept(state.rooms, lasting(now, prune_after)), ..state };
    lemma_unique_kept(state.rooms, lasting(now, prune_after));
    assert forall|name: Seq<char>| #[trigger] members_of(after, name) == members_of(
        state,
        name,
    ) by {
        lemma_kept_lookup(state.rooms, lasting(now, prune_after), name);
        if holds(state.rooms, name) && !holds(after.rooms, name) {
            assert(at(state.rooms, name).members =~= Seq::empty());
        }
    }
    assert forall|name: Seq<char>| #[trigger] holds(after.rooms, name) implies unique(
        at(after.rooms, name).invited,
    ) by {
        lemma_kept_lookup(state.rooms, lasting(now, prune_after), name);
    }
    lemma_same_view(state, after);
}

proof fn lemma_pinged_all(
    sessions: Seq<(LinkId, SessionModel)>,
    now: Nanos,
    interval: Nanos,
    link: LinkId,
)
    ensures
        holds(pinged_all(sessions, now, interval), link) == holds(sessions, link),
        holds(sessions, link) ==> at(pinged_all(sessions, now, interval), link)
            == crate::router::liveness::pinged(at(sessions, link), now, interval),
    decreases sessions.len(),
{
    let after = pinged_all(sessions, now, interval);
    if sessions.len() > 0 {
        lemma_pinged_all(sessions.drop_last(), now, interval, link);
        assert(after.drop_last() =~= pinged_all(sessions.drop_last(), now, interval));
    }
    if holds(sessions, link) {
        let i = choose|i: int| 0 <= i < sessions.len() && (#[trigger] sessions[i]).0 == link;
        assert(after[i].0 == link);
        if sessions.last().0 != link {
            assert(sessions.drop_last()[i].0 == link);
        }
    }
    if holds(after, link) {
        let i = choose|i: int| 0 <= i < after.len() && (#[trigger] after[i]).0 == link;
        assert(sessions[i].0 == link);
    }
}

/// Pinging keeps the invariant.
pub proof fn law_pinged_is_sound(
    state: StateModel,
    after: StateModel,
    now: Nanos,
    interval: Nanos,
)
    requires
        sound(state),
        after == (StateModel {
            sessions: pinged_all(state.sessions, now, interval),
            counters: after.counters,
            ..state
        }),
    ensures
        sound(after),
{
    assert(unique(after.sessions)) by {
        assert forall|i: int, j: int| 0 <= i < j < after.sessions.len() implies (
        #[trigger] after.sessions[i]).0 != (#[trigger] after.sessions[j]).0 by {
            assert(state.sessions[i].0 != state.sessions[j].0);
        }
    }
    assert forall|link: LinkId| #[trigger]
        holds(after.sessions, link) == holds(state.sessions, link) by {
        lemma_pinged_all(state.sessions, now, interval, link);
    }
    assert forall|link: LinkId| #[trigger] holds(after.sessions, link) implies ({
        let a = at(after.sessions, link);
        let b = at(state.sessions, link);
        a.peer == b.peer && a.nick == b.nick && a.rooms == b.rooms
    }) by {
        lemma_pinged_all(state.sessions, now, interval, link);
    }
    lemma_same_view(state, after);
}

/// Whether nobody is in any of the rooms.
pub open spec fn deserted(rooms: Seq<(Seq<char>, RoomModel)>) -> bool {
    forall|name: Seq<char>| #[trigger]
        holds(rooms, name) ==> at(rooms, name).members.len() == 0
}

/// Who is in which room once the registry is merged with some of the live rooms.
proof fn lemma_merged(
    disk: Seq<(Seq<char>, RoomModel)>,
    live: Seq<(Seq<char>, RoomModel)>,
    name: Seq<char>,
)
    requires
        unique(disk),
        deserted(disk),
        unique(live),
    ensures
        unique(merged(disk, live)),
        holds(live, name) && at(live, name).members.len() > 0 ==> holds(merged(disk, live), name)
            && at(merged(disk, live), name).members == at(live, name).members,
        !(holds(live, name) && at(live, name).members.len() > 0) && holds(
            merged(disk, live),
            name,
        ) ==> at(merged(disk, live), name).members.len() == 0,
        !holds(live, name) ==> holds(merged(disk, live), name) == holds(disk, name),
        !holds(live, name) && holds(disk, name) ==> at(merged(disk, live), name) == at(disk, name),
    decreases live.len(),
{
    if live.len() > 0 {
        let rest = live.drop_last();
        let last = live.last();
        assert(unique(rest)) by {
            assert forall|i: int, j: int| 0 <= i < j < rest.len() implies (#[trigger] rest[i]).0 != (
            #[trigger] rest[j]).0 by {
                assert(live[i].0 != live[j].0);
            }
        }
        lemma_merged(disk, rest, name);
        lemma_merged(disk, rest, last.0);
        let before = merged(disk, rest);
        assert(!holds(rest, last.0)) by {
            if holds(rest, last.0) {
                let i = choose|i: int| 0 <= i < rest.len() && (#[trigger] rest[i]).0 == last.0;
                assert(live[i].0 != live[live.len() - 1].0);
            }
        }
        assert(holds(live, name) == (last.0 == name || holds(rest, name))) by {
            if holds(live, name) {
                let i = choose|i: int| 0 <= i < live.len() && (#[trigger] live[i]).0 == name;
                if i < rest.len() {
                    assert(rest[i].0 == name);
                }
            }
            if holds(rest, name) {
                let i = choose|i: int| 0 <= i < rest.len() && (#[trigger] rest[i]).0 == name;
                assert(live[i].0 == name);
            }
            if last.0 == name {
                assert(live[live.len() - 1].0 == name);
            }
        }
        match lookup(before, last.0) {
            Some(room) => {
                lemma_unique_put(
                    before,
                    last.0,
                    RoomModel {
                        members: last.1.members,
                        founder: if room.founder is None {
                            last.1.founder
                        } else {
                            room.founder
                        },
                        ..room
                    },
                );
            },
            None => {
                lemma_unique_put(before, last.0, RoomModel { registered: false, ..last.1 });
            },
        }
    }
}

proof fn lemma_merged_orderly(
    disk: Seq<(Seq<char>, RoomModel)>,
    live: Seq<(Seq<char>, RoomModel)>,
)
    requires
        orderly(disk),
        unique(live),
        orderly(live),
    ensures
        orderly(merged(disk, live)),
    decreases live.len(),
{
    if live.len() > 0 {
        let rest = live.drop_last();
        let last = live.last();
        assert(unique(rest)) by {
            assert forall|i: int, j: int| 0 <= i < j < rest.len() implies (#[trigger] rest[i]).0 != (
            #[trigger] rest[j]).0 by {
                assert(live[i].0 != live[j].0);
            }
        }
        assert(orderly(rest)) by {
            assert forall|name: Seq<char>| #[trigger] holds(rest, name) implies unique(
                at(rest, name).invited,
            ) by {
                let i = choose|i: int| 0 <= i < rest.len() && (#[trigger] rest[i]).0 == name;
                assert(live[i].0 != live[live.len() - 1].0);
                assert(live[i].0 == name);
                assert(holds(live, name));
            }
        }
        lemma_merged_orderly(disk, rest);
        assert(live[live.len() - 1].0 == last.0);
        assert(holds(live, last.0));
        assert(unique(last.1.invited));
    }
}

/// Reloading changes nothing in who is in which room.
pub proof fn law_reload_keeps_members(
    state: StateModel,
    disk: Seq<(Seq<char>, RoomModel)>,
    name: Seq<char>,
)
    requires
        unique(state.rooms),
        unique(disk),
        deserted(disk),
    ensures
        members_of((StateModel { rooms: merged(disk, state.rooms), ..state }), name) == members_of(
            state,
            name,
        ),
{
    lemma_merged(disk, state.rooms, name);
    let after = StateModel { rooms: merged(disk, state.rooms), ..state };
    if members_of(state, name).len() == 0 {
        assert(members_of(after, name) =~= members_of(state, name));
    }
}

/// Reloading keeps the invariant.
pub proof fn law_reloaded_is_sound(state: StateModel, disk: Seq<(Seq<char>, RoomModel)>)
    requires
        sound(state),
        unique(disk),
        orderly(disk),
        deserted(disk),
    ensures
        sound((StateModel { rooms: merged(disk, state.rooms), ..state })),
{
    let after = StateModel { rooms: merged(disk, state.rooms), ..state };
    lemma_merged_orderly(disk, state.rooms);
    lemma_merged(disk, state.rooms, Seq::empty());
    assert forall|name: Seq<char>| #[trigger] members_of(after, name) == members_of(
        state,
        name,
    ) by {
        law_reload_keeps_members(state, disk, name);
    }
    lemma_same_view(state, after);
}

} // verus!
