//! The invariant of the hub's state: sessions, rooms and indexes agree with each other.

use crate::collections::{
    at, distinct, group_collections, group_sequences, holds, kept, lemma_unique_put, lookup, put,
    unique,
};
use crate::router::moderation::is_in;
use crate::router::rooms::members_of;
use crate::state::{
    is_on, nick_on, other_link, IdentityHash, LinkId, RoomModel, SessionModel, StateModel,
};
use crate::text::lowercase;
use vstd::prelude::*;

verus! {

broadcast use {group_collections, group_sequences};

/// Whether the sessions and the rooms agree on who is in which room, and nobody is in a room
/// twice.
pub open spec fn members_agree(state: StateModel) -> bool {
    &&& forall|link: LinkId, name: Seq<char>| #[trigger]
        is_in(state, link, name) == members_of(state, name).contains(link)
    &&& forall|name: Seq<char>| distinct(#[trigger] members_of(state, name))
    &&& forall|link: LinkId| #[trigger]
        holds(state.sessions, link) ==> distinct(at(state.sessions, link).rooms)
}

/// Whether the index of identities agrees with the sessions: it knows every peer that is
/// connected, no other, and for each a link on which it is connected.
pub open spec fn identities_agree(state: StateModel) -> bool {
    &&& forall|peer: IdentityHash| #[trigger]
        holds(state.links_by_identity, peer) ==> is_on(
            state.sessions,
            at(state.links_by_identity, peer),
            peer,
        )
    &&& forall|link: LinkId, peer: IdentityHash| #[trigger]
        is_on(state.sessions, link, peer) ==> holds(state.links_by_identity, peer)
}

/// Whether the index of nicknames lists a link under a nickname in lowercase.
pub open spec fn nick_listed(
    index: Seq<(Seq<char>, Seq<LinkId>)>,
    key: Seq<char>,
    link: LinkId,
) -> bool {
    match lookup(index, key) {
        Some(links) => links.contains(link),
        None => false,
    }
}

/// Whether a link has a nickname that is `key` in lowercase.
pub open spec fn has_nick(state: StateModel, key: Seq<char>, link: LinkId) -> bool {
    match nick_on(state, link) {
        Some(nick) => lowercase(nick) == key,
        None => false,
    }
}

/// Whether the index of nicknames has no entry without a link.
pub open spec fn none_empty(index: Seq<(Seq<char>, Seq<LinkId>)>) -> bool {
    forall|key: Seq<char>| #[trigger] holds(index, key) ==> at(index, key).len() > 0
}

/// Whether the index of nicknames agrees with the sessions, and has no entry without a link.
pub open spec fn nicks_agree(state: StateModel) -> bool {
    &&& forall|key: Seq<char>, link: LinkId| #[trigger]
        nick_listed(state.links_by_nick, key, link) == has_nick(state, key, link)
    &&& none_empty(state.links_by_nick)
}

/// Whether no identity is invited to a room twice.
pub open spec fn orderly(rooms: Seq<(Seq<char>, RoomModel)>) -> bool {
    forall|name: Seq<char>| #[trigger] holds(rooms, name) ==> unique(at(rooms, name).invited)
}

/// The invariant of the state.
pub open spec fn sound(state: StateModel) -> bool {
    &&& unique(state.sessions)
    &&& unique(state.rooms)
    &&& orderly(state.rooms)
    &&& members_agree(state)
    &&& identities_agree(state)
    &&& nicks_agree(state)
}

pub proof fn lemma_kept_from<A>(items: Seq<A>, keep: spec_fn(A) -> bool, i: int)
    requires
        0 <= i < kept(items, keep).len(),
    ensures
        exists|j: int|
            0 <= j < items.len() && #[trigger] items[j] == kept(items, keep)[i] && keep(items[j]),
    decreases items.len(),
{
    if items.len() > 0 {
        let rest = kept(items.drop_last(), keep);
        if keep(items.last()) && i == rest.len() {
            assert(items[items.len() - 1] == kept(items, keep)[i]);
        } else {
            lemma_kept_from(items.drop_last(), keep, i);
            let j = choose|j: int|
                0 <= j < items.drop_last().len() && #[trigger] items.drop_last()[j]
                    == rest[i] && keep(items.drop_last()[j]);
            assert(items[j] == kept(items, keep)[i]);
        }
    }
}

/// Leaving entries out keeps keys unique.
pub proof fn lemma_unique_kept<K, V>(entries: Seq<(K, V)>, keep: spec_fn((K, V)) -> bool)
    requires
        unique(entries),
    ensures
        unique(kept(entries, keep)),
    decreases entries.len(),
{
    if entries.len() > 0 {
        let rest = entries.drop_last();
        assert(unique(rest)) by {
            assert forall|i: int, j: int| 0 <= i < j < rest.len() implies (#[trigger] rest[i]).0 != (
            #[trigger] rest[j]).0 by {
                assert(entries[i].0 != entries[j].0);
            }
        }
        lemma_unique_kept(rest, keep);
        if keep(entries.last()) {
            let after = kept(entries, keep);
            assert forall|i: int, j: int| 0 <= i < j < after.len() implies (#[trigger] after[i]).0
                != (#[trigger] after[j]).0 by {
                if j == after.len() - 1 {
                    lemma_kept_from(rest, keep, i);
                    let k = choose|k: int|
                        0 <= k < rest.len() && #[trigger] rest[k] == kept(rest, keep)[i] && keep(
                            rest[k],
                        );
                    assert(entries[k].0 != entries[entries.len() - 1].0);
                }
            }
        }
    }
}

/// In a table with unique keys, the value for a key is that of its one entry.
pub proof fn lemma_unique_at<K, V>(entries: Seq<(K, V)>, i: int)
    requires
        unique(entries),
        0 <= i < entries.len(),
    ensures
        holds(entries, entries[i].0),
        at(entries, entries[i].0) == entries[i].1,
    decreases entries.len(),
{
    if i < entries.len() - 1 {
        let rest = entries.drop_last();
        assert(entries[i].0 != entries[entries.len() - 1].0);
        assert(unique(rest)) by {
            assert forall|a: int, b: int| 0 <= a < b < rest.len() implies (#[trigger] rest[a]).0 != (
            #[trigger] rest[b]).0 by {
                assert(entries[a].0 != entries[b].0);
            }
        }
        lemma_unique_at(rest, i);
    }
}

/// A key that is held has an entry.
pub proof fn lemma_held_index<K, V>(entries: Seq<(K, V)>, key: K) -> (i: int)
    requires
        unique(entries),
        holds(entries, key),
    ensures
        0 <= i < entries.len(),
        entries[i] == (key, at(entries, key)),
{
    let i = choose|i: int| 0 <= i < entries.len() && (#[trigger] entries[i]).0 == key;
    lemma_unique_at(entries, i);
    i
}

/// The link that takes the place of another is one on which the peer is connected; there is none
/// only where the peer is connected on no other.
pub proof fn lemma_other_link(
    sessions: Seq<(LinkId, SessionModel)>,
    peer: IdentityHash,
    link: LinkId,
)
    requires
        unique(sessions),
    ensures
        match other_link(sessions, peer, link) {
            Some(found) => found != link && is_on(sessions, found, peer),
            None => forall|other: LinkId| #[trigger]
                is_on(sessions, other, peer) ==> other == link,
        },
    decreases sessions.len(),
{
    lemma_other_link_index(sessions, peer, link);
    match other_link(sessions, peer, link) {
        Some(found) => {
            let i = choose|i: int|
                0 <= i < sessions.len() && (#[trigger] sessions[i]).0 == found
                    && sessions[i].1.peer == Some(peer);
            lemma_unique_at(sessions, i);
        },
        None => {
            assert forall|other: LinkId| #[trigger] is_on(sessions, other, peer) implies other
                == link by {
                let i = lemma_held_index(sessions, other);
            }
        },
    }
}

proof fn lemma_other_link_index(
    sessions: Seq<(LinkId, SessionModel)>,
    peer: IdentityHash,
    link: LinkId,
)
    ensures
        match other_link(sessions, peer, link) {
            Some(found) => found != link && exists|i: int|
                0 <= i < sessions.len() && (#[trigger] sessions[i]).0 == found
                    && sessions[i].1.peer == Some(peer),
            None => forall|i: int|
                0 <= i < sessions.len() && (#[trigger] sessions[i]).1.peer == Some(peer)
                    ==> sessions[i].0 == link,
        },
    decreases sessions.len(),
{
    if sessions.len() > 0 {
        let rest = sessions.drop_last();
        lemma_other_link_index(rest, peer, link);
        match other_link(rest, peer, link) {
            Some(found) => {
                let i = choose|i: int|
                    0 <= i < rest.len() && (#[trigger] rest[i]).0 == found && rest[i].1.peer
                        == Some(peer);
                assert(sessions[i].0 == found);
            },
            None => {
                let last = sessions.len() - 1;
                if sessions[last].0 != link && sessions[last].1.peer == Some(peer) {
                    assert(sessions[last].0 == sessions.last().0);
                }
                assert forall|i: int|
                    0 <= i < sessions.len() && (#[trigger] sessions[i]).1.peer == Some(peer)
                        && other_link(sessions, peer, link) is None implies sessions[i].0
                    == link by {
                    if i < last {
                        assert(rest[i].1.peer == Some(peer));
                    }
                }
            },
        }
    }
}

/// What counts nothing but the counters differs in nothing that the invariant speaks of.
pub proof fn lemma_sound_counters(before: StateModel, after: StateModel)
    requires
        sound(before),
        after == (StateModel { counters: after.counters, ..before }),
    ensures
        sound(after),
{
    assert forall|link: LinkId, name: Seq<char>| #[trigger] is_in(after, link, name) == members_of(
        after,
        name,
    ).contains(link) by {
        assert(is_in(before, link, name) == members_of(before, name).contains(link));
    }
    assert forall|name: Seq<char>| distinct(#[trigger] members_of(after, name)) by {
        assert(distinct(members_of(before, name)));
    }
    assert forall|key: Seq<char>, link: LinkId| #[trigger]
        nick_listed(after.links_by_nick, key, link) == has_nick(after, key, link) by {
        assert(nick_listed(before.links_by_nick, key, link) == has_nick(before, key, link));
    }
}

/// A session that keeps its peer, its nickname and its rooms may change in everything else.
pub proof fn lemma_sound_session(
    state: StateModel,
    after: StateModel,
    link: LinkId,
    session: SessionModel,
)
    requires
        sound(state),
        holds(state.sessions, link),
        session.peer == at(state.sessions, link).peer,
        session.nick == at(state.sessions, link).nick,
        session.rooms == at(state.sessions, link).rooms,
        after == (StateModel {
            sessions: put(state.sessions, link, session),
            counters: after.counters,
            ..state
        }),
    ensures
        sound(after),
{
    lemma_unique_put(state.sessions, link, session);
    lemma_same_view(state, after);
}

/// Whether two states have the same peers, nicknames and rooms on every link, and the same members
/// in every room.
pub open spec fn same_view(before: StateModel, after: StateModel) -> bool {
    &&& before.links_by_identity == after.links_by_identity
    &&& before.links_by_nick == after.links_by_nick
    &&& forall|link: LinkId| #[trigger]
        holds(after.sessions, link) == holds(before.sessions, link)
    &&& forall|link: LinkId| #[trigger]
        holds(after.sessions, link) ==> {
            let a = at(after.sessions, link);
            let b = at(before.sessions, link);
            a.peer == b.peer && a.nick == b.nick && a.rooms == b.rooms
        }
    &&& forall|name: Seq<char>| #[trigger]
        members_of(after, name) == members_of(before, name)
}

/// States that look alike to the invariant are sound alike.
pub proof fn lemma_same_view(before: StateModel, after: StateModel)
    requires
        sound(before),
        unique(after.sessions),
        unique(after.rooms),
        orderly(after.rooms),
        same_view(before, after),
    ensures
        sound(after),
{
    assert forall|link: LinkId, name: Seq<char>| #[trigger] is_in(after, link, name) == members_of(
        after,
        name,
    ).contains(link) by {
        assert(is_in(before, link, name) == members_of(before, name).contains(link));
        assert(holds(after.sessions, link) == holds(before.sessions, link));
    }
    assert forall|name: Seq<char>| distinct(#[trigger] members_of(after, name)) by {
        assert(distinct(members_of(before, name)));
    }
    assert forall|link: LinkId| #[trigger] holds(after.sessions, link) implies distinct(
        at(after.sessions, link).rooms,
    ) by {
        assert(holds(before.sessions, link));
    }
    assert forall|link: LinkId, peer: IdentityHash| #[trigger]
        is_on(after.sessions, link, peer) == is_on(before.sessions, link, peer) by {
        assert(holds(after.sessions, link) == holds(before.sessions, link));
    }
    assert forall|peer: IdentityHash| #[trigger] holds(after.links_by_identity, peer) implies is_on(
        after.sessions,
        at(after.links_by_identity, peer),
        peer,
    ) by {
        assert(holds(before.links_by_identity, peer));
        assert(is_on(before.sessions, at(before.links_by_identity, peer), peer));
    }
    assert forall|link: LinkId, peer: IdentityHash| #[trigger]
        is_on(after.sessions, link, peer) implies holds(after.links_by_identity, peer) by {
        assert(is_on(before.sessions, link, peer));
    }
    assert forall|key: Seq<char>, link: LinkId| #[trigger]
        nick_listed(after.links_by_nick, key, link) == has_nick(after, key, link) by {
        assert(nick_listed(before.links_by_nick, key, link) == has_nick(before, key, link));
        assert(holds(after.sessions, link) == holds(before.sessions, link));
    }
}

} // verus!
