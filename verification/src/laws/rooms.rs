//! Rooms: who may enter and speak, what operators set, and which rooms are shown and kept.

use crate::clock::{gap, later, Clock, Nanos};
use crate::collections::{
    at, gathered, group_collections, group_sequences, holds, lookup, ranking, unique,
};
use crate::constants::K_ROOM;
use crate::outgoing::{Out, ParcelModel};
use crate::protocol::{text_field, FieldMap};
use crate::router::access::{access_set, Access};
use crate::router::directory::{listing, listing_line, listing_liner, listing_users};
use crate::router::liveness::{being_valid, lasting, lasts, prune_interval, pruning, uninvited_all};
use crate::router::membership::{carried_nick, join_refusal, joined_room, joining, nicked_if};
use crate::router::messages::{
    message_refusal, passed_fields, passing_room,
};
use crate::router::moderation::{is_in, member_set, mode_set, registering};
use crate::router::rooms::members_of;
use crate::router::{noticing, Hub, Work};
use crate::state::{empty_room, operates, room_name, speaks, IdentityHash, LinkId, RoomModel};
use crate::text::joined;
use super::order::{law_rankings_are_orders, law_sorted};
use super::sound::orderly;
use super::speech::{lemma_failing, only_errors};
use super::steps::lemma_kept_lookup;
use super::turns::only_counts;
use vstd::prelude::*;

verus! {

broadcast use {group_collections, group_sequences};

pub proof fn lemma_gathered<A, B>(items: Seq<A>, pick: spec_fn(A) -> Option<B>, value: B)
    ensures
        gathered(items, pick).contains(value) == exists|i: int|
            0 <= i < items.len() && pick(#[trigger] items[i]) == Some(value),
    decreases items.len(),
{
    let result = gathered(items, pick);
    if items.len() > 0 {
        let rest = items.drop_last();
        let less = gathered(rest, pick);
        lemma_gathered(rest, pick, value);
        if less.contains(value) {
            let i = choose|i: int| 0 <= i < rest.len() && pick(#[trigger] rest[i]) == Some(value);
            assert(pick(items[i]) == Some(value));
            let j = choose|j: int| 0 <= j < less.len() && less[j] == value;
            assert(result[j] == value);
        }
        if pick(items.last()) == Some(value) {
            assert(result[less.len() as int] == value);
            assert(pick(items[items.len() - 1]) == Some(value));
        }
        if exists|i: int| 0 <= i < items.len() && pick(#[trigger] items[i]) == Some(value) {
            let i = choose|i: int| 0 <= i < items.len() && pick(#[trigger] items[i]) == Some(value);
            if i < rest.len() {
                assert(pick(rest[i]) == Some(value));
            }
        }
        if result.contains(value) {
            let j = choose|j: int| 0 <= j < result.len() && result[j] == value;
            if j < less.len() {
                assert(less[j] == value);
            }
        }
    }
}

/// The list of rooms shows exactly the rooms that are registered and not private, in order.
pub proof fn law_listing_shows_public_rooms(
    rooms: Seq<(Seq<char>, RoomModel)>,
    line: Seq<char>,
)
    ensures
        listing(rooms).contains(line) == exists|i: int|
            0 <= i < rooms.len() && (#[trigger] rooms[i]).1.registered && !rooms[i].1.private
                && listing_line(rooms[i]) == Some(line),
        super::order::in_order(listing(rooms), ranking::<String>()),
{
    let lines = gathered(rooms, listing_liner());
    law_rankings_are_orders();
    law_sorted(lines, ranking::<String>());
    lemma_gathered(rooms, listing_liner(), line);
    assert(listing(rooms).contains(line) == lines.contains(line));
    if lines.contains(line) {
        let i = choose|i: int|
            0 <= i < rooms.len() && listing_liner()(#[trigger] rooms[i]) == Some(line);
        assert(rooms[i].1.registered && !rooms[i].1.private && listing_line(rooms[i]) == Some(
            line,
        ));
    }
    if exists|i: int|
        0 <= i < rooms.len() && (#[trigger] rooms[i]).1.registered && !rooms[i].1.private
            && listing_line(rooms[i]) == Some(line) {
        let i = choose|i: int|
            0 <= i < rooms.len() && (#[trigger] rooms[i]).1.registered && !rooms[i].1.private
                && listing_line(rooms[i]) == Some(line);
        assert(listing_liner()(rooms[i]) == Some(line));
    }
}

/// Who is in a private room is shown to trusted identities only: anyone else is told that the room
/// is private, whoever is in it.
pub proof fn law_private_members_are_hidden(
    hub: Hub,
    link: LinkId,
    peer: IdentityHash,
    context: Option<Seq<char>>,
    parts: Seq<Seq<char>>,
    name: Seq<char>,
)
    requires
        parts.len() > 1,
        room_name(parts[1], hub.config.max_room_name_bytes as nat) == Ok::<
            Seq<char>,
            crate::state::RoomNameError,
        >(name),
        holds(hub.state.rooms, name),
        at(hub.state.rooms, name).private,
        !hub.config.trusted_identities.contains(peer),
    ensures
        listing_users(hub, link, peer, context, parts) == noticing(
            hub,
            link,
            None,
            "room "@ + name + " is private"@,
        ),
{
}

/// The first to join a room that nobody has founded founds it, and operates it.
pub proof fn law_first_member_founds(link: LinkId, peer: IdentityHash, now: Nanos)
    ensures
        joined_room(empty_room(), link, peer, now).founder == Some(peer),
        operates(joined_room(empty_room(), link, peer, now), peer),
{
}

/// Registering a room is for its founder, and for one who is there; otherwise nothing changes but
/// the counters. It turns on `n`, `r` and `t`, makes the founder an operator, and asks for the
/// rooms to be saved.
pub proof fn law_registering(
    hub: Hub,
    now: Nanos,
    link: LinkId,
    peer: IdentityHash,
    context: Option<Seq<char>>,
    parts: Seq<Seq<char>>,
    register: bool,
    name: Seq<char>,
)
    requires
        parts.len() > 1,
        room_name(parts[1], hub.config.max_room_name_bytes as nat) == Ok::<
            Seq<char>,
            crate::state::RoomNameError,
        >(name),
    ensures
        ({
            let done = registering(hub, now, link, peer, context, parts, register);
            let may = is_in(hub.state, link, name) && holds(hub.state.rooms, name) && at(
                hub.state.rooms,
                name,
            ).founder == Some(peer);
            &&& !may ==> only_counts(hub, done.hub) && done.pending is None
            &&& may ==> {
                let room = at(done.hub.state.rooms, name);
                &&& done.pending is Some
                &&& done.pending->0.work == Work::SaveRooms
                &&& room.registered == register
                &&& register ==> room.no_outside_messages && room.topic_ops_only
                    && room.operators.contains(peer)
                &&& room.members == at(hub.state.rooms, name).members
            }
        }),
{
}

/// A mode that is set is set, one that is unset is unset, whatever it was before, and no other mode
/// changes with it.
pub proof fn law_modes(room: RoomModel, parts: Seq<Seq<char>>)
    ensures
        mode_set(room, "+m"@, parts) == Some(RoomModel { moderated: true, ..room }),
        mode_set(room, "-m"@, parts) == Some(RoomModel { moderated: false, ..room }),
        mode_set(room, "+i"@, parts) == Some(RoomModel { invite_only: true, ..room }),
        mode_set(room, "-i"@, parts) == Some(RoomModel { invite_only: false, ..room }),
        mode_set(room, "+t"@, parts) == Some(RoomModel { topic_ops_only: true, ..room }),
        mode_set(room, "-t"@, parts) == Some(RoomModel { topic_ops_only: false, ..room }),
        mode_set(room, "+n"@, parts) == Some(RoomModel { no_outside_messages: true, ..room }),
        mode_set(room, "-n"@, parts) == Some(RoomModel { no_outside_messages: false, ..room }),
        mode_set(room, "+p"@, parts) == Some(RoomModel { private: true, ..room }),
        mode_set(room, "-p"@, parts) == Some(RoomModel { private: false, ..room }),
        mode_set(room, "-k"@, parts) == Some(RoomModel { key: None, ..room }),
        parts.len() >= 4 ==> mode_set(room, "+k"@, parts) == Some(
            RoomModel { key: Some(joined(parts.skip(3), " "@)), ..room },
        ),
        parts.len() < 4 ==> mode_set(room, "+k"@, parts) is None,
        mode_set(room, "+r"@, parts) is None,
        mode_set(room, "-r"@, parts) is None,
{
    reveal_strlit("+m");
    reveal_strlit("-m");
    reveal_strlit("+i");
    reveal_strlit("-i");
    reveal_strlit("+t");
    reveal_strlit("-t");
    reveal_strlit("+n");
    reveal_strlit("-n");
    reveal_strlit("+p");
    reveal_strlit("-p");
    reveal_strlit("+k");
    reveal_strlit("-k");
    reveal_strlit("+r");
    reveal_strlit("-r");
    assert("+m"@[0] == '+' && "+m"@[1] == 'm');
    assert("-m"@[0] == '-' && "-m"@[1] == 'm');
    assert("+i"@[0] == '+' && "+i"@[1] == 'i');
    assert("-i"@[0] == '-' && "-i"@[1] == 'i');
    assert("+t"@[0] == '+' && "+t"@[1] == 't');
    assert("-t"@[0] == '-' && "-t"@[1] == 't');
    assert("+n"@[0] == '+' && "+n"@[1] == 'n');
    assert("-n"@[0] == '-' && "-n"@[1] == 'n');
    assert("+p"@[0] == '+' && "+p"@[1] == 'p');
    assert("-p"@[0] == '-' && "-p"@[1] == 'p');
    assert("+k"@[0] == '+' && "+k"@[1] == 'k');
    assert("-k"@[0] == '-' && "-k"@[1] == 'k');
    assert("+r"@[0] == '+' && "+r"@[1] == 'r');
    assert("-r"@[0] == '-' && "-r"@[1] == 'r');
}

/// Whoever is made an operator or given a voice has it, whoever loses it has it no more, and nobody
/// else is affected.
pub proof fn law_member_modes(room: RoomModel, target: IdentityHash, other: IdentityHash)
    ensures
        member_set(room, "/op"@, target).operators.contains(other) == (other == target
            || room.operators.contains(other)),
        member_set(room, "/deop"@, target).operators.contains(other) == (other != target
            && room.operators.contains(other)),
        member_set(room, "/voice"@, target).voiced.contains(other) == (other == target
            || room.voiced.contains(other)),
        member_set(room, "/devoice"@, target).voiced.contains(other) == (other != target
            && room.voiced.contains(other)),
        member_set(member_set(room, "/op"@, target), "/deop"@, target).operators.contains(other)
            == (other != target && room.operators.contains(other)),
        member_set(member_set(room, "/voice"@, target), "/devoice"@, target).voiced.contains(other)
            == (other != target && room.voiced.contains(other)),
{
    reveal_strlit("/op");
    reveal_strlit("/deop");
    reveal_strlit("/voice");
    reveal_strlit("/devoice");
    assert("/op"@.len() == 3);
    assert("/deop"@.len() == 5);
    assert("/voice"@.len() == 6);
    assert("/devoice"@.len() == 8);
}

/// Whoever is banned is banned until the ban is lifted, and nobody else is affected; an invitation
/// is there until it is withdrawn.
pub proof fn law_access(
    room: RoomModel,
    target: IdentityHash,
    other: IdentityHash,
    now: Nanos,
    timeout: Nanos,
)
    ensures
        access_set(room, Access::Ban, target, now, timeout).banned.contains(other) == (other
            == target || room.banned.contains(other)),
        access_set(room, Access::Unban, target, now, timeout).banned.contains(other) == (other
            != target && room.banned.contains(other)),
        access_set(
            access_set(room, Access::Ban, target, now, timeout),
            Access::Unban,
            target,
            now,
            timeout,
        ).banned.contains(other) == (other != target && room.banned.contains(other)),
        room.key is Some || room.invite_only ==> lookup(
            access_set(room, Access::Invite, target, now, timeout).invited,
            other,
        ) == if other == target {
            Some(later(now, timeout))
        } else {
            lookup(room.invited, other)
        },
        lookup(access_set(room, Access::Uninvite, target, now, timeout).invited, other) == if other
            == target {
            None
        } else {
            lookup(room.invited, other)
        },
{
}

/// Whoever is banned from a room cannot join it: nobody's membership changes, and the link is told
/// so.
pub proof fn law_banned_cannot_join(
    hub: Hub,
    now: Nanos,
    link: LinkId,
    peer: IdentityHash,
    fields: FieldMap,
    name: Seq<char>,
)
    requires
        holds(hub.state.sessions, link),
        text_field(fields, K_ROOM) is Some,
        room_name(text_field(fields, K_ROOM)->0, hub.config.max_room_name_bytes as nat) == Ok::<
            Seq<char>,
            crate::state::RoomNameError,
        >(name),
        holds(hub.state.rooms, name),
        at(hub.state.rooms, name).banned.contains(peer),
    ensures
        joining(hub, now, link, peer, fields).hub.state.rooms == hub.state.rooms,
        only_errors(joining(hub, now, link, peer, fields).outs, link),
        joining(hub, now, link, peer, fields).outs.len() == 1,
{
    let counters = hub.state.counters;
    let tried = crate::router::recounted(
        hub,
        crate::state::Counters { joins: crate::state::counted(counters.joins, 1), ..counters },
    );
    let named = Hub {
        state: nicked_if(
            tried.state,
            link,
            carried_nick(fields, hub.config.max_nick_bytes as nat),
        ),
        ..tried
    };
    lemma_failing(named, link, Some(name), "banned from room"@);
    lemma_failing(named, link, Some(name), "too many rooms"@);
}

/// Whoever is banned from a room cannot speak there, and nobody outside a room that is closed to
/// outside messages, or without a voice in one that is moderated, can: nothing changes but the
/// counters, and the link is told so.
pub proof fn law_refused_speech_has_no_effect(
    hub: Hub,
    link: LinkId,
    peer: IdentityHash,
    message_type: u64,
    fields: FieldMap,
    name: Seq<char>,
)
    requires
        text_field(fields, K_ROOM) is Some,
        room_name(text_field(fields, K_ROOM)->0, hub.config.max_room_name_bytes as nat) == Ok::<
            Seq<char>,
            crate::state::RoomNameError,
        >(name),
        holds(hub.state.rooms, name),
        at(hub.state.rooms, name).banned.contains(peer) || !speaks(
            at(hub.state.rooms, name),
            peer,
        ) || (at(hub.state.rooms, name).no_outside_messages && !is_in(hub.state, link, name)),
    ensures
        only_counts(hub, passing_room(hub, link, peer, message_type, fields).hub),
        only_errors(passing_room(hub, link, peer, message_type, fields).outs, link),
        passing_room(hub, link, peer, message_type, fields).outs.len() == 1,
{
    let refusal = message_refusal(hub, link, peer, name, fields);
    assert(refusal is Some);
    lemma_failing(hub, link, Some(name), refusal->0);
}

/// A message that is not refused reaches everyone in the room, first of all that is said.
pub proof fn law_message_reaches_the_room(
    hub: Hub,
    link: LinkId,
    peer: IdentityHash,
    message_type: u64,
    fields: FieldMap,
    name: Seq<char>,
)
    requires
        text_field(fields, K_ROOM) is Some,
        room_name(text_field(fields, K_ROOM)->0, hub.config.max_room_name_bytes as nat) == Ok::<
            Seq<char>,
            crate::state::RoomNameError,
        >(name),
        message_refusal(hub, link, peer, name, fields) is None,
    ensures
        ({
            let outs = passing_room(hub, link, peer, message_type, fields).outs;
            &&& outs.len() > 0
            &&& outs[0] == Out::Forward(
                ParcelModel {
                    to: members_of(hub.state, name),
                    fields: passed_fields(hub, link, peer, fields, Some(name)),
                },
            )
        }),
{
}

/// An invitation lets its identity into a room that is invite-only or has a key, without the key,
/// until it expires; and a ban goes before it.
pub proof fn law_invitation_admits(
    room: RoomModel,
    target: IdentityHash,
    now: Nanos,
    timeout: Nanos,
    moment: Nanos,
    key: Option<Seq<char>>,
)
    requires
        room.key is Some || room.invite_only,
        moment < later(now, timeout),
    ensures
        join_refusal(access_set(room, Access::Invite, target, now, timeout), target, moment, key)
            is None == !room.banned.contains(target),
{
}

/// Without an invitation, or with one that has expired, nobody but an operator gets into a room
/// that is invite-only, and nobody but an operator into a room with a key without that key.
pub proof fn law_uninvited_are_refused(
    room: RoomModel,
    peer: IdentityHash,
    now: Nanos,
    key: Option<Seq<char>>,
)
    requires
        !operates(room, peer),
        lookup(room.invited, peer) is None || lookup(room.invited, peer)->0 <= now,
    ensures
        room.invite_only ==> join_refusal(room, peer, now, key) is Some,
        room.key is Some && key != room.key ==> join_refusal(room, peer, now, key) is Some,
        !room.invite_only && (room.key is None || key == room.key) && !room.banned.contains(peer)
            ==> join_refusal(room, peer, now, key) is None,
{
}

/// An invitation is used up by the join that it allows, and no other with it.
pub proof fn law_invitation_is_used_up(
    room: RoomModel,
    link: LinkId,
    peer: IdentityHash,
    now: Nanos,
    other: IdentityHash,
)
    ensures
        lookup(joined_room(room, link, peer, now).invited, peer) is None,
        other != peer ==> lookup(joined_room(room, link, peer, now).invited, other) == lookup(
            room.invited,
            other,
        ),
{
}

/// Checking the rooms drops the invitations that have expired and no others, and removes the
/// registered rooms that nobody is in and that have not been used for as long as the configuration
/// says, when the interval has passed; every other room stays as it is.
pub proof fn law_pruning(hub: Hub, clock: Clock, name: Seq<char>, peer: IdentityHash)
    requires
        unique(hub.state.rooms),
        orderly(hub.state.rooms),
    ensures
        ({
            let rooms = pruning(hub, clock).hub.state.rooms;
            let room = at(hub.state.rooms, name);
            let due = gap(clock.mono, hub.last_prune) >= prune_interval(hub.config);
            &&& holds(rooms, name) == (holds(hub.state.rooms, name) && (!due || lasts(
                room,
                clock.wall,
                hub.config.room_registry_prune_after,
            )))
            &&& holds(hub.state.rooms, name) && room.members.len() > 0 ==> holds(rooms, name)
            &&& holds(hub.state.rooms, name) && !room.registered ==> holds(rooms, name)
            &&& holds(rooms, name) ==> {
                let left = at(rooms, name);
                &&& left == (RoomModel { invited: left.invited, ..room })
                &&& lookup(left.invited, peer) == match lookup(room.invited, peer) {
                    Some(expires) => if expires > clock.wall {
                        Some(expires)
                    } else {
                        None
                    },
                    None => None,
                }
            }
        }),
{
    let rooms = uninvited_all(hub.state.rooms, clock.wall);
    super::steps::lemma_uninvited_all(hub.state.rooms, clock.wall, name);
    assert(unique(rooms)) by {
        assert forall|i: int, j: int| 0 <= i < j < rooms.len() implies (#[trigger] rooms[i]).0 != (
        #[trigger] rooms[j]).0 by {
            assert(hub.state.rooms[i].0 != hub.state.rooms[j].0);
        }
    }
    let keep = lasting(clock.wall, hub.config.room_registry_prune_after);
    lemma_kept_lookup(rooms, keep, name);
    if holds(hub.state.rooms, name) {
        let room = at(hub.state.rooms, name);
        lemma_kept_lookup(room.invited, being_valid(clock.wall), peer);
    }
}

} // verus!
