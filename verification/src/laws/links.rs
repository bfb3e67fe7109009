//! Links: how they come, who is on them, what is read from them, and how they are kept alive.

use crate::cbor::Cbor;
use crate::clock::{Clock, Nanos};
use crate::collections::{at, group_collections, group_sequences, holds, kept, lookup, unique};
use crate::constants::{
    K_BODY, K_T, T_ACTION, T_HELLO, T_JOIN, T_MSG, T_NOTICE, T_PART, T_PING, T_PONG,
    T_RESOURCE_ENVELOPE,
};
use crate::outgoing::{draft, single, ActionModel, Out};
use crate::protocol::{decoded, error_text, field, FieldMap};
use crate::router::liveness::{
    any_stale_invite, being_valid, has_stale_invite, lasts, ping_due, pinged_all, pings, prune_interval, pruning, ticking,
    timed_out,
};
use crate::router::membership::{greeting, joining, parting};
use crate::router::messages::passing;
use crate::router::resources::announcing_resource;
use crate::router::{handling, identifying, packet_counted, reading, Hub, ResumeModel, Work};
use crate::state::{
    counted, established, is_on, nicked, token_taken, Counters, IdentityHash, LinkId, RoomModel,
    SessionModel, StateModel, TOKEN,
};
use crate::text::lowercase;
use super::effects::{
    differ_at, envelope, goes_to, law_error, reads, refuses, same_but_counters,
};
use super::sound::{lemma_other_link, lemma_unique_at};
use vstd::prelude::*;

verus! {

broadcast use {group_collections, group_sequences};

/// A link that comes up gets a session on which nobody is, nothing is agreed on, and a minute's
/// packets may come at once; a link that has a session keeps it. Nothing else changes.
pub proof fn law_establishing(state: StateModel, link: LinkId, rate: u32, now: Nanos)
    ensures
        ({
            let after = established(state, link, rate, now);
            let session = at(after.sessions, link);
            &&& holds(after.sessions, link)
            &&& holds(state.sessions, link) ==> after == state
            &&& !holds(state.sessions, link) ==> {
                &&& session.peer is None
                &&& session.nick is None
                &&& !session.welcomed
                &&& session.rooms.len() == 0
                &&& session.peer_caps == Map::<i128, bool>::empty()
                &&& session.awaiting_pong is None
                &&& session.last_ping == now
                &&& session.updated == now
                &&& session.tokens == rate * TOKEN
            }
            &&& differ_at(state.sessions, after.sessions, link)
            &&& after.rooms == state.rooms
            &&& after.links_by_identity == state.links_by_identity
            &&& after.links_by_nick == state.links_by_nick
            &&& after.counters == state.counters
        }),
{
    assert(rate * TOKEN <= u128::MAX) by (nonlinear_arith)
        requires
            0 <= rate <= 0xffff_ffff,
            TOKEN == 60_000_000_000u128,
    ;
}

/// An identity that is banned from the hub has its link closed, and nothing changes. Any other is
/// then the one on the link, and its messages go there; whoever was on the link before is found on
/// another link of theirs, or nowhere. Nothing else changes.
#[verifier::rlimit(40)]
pub proof fn law_identifying(hub: Hub, link: LinkId, peer: IdentityHash, other: IdentityHash)
    requires
        unique(hub.state.sessions),
        holds(hub.state.sessions, link),
    ensures
        ({
            let (after, actions) = identifying(hub, link, peer);
            let session = at(hub.state.sessions, link);
            let index = hub.state.links_by_identity;
            let renewed = after.state.links_by_identity;
            if hub.config.banned_identities.contains(peer) {
                after == hub && actions == seq![ActionModel::Close(link)]
            } else {
                &&& actions.len() == 0
                &&& lookup(after.state.sessions, link) == Some(
                    SessionModel { peer: Some(peer), ..session },
                )
                &&& differ_at(hub.state.sessions, after.state.sessions, link)
                &&& lookup(renewed, peer) == Some(link)
                &&& other != peer && (session.peer != Some(other) || lookup(index, other) != Some(
                    link,
                )) ==> lookup(renewed, other) == lookup(index, other)
                &&& other != peer && session.peer == Some(other) && lookup(index, other) == Some(
                    link,
                ) ==> match lookup(renewed, other) {
                    Some(found) => found != link && is_on(hub.state.sessions, found, other),
                    None => forall|found: LinkId| #[trigger]
                        is_on(hub.state.sessions, found, other) ==> found == link,
                }
                &&& after.state.rooms == hub.state.rooms
                &&& after.state.links_by_nick == hub.state.links_by_nick
                &&& after.state.counters == hub.state.counters
                &&& after.config == hub.config
                &&& after.identity == hub.identity
                &&& after.extensions == hub.extensions
                &&& after.expected == hub.expected
                &&& after.last_prune == hub.last_prune
            }
        }),
{
    lemma_other_link(hub.state.sessions, other, link);
}

/// Whether the index has a link under a name.
pub open spec fn indexed(index: Seq<(Seq<char>, Seq<LinkId>)>, name: Seq<char>, link: LinkId) -> bool {
    holds(index, name) && at(index, name).contains(link)
}

/// A link with a new nickname is found under it, without regard to case, and not under the one
/// before; every other link is found where it was, and nothing else changes.
#[verifier::rlimit(40)]
pub proof fn law_nickname_is_set(
    state: StateModel,
    link: LinkId,
    nick: Option<Seq<char>>,
    name: Seq<char>,
    other: LinkId,
)
    requires
        holds(state.sessions, link),
    ensures
        ({
            let after = nicked(state, link, nick);
            let former = at(state.sessions, link).nick;
            &&& lookup(after.sessions, link) == Some(
                SessionModel { nick, ..at(state.sessions, link) },
            )
            &&& differ_at(state.sessions, after.sessions, link)
            &&& other != link ==> indexed(after.links_by_nick, name, other) == indexed(
                state.links_by_nick,
                name,
                other,
            )
            &&& indexed(after.links_by_nick, name, link) == ((nick is Some && name == lowercase(
                nick->0,
            )) || (indexed(state.links_by_nick, name, link) && !(former is Some && name
                == lowercase(former->0))))
            &&& after.rooms == state.rooms
            &&& after.links_by_identity == state.links_by_identity
            &&& after.counters == state.counters
        }),
{
    match at(state.sessions, link).nick {
        Some(former) => {
            let index = state.links_by_nick;
            let key = lowercase(former);
            if holds(index, key) {
                let links = at(index, key);
                let left = crate::collections::without(links, link);
                if left.len() == 0 {
                    assert forall|one: LinkId| #[trigger] links.contains(one) implies one
                        == link by {
                        if one != link {
                            assert(left.contains(one));
                        }
                    }
                }
                assert(left.contains(other) == (other != link && links.contains(other)));
                assert(!left.contains(link));
            }
        },
        None => {},
    }
}

/// A packet is counted with its bytes. From a link on which nobody is, nothing comes of it. One
/// that comes too fast is refused, and so is one that cannot be read; any other is handled.
#[verifier::rlimit(40)]
pub proof fn law_packet(hub: Hub, clock: Clock, link: LinkId, data: Seq<u8>)
    ensures
        ({
            let done = reading(hub, clock, link, data);
            let session = at(hub.state.sessions, link);
            let (taken, granted) = token_taken(
                session,
                hub.config.rate_limit_msgs_per_minute,
                clock.mono,
            );
            let counters = Counters {
                packets_in: counted(hub.state.counters.packets_in, 1),
                bytes_in: counted(hub.state.counters.bytes_in, data.len() as int),
                ..hub.state.counters
            };
            let limited = Hub {
                state: StateModel {
                    sessions: crate::collections::put(hub.state.sessions, link, taken),
                    counters,
                    ..hub.state
                },
                ..hub
            };
            if !holds(hub.state.sessions, link) || session.peer is None {
                &&& same_but_counters(hub, done.hub)
                &&& done.hub.state.counters == counters
                &&& done.outs.len() == 0
                &&& done.pending is None
            } else if !granted {
                refuses(limited, done, link, None, "rate limited"@)
                    && done.hub.state.counters.rate_limited == counted(counters.rate_limited, 1)
            } else if decoded(data) is Err {
                refuses(limited, done, link, None, "bad message: "@ + error_text(decoded(data)->Err_0))
                    && done.hub.state.counters.packets_bad == counted(counters.packets_bad, 1)
            } else {
                done == handling(
                    limited,
                    clock,
                    link,
                    session.peer->0,
                    session.welcomed,
                    decoded(data)->Ok_0,
                )
            }
        }),
{
    let session = at(hub.state.sessions, link);
    let got = packet_counted(hub, data.len() as int);
    let taken = token_taken(session, hub.config.rate_limit_msgs_per_minute, clock.mono).0;
    let limited = Hub {
        state: StateModel {
            sessions: crate::collections::put(got.state.sessions, link, taken),
            ..got.state
        },
        ..got
    };
    let counters = limited.state.counters;
    law_error(
        crate::router::recounted(
            limited,
            Counters { rate_limited: counted(counters.rate_limited, 1), ..counters },
        ),
        link,
        None,
        "rate limited"@,
    );
    if decoded(data) is Err {
        law_error(
            crate::router::recounted(
                limited,
                Counters { packets_bad: counted(counters.packets_bad, 1), ..counters },
            ),
            link,
            None,
            "bad message: "@ + error_text(decoded(data)->Err_0),
        );
    }
}

/// An allowance grows with time, by the packets that a minute allows, or one where that is none, up
/// to those of a minute; a packet is let through when there is one, and uses it up. Nothing else of
/// the session changes.
pub proof fn law_allowance(session: SessionModel, per_minute: u32, now: Nanos)
    requires
        session.updated <= now,
    ensures
        ({
            let (taken, granted) = token_taken(session, per_minute, now);
            let rate: int = if per_minute == 0 {
                1
            } else {
                per_minute as int
            };
            let earned = session.tokens + (now - session.updated) * rate;
            let allowance = if earned > rate * TOKEN {
                rate * TOKEN
            } else {
                earned
            };
            &&& taken == (SessionModel { tokens: taken.tokens, updated: now, ..session })
            &&& granted == (allowance >= TOKEN)
            &&& taken.tokens == if granted {
                allowance - TOKEN
            } else {
                allowance
            }
        }),
{
    let rate: int = if per_minute == 0 {
        1
    } else {
        per_minute as int
    };
    assert(rate * TOKEN <= u128::MAX) by (nonlinear_arith)
        requires
            1 <= rate <= 0xffff_ffff,
            TOKEN == 60_000_000_000u128,
    ;
    assert((rate * TOKEN) / (TOKEN as int) == rate) by (nonlinear_arith)
        requires
            TOKEN == 60_000_000_000u128,
    ;
    assert((now - session.updated) * rate >= 0) by (nonlinear_arith)
        requires
            now >= session.updated,
            rate >= 1,
    ;
}

/// What is done with a message, by its type. Before the hub has welcomed a client, it takes
/// everything but answers to pings and announcements of resources for a greeting.
#[verifier::rlimit(40)]
pub proof fn law_handling(
    hub: Hub,
    clock: Clock,
    link: LinkId,
    peer: IdentityHash,
    welcomed: bool,
    fields: FieldMap,
    kind: u64,
)
    requires
        field(fields, K_T) == Some(Cbor::Integer(kind as int)),
    ensures
        ({
            let done = handling(hub, clock, link, peer, welcomed, fields);
            &&& kind == T_RESOURCE_ENVELOPE ==> done == announcing_resource(
                hub,
                clock.mono,
                link,
                fields,
            )
            &&& kind == T_HELLO ==> done == greeting(hub, link, fields)
            &&& !welcomed && kind != T_PONG && kind != T_RESOURCE_ENVELOPE ==> done == greeting(
                hub,
                link,
                fields,
            )
            &&& welcomed && kind == T_JOIN ==> done == joining(
                hub,
                clock.wall,
                link,
                peer,
                fields,
            )
            &&& welcomed && kind == T_PART ==> done == parting(
                hub,
                clock.wall,
                link,
                peer,
                fields,
            )
            &&& welcomed && (kind == T_MSG || kind == T_NOTICE || kind == T_ACTION) ==> done
                == passing(hub, clock, link, peer, kind, fields)
            &&& welcomed && kind != T_HELLO && kind != T_PONG && kind != T_RESOURCE_ENVELOPE
                && kind != T_JOIN && kind != T_PART && kind != T_MSG && kind != T_NOTICE && kind
                != T_ACTION && kind != T_PING ==> refuses(
                hub,
                done,
                link,
                None,
                "unsupported message type"@,
            )
        }),
{
    law_error(hub, link, None, "unsupported message type"@);
}

/// A ping is answered on its link with a pong that carries the body of the ping, and changes
/// nothing but counters.
pub proof fn law_ping_is_answered(
    hub: Hub,
    clock: Clock,
    link: LinkId,
    peer: IdentityHash,
    fields: FieldMap,
)
    requires
        field(fields, K_T) == Some(Cbor::Integer(T_PING as int)),
    ensures
        ({
            let done = handling(hub, clock, link, peer, true, fields);
            &&& same_but_counters(hub, done.hub)
            &&& done.hub.state.counters == (Counters {
                pings_in: counted(hub.state.counters.pings_in, 1),
                pongs_out: counted(hub.state.counters.pongs_out, 1),
                ..hub.state.counters
            })
            &&& done.pending is None
            &&& done.outs.len() == 1
            &&& goes_to(done.outs[0], link)
            &&& reads(
                envelope(done.outs[0]),
                T_PONG,
                hub.identity,
                None,
                None,
                field(fields, K_BODY),
            )
        }),
{
}

/// A pong ends the wait for it: the link owes no answer any more. Nothing else changes but
/// counters, and nothing is said.
pub proof fn law_pong_is_heard(
    hub: Hub,
    clock: Clock,
    link: LinkId,
    peer: IdentityHash,
    welcomed: bool,
    fields: FieldMap,
)
    requires
        field(fields, K_T) == Some(Cbor::Integer(T_PONG as int)),
        holds(hub.state.sessions, link),
    ensures
        ({
            let done = handling(hub, clock, link, peer, welcomed, fields);
            &&& lookup(done.hub.state.sessions, link) == Some(
                SessionModel { awaiting_pong: None, ..at(hub.state.sessions, link) },
            )
            &&& differ_at(hub.state.sessions, done.hub.state.sessions, link)
            &&& done.hub == Hub {
                state: StateModel {
                    sessions: done.hub.state.sessions,
                    counters: Counters {
                        pongs_in: counted(hub.state.counters.pongs_in, 1),
                        ..hub.state.counters
                    },
                    ..hub.state
                },
                ..hub
            }
            &&& done.outs.len() == 0
            &&& done.pending is None
        }),
{
}

/// A link has timed out when a ping on it has been without an answer for the timeout, where there
/// is one.
pub proof fn law_timeout(session: SessionModel, now: Nanos, timeout: Nanos)
    ensures
        timed_out(session, now, timeout) == (timeout > 0 && session.awaiting_pong is Some && now
            >= session.awaiting_pong->0 + timeout),
{
}

/// A ping is due on a link that owes no answer when the interval has passed since the last one.
pub proof fn law_ping_is_due(session: SessionModel, now: Nanos, interval: Nanos)
    requires
        interval > 0,
    ensures
        ping_due(session, now, interval) == (session.awaiting_pong is None && now
            >= session.last_ping + interval),
{
}

/// Whether what goes out is a ping to a link of the list on which one is due.
pub open spec fn is_due_ping(
    identity: IdentityHash,
    sessions: Seq<(LinkId, SessionModel)>,
    now: Nanos,
    interval: Nanos,
    out: Out,
) -> bool {
    exists|i: int|
        0 <= i < sessions.len() && ping_due((#[trigger] sessions[i]).1, now, interval) && out
            == single(sessions[i].0, draft(T_PING, identity@))
}

proof fn lemma_pings_due(
    identity: IdentityHash,
    sessions: Seq<(LinkId, SessionModel)>,
    now: Nanos,
    interval: Nanos,
    k: int,
)
    requires
        0 <= k < pings(identity, sessions, now, interval).len(),
    ensures
        is_due_ping(
            identity,
            sessions,
            now,
            interval,
            pings(identity, sessions, now, interval)[k],
        ),
    decreases sessions.len(),
{
    if sessions.len() > 0 {
        let rest = sessions.drop_last();
        let less = pings(identity, rest, now, interval);
        let outs = pings(identity, sessions, now, interval);
        if k < less.len() {
            lemma_pings_due(identity, rest, now, interval, k);
            assert(less[k] == outs[k]);
            let i = choose|i: int|
                0 <= i < rest.len() && ping_due((#[trigger] rest[i]).1, now, interval) && less[k]
                    == single(rest[i].0, draft(T_PING, identity@));
            assert(sessions[i] == rest[i]);
        } else {
            assert(sessions[sessions.len() - 1] == sessions.last());
        }
    }
}

/// A tick marks exactly the links whose ping is due as owing an answer from now on, and changes
/// nothing else of any session; the pings that it sends are counted, and go to such links only.
/// Where links are not pinged, it changes no session and says nothing.
#[verifier::rlimit(40)]
pub proof fn law_tick(hub: Hub, clock: Clock, link: LinkId, k: int)
    requires
        unique(hub.state.sessions),
    ensures
        ({
            let done = ticking(hub, clock);
            let state = done.hub.state;
            let interval = hub.config.ping_interval;
            let session = at(hub.state.sessions, link);
            &&& holds(state.sessions, link) == holds(hub.state.sessions, link)
            &&& holds(hub.state.sessions, link) ==> at(state.sessions, link) == if interval > 0
                && session.awaiting_pong is None && clock.mono >= session.last_ping + interval {
                SessionModel {
                    awaiting_pong: Some(clock.mono),
                    last_ping: clock.mono,
                    ..session
                }
            } else {
                session
            }
            &&& interval == 0 ==> done.outs.len() == 0
            &&& interval > 0 && 0 <= k < done.outs.len() && !(done.outs[k] is Close) ==> is_due_ping(
                hub.identity,
                hub.state.sessions,
                clock.mono,
                interval,
                done.outs[k],
            )
            &&& state.rooms == pruning(hub, clock).hub.state.rooms
            &&& done.pending == pruning(hub, clock).pending
            &&& state.links_by_identity == hub.state.links_by_identity
            &&& state.links_by_nick == hub.state.links_by_nick
            &&& done.hub.config == hub.config
            &&& done.hub.identity == hub.identity
            &&& done.hub.expected == hub.expected
        }),
{
    let sessions = hub.state.sessions;
    let interval = hub.config.ping_interval;
    let after = pinged_all(sessions, clock.mono, interval);
    assert(unique(after)) by {
        assert forall|i: int, j: int| 0 <= i < j < after.len() implies (#[trigger] after[i]).0 != (
        #[trigger] after[j]).0 by {
            assert(sessions[i].0 != sessions[j].0);
        }
    }
    if holds(sessions, link) {
        let i = choose|i: int| 0 <= i < sessions.len() && (#[trigger] sessions[i]).0 == link;
        lemma_unique_at(sessions, i);
        assert(after[i].0 == link);
        lemma_unique_at(after, i);
    }
    if holds(after, link) {
        let i = choose|i: int| 0 <= i < after.len() && (#[trigger] after[i]).0 == link;
        assert(sessions[i].0 == link);
    }
    let done = ticking(hub, clock);
    if interval > 0 && 0 <= k < done.outs.len() && !(done.outs[k] is Close) {
        let closed = crate::router::liveness::closes(
            sessions,
            clock.mono,
            hub.config.ping_timeout,
        );
        lemma_closes_only(sessions, clock.mono, hub.config.ping_timeout);
        if k < closed.len() {
            assert(closed[k] is Close);
        } else {
            let sent = pings(hub.identity, sessions, clock.mono, interval);
            lemma_pings_due(hub.identity, sessions, clock.mono, interval, k - closed.len());
            assert(done.outs[k] == sent[k - closed.len()]);
        }
    }
}

proof fn lemma_closes_only(
    sessions: Seq<(LinkId, SessionModel)>,
    now: Nanos,
    timeout: Nanos,
)
    ensures
        forall|k: int|
            0 <= k < crate::router::liveness::closes(sessions, now, timeout).len()
                ==> #[trigger] crate::router::liveness::closes(sessions, now, timeout)[k] is Close,
    decreases sessions.len(),
{
    if sessions.len() > 0 {
        lemma_closes_only(sessions.drop_last(), now, timeout);
    }
}

/// A registered room that nobody is in goes when it has not been used for the time after which
/// rooms are pruned, and no other room goes.
pub proof fn law_lasting(room: RoomModel, now: Nanos, prune_after: Nanos)
    requires
        prune_after > 0,
    ensures
        lasts(room, now, prune_after) == !(room.registered && room.members.len() == 0 && now
            >= room.last_used_ts + prune_after),
{
}

/// Rooms are pruned after the interval that is set, which is at least a millisecond.
pub proof fn law_prune_interval(hub: Hub)
    ensures
        prune_interval(hub.config) >= 1_000_000,
        hub.config.room_registry_prune_interval >= 1_000_000 ==> prune_interval(hub.config)
            == hub.config.room_registry_prune_interval,
{
}

proof fn lemma_kept_all(
    invited: Seq<(IdentityHash, Nanos)>,
    keep: spec_fn((IdentityHash, Nanos)) -> bool,
)
    ensures
        kept(invited, keep).len() <= invited.len(),
        (kept(invited, keep).len() == invited.len()) == forall|j: int|
            0 <= j < invited.len() ==> keep(#[trigger] invited[j]),
    decreases invited.len(),
{
    if invited.len() > 0 {
        let rest = invited.drop_last();
        lemma_kept_all(rest, keep);
        assert forall|j: int| 0 <= j < rest.len() implies rest[j] == #[trigger] invited[j] by {}
        if kept(rest, keep).len() == rest.len() && keep(invited.last()) {
            assert forall|j: int| 0 <= j < invited.len() implies keep(#[trigger] invited[j]) by {
                if j < rest.len() {
                    assert(keep(rest[j]));
                }
            }
        }
        if forall|j: int| 0 <= j < invited.len() ==> keep(#[trigger] invited[j]) {
            assert(keep(invited[invited.len() - 1]));
            assert forall|j: int| 0 <= j < rest.len() implies keep(#[trigger] rest[j]) by {
                assert(keep(invited[j]));
            }
        }
    }
}

/// Whether an invitation to a room has lapsed.
pub open spec fn has_lapsed_invitation(room: RoomModel, now: Nanos) -> bool {
    exists|j: int| 0 <= j < room.invited.len() && (#[trigger] room.invited[j]).1 <= now
}

/// An invitation lapses when its time has come.
pub proof fn law_lapsed_invitations(rooms: Seq<(Seq<char>, RoomModel)>, now: Nanos)
    ensures
        any_stale_invite(rooms, now) == exists|i: int|
            0 <= i < rooms.len() && has_lapsed_invitation((#[trigger] rooms[i]).1, now),
{
    let keep = being_valid(now);
    assert forall|i: int| 0 <= i < rooms.len() implies has_stale_invite(
        (#[trigger] rooms[i]).1,
        now,
    ) == has_lapsed_invitation(rooms[i].1, now) by {
        let invited = rooms[i].1.invited;
        lemma_kept_all(invited, keep);
        if has_lapsed_invitation(rooms[i].1, now) {
            let j = choose|j: int| 0 <= j < invited.len() && (#[trigger] invited[j]).1 <= now;
            assert(!keep(invited[j]));
        }
        if !has_lapsed_invitation(rooms[i].1, now) {
            assert forall|j: int| 0 <= j < invited.len() implies keep(#[trigger] invited[j]) by {
                assert(!(invited[j].1 <= now));
            }
        }
    }
    if any_stale_invite(rooms, now) {
        let i = choose|i: int|
            0 <= i < rooms.len() && has_stale_invite((#[trigger] rooms[i]).1, now);
        assert(has_lapsed_invitation(rooms[i].1, now));
    }
    if exists|i: int|
        0 <= i < rooms.len() && has_lapsed_invitation((#[trigger] rooms[i]).1, now) {
        let i = choose|i: int|
            0 <= i < rooms.len() && has_lapsed_invitation((#[trigger] rooms[i]).1, now);
        assert(has_stale_invite(rooms[i].1, now));
    }
}

/// Pruning says nothing. It has the rooms saved when an invitation has lapsed or a room is gone,
/// and not otherwise; and it sets back the time of the last pruning only when one was due.
pub proof fn law_pruning_is_saved(hub: Hub, clock: Clock)
    ensures
        ({
            let done = pruning(hub, clock);
            let due = hub.last_prune <= clock.mono && clock.mono - hub.last_prune >= prune_interval(
                hub.config,
            );
            &&& done.outs.len() == 0
            &&& (done.pending is Some) == (any_stale_invite(hub.state.rooms, clock.wall)
                || done.hub.state.rooms.len() != hub.state.rooms.len())
            &&& done.pending is Some ==> done.pending->0.work == Work::SaveRooms
                && done.pending->0.resume == ResumeModel::Quiet
            &&& done.hub.last_prune == if due {
                clock.mono
            } else {
                hub.last_prune
            }
            &&& done.hub.state.sessions == hub.state.sessions
            &&& done.hub.state.counters == hub.state.counters
            &&& done.hub.config == hub.config
        }),
{
}

} // verus!
