//! Upkeep: what a reload takes over and what it leaves, and which links are pinged and closed.

use crate::clock::{Clock, Nanos};
use crate::collections::{group_collections, group_sequences, holds, lookup, unique};
use crate::config::ConfigModel;
use crate::constants::T_PING;
use crate::outgoing::{draft, single, Out};
use crate::router::admin::{merged, reloaded};
use crate::router::liveness::{closes, ping_due, pings, pruning, ticking, timed_out};
use crate::router::rooms::members_of;
use crate::router::Hub;
use crate::state::{IdentityHash, LinkId, RoomModel, SessionModel};
use super::steps::{deserted, law_reload_keeps_members};
use vstd::prelude::*;

verus! {

broadcast use {group_collections, group_sequences};

/// What becomes of a room in a reload: what is in the registry goes before what is live, but for
/// the members, and for the founder where the registry has none. A room that is not in the registry
/// stays, unregistered, as long as somebody is in it.
pub open spec fn renewed(disk: Option<RoomModel>, live: Option<RoomModel>) -> Option<RoomModel> {
    match (disk, live) {
        (Some(room), Some(current)) => Some(
            RoomModel {
                members: current.members,
                founder: if room.founder is None {
                    current.founder
                } else {
                    room.founder
                },
                ..room
            },
        ),
        (Some(room), None) => Some(room),
        (None, Some(current)) => if current.members.len() == 0 {
            None
        } else {
            Some(RoomModel { registered: false, ..current })
        },
        (None, None) => None,
    }
}

/// A reload renews every room from the registry.
pub proof fn law_reload_renews_rooms(
    disk: Seq<(Seq<char>, RoomModel)>,
    live: Seq<(Seq<char>, RoomModel)>,
    name: Seq<char>,
)
    requires
        unique(live),
    ensures
        lookup(merged(disk, live), name) == renewed(lookup(disk, name), lookup(live, name)),
    decreases live.len(),
{
    if live.len() > 0 {
        let rest = live.drop_last();
        let last = live.last();
        assert(unique(rest)) by {
            assert forall|i: int, j: int| 0 <= i < j < rest.len() implies (#[trigger] rest[i]).0 != (
            #[trigger] rest[j]).0 by {
                assert(live[i].0 != live[j].0);
            }
        }
        law_reload_renews_rooms(disk, rest, name);
        law_reload_renews_rooms(disk, rest, last.0);
        assert(!holds(rest, last.0)) by {
            if holds(rest, last.0) {
                let i = choose|i: int| 0 <= i < rest.len() && (#[trigger] rest[i]).0 == last.0;
                assert(live[i].0 != live[live.len() - 1].0);
            }
        }
        assert(holds(live, name) == (last.0 == name || holds(rest, name))) by {
            if holds(live, name) {
                let i = choose|i: int| 0 <= i < live.len() && (#[trigger] live[i]).0 == name;
                if i < rest.len() {
                    assert(rest[i].0 == name);
                }
            }
            if holds(rest, name) {
                let i = choose|i: int| 0 <= i < rest.len() && (#[trigger] rest[i]).0 == name;
                assert(live[i].0 == name);
            }
            assert(live[live.len() - 1].0 == last.0);
        }
    } else {
        assert(!holds(live, name));
    }
}

/// A reload takes over the configuration, drops no session, and puts nobody out of a room.
pub proof fn law_reload_drops_nobody(
    hub: Hub,
    config: ConfigModel,
    disk: Seq<(Seq<char>, RoomModel)>,
    name: Seq<char>,
)
    requires
        unique(hub.state.rooms),
        unique(disk),
        deserted(disk),
    ensures
        reloaded(hub, config, disk).config == config,
        reloaded(hub, config, disk).state.sessions == hub.state.sessions,
        reloaded(hub, config, disk).state.links_by_identity == hub.state.links_by_identity,
        reloaded(hub, config, disk).state.links_by_nick == hub.state.links_by_nick,
        members_of(reloaded(hub, config, disk).state, name) == members_of(hub.state, name),
{
    law_reload_keeps_members(hub.state, disk, name);
}

proof fn lemma_closes(
    sessions: Seq<(LinkId, SessionModel)>,
    now: Nanos,
    timeout: Nanos,
    link: LinkId,
)
    ensures
        closes(sessions, now, timeout).contains(Out::Close(link)) == exists|i: int|
            0 <= i < sessions.len() && (#[trigger] sessions[i]).0 == link && timed_out(
                sessions[i].1,
                now,
                timeout,
            ),
    decreases sessions.len(),
{
    let outs = closes(sessions, now, timeout);
    if sessions.len() > 0 {
        let rest = sessions.drop_last();
        let less = closes(rest, now, timeout);
        lemma_closes(rest, now, timeout, link);
        assert(sessions[sessions.len() - 1] == sessions.last());
        if less.contains(Out::Close(link)) {
            let i = choose|i: int|
                0 <= i < rest.len() && (#[trigger] rest[i]).0 == link && timed_out(
                    rest[i].1,
                    now,
                    timeout,
                );
            assert(sessions[i].0 == link && timed_out(sessions[i].1, now, timeout));
            let j = choose|j: int| 0 <= j < less.len() && less[j] == Out::Close(link);
            assert(outs[j] == Out::Close(link));
        }
        if sessions.last().0 == link && timed_out(sessions.last().1, now, timeout) {
            assert(outs[less.len() as int] == Out::Close(link));
        }
        if outs.contains(Out::Close(link)) {
            let j = choose|j: int| 0 <= j < outs.len() && outs[j] == Out::Close(link);
            if j < less.len() {
                assert(less[j] == Out::Close(link));
            }
        }
        if exists|i: int|
            0 <= i < sessions.len() && (#[trigger] sessions[i]).0 == link && timed_out(
                sessions[i].1,
                now,
                timeout,
            ) {
            let i = choose|i: int|
                0 <= i < sessions.len() && (#[trigger] sessions[i]).0 == link && timed_out(
                    sessions[i].1,
                    now,
                    timeout,
                );
            if i < rest.len() {
                assert(rest[i].0 == link && timed_out(rest[i].1, now, timeout));
            }
        }
    }
}

proof fn lemma_pings(
    identity: IdentityHash,
    sessions: Seq<(LinkId, SessionModel)>,
    now: Nanos,
    interval: Nanos,
    link: LinkId,
)
    ensures
        forall|i: int|
            0 <= i < pings(identity, sessions, now, interval).len() ==> !(#[trigger] pings(
                identity,
                sessions,
                now,
                interval,
            )[i] is Close),
        (exists|i: int|
            0 <= i < sessions.len() && (#[trigger] sessions[i]).0 == link && ping_due(
                sessions[i].1,
                now,
                interval,
            )) ==> pings(identity, sessions, now, interval).contains(
            single(link, draft(T_PING, identity@)),
        ),
    decreases sessions.len(),
{
    let outs = pings(identity, sessions, now, interval);
    let ping = single(link, draft(T_PING, identity@));
    if sessions.len() > 0 {
        let rest = sessions.drop_last();
        let less = pings(identity, rest, now, interval);
        lemma_pings(identity, rest, now, interval, link);
        if exists|i: int|
            0 <= i < sessions.len() && (#[trigger] sessions[i]).0 == link && ping_due(
                sessions[i].1,
                now,
                interval,
            ) {
            let i = choose|i: int|
                0 <= i < sessions.len() && (#[trigger] sessions[i]).0 == link && ping_due(
                    sessions[i].1,
                    now,
                    interval,
                );
            if i < rest.len() {
                assert(rest[i].0 == link && ping_due(rest[i].1, now, interval));
                let j = choose|j: int| 0 <= j < less.len() && less[j] == ping;
                assert(outs[j] == ping);
            } else {
                assert(outs[less.len() as int] == ping);
            }
        }
        assert forall|i: int| 0 <= i < outs.len() implies !(#[trigger] outs[i] is Close) by {
            if i < less.len() {
                assert(outs[i] == less[i]);
            }
        }
    }
}

/// Where links are pinged, a tick closes exactly the links that have not answered a ping in time,
/// and pings every link whose ping is due and that owes no answer.
pub proof fn law_tick_closes_silent_links(hub: Hub, clock: Clock, link: LinkId)
    requires
        hub.config.ping_interval > 0,
    ensures
        ticking(hub, clock).outs.contains(Out::Close(link)) == exists|i: int|
            0 <= i < hub.state.sessions.len() && (#[trigger] hub.state.sessions[i]).0 == link
                && timed_out(hub.state.sessions[i].1, clock.mono, hub.config.ping_timeout),
        (exists|i: int|
            0 <= i < hub.state.sessions.len() && (#[trigger] hub.state.sessions[i]).0 == link
                && ping_due(hub.state.sessions[i].1, clock.mono, hub.config.ping_interval))
            ==> ticking(hub, clock).outs.contains(
            single(link, draft(T_PING, hub.identity@)),
        ),
{
    let sessions = pruning(hub, clock).hub.state.sessions;
    assert(sessions == hub.state.sessions);
    let closed = closes(sessions, clock.mono, hub.config.ping_timeout);
    let pinged = pings(hub.identity, sessions, clock.mono, hub.config.ping_interval);
    lemma_closes(sessions, clock.mono, hub.config.ping_timeout, link);
    lemma_pings(hub.identity, sessions, clock.mono, hub.config.ping_interval, link);
    let outs = ticking(hub, clock).outs;
    assert(outs == closed + pinged);
    if closed.contains(Out::Close(link)) {
        let j = choose|j: int| 0 <= j < closed.len() && closed[j] == Out::Close(link);
        assert(outs[j] == Out::Close(link));
    }
    if outs.contains(Out::Close(link)) {
        let j = choose|j: int| 0 <= j < outs.len() && outs[j] == Out::Close(link);
        if j >= closed.len() {
            assert(pinged[j - closed.len()] is Close);
        } else {
            assert(closed[j] == Out::Close(link));
        }
    }
    let ping = single(link, draft(T_PING, hub.identity@));
    if pinged.contains(ping) {
        let j = choose|j: int| 0 <= j < pinged.len() && pinged[j] == ping;
        assert(outs[closed.len() + j] == ping);
    }
}

} // verus!
