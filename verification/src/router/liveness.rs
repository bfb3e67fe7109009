//! What the hub does on its own: pings, timeouts, expiry of invitations and pruning of rooms.

use crate::clock::{gap, time_gap, Clock, Nanos};
use crate::collections::{group_collections, group_sequences, kept, models, Model, Table};
use crate::config::ConfigModel;
use crate::constants::T_PING;
use crate::outgoing::{draft, new_draft, single, to_one, Out, Outgoing};
use crate::state::{
    count, counted, Counters, IdentityHash, LinkId, Room, RoomModel, Session, SessionModel,
    StateModel,
};
use super::{ask, asking, only, saying, turn, Hub, Reply, Resume, ResumeModel, Router, Turn, Work};
use vstd::prelude::*;

verus! {

broadcast use {group_collections, group_sequences};

/// Whether an invitation has not expired, as a function.
pub open spec fn being_valid(now: Nanos) -> spec_fn((IdentityHash, Nanos)) -> bool {
    |entry: (IdentityHash, Nanos)| entry.1 > now
}

/// A room without the invitations that have expired.
pub open spec fn uninvited(room: RoomModel, now: Nanos) -> RoomModel {
    RoomModel { invited: kept(room.invited, being_valid(now)), ..room }
}

/// The rooms without the invitations that have expired.
pub open spec fn uninvited_all(rooms: Seq<(Seq<char>, RoomModel)>, now: Nanos) -> Seq<
    (Seq<char>, RoomModel),
> {
    Seq::new(rooms.len(), |i: int| (rooms[i].0, uninvited(rooms[i].1, now)))
}

/// Whether an invitation in a room has expired.
pub open spec fn has_stale_invite(room: RoomModel, now: Nanos) -> bool {
    kept(room.invited, being_valid(now)).len() != room.invited.len()
}

/// Whether an invitation in one of the rooms has expired.
pub open spec fn any_stale_invite(rooms: Seq<(Seq<char>, RoomModel)>, now: Nanos) -> bool {
    exists|i: int| 0 <= i < rooms.len() && has_stale_invite((#[trigger] rooms[i]).1, now)
}

/// Whether a room is kept when stale rooms are pruned: it is not registered, or somebody is in
/// it, or it was in use not long ago.
pub open spec fn lasts(room: RoomModel, now: Nanos, prune_after: Nanos) -> bool {
    !room.registered || room.members.len() > 0 || now < room.last_used_ts || now - room.last_used_ts
        < prune_after
}

/// [`lasts`] as a function.
pub open spec fn lasting(now: Nanos, prune_after: Nanos) -> spec_fn((Seq<char>, RoomModel)) -> bool {
    |entry: (Seq<char>, RoomModel)| lasts(entry.1, now, prune_after)
}

/// How long the hub waits before it prunes again.
pub open spec fn prune_interval(config: ConfigModel) -> Nanos {
    if config.room_registry_prune_interval < 1_000_000 {
        1_000_000
    } else {
        config.room_registry_prune_interval
    }
}

/// The hub after it has dropped expired invitations and, where it is time, stale rooms. It asks
/// for the registry to be written where that changed anything.
pub open spec fn pruning(hub: Hub, clock: Clock) -> Turn {
    let rooms = uninvited_all(hub.state.rooms, clock.wall);
    let stale = any_stale_invite(hub.state.rooms, clock.wall);
    if gap(clock.mono, hub.last_prune) < prune_interval(hub.config) {
        let pruned = Hub { state: StateModel { rooms, ..hub.state }, ..hub };
        if stale {
            asking(pruned, Seq::empty(), Work::SaveRooms, ResumeModel::Quiet)
        } else {
            saying(pruned, Seq::empty())
        }
    } else {
        let left = kept(rooms, lasting(clock.wall, hub.config.room_registry_prune_after));
        let pruned = Hub {
            state: StateModel { rooms: left, ..hub.state },
            last_prune: clock.mono,
            ..hub
        };
        if stale || left.len() != rooms.len() {
            asking(pruned, Seq::empty(), Work::SaveRooms, ResumeModel::Quiet)
        } else {
            saying(pruned, Seq::empty())
        }
    }
}

/// Whether a client has not answered a ping in time.
pub open spec fn timed_out(session: SessionModel, now: Nanos, timeout: Nanos) -> bool {
    match session.awaiting_pong {
        Some(sent) => timeout > 0 && gap(now, sent) >= timeout,
        None => false,
    }
}

/// Whether it is time to ping a client.
pub open spec fn ping_due(session: SessionModel, now: Nanos, interval: Nanos) -> bool {
    session.awaiting_pong is None && gap(now, session.last_ping) >= interval
}

/// A session that is pinged where it is time.
pub open spec fn pinged(session: SessionModel, now: Nanos, interval: Nanos) -> SessionModel {
    if ping_due(session, now, interval) {
        SessionModel { awaiting_pong: Some(now), last_ping: now, ..session }
    } else {
        session
    }
}

/// The sessions, pinged where it is time.
pub open spec fn pinged_all(
    sessions: Seq<(LinkId, SessionModel)>,
    now: Nanos,
    interval: Nanos,
) -> Seq<(LinkId, SessionModel)> {
    Seq::new(sessions.len(), |i: int| (sessions[i].0, pinged(sessions[i].1, now, interval)))
}

/// The links that are closed for want of an answer.
pub open spec fn closes(
    sessions: Seq<(LinkId, SessionModel)>,
    now: Nanos,
    timeout: Nanos,
) -> Seq<Out>
    decreases sessions.len(),
{
    if sessions.len() == 0 {
        Seq::empty()
    } else if timed_out(sessions.last().1, now, timeout) {
        closes(sessions.drop_last(), now, timeout).push(Out::Close(sessions.last().0))
    } else {
        closes(sessions.drop_last(), now, timeout)
    }
}

/// The pings that are sent.
pub open spec fn pings(
    identity: IdentityHash,
    sessions: Seq<(LinkId, SessionModel)>,
    now: Nanos,
    interval: Nanos,
) -> Seq<Out>
    decreases sessions.len(),
{
    if sessions.len() == 0 {
        Seq::empty()
    } else if ping_due(sessions.last().1, now, interval) {
        pings(identity, sessions.drop_last(), now, interval).push(
            single(sessions.last().0, draft(T_PING, identity@)),
        )
    } else {
        pings(identity, sessions.drop_last(), now, interval)
    }
}

/// What the hub does at regular intervals.
pub open spec fn ticking(hub: Hub, clock: Clock) -> Turn {
    let pruned = pruning(hub, clock);
    let interval = hub.config.ping_interval;
    if interval == 0 {
        pruned
    } else {
        let state = pruned.hub.state;
        let sent = pings(hub.identity, state.sessions, clock.mono, interval);
        let counters = state.counters;
        Turn {
            hub: Hub {
                state: StateModel {
                    sessions: pinged_all(state.sessions, clock.mono, interval),
                    counters: Counters {
                        pings_out: counted(counters.pings_out, sent.len() as int),
                        ..counters
                    },
                    ..state
                },
                ..pruned.hub
            },
            outs: closes(state.sessions, clock.mono, hub.config.ping_timeout) + sent,
            pending: pruned.pending,
        }
    }
}

impl Room {
    /// Drops the invitations that have expired; says whether there were any.
    fn drop_stale_invites(&mut self, now: Nanos) -> (result: bool)
        ensures
            final(self).model() == uninvited(old(self).model(), now),
            result == has_stale_invite(old(self).model(), now),
    {
        let ghost all = self.invited.model();
        let before: usize = self.invited.len();
        let ghost mut done: int = 0;
        let mut i: usize = 0;
        assert(self.invited.model() =~= kept(all.take(0), being_valid(now)) + all.skip(0));
        let ghost start = self.model();
        while i < self.invited.len()
            invariant
                0 <= done <= all.len(),
                all == start.invited,
                i <= self.invited.model().len(),
                self.invited.model() == kept(all.take(done), being_valid(now)) + all.skip(done),
                kept(all.take(done), being_valid(now)).len() == i,
                self.model() == (RoomModel { invited: self.invited.model(), ..start }),
            decreases self.invited.model().len() - i,
        {
            let ghost current = self.invited.model();
            proof {
                assert(current[i as int] == all.skip(done)[0]);
                assert(all.take(done + 1).drop_last() == all.take(done));
                assert(all.take(done + 1).last() == all[done]);
            }
            if *self.invited.value(i) > now {
                assert(self.invited.model() =~= kept(all.take(done + 1), being_valid(now))
                    + all.skip(done + 1));
                i += 1;
            } else {
                self.invited.remove_at(i);
                assert(self.invited.model() =~= kept(all.take(done + 1), being_valid(now))
                    + all.skip(done + 1));
            }
            proof {
                done = done + 1;
            }
        }
        assert(all.skip(done).len() == 0);
        assert(all.take(done) =~= all);
        assert(self.invited.model() =~= kept(all, being_valid(now)));
        self.invited.len() != before
    }

    fn is_lasting(&self, now: Nanos, prune_after: Nanos) -> (result: bool)
        ensures
            result == lasts(self.model(), now, prune_after),
    {
        !self.registered || self.members.len() > 0 || now < self.last_used_ts || now
            - self.last_used_ts < prune_after
    }
}

/// Drops the invitations that have expired; says whether there were any.
fn drop_stale_invites(rooms: &mut Table<String, Room>, now: Nanos) -> (result: bool)
    ensures
        final(rooms).model() == uninvited_all(old(rooms).model(), now),
        result == any_stale_invite(old(rooms).model(), now),
{
    let ghost all = rooms.model();
    let mut changed = false;
    let mut i: usize = 0;
    assert(rooms.model() =~= uninvited_all(all.take(0), now) + all.skip(0));
    while i < rooms.len()
        invariant
            i <= all.len(),
            rooms.model() == uninvited_all(all.take(i as int), now) + all.skip(i as int),
            changed == any_stale_invite(all.take(i as int), now),
        decreases all.len() - i,
    {
        let ghost current = rooms.model();
        proof {
            let next = all.take(i + 1);
            let past = all.take(i as int);
            assert(current[i as int] == all[i as int]);
            assert(any_stale_invite(next, now) == (any_stale_invite(past, now) || has_stale_invite(
                all[i as int].1,
                now,
            ))) by {
                if any_stale_invite(past, now) {
                    let j = choose|j: int|
                        0 <= j < past.len() && has_stale_invite((#[trigger] past[j]).1, now);
                    assert(has_stale_invite(next[j].1, now));
                }
                if has_stale_invite(all[i as int].1, now) {
                    assert(has_stale_invite(next[i as int].1, now));
                }
                if any_stale_invite(next, now) {
                    let j = choose|j: int|
                        0 <= j < next.len() && has_stale_invite((#[trigger] next[j]).1, now);
                    if j < i {
                        assert(has_stale_invite(past[j].1, now));
                    }
                }
            }
        }
        let stale = rooms.value_mut(i).drop_stale_invites(now);
        changed = changed || stale;
        i += 1;
        assert(rooms.model() =~= uninvited_all(all.take(i as int), now) + all.skip(i as int));
    }
    assert(rooms.model() =~= uninvited_all(all, now));
    changed
}

/// Drops the rooms that are stale.
fn drop_stale_rooms(rooms: &mut Table<String, Room>, now: Nanos, prune_after: Nanos)
    ensures
        final(rooms).model() == kept(old(rooms).model(), lasting(now, prune_after)),
{
    let ghost all = rooms.model();
    let ghost mut done: int = 0;
    let mut i: usize = 0;
    assert(rooms.model() =~= kept(all.take(0), lasting(now, prune_after)) + all.skip(0));
    while i < rooms.len()
        invariant
            0 <= done <= all.len(),
            i <= rooms.model().len(),
            rooms.model() == kept(all.take(done), lasting(now, prune_after)) + all.skip(done),
            kept(all.take(done), lasting(now, prune_after)).len() == i,
        decreases rooms.model().len() - i,
    {
        let ghost current = rooms.model();
        proof {
            assert(current[i as int] == all.skip(done)[0]);
            assert(all.take(done + 1).drop_last() == all.take(done));
            assert(all.take(done + 1).last() == all[done]);
        }
        if rooms.value(i).is_lasting(now, prune_after) {
            assert(rooms.model() =~= kept(all.take(done + 1), lasting(now, prune_after)) + all.skip(
                done + 1,
            ));
            i += 1;
        } else {
            rooms.remove_at(i);
            assert(rooms.model() =~= kept(all.take(done + 1), lasting(now, prune_after)) + all.skip(
                done + 1,
            ));
        }
        proof {
            done = done + 1;
        }
    }
    assert(all.skip(done).len() == 0);
    assert(all.take(done) =~= all);
    assert(rooms.model() =~= kept(all, lasting(now, prune_after)));
}

impl Session {
    fn is_timed_out(&self, now: Nanos, timeout: Nanos) -> (result: bool)
        ensures
            result == timed_out(self.model(), now, timeout),
    {
        match self.awaiting_pong {
            Some(sent) => timeout > 0 && time_gap(now, sent) >= timeout,
            None => false,
        }
    }

    fn is_ping_due(&self, now: Nanos, interval: Nanos) -> (result: bool)
        ensures
            result == ping_due(self.model(), now, interval),
    {
        self.awaiting_pong.is_none() && time_gap(now, self.last_ping) >= interval
    }
}

impl Router {
    /// Drops expired invitations and, where it is time, stale rooms.
    fn prune_persistent_state(&mut self, clock: Clock) -> (result: Reply)
        ensures
            turn(final(self).model(), result) == pruning(old(self).model(), clock),
    {
        let mut changed = drop_stale_invites(&mut self.state.rooms, clock.wall);
        let interval: Nanos = if self.config.room_registry_prune_interval < 1_000_000 {
            1_000_000
        } else {
            self.config.room_registry_prune_interval
        };
        if time_gap(clock.mono, self.last_registry_prune) >= interval {
            let before: usize = self.state.rooms.len();
            drop_stale_rooms(
                &mut self.state.rooms,
                clock.wall,
                self.config.room_registry_prune_after,
            );
            if self.state.rooms.len() != before {
                changed = true;
            }
            self.last_registry_prune = clock.mono;
        }
        if changed {
            ask(Vec::new(), Work::SaveRooms, Resume::Quiet)
        } else {
            only(Vec::new())
        }
    }

    /// Pings the clients where it is time. Gives the links to be closed and the pings.
    fn ping_clients(&mut self, now: Nanos) -> (result: Vec<Outgoing>)
        ensures
            ({
                let before = old(self).model();
                let state = before.state;
                let interval = before.config.ping_interval;
                let sent = pings(before.identity, state.sessions, now, interval);
                &&& models(result@) == closes(
                    state.sessions,
                    now,
                    before.config.ping_timeout,
                ) + sent
                &&& final(self).model() == (Hub {
                    state: StateModel {
                        sessions: pinged_all(state.sessions, now, interval),
                        counters: Counters {
                            pings_out: counted(state.counters.pings_out, sent.len() as int),
                            ..state.counters
                        },
                        ..state
                    },
                    ..before
                })
            }),
    {
        let ghost start = self.model();
        let ghost all = self.state.sessions.model();
        let interval: Nanos = self.config.ping_interval;
        let timeout: Nanos = self.config.ping_timeout;
        let mut outs: Vec<Outgoing> = Vec::new();
        let mut sent: Vec<Outgoing> = Vec::new();
        let mut i: usize = 0;
        assert(all =~= pinged_all(all.take(0), now, interval) + all.skip(0));
        while i < self.state.sessions.len()
            invariant
                i <= all.len(),
                all == start.state.sessions,
                interval == start.config.ping_interval,
                timeout == start.config.ping_timeout,
                self.model() == (Hub {
                    state: StateModel {
                        sessions: pinged_all(all.take(i as int), now, interval) + all.skip(
                            i as int,
                        ),
                        ..start.state
                    },
                    ..start
                }),
                models(outs@) == closes(all.take(i as int), now, timeout),
                models(sent@) == pings(start.identity, all.take(i as int), now, interval),
            decreases all.len() - i,
        {
            let ghost current = self.state.sessions.model();
            assert(all.take(i + 1).drop_last() == all.take(i as int));
            assert(current[i as int] == all[i as int]);
            let link: LinkId = *self.state.sessions.key(i);
            if self.state.sessions.value(i).is_timed_out(now, timeout) {
                outs.push(Outgoing::Close(link));
            }
            if self.state.sessions.value(i).is_ping_due(now, interval) {
                let session = self.state.sessions.value_mut(i);
                session.awaiting_pong = Some(now);
                session.last_ping = now;
                sent.push(to_one(link, new_draft(T_PING, self.hub_identity.as_slice())));
            }
            i += 1;
            assert(self.state.sessions.model() =~= pinged_all(all.take(i as int), now, interval)
                + all.skip(i as int));
        }
        assert(self.state.sessions.model() =~= pinged_all(all, now, interval));
        self.state.counters.pings_out = count(self.state.counters.pings_out, sent.len());
        outs.append(&mut sent);
        outs
    }

    /// Does what is to be done at regular intervals.
    pub(crate) fn tick(&mut self, clock: Clock) -> (result: Reply)
        ensures
            turn(final(self).model(), result) == ticking(old(self).model(), clock),
    {
        let reply = self.prune_persistent_state(clock);
        if self.config.ping_interval == 0 {
            return reply;
        }
        let outs = self.ping_clients(clock.mono);
        Reply { outs, pending: reply.pending }
    }
}

} // verus!
