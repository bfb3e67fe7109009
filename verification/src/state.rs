//! The live state of a hub: sessions, rooms, the indexes over them, and the counters.

use crate::cbor::{map_of, switches, Fields};
use crate::clock::{gap, steady_time, time_gap, Nanos};
use crate::collections::{at, dropped, holds, lookup, put, with, without};
use crate::collections::{group_collections, group_sequences, models, Key, KeySet, Model, Table};
use crate::config::HubConfig;
use crate::text::{
    ascii_lower, ascii_only, byte_len, contains_control, has_control, lowercase, text_len, to_lowercase,
};
use crate::text::{trim, trimmed};
use vstd::prelude::*;

pub use crate::config::IdentityHash;

verus! {

broadcast use {group_collections, group_sequences};

/// A link, known by its identifier.
pub type LinkId = [u8; 16];

/// How many parts a message token is counted in: one for each nanosecond of a minute, so that a
/// rate per minute earns whole parts in every nanosecond.
pub const TOKEN: u128 = 60_000_000_000;

/// The state of a token bucket.
#[derive(Debug)]
pub struct RateState {
    pub tokens: u128,
    pub updated: Nanos,
}

/// What a client has said of its capabilities.
pub struct Capabilities {
    entries: Vec<(i128, bool)>,
}

impl Model for Capabilities {
    type M = Map<i128, bool>;

    closed spec fn model(&self) -> Map<i128, bool> {
        map_of(self.entries@)
    }
}

impl Capabilities {
    pub fn new() -> (result: Self)
        ensures
            result.model() == Map::<i128, bool>::empty(),
    {
        let result = Capabilities { entries: Vec::new() };
        assert(result.model() =~= Map::<i128, bool>::empty());
        result
    }

    /// What a map says of capabilities.
    pub fn read(fields: &Fields) -> (result: Self)
        ensures
            result.model() == switches(fields.map()),
    {
        Capabilities { entries: fields.to_switches() }
    }

    /// Whether a capability is there.
    pub fn supports(&self, capability: i128) -> (result: bool)
        ensures
            result == (self.model().dom().contains(capability) && self.model()[capability]),
    {
        let ghost all = self.entries@;
        let mut result = false;
        let mut i: usize = 0;
        while i < self.entries.len()
            invariant
                i <= self.entries@.len(),
                all == self.entries@,
                result == (holds(all.take(i as int), capability) && at(
                    all.take(i as int),
                    capability,
                )),
            decreases self.entries@.len() - i,
        {
            let ghost before = all.take(i as int);
            assert(all.take(i + 1) =~= before.push(all[i as int]));
            proof {
                crate::cbor::lemma_map_push(before, all[i as int].0, all[i as int].1);
                assert(map_of(all.take(i + 1)).dom().contains(capability) == holds(
                    all.take(i + 1),
                    capability,
                ));
                assert(map_of(before).dom().contains(capability) == holds(before, capability));
                assert(holds(all.take(i + 1), capability) ==> map_of(all.take(i + 1))[capability]
                    == at(all.take(i + 1), capability));
                assert(holds(before, capability) ==> map_of(before)[capability] == at(
                    before,
                    capability,
                ));
            }
            if self.entries[i].0 == capability {
                result = self.entries[i].1;
            }
            i += 1;
        }
        assert(all.take(i as int) =~= all);
        result
    }
}

/// One link and what is known of its client.
pub struct Session {
    pub welcomed: bool,
    pub peer: Option<IdentityHash>,
    pub nick: Option<String>,
    pub rooms: KeySet<String>,
    pub peer_caps: Capabilities,
    pub awaiting_pong: Option<Nanos>,
    pub last_ping: Nanos,
    pub rate: RateState,
}

/// What a session holds.
#[verifier::ext_equal]
pub struct SessionModel {
    pub welcomed: bool,
    pub peer: Option<IdentityHash>,
    pub nick: Option<Seq<char>>,
    pub rooms: Seq<Seq<char>>,
    pub peer_caps: Map<i128, bool>,
    pub awaiting_pong: Option<Nanos>,
    pub last_ping: Nanos,
    pub tokens: u128,
    pub updated: Nanos,
}

impl Model for Session {
    type M = SessionModel;

    open spec fn model(&self) -> SessionModel {
        SessionModel {
            welcomed: self.welcomed,
            peer: self.peer,
            nick: self.nick.model(),
            rooms: self.rooms.model(),
            peer_caps: self.peer_caps.model(),
            awaiting_pong: self.awaiting_pong,
            last_ping: self.last_ping,
            tokens: self.rate.tokens,
            updated: self.rate.updated,
        }
    }
}

/// A session as it is when its link is established.
pub open spec fn new_session(rate: u32, now: Nanos) -> SessionModel {
    SessionModel {
        welcomed: false,
        peer: None,
        nick: None,
        rooms: Seq::empty(),
        peer_caps: Map::empty(),
        awaiting_pong: None,
        last_ping: now,
        tokens: (rate * TOKEN) as u128,
        updated: now,
    }
}

/// The size of a bucket, in parts of a token.
pub open spec fn capacity(per_minute: u32) -> int {
    if per_minute == 0 {
        TOKEN as int
    } else {
        per_minute * TOKEN
    }
}

/// What is in a bucket after `elapsed` nanoseconds: it fills at its rate, and never beyond its
/// size.
pub open spec fn refilled(tokens: u128, elapsed: Nanos, per_minute: u32) -> u128 {
    let earned = tokens + elapsed * (capacity(per_minute) / TOKEN as int);
    if earned > capacity(per_minute) {
        capacity(per_minute) as u128
    } else {
        earned as u128
    }
}

/// A session that tries to take a token, and whether it gets one.
pub open spec fn token_taken(session: SessionModel, per_minute: u32, now: Nanos) -> (
    SessionModel,
    bool,
) {
    let tokens = refilled(session.tokens, gap(now, session.updated), per_minute);
    if tokens < TOKEN {
        (SessionModel { tokens, updated: now, ..session }, false)
    } else {
        (SessionModel { tokens: (tokens - TOKEN) as u128, updated: now, ..session }, true)
    }
}

impl Session {
    fn new(rate: u32, now: Nanos) -> (result: Self)
        ensures
            result.model() == new_session(rate, now),
    {
        Session {
            welcomed: false,
            peer: None,
            nick: None,
            rooms: KeySet::new(),
            peer_caps: Capabilities::new(),
            awaiting_pong: None,
            last_ping: now,
            rate: RateState { tokens: rate as u128 * TOKEN, updated: now },
        }
    }

    /// Takes a token out of the session's bucket, if there is one.
    pub fn take_rate_token(&mut self, per_minute: u32, now: Nanos) -> (result: bool)
        ensures
            (final(self).model(), result) == token_taken(old(self).model(), per_minute, now),
    {
        let rate: u128 = if per_minute == 0 {
            1
        } else {
            per_minute as u128
        };
        let full: u128 = rate * TOKEN;
        let elapsed: Nanos = time_gap(now, self.rate.updated);
        let tokens: u128 = if elapsed >= TOKEN {
            proof {
                assert(elapsed * rate >= full) by (nonlinear_arith)
                    requires
                        elapsed >= TOKEN,
                        full == rate * TOKEN,
                ;
            }
            full
        } else {
            proof {
                assert(elapsed * rate <= TOKEN * 0x1_0000_0000) by (nonlinear_arith)
                    requires
                        elapsed < TOKEN,
                        rate <= 0x1_0000_0000,
                ;
            }
            let earned: u128 = elapsed * rate;
            if self.rate.tokens >= full || full - self.rate.tokens < earned {
                full
            } else {
                self.rate.tokens + earned
            }
        };
        proof {
            assert(capacity(per_minute) == full);
            assert(full as int / TOKEN as int == rate) by (nonlinear_arith)
                requires
                    full == rate * TOKEN,
            ;
            assert(tokens == refilled(self.rate.tokens, elapsed, per_minute));
        }
        self.rate.updated = now;
        if tokens < TOKEN {
            self.rate.tokens = tokens;
            false
        } else {
            self.rate.tokens = tokens - TOKEN;
            true
        }
    }
}

/// A room and what is set in it.
pub struct Room {
    pub members: KeySet<LinkId>,
    pub founder: Option<IdentityHash>,
    pub operators: KeySet<IdentityHash>,
    pub voiced: KeySet<IdentityHash>,
    pub banned: KeySet<IdentityHash>,
    pub invited: Table<IdentityHash, Nanos>,
    pub topic: Option<String>,
    pub key: Option<String>,
    pub registered: bool,
    pub moderated: bool,
    pub invite_only: bool,
    pub private: bool,
    pub topic_ops_only: bool,
    pub no_outside_messages: bool,
    pub last_used_ts: Nanos,
}

/// What a room holds.
#[verifier::ext_equal]
pub struct RoomModel {
    pub members: Seq<LinkId>,
    pub founder: Option<IdentityHash>,
    pub operators: Seq<IdentityHash>,
    pub voiced: Seq<IdentityHash>,
    pub banned: Seq<IdentityHash>,
    pub invited: Seq<(IdentityHash, Nanos)>,
    pub topic: Option<Seq<char>>,
    pub key: Option<Seq<char>>,
    pub registered: bool,
    pub moderated: bool,
    pub invite_only: bool,
    pub private: bool,
    pub topic_ops_only: bool,
    pub no_outside_messages: bool,
    pub last_used_ts: Nanos,
}

impl Model for Room {
    type M = RoomModel;

    open spec fn model(&self) -> RoomModel {
        RoomModel {
            members: self.members.model(),
            founder: self.founder,
            operators: self.operators.model(),
            voiced: self.voiced.model(),
            banned: self.banned.model(),
            invited: self.invited.model(),
            topic: self.topic.model(),
            key: self.key.model(),
            registered: self.registered,
            moderated: self.moderated,
            invite_only: self.invite_only,
            private: self.private,
            topic_ops_only: self.topic_ops_only,
            no_outside_messages: self.no_outside_messages,
            last_used_ts: self.last_used_ts,
        }
    }
}

/// A room in which nothing is set.
pub open spec fn empty_room() -> RoomModel {
    RoomModel {
        members: Seq::empty(),
        founder: None,
        operators: Seq::empty(),
        voiced: Seq::empty(),
        banned: Seq::empty(),
        invited: Seq::empty(),
        topic: None,
        key: None,
        registered: false,
        moderated: false,
        invite_only: false,
        private: false,
        topic_ops_only: false,
        no_outside_messages: false,
        last_used_ts: 0,
    }
}

/// Whether `peer` founded the room or is one of its operators.
pub open spec fn operates(room: RoomModel, peer: IdentityHash) -> bool {
    room.founder == Some(peer) || room.operators.contains(peer)
}

/// Whether `peer` may speak in the room.
pub open spec fn speaks(room: RoomModel, peer: IdentityHash) -> bool {
    !room.moderated || operates(room, peer) || room.voiced.contains(peer)
}

/// Whether `peer` holds an invitation that has not expired.
pub open spec fn invitation(room: RoomModel, peer: IdentityHash, now: Nanos) -> bool {
    match lookup(room.invited, peer) {
        Some(expires) => expires > now,
        None => false,
    }
}

impl Default for Room {
    fn default() -> (result: Self)
        ensures
            result.model() == empty_room(),
    {
        Room {
            members: KeySet::new(),
            founder: None,
            operators: KeySet::new(),
            voiced: KeySet::new(),
            banned: KeySet::new(),
            invited: Table::new(),
            topic: None,
            key: None,
            registered: false,
            moderated: false,
            invite_only: false,
            private: false,
            topic_ops_only: false,
            no_outside_messages: false,
            last_used_ts: 0,
        }
    }
}

/// Whether an optional identity is `peer`.
pub fn is_identity(identity: &Option<IdentityHash>, peer: &IdentityHash) -> (result: bool)
    ensures
        result == (*identity == Some(*peer)),
{
    match identity {
        Some(own) => own.same(peer),
        None => false,
    }
}

impl Room {
    pub fn is_operator(&self, peer: &IdentityHash) -> (result: bool)
        ensures
            result == operates(self.model(), *peer),
    {
        is_identity(&self.founder, peer) || self.operators.contains(peer)
    }

    pub fn may_speak(&self, peer: &IdentityHash) -> (result: bool)
        ensures
            result == speaks(self.model(), *peer),
    {
        !self.moderated || self.is_operator(peer) || self.voiced.contains(peer)
    }

    pub fn is_invited(&self, peer: &IdentityHash, now: Nanos) -> (result: bool)
        ensures
            result == invitation(self.model(), *peer, now),
    {
        match self.invited.get(peer) {
            Some(expires) => *expires > now,
            None => false,
        }
    }

    /// A room that holds the same.
    pub fn duplicate(&self) -> (result: Self)
        ensures
            result.model() == self.model(),
    {
        Room {
            members: self.members.duplicate(),
            founder: self.founder,
            operators: self.operators.duplicate(),
            voiced: self.voiced.duplicate(),
            banned: self.banned.duplicate(),
            invited: self.invited.duplicate(),
            topic: self.topic.duplicate(),
            key: self.key.duplicate(),
            registered: self.registered,
            moderated: self.moderated,
            invite_only: self.invite_only,
            private: self.private,
            topic_ops_only: self.topic_ops_only,
            no_outside_messages: self.no_outside_messages,
            last_used_ts: self.last_used_ts,
        }
    }
}

/// What the hub has counted so far. Counters start again at zero when they run over.
#[derive(Clone, Copy, Debug)]
pub struct Counters {
    pub packets_in: u64,
    pub packets_bad: u64,
    pub bytes_in: u64,
    pub bytes_out: u64,
    pub joins: u64,
    pub parts: u64,
    pub forwarded: u64,
    pub messages_forwarded: u64,
    pub notices_forwarded: u64,
    pub actions_forwarded: u64,
    pub errors: u64,
    pub rate_limited: u64,
    pub pings_in: u64,
    pub pings_out: u64,
    pub pongs_in: u64,
    pub pongs_out: u64,
    pub announces: u64,
    pub resources_received: u64,
    pub resources_sent: u64,
    pub resources_rejected: u64,
    pub resource_bytes_received: u64,
    pub resource_bytes_sent: u64,
}

/// Counters that have counted nothing.
pub open spec fn no_counts() -> Counters {
    Counters {
        packets_in: 0,
        packets_bad: 0,
        bytes_in: 0,
        bytes_out: 0,
        joins: 0,
        parts: 0,
        forwarded: 0,
        messages_forwarded: 0,
        notices_forwarded: 0,
        actions_forwarded: 0,
        errors: 0,
        rate_limited: 0,
        pings_in: 0,
        pings_out: 0,
        pongs_in: 0,
        pongs_out: 0,
        announces: 0,
        resources_received: 0,
        resources_sent: 0,
        resources_rejected: 0,
        resource_bytes_received: 0,
        resource_bytes_sent: 0,
    }
}

impl Default for Counters {
    fn default() -> (result: Self)
        ensures
            result == no_counts(),
    {
        Counters {
            packets_in: 0,
            packets_bad: 0,
            bytes_in: 0,
            bytes_out: 0,
            joins: 0,
            parts: 0,
            forwarded: 0,
            messages_forwarded: 0,
            notices_forwarded: 0,
            actions_forwarded: 0,
            errors: 0,
            rate_limited: 0,
            pings_in: 0,
            pings_out: 0,
            pongs_in: 0,
            pongs_out: 0,
            announces: 0,
            resources_received: 0,
            resources_sent: 0,
            resources_rejected: 0,
            resource_bytes_received: 0,
            resource_bytes_sent: 0,
        }
    }
}

/// `count` raised by `more`, starting again at zero when it runs over.
pub open spec fn counted(count: u64, more: int) -> u64 {
    ((count + more) % 0x1_0000_0000_0000_0000) as u64
}

/// `count` raised by `more`, starting again at zero when it runs over.
pub fn count(counter: u64, more: usize) -> (result: u64)
    ensures
        result == counted(counter, more as int),
{
    let sum: u128 = counter as u128 + more as u128;
    (sum % 0x1_0000_0000_0000_0000u128) as u64
}

/// The live state of a hub.
pub struct HubState {
    pub sessions: Table<LinkId, Session>,
    pub rooms: Table<String, Room>,
    pub links_by_identity: Table<IdentityHash, LinkId>,
    pub links_by_nick: Table<String, KeySet<LinkId>>,
    pub counters: Counters,
    pub started: std::time::Instant,
}

/// What the state of a hub holds.
#[verifier::ext_equal]
pub struct StateModel {
    pub sessions: Seq<(LinkId, SessionModel)>,
    pub rooms: Seq<(Seq<char>, RoomModel)>,
    pub links_by_identity: Seq<(IdentityHash, LinkId)>,
    pub links_by_nick: Seq<(Seq<char>, Seq<LinkId>)>,
    pub counters: Counters,
}

impl Model for HubState {
    type M = StateModel;

    open spec fn model(&self) -> StateModel {
        StateModel {
            sessions: self.sessions.model(),
            rooms: self.rooms.model(),
            links_by_identity: self.links_by_identity.model(),
            links_by_nick: self.links_by_nick.model(),
            counters: self.counters,
        }
    }
}

/// The state of a hub that nobody has connected to.
pub open spec fn empty_state() -> StateModel {
    StateModel {
        sessions: Seq::empty(),
        rooms: Seq::empty(),
        links_by_identity: Seq::empty(),
        links_by_nick: Seq::empty(),
        counters: no_counts(),
    }
}

impl Default for HubState {
    fn default() -> (result: Self)
        ensures
            result.model() == empty_state(),
    {
        HubState {
            sessions: Table::new(),
            rooms: Table::new(),
            links_by_identity: Table::new(),
            links_by_nick: Table::new(),
            counters: Counters::default(),
            started: steady_time(),
        }
    }
}

/// The state with a new session for `link`, unless it has one.
pub open spec fn established(state: StateModel, link: LinkId, rate: u32, now: Nanos) -> StateModel {
    if holds(state.sessions, link) {
        state
    } else {
        StateModel { sessions: put(state.sessions, link, new_session(rate, now)), ..state }
    }
}

/// The first link other than `link` on which `peer` is connected.
pub open spec fn other_link(
    sessions: Seq<(LinkId, SessionModel)>,
    peer: IdentityHash,
    link: LinkId,
) -> Option<LinkId>
    decreases sessions.len(),
{
    if sessions.len() == 0 {
        None
    } else {
        match other_link(sessions.drop_last(), peer, link) {
            Some(found) => Some(found),
            None => if sessions.last().0 != link && sessions.last().1.peer == Some(peer) {
                Some(sessions.last().0)
            } else {
                None
            },
        }
    }
}

/// The state in which `link` no longer stands for `peer`: another of the peer's links takes its
/// place, if there is one.
pub open spec fn released(state: StateModel, peer: IdentityHash, link: LinkId) -> StateModel {
    if lookup(state.links_by_identity, peer) != Some(link) {
        state
    } else {
        StateModel {
            links_by_identity: match other_link(state.sessions, peer, link) {
                Some(found) => put(state.links_by_identity, peer, found),
                None => dropped(state.links_by_identity, peer),
            },
            ..state
        }
    }
}

/// The state in which `link` is known to be `peer`'s.
pub open spec fn identified(state: StateModel, link: LinkId, peer: IdentityHash) -> StateModel {
    match lookup(state.sessions, link) {
        None => state,
        Some(session) => {
            let freed = match session.peer {
                Some(former) => if former != peer {
                    released(state, former, link)
                } else {
                    state
                },
                None => state,
            };
            StateModel {
                sessions: put(
                    freed.sessions,
                    link,
                    SessionModel { peer: Some(peer), ..session },
                ),
                links_by_identity: put(freed.links_by_identity, peer, link),
                ..freed
            }
        },
    }
}

/// The nickname index without `link` under `nick`.
pub open spec fn nick_dropped(
    index: Seq<(Seq<char>, Seq<LinkId>)>,
    nick: Option<Seq<char>>,
    link: LinkId,
) -> Seq<(Seq<char>, Seq<LinkId>)> {
    match nick {
        None => index,
        Some(nick) => match lookup(index, lowercase(nick)) {
            None => index,
            Some(links) => if without(links, link).len() == 0 {
                dropped(index, lowercase(nick))
            } else {
                put(index, lowercase(nick), without(links, link))
            },
        },
    }
}

/// The nickname index with `link` under `nick`.
pub open spec fn nick_added(
    index: Seq<(Seq<char>, Seq<LinkId>)>,
    nick: Option<Seq<char>>,
    link: LinkId,
) -> Seq<(Seq<char>, Seq<LinkId>)> {
    match nick {
        None => index,
        Some(nick) => {
            let links = match lookup(index, lowercase(nick)) {
                Some(links) => links,
                None => Seq::empty(),
            };
            put(index, lowercase(nick), with(links, link))
        },
    }
}

/// The nickname of a link.
pub open spec fn nick_on(state: StateModel, link: LinkId) -> Option<Seq<char>> {
    match lookup(state.sessions, link) {
        Some(session) => session.nick,
        None => None,
    }
}

/// The state in which `link` has the nickname `nick`.
pub open spec fn nicked(state: StateModel, link: LinkId, nick: Option<Seq<char>>) -> StateModel {
    let index = nick_added(
        nick_dropped(state.links_by_nick, nick_on(state, link), link),
        nick,
        link,
    );
    match lookup(state.sessions, link) {
        Some(session) => StateModel {
            sessions: put(state.sessions, link, SessionModel { nick, ..session }),
            links_by_nick: index,
            ..state
        },
        None => StateModel { links_by_nick: index, ..state },
    }
}

/// Who is to hear that a link has left a room.
pub type PartNotification = (String, Vec<LinkId>, Option<IdentityHash>, Option<String>);

/// What a part notification holds.
#[verifier::ext_equal]
pub struct PartModel {
    pub room: Seq<char>,
    pub recipients: Seq<LinkId>,
    pub peer: Option<IdentityHash>,
    pub nick: Option<Seq<char>>,
}

impl Model for PartNotification {
    type M = PartModel;

    open spec fn model(&self) -> PartModel {
        PartModel {
            room: self.0@,
            recipients: self.1@,
            peer: self.2,
            nick: self.3.model(),
        }
    }
}

/// Whether a link is `peer`'s.
pub open spec fn is_on(
    sessions: Seq<(LinkId, SessionModel)>,
    link: LinkId,
    peer: IdentityHash,
) -> bool {
    match lookup(sessions, link) {
        Some(session) => session.peer == Some(peer),
        None => false,
    }
}

/// Whether one of the links is `peer`'s.
pub open spec fn peer_among(
    sessions: Seq<(LinkId, SessionModel)>,
    links: Seq<LinkId>,
    peer: IdentityHash,
) -> bool {
    exists|i: int| 0 <= i < links.len() && is_on(sessions, #[trigger] links[i], peer)
}

/// The rooms without `name`, where that is an empty room that is not registered.
pub open spec fn swept(rooms: Seq<(Seq<char>, RoomModel)>, name: Seq<char>) -> Seq<
    (Seq<char>, RoomModel),
> {
    match lookup(rooms, name) {
        Some(room) => if room.members.len() == 0 && !room.registered {
            dropped(rooms, name)
        } else {
            rooms
        },
        None => rooms,
    }
}

/// The rooms after `link` has left the room `name`.
pub open spec fn left_room(
    rooms: Seq<(Seq<char>, RoomModel)>,
    link: LinkId,
    name: Seq<char>,
) -> Seq<(Seq<char>, RoomModel)> {
    match lookup(rooms, name) {
        Some(room) => swept(
            put(rooms, name, RoomModel { members: without(room.members, link), ..room }),
            name,
        ),
        None => rooms,
    }
}

/// The rooms after `link` has left each of the rooms `names`.
pub open spec fn left_rooms(
    rooms: Seq<(Seq<char>, RoomModel)>,
    link: LinkId,
    names: Seq<Seq<char>>,
) -> Seq<(Seq<char>, RoomModel)>
    decreases names.len(),
{
    if names.len() == 0 {
        rooms
    } else {
        left_room(left_rooms(rooms, link, names.drop_last()), link, names.last())
    }
}

/// Who is to hear that a closed session has left the room `name`: all that are still in it,
/// unless the same peer is among them.
pub open spec fn part_note(
    sessions: Seq<(LinkId, SessionModel)>,
    rooms: Seq<(Seq<char>, RoomModel)>,
    link: LinkId,
    session: SessionModel,
    name: Seq<char>,
) -> Option<PartModel> {
    match lookup(rooms, name) {
        None => None,
        Some(room) => {
            let recipients = without(room.members, link);
            let still_there = match session.peer {
                Some(peer) => peer_among(sessions, recipients, peer),
                None => false,
            };
            if recipients.len() == 0 || still_there {
                None
            } else {
                Some(
                    PartModel {
                        room: name,
                        recipients,
                        peer: session.peer,
                        nick: session.nick,
                    },
                )
            }
        },
    }
}

/// Who is to hear that a closed session has left the rooms `names`, room by room.
pub open spec fn part_notes(
    sessions: Seq<(LinkId, SessionModel)>,
    rooms: Seq<(Seq<char>, RoomModel)>,
    link: LinkId,
    session: SessionModel,
    names: Seq<Seq<char>>,
) -> Seq<PartModel>
    decreases names.len(),
{
    if names.len() == 0 {
        Seq::empty()
    } else {
        let before = part_notes(sessions, rooms, link, session, names.drop_last());
        match part_note(
            sessions,
            left_rooms(rooms, link, names.drop_last()),
            link,
            session,
            names.last(),
        ) {
            Some(note) => before.push(note),
            None => before,
        }
    }
}

/// The state after `link` has closed.
pub open spec fn closed(state: StateModel, link: LinkId) -> StateModel {
    match lookup(state.sessions, link) {
        None => state,
        Some(session) => {
            let gone = StateModel { sessions: dropped(state.sessions, link), ..state };
            let freed = match session.peer {
                Some(peer) => released(gone, peer, link),
                None => gone,
            };
            StateModel {
                rooms: left_rooms(state.rooms, link, session.rooms),
                links_by_nick: nick_dropped(state.links_by_nick, session.nick, link),
                ..freed
            }
        },
    }
}

/// Who is to hear that `link` has closed.
pub open spec fn close_notes(state: StateModel, link: LinkId) -> Seq<PartModel> {
    match lookup(state.sessions, link) {
        None => Seq::empty(),
        Some(session) => part_notes(
            dropped(state.sessions, link),
            state.rooms,
            link,
            session,
            session.rooms,
        ),
    }
}

/// Why a text is no room name.
#[derive(Debug, PartialEq)]
pub enum RoomNameError {
    Empty,
    TooLong,
    Invalid,
}

/// The error in words.
pub open spec fn room_error_text(error: RoomNameError) -> Seq<char> {
    match error {
        RoomNameError::Empty => "room name is empty"@,
        RoomNameError::TooLong => "room name too long"@,
        RoomNameError::Invalid => "invalid room name"@,
    }
}

impl RoomNameError {
    /// The error in words.
    pub fn message(&self) -> (result: String)
        ensures
            result@ == room_error_text(*self),
    {
        match self {
            RoomNameError::Empty => String::from_str("room name is empty"),
            RoomNameError::TooLong => String::from_str("room name too long"),
            RoomNameError::Invalid => String::from_str("invalid room name"),
        }
    }
}

/// The room name that a text stands for.
pub open spec fn room_name(text: Seq<char>, max_bytes: nat) -> Result<Seq<char>, RoomNameError> {
    let name = trimmed(text);
    if name.len() == 0 {
        Err(RoomNameError::Empty)
    } else if byte_len(name) > max_bytes {
        Err(RoomNameError::TooLong)
    } else if has_control(name) {
        Err(RoomNameError::Invalid)
    } else {
        Ok(lowercase(name))
    }
}

impl HubState {
    /// Starts a session for `link`, unless it has one.
    pub fn establish(&mut self, link: LinkId, config: &HubConfig, now: Nanos)
        ensures
            final(self).model() == established(
                old(self).model(),
                link,
                config.rate_limit_msgs_per_minute,
                now,
            ),
    {
        if !self.sessions.contains_key(&link) {
            self.sessions.insert(link, Session::new(config.rate_limit_msgs_per_minute, now));
        }
    }

    /// Notes that `link` is `peer`'s.
    pub fn identify(&mut self, link: LinkId, peer: IdentityHash)
        ensures
            final(self).model() == identified(old(self).model(), link, peer),
    {
        let former = match self.sessions.get(&link) {
            Some(session) => session.peer,
            None => None,
        };
        if let Some(former) = former {
            if !former.same(&peer) {
                self.remove_identity_link(former, link);
            }
        }
        if let Some(session) = self.sessions.get_mut(&link) {
            session.peer = Some(peer);
            self.links_by_identity.insert(peer, link);
        }
    }

    fn other_link(&self, peer: &IdentityHash, link: &LinkId) -> (result: Option<LinkId>)
        ensures
            result == other_link(self.sessions.model(), *peer, *link),
    {
        let ghost all = self.sessions.model();
        let mut found: Option<LinkId> = None;
        let mut i: usize = 0;
        while i < self.sessions.len()
            invariant
                i <= all.len(),
                all == self.sessions.model(),
                found == other_link(all.take(i as int), *peer, *link),
            decreases all.len() - i,
        {
            assert(all.take(i + 1).drop_last() == all.take(i as int));
            if found.is_none() && !self.sessions.key(i).same(link) && is_identity(
                &self.sessions.value(i).peer,
                peer,
            ) {
                found = Some(*self.sessions.key(i));
            }
            i += 1;
        }
        found
    }

    fn remove_identity_link(&mut self, peer: IdentityHash, link: LinkId)
        ensures
            final(self).model() == released(old(self).model(), peer, link),
    {
        let standing = match self.links_by_identity.get(&peer) {
            Some(own) => own.same(&link),
            None => false,
        };
        if !standing {
            return ;
        }
        match self.other_link(&peer, &link) {
            Some(found) => self.links_by_identity.insert(peer, found),
            None => self.links_by_identity.remove(&peer),
        }
    }

    fn drop_nick(&mut self, nick: &Option<String>, link: &LinkId)
        ensures
            final(self).model() == (StateModel {
                links_by_nick: nick_dropped(old(self).model().links_by_nick, nick.model(), *link),
                ..old(self).model()
            }),
    {
        if let Some(nick) = nick {
            let key = to_lowercase(nick.as_str());
            let mut emptied = false;
            if let Some(links) = self.links_by_nick.get_mut(&key) {
                links.remove(link);
                emptied = links.len() == 0;
            }
            if emptied {
                self.links_by_nick.remove(&key);
            }
        }
    }

    /// Gives `link` a nickname, or takes it away.
    pub fn set_nick(&mut self, link: LinkId, nick: Option<String>)
        ensures
            final(self).model() == nicked(old(self).model(), link, nick.model()),
    {
        let former = match self.sessions.get(&link) {
            Some(session) => session.nick.duplicate(),
            None => None,
        };
        self.drop_nick(&former, &link);
        if let Some(nick) = &nick {
            let key = to_lowercase(nick.as_str());
            let mut links = match self.links_by_nick.get(&key) {
                Some(links) => links.duplicate(),
                None => KeySet::new(),
            };
            links.insert(link);
            self.links_by_nick.insert(key, links);
        }
        if let Some(session) = self.sessions.get_mut(&link) {
            session.nick = nick;
        }
    }

    /// Whether one of the links is `peer`'s.
    pub fn has_peer_among(&self, links: &Vec<LinkId>, peer: &IdentityHash) -> (result: bool)
        ensures
            result == peer_among(self.sessions.model(), links@, *peer),
    {
        let mut i: usize = 0;
        while i < links.len()
            invariant
                i <= links@.len(),
                forall|j: int|
                    0 <= j < i ==> !is_on(self.sessions.model(), #[trigger] links@[j], *peer),
            decreases links@.len() - i,
        {
            if let Some(session) = self.sessions.get(&links[i]) {
                if is_identity(&session.peer, peer) {
                    assert(is_on(self.sessions.model(), links@[i as int], *peer));
                    return true;
                }
            }
            i += 1;
        }
        false
    }

    /// Ends the session of `link` and says who is to hear of it.
    pub fn close(&mut self, link: LinkId) -> (result: Vec<PartNotification>)
        ensures
            final(self).model() == closed(old(self).model(), link),
            models(result@) == close_notes(old(self).model(), link),
    {
        let ghost before = self.model();
        let session = match self.sessions.take(&link) {
            Some(session) => session,
            None => {
                assert(before.sessions == self.sessions.model()) by {
                    crate::collections::lemma_dropped_absent(before.sessions, link);
                }
                return Vec::new();
            },
        };
        if let Some(peer) = session.peer {
            self.remove_identity_link(peer, link);
        }
        self.drop_nick(&session.nick, &link);
        let ghost left = self.model();
        let ghost names = session.rooms.model();
        let mut notes: Vec<PartNotification> = Vec::new();
        let mut i: usize = 0;
        while i < session.rooms.len()
            invariant
                i <= names.len(),
                names == session.rooms.model(),
                self.model() == (StateModel {
                    rooms: left_rooms(before.rooms, link, names.take(i as int)),
                    ..left
                }),
                left.sessions == dropped(before.sessions, link),
                models(notes@) == part_notes(
                    left.sessions,
                    before.rooms,
                    link,
                    session.model(),
                    names.take(i as int),
                ),
            decreases names.len() - i,
        {
            assert(names.take(i + 1).drop_last() == names.take(i as int));
            let name = session.rooms.get(i);
            if let Some(note) = self.leave_room(&link, name, &session) {
                notes.push(note);
            }
            i += 1;
        }
        notes
    }

    /// Takes `link` out of one room and says who is to hear of it.
    fn leave_room(&mut self, link: &LinkId, name: &String, session: &Session) -> (result: Option<
        PartNotification,
    >)
        ensures
            final(self).model() == (StateModel {
                rooms: left_room(old(self).model().rooms, *link, name@),
                ..old(self).model()
            }),
            match result {
                Some(note) => part_note(
                    old(self).model().sessions,
                    old(self).model().rooms,
                    *link,
                    session.model(),
                    name@,
                ) == Some(note.model()),
                None => part_note(
                    old(self).model().sessions,
                    old(self).model().rooms,
                    *link,
                    session.model(),
                    name@,
                ) is None,
            },
    {
        let mut recipients: Vec<LinkId> = Vec::new();
        if let Some(room) = self.rooms.get_mut(name) {
            room.members.remove(link);
            recipients = room.members.to_links();
        } else {
            return None;
        }
        let still_there = match session.peer {
            Some(peer) => self.has_peer_among(&recipients, &peer),
            None => false,
        };
        self.remove_ephemeral_room_if_empty(name);
        if recipients.len() == 0 || still_there {
            None
        } else {
            Some((name.clone(), recipients, session.peer, session.nick.duplicate()))
        }
    }

    /// The room name that a text stands for.
    pub fn normalize_room(&self, value: &str, config: &HubConfig) -> (result: Result<
        String,
        RoomNameError,
    >)
        ensures
            match result {
                Ok(name) => {
                    &&& room_name(value@, config.max_room_name_bytes as nat) == Ok::<
                        Seq<char>,
                        RoomNameError,
                    >(name@)
                    &&& ascii_only(trimmed(value@)) ==> name@ == ascii_lower(trimmed(value@))
                },
                Err(error) => room_name(value@, config.max_room_name_bytes as nat) == Err::<
                    Seq<char>,
                    RoomNameError,
                >(error),
            },
    {
        let room = trim(value);
        if room.as_str().is_empty() {
            return Err(RoomNameError::Empty);
        }
        if text_len(room.as_str()) > config.max_room_name_bytes {
            return Err(RoomNameError::TooLong);
        }
        if contains_control(room.as_str()) {
            return Err(RoomNameError::Invalid);
        }
        Ok(to_lowercase(room.as_str()))
    }

    /// Takes a room away that is empty and not registered.
    pub fn remove_ephemeral_room_if_empty(&mut self, room_name: &String)
        ensures
            final(self).model() == (StateModel {
                rooms: swept(old(self).model().rooms, room_name@),
                ..old(self).model()
            }),
    {
        let gone = match self.rooms.get(room_name) {
            Some(room) => room.members.len() == 0 && !room.registered,
            None => false,
        };
        if gone {
            self.rooms.remove(room_name);
        }
    }
}

} // verus!
