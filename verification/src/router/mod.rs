//! The hub itself: what it does with every packet, resource and event on its links.
//!
//! A handler changes the hub and hands back what is to be said. What the hub holds before and
//! after, and what it says, is stated over [`Hub`] and [`Turn`]. Work on files is asked for by a
//! [`Pending`] and continued by [`Router::resume`].

use crate::cbor::{Cbor, Datum};
use crate::clock::{elapsed, wall_time, Clock, Nanos};
use crate::collections::{
    group_collections, group_sequences, lookup, models, put, Model, Table,
};
use crate::config::{contains_identity, ConfigModel, HubConfig};
use crate::constants::{
    K_BODY, K_NICK, K_ROOM, K_T, T_ACTION, T_ERROR, T_HELLO, T_JOIN, T_MSG, T_NOTICE, T_PART,
    T_PING, T_PONG, T_RESOURCE_ENVELOPE,
};
use crate::outgoing::{
    borrowed, count_sent, draft, draw, new_draft, owned, seal_with, sealed, sent_bytes, set_text,
    single, text_view, to_one, Action, ActionModel, Draw, Offer, OfferModel, Out, Outgoing,
};
use crate::protocol::{
    decoded, error_text, field, integer_field, with_field, with_text, Envelope, FieldMap,
};
use crate::state::{
    count, counted, empty_state, established, identified, token_taken, Counters, HubState, Room,
    RoomModel, SessionModel, StateModel,
};
use crate::text::{byte_len, chunks, same_text, text_len, utf8_chunks};
use vstd::prelude::*;

pub mod access;
pub mod admin;
pub mod commands;
pub mod directory;
pub mod liveness;
pub mod membership;
pub mod messages;
pub mod moderation;
pub mod resources;
pub mod rooms;
pub mod targets;

use self::admin::{reload_summary, reloaded};
use self::liveness::ticking;
use self::membership::{closing, greeting, joining, parting};
use self::messages::passing;
use self::resources::{announcing_resource, receiving};
use self::rooms::{announcing, renaming, stating};

pub use crate::state::{IdentityHash, LinkId};

verus! {

broadcast use {group_collections, group_sequences};

/// The numbers under which clients announce that they know the structured extensions.
#[derive(Clone, Copy, Debug)]
pub struct Extensions {
    pub room_state: i128,
    pub user_list: i128,
}

/// A resource that a client has announced.
#[derive(Debug)]
pub struct ResourceExpectation {
    pub id: Vec<u8>,
    pub kind: String,
    pub size: usize,
    pub sha256: Option<Vec<u8>>,
    pub encoding: Option<String>,
    pub room: Option<String>,
    pub expires: Nanos,
}

#[verifier::ext_equal]
pub struct ExpectationModel {
    pub id: Seq<u8>,
    pub kind: Seq<char>,
    pub size: usize,
    pub sha256: Option<Seq<u8>>,
    pub encoding: Option<Seq<char>>,
    pub room: Option<Seq<char>>,
    pub expires: Nanos,
}

/// The bytes of an optional byte string.
pub open spec fn bytes_view(bytes: Option<Vec<u8>>) -> Option<Seq<u8>> {
    match bytes {
        Some(bytes) => Some(bytes@),
        None => None,
    }
}

impl Model for ResourceExpectation {
    type M = ExpectationModel;

    open spec fn model(&self) -> ExpectationModel {
        ExpectationModel {
            id: self.id@,
            kind: self.kind@,
            size: self.size,
            sha256: bytes_view(self.sha256),
            encoding: self.encoding.model(),
            room: self.room.model(),
            expires: self.expires,
        }
    }
}

/// The hub.
pub struct Router {
    pub config: HubConfig,
    pub hub_identity: IdentityHash,
    pub extensions: Extensions,
    pub state: HubState,
    pub pending_resources: Table<LinkId, Vec<ResourceExpectation>>,
    pub last_registry_prune: Nanos,
}

/// What a hub holds.
#[verifier::ext_equal]
pub struct Hub {
    pub config: ConfigModel,
    pub identity: IdentityHash,
    pub extensions: Extensions,
    pub state: StateModel,
    pub expected: Seq<(LinkId, Seq<ExpectationModel>)>,
    pub last_prune: Nanos,
}

impl Model for Router {
    type M = Hub;

    open spec fn model(&self) -> Hub {
        Hub {
            config: self.config.model(),
            identity: self.hub_identity,
            extensions: self.extensions,
            state: self.state.model(),
            expected: self.pending_resources.model(),
            last_prune: self.last_registry_prune,
        }
    }
}

/// Work on files that a handler asks for.
#[derive(Clone, Copy, Debug, PartialEq)]
pub enum Work {
    /// Write the registered rooms to the room registry.
    SaveRooms,
    /// Write the banned identities to the configuration file.
    SaveBans,
    /// Read the configuration file and the room registry.
    Reload,
}

/// What follows the work on files.
pub enum Resume {
    /// Nothing, whatever came of it.
    Quiet,
    /// An error to `link` where it failed.
    Complain { link: LinkId, room: String },
    /// A notice with the state of the room, or an error to `link` where it failed.
    RoomState { link: LinkId, room: String, to: Vec<LinkId>, text: String },
    /// A notice to each of the links, or an error to `link` where it failed.
    Members { link: LinkId, room: String, to: Vec<LinkId>, text: String },
    /// What a change of bans or invitations says, or an error to `link` where it failed.
    Access {
        link: LinkId,
        context: Option<String>,
        room: String,
        status: String,
        invite: Option<(LinkId, String)>,
        evicted: Option<LinkId>,
    },
    /// A notice to `link` and the links to be closed, or an error to `link` where it failed.
    Bans { link: LinkId, text: String, close: Vec<LinkId> },
    /// The new configuration and rooms, or an error to `link` where it failed.
    Reload { link: LinkId },
}

#[verifier::ext_equal]
pub enum ResumeModel {
    Quiet,
    Complain { link: LinkId, room: Seq<char> },
    RoomState { link: LinkId, room: Seq<char>, to: Seq<LinkId>, text: Seq<char> },
    Members { link: LinkId, room: Seq<char>, to: Seq<LinkId>, text: Seq<char> },
    Access {
        link: LinkId,
        context: Option<Seq<char>>,
        room: Seq<char>,
        status: Seq<char>,
        invite: Option<(LinkId, Seq<char>)>,
        evicted: Option<LinkId>,
    },
    Bans { link: LinkId, text: Seq<char>, close: Seq<LinkId> },
    Reload { link: LinkId },
}

impl Model for Resume {
    type M = ResumeModel;

    open spec fn model(&self) -> ResumeModel {
        match self {
            Resume::Quiet => ResumeModel::Quiet,
            Resume::Complain { link, room } => ResumeModel::Complain { link: *link, room: room@ },
            Resume::RoomState { link, room, to, text } => ResumeModel::RoomState {
                link: *link,
                room: room@,
                to: to@,
                text: text@,
            },
            Resume::Members { link, room, to, text } => ResumeModel::Members {
                link: *link,
                room: room@,
                to: to@,
                text: text@,
            },
            Resume::Access { link, context, room, status, invite, evicted } => ResumeModel::Access {
                link: *link,
                context: context.model(),
                room: room@,
                status: status@,
                invite: match invite {
                    Some((to, text)) => Some((*to, text@)),
                    None => None,
                },
                evicted: *evicted,
            },
            Resume::Bans { link, text, close } => ResumeModel::Bans {
                link: *link,
                text: text@,
                close: close@,
            },
            Resume::Reload { link } => ResumeModel::Reload { link: *link },
        }
    }
}

/// A client whose change of nickname is still to be told.
pub struct NickWatch {
    pub link: LinkId,
    pub peer: IdentityHash,
    pub previous: Option<String>,
}

#[verifier::ext_equal]
pub struct WatchModel {
    pub link: LinkId,
    pub peer: IdentityHash,
    pub previous: Option<Seq<char>>,
}

impl Model for NickWatch {
    type M = WatchModel;

    open spec fn model(&self) -> WatchModel {
        WatchModel { link: self.link, peer: self.peer, previous: self.previous.model() }
    }
}

/// Work on files, and what follows it.
pub struct Pending {
    pub work: Work,
    pub resume: Resume,
    pub watch: Option<NickWatch>,
}

#[verifier::ext_equal]
pub struct PendingModel {
    pub work: Work,
    pub resume: ResumeModel,
    pub watch: Option<WatchModel>,
}

impl Model for Pending {
    type M = PendingModel;

    open spec fn model(&self) -> PendingModel {
        PendingModel {
            work: self.work,
            resume: self.resume.model(),
            watch: self.watch.model(),
        }
    }
}

/// What a handler has to say, and the work on files that it asks for.
pub struct Reply {
    pub outs: Vec<Outgoing>,
    pub pending: Option<Pending>,
}

/// The hub after an event, what it says, and the work on files that it asks for.
#[verifier::ext_equal]
pub struct Turn {
    pub hub: Hub,
    pub outs: Seq<Out>,
    pub pending: Option<PendingModel>,
}

/// The hub and what a handler said.
pub open spec fn turn(hub: Hub, reply: Reply) -> Turn {
    Turn { hub, outs: models(reply.outs@), pending: reply.pending.model() }
}

/// A turn that only says something.
pub open spec fn saying(hub: Hub, outs: Seq<Out>) -> Turn {
    Turn { hub, outs, pending: None }
}

/// A turn that leaves everything as it is.
pub open spec fn idle(hub: Hub) -> Turn {
    saying(hub, Seq::empty())
}

/// A turn that asks for work on files.
pub open spec fn asking(hub: Hub, outs: Seq<Out>, work: Work, resume: ResumeModel) -> Turn {
    Turn { hub, outs, pending: Some(PendingModel { work, resume, watch: None }) }
}

/// The hub with other counters.
pub open spec fn recounted(hub: Hub, counters: Counters) -> Hub {
    Hub { state: StateModel { counters, ..hub.state }, ..hub }
}

/// A reply that only says something.
pub fn only(outs: Vec<Outgoing>) -> (result: Reply)
    ensures
        forall|hub: Hub| #[trigger] turn(hub, result) == saying(hub, models(outs@)),
{
    Reply { outs, pending: None }
}

/// A reply that says nothing.
pub fn nothing() -> (result: Reply)
    ensures
        forall|hub: Hub| #[trigger] turn(hub, result) == idle(hub),
{
    Reply { outs: Vec::new(), pending: None }
}

/// A reply that asks for work on files.
pub fn ask(outs: Vec<Outgoing>, work: Work, resume: Resume) -> (result: Reply)
    ensures
        forall|hub: Hub| #[trigger]
            turn(hub, result) == asking(hub, models(outs@), work, resume.model()),
{
    Reply { outs, pending: Some(Pending { work, resume, watch: None }) }
}

/// The draft of an error.
pub open spec fn error_draft(hub: Hub, room: Option<Seq<char>>, text: Seq<char>) -> FieldMap {
    with_field(
        with_text(draft(T_ERROR, hub.identity@), K_ROOM, room),
        K_BODY,
        Cbor::Text(text),
    )
}

/// An error to `link`.
pub open spec fn failing(
    hub: Hub,
    link: LinkId,
    room: Option<Seq<char>>,
    text: Seq<char>,
) -> Turn {
    let counters = hub.state.counters;
    saying(
        recounted(hub, Counters { errors: counted(counters.errors, 1), ..counters }),
        seq![single(link, error_draft(hub, room, text))],
    )
}

/// The message type that a kind of text is sent under.
pub open spec fn kind_type(kind: Seq<char>) -> u64 {
    if kind == "message"@ || kind == "msg"@ {
        T_MSG
    } else if kind == "action"@ {
        T_ACTION
    } else {
        T_NOTICE
    }
}

/// The draft of a text from `source`.
pub open spec fn text_draft(
    source: IdentityHash,
    nick: Option<Seq<char>>,
    room: Option<Seq<char>>,
    kind: Seq<char>,
    text: Seq<char>,
) -> FieldMap {
    with_field(
        with_text(with_text(draft(kind_type(kind), source@), K_ROOM, room), K_NICK, nick),
        K_BODY,
        Cbor::Text(text),
    )
}

/// Chunks of a text, each in a packet of its own.
pub open spec fn chunk_packets(
    link: LinkId,
    source: IdentityHash,
    nick: Option<Seq<char>>,
    room: Option<Seq<char>>,
    kind: Seq<char>,
    parts: Seq<Seq<char>>,
) -> Seq<Out> {
    Seq::new(
        parts.len(),
        |i: int| single(link, text_draft(source, nick, room, kind, parts[i])),
    )
}

/// A text to `link`: in one packet where it is short, as a resource where that is allowed, and in
/// chunks otherwise.
pub open spec fn telling(
    hub: Hub,
    link: LinkId,
    source: IdentityHash,
    nick: Option<Seq<char>>,
    room: Option<Seq<char>>,
    kind: Seq<char>,
    text: Seq<char>,
) -> Turn {
    let counters = hub.state.counters;
    if byte_len(text) <= 512 {
        saying(hub, seq![single(link, text_draft(source, nick, room, kind, text))])
    } else if !hub.config.enable_resource_transfer || byte_len(text)
        > hub.config.max_resource_bytes {
        saying(hub, chunk_packets(link, source, nick, room, kind, chunks(text, 300)))
    } else {
        saying(
            recounted(
                hub,
                Counters {
                    resources_sent: counted(counters.resources_sent, 1),
                    resource_bytes_sent: counted(
                        counters.resource_bytes_sent,
                        byte_len(text) as int,
                    ),
                    ..counters
                },
            ),
            seq![Out::Offer(OfferModel { to: link, source, nick, room, kind, text })],
        )
    }
}

/// A notice of the hub to `link`.
pub open spec fn noticing(
    hub: Hub,
    link: LinkId,
    room: Option<Seq<char>>,
    text: Seq<char>,
) -> Turn {
    telling(hub, link, hub.identity, None, room, "notice"@, text)
}

/// One turn after another that only said something.
pub open spec fn after(outs: Seq<Out>, next: Turn) -> Turn {
    Turn { outs: outs + next.outs, ..next }
}

impl Router {
    /// An error to `link`.
    pub(crate) fn error(&mut self, link: LinkId, room: Option<&str>, text: &str) -> (result: Vec<
        Outgoing,
    >)
        ensures
            saying(final(self).model(), models(result@)) == failing(
                old(self).model(),
                link,
                text_view(room),
                text@,
            ),
    {
        self.state.counters.errors = count(self.state.counters.errors, 1);
        let mut fields = new_draft(T_ERROR, self.hub_identity.as_slice());
        set_text(&mut fields, K_ROOM, room);
        fields.set(K_BODY, Datum::Text(String::from_str(text)));
        let mut outs: Vec<Outgoing> = Vec::new();
        outs.push(to_one(link, fields));
        assert(models(outs@) =~= seq![
            single(link, error_draft(old(self).model(), text_view(room), text@)),
        ]);
        outs
    }

    /// An error to `link`, as a reply.
    pub(crate) fn refuse(&mut self, link: LinkId, room: Option<&str>, text: &str) -> (result: Reply)
        ensures
            turn(final(self).model(), result) == failing(
                old(self).model(),
                link,
                text_view(room),
                text@,
            ),
    {
        let outs = self.error(link, room, text);
        only(outs)
    }

    fn packet_text_from(
        &self,
        link: LinkId,
        source: IdentityHash,
        nick: Option<&str>,
        room: Option<&str>,
        kind: &str,
        text: &str,
    ) -> (result: Outgoing)
        ensures
            result.model() == single(
                link,
                text_draft(source, text_view(nick), text_view(room), kind@, text@),
            ),
    {
        let message_type: u64 = if same_text(kind, "message") || same_text(kind, "msg") {
            T_MSG
        } else if same_text(kind, "action") {
            T_ACTION
        } else {
            T_NOTICE
        };
        let mut fields = new_draft(message_type, source.as_slice());
        set_text(&mut fields, K_ROOM, room);
        set_text(&mut fields, K_NICK, nick);
        fields.set(K_BODY, Datum::Text(String::from_str(text)));
        to_one(link, fields)
    }

    /// A text to `link`: in one packet where it is short, as a resource where that is allowed,
    /// and in chunks otherwise.
    pub(crate) fn resource_text_actions(
        &mut self,
        link: LinkId,
        source: IdentityHash,
        nick: Option<&str>,
        room: Option<&str>,
        kind: &str,
        text: &str,
    ) -> (result: Vec<Outgoing>)
        ensures
            saying(final(self).model(), models(result@)) == telling(
                old(self).model(),
                link,
                source,
                text_view(nick),
                text_view(room),
                kind@,
                text@,
            ),
    {
        let size: usize = text_len(text);
        let mut outs: Vec<Outgoing> = Vec::new();
        if size <= 512 {
            let out = self.packet_text_from(link, source, nick, room, kind, text);
            outs.push(out);
            assert(models(outs@) =~= seq![out.model()]);
            return outs;
        }
        if !self.config.enable_resource_transfer || size > self.config.max_resource_bytes {
            let parts = utf8_chunks(text, 300);
            let ghost all = chunk_packets(
                link,
                source,
                text_view(nick),
                text_view(room),
                kind@,
                models(parts@),
            );
            let mut i: usize = 0;
            assert(models(outs@) =~= all.take(0));
            while i < parts.len()
                invariant
                    i <= parts@.len(),
                    all == chunk_packets(
                        link,
                        source,
                        text_view(nick),
                        text_view(room),
                        kind@,
                        models(parts@),
                    ),
                    models(outs@) == all.take(i as int),
                decreases parts@.len() - i,
            {
                outs.push(
                    self.packet_text_from(link, source, nick, room, kind, parts[i].as_str()),
                );
                i += 1;
                assert(models(outs@) =~= all.take(i as int));
            }
            return outs;
        }
        let counters = self.state.counters;
        self.state.counters.resources_sent = count(counters.resources_sent, 1);
        self.state.counters.resource_bytes_sent = count(counters.resource_bytes_sent, size);
        outs.push(
            Outgoing::Offer(
                Offer {
                    to: link,
                    source,
                    nick: owned(nick),
                    room: owned(room),
                    kind: String::from_str(kind),
                    text: String::from_str(text),
                },
            ),
        );
        assert(models(outs@) =~= telling(
            old(self).model(),
            link,
            source,
            text_view(nick),
            text_view(room),
            kind@,
            text@,
        ).outs);
        outs
    }

    /// A notice of the hub to `link`.
    pub(crate) fn notice(&mut self, link: LinkId, room: Option<&str>, text: &str) -> (result: Vec<
        Outgoing,
    >)
        ensures
            saying(final(self).model(), models(result@)) == noticing(
                old(self).model(),
                link,
                text_view(room),
                text@,
            ),
    {
        self.resource_text_actions(link, self.hub_identity, None, room, "notice", text)
    }

    /// A notice of the hub to `link`, as a reply.
    pub(crate) fn tell(&mut self, link: LinkId, room: Option<&str>, text: &str) -> (result: Reply)
        ensures
            turn(final(self).model(), result) == noticing(
                old(self).model(),
                link,
                text_view(room),
                text@,
            ),
    {
        let outs = self.notice(link, room, text);
        only(outs)
    }
}

/// What came of the work on files.
pub enum Outcome {
    Done,
    Loaded(HubConfig, Table<String, Room>),
    Failed(String),
}

#[verifier::ext_equal]
pub enum OutcomeModel {
    Done,
    Loaded(ConfigModel, Seq<(Seq<char>, RoomModel)>),
    Failed(Seq<char>),
}

impl Model for Outcome {
    type M = OutcomeModel;

    open spec fn model(&self) -> OutcomeModel {
        match self {
            Outcome::Done => OutcomeModel::Done,
            Outcome::Loaded(config, rooms) => OutcomeModel::Loaded(config.model(), rooms.model()),
            Outcome::Failed(text) => OutcomeModel::Failed(text@),
        }
    }
}

/// What is to be done on the transport, and the work on files that is asked for.
pub struct Step {
    pub actions: Vec<Action>,
    pub pending: Option<Pending>,
}

/// The hub after actions that send what they send.
pub open spec fn sent(hub: Hub, actions: Seq<ActionModel>) -> Hub {
    let counters = hub.state.counters;
    recounted(
        hub,
        Counters { bytes_out: counted(counters.bytes_out, sent_bytes(actions)), ..counters },
    )
}

/// Whether a step is a turn with its message identifiers drawn and its envelopes stamped with the
/// wall-clock time, in milliseconds.
pub open spec fn delivers(done: Turn, wall: Nanos, hub: Hub, step: Step) -> bool {
    let actions = models(step.actions@);
    &&& hub == sent(done.hub, actions)
    &&& step.pending.model() == done.pending
    &&& exists|draws: Seq<Draw>|
        draws.len() == done.outs.len() && actions == #[trigger] sealed(
            done.outs,
            draws,
            (wall / 1_000_000) as int,
        )
}

/// A hub that nobody has connected to.
pub open spec fn new_hub(
    config: ConfigModel,
    identity: IdentityHash,
    extensions: Extensions,
    rooms: Seq<(Seq<char>, RoomModel)>,
) -> Hub {
    Hub {
        config,
        identity,
        extensions,
        state: StateModel { rooms, ..empty_state() },
        expected: Seq::empty(),
        last_prune: 0,
    }
}

/// The hub after a link has turned out to be `peer`'s, and what is to be done.
pub open spec fn identifying(hub: Hub, link: LinkId, peer: IdentityHash) -> (
    Hub,
    Seq<ActionModel>,
) {
    if hub.config.banned_identities.contains(peer) {
        (hub, seq![ActionModel::Close(link)])
    } else {
        (Hub { state: identified(hub.state, link, peer), ..hub }, Seq::empty())
    }
}

/// The draft of a PONG, with the body of the PING that it answers.
pub open spec fn pong_draft(hub: Hub, fields: FieldMap) -> FieldMap {
    match field(fields, K_BODY) {
        Some(body) => with_field(draft(T_PONG, hub.identity@), K_BODY, body),
        None => draft(T_PONG, hub.identity@),
    }
}

/// What the hub does with a PING.
pub open spec fn answering(hub: Hub, link: LinkId, fields: FieldMap) -> Turn {
    let counters = hub.state.counters;
    saying(
        recounted(
            hub,
            Counters {
                pings_in: counted(counters.pings_in, 1),
                pongs_out: counted(counters.pongs_out, 1),
                ..counters
            },
        ),
        seq![single(link, pong_draft(hub, fields))],
    )
}

/// What the hub does with a PONG.
pub open spec fn hearing(hub: Hub, link: LinkId) -> Turn {
    let counters = hub.state.counters;
    let heard = recounted(hub, Counters { pongs_in: counted(counters.pongs_in, 1), ..counters });
    idle(
        match lookup(hub.state.sessions, link) {
            Some(session) => Hub {
                state: StateModel {
                    sessions: put(
                        hub.state.sessions,
                        link,
                        SessionModel { awaiting_pong: None, ..session },
                    ),
                    ..heard.state
                },
                ..heard
            },
            None => heard,
        },
    )
}

/// What the hub does with an envelope of `peer`.
pub open spec fn handling(
    hub: Hub,
    clock: Clock,
    link: LinkId,
    peer: IdentityHash,
    welcomed: bool,
    fields: FieldMap,
) -> Turn {
    let kind = integer_field(fields, K_T)->0;
    if kind == T_PONG {
        hearing(hub, link)
    } else if kind == T_RESOURCE_ENVELOPE {
        announcing_resource(hub, clock.mono, link, fields)
    } else if !welcomed || kind == T_HELLO {
        greeting(hub, link, fields)
    } else if kind == T_JOIN {
        joining(hub, clock.wall, link, peer, fields)
    } else if kind == T_PART {
        parting(hub, clock.wall, link, peer, fields)
    } else if kind == T_MSG || kind == T_NOTICE || kind == T_ACTION {
        passing(hub, clock, link, peer, kind, fields)
    } else if kind == T_PING {
        answering(hub, link, fields)
    } else {
        failing(hub, link, None, "unsupported message type"@)
    }
}

/// The hub with one more packet counted.
pub open spec fn packet_counted(hub: Hub, size: int) -> Hub {
    let counters = hub.state.counters;
    recounted(
        hub,
        Counters {
            packets_in: counted(counters.packets_in, 1),
            bytes_in: counted(counters.bytes_in, size),
            ..counters
        },
    )
}

/// What the hub does with a packet. Packets on a link that is not identified are ignored; a client
/// that sends too many is told so, and so is one whose packet is no valid envelope.
pub open spec fn reading(hub: Hub, clock: Clock, link: LinkId, data: Seq<u8>) -> Turn {
    let got = packet_counted(hub, data.len() as int);
    match lookup(got.state.sessions, link) {
        None => idle(got),
        Some(session) => match session.peer {
            None => idle(got),
            Some(peer) => {
                let (taken, granted) = token_taken(
                    session,
                    hub.config.rate_limit_msgs_per_minute,
                    clock.mono,
                );
                let limited = Hub {
                    state: StateModel {
                        sessions: put(got.state.sessions, link, taken),
                        ..got.state
                    },
                    ..got
                };
                let counters = limited.state.counters;
                if !granted {
                    failing(
                        recounted(
                            limited,
                            Counters {
                                rate_limited: counted(counters.rate_limited, 1),
                                ..counters
                            },
                        ),
                        link,
                        None,
                        "rate limited"@,
                    )
                } else {
                    match decoded(data) {
                        Err(error) => failing(
                            recounted(
                                limited,
                                Counters {
                                    packets_bad: counted(counters.packets_bad, 1),
                                    ..counters
                                },
                            ),
                            link,
                            None,
                            "bad message: "@ + error_text(error),
                        ),
                        Ok(fields) => handling(
                            limited,
                            clock,
                            link,
                            peer,
                            session.welcomed,
                            fields,
                        ),
                    }
                }
            },
        },
    }
}

/// What is said where the room registry could not be written.
pub open spec fn registry_failure(hub: Hub, link: LinkId, room: Seq<char>, error: Seq<char>) -> Turn {
    failing(hub, link, Some(room), "room persist failed: "@ + error)
}

/// What follows work on files that failed.
pub open spec fn after_failure(hub: Hub, resume: ResumeModel, error: Seq<char>) -> Turn {
    match resume {
        ResumeModel::Quiet => idle(hub),
        ResumeModel::Complain { link, room } => registry_failure(hub, link, room, error),
        ResumeModel::RoomState { link, room, .. } => registry_failure(hub, link, room, error),
        ResumeModel::Members { link, room, .. } => registry_failure(hub, link, room, error),
        ResumeModel::Access { link, room, .. } => registry_failure(hub, link, room, error),
        ResumeModel::Bans { link, .. } => failing(
            hub,
            link,
            None,
            "kline persist failed: "@ + error,
        ),
        ResumeModel::Reload { link } => failing(hub, link, None, "reload failed: "@ + error),
    }
}

/// What is said once a change of bans or invitations is written.
pub open spec fn after_access(
    hub: Hub,
    link: LinkId,
    context: Option<Seq<char>>,
    room: Seq<char>,
    status: Seq<char>,
    invite: Option<(LinkId, Seq<char>)>,
    evicted: Option<LinkId>,
) -> Turn {
    let told = noticing(hub, link, context, status);
    let invited = match invite {
        Some((to, text)) => after(told.outs, noticing(told.hub, to, Some(room), text)),
        None => told,
    };
    match evicted {
        Some(to) => after(
            invited.outs,
            failing(invited.hub, to, Some(room), "banned from "@ + room),
        ),
        None => invited,
    }
}

/// Links to be closed.
pub open spec fn closing_all(links: Seq<LinkId>) -> Seq<Out> {
    Seq::new(links.len(), |i: int| Out::Close(links[i]))
}

/// What follows work on files that was done.
pub open spec fn after_success(hub: Hub, resume: ResumeModel) -> Turn {
    match resume {
        ResumeModel::Quiet => idle(hub),
        ResumeModel::Complain { .. } => idle(hub),
        ResumeModel::RoomState { link, room, to, text } => saying(
            hub,
            stating(hub, room, to, text),
        ),
        ResumeModel::Members { link, room, to, text } => announcing(hub, room, to, text),
        ResumeModel::Access { link, context, room, status, invite, evicted } => after_access(
            hub,
            link,
            context,
            room,
            status,
            invite,
            evicted,
        ),
        ResumeModel::Bans { link, text, close } => {
            let told = noticing(hub, link, None, text);
            saying(told.hub, told.outs + closing_all(close))
        },
        ResumeModel::Reload { .. } => idle(hub),
    }
}

/// What follows work on files.
pub open spec fn following(hub: Hub, resume: ResumeModel, outcome: OutcomeModel) -> Turn {
    match outcome {
        OutcomeModel::Failed(error) => after_failure(hub, resume, error),
        OutcomeModel::Done => after_success(hub, resume),
        OutcomeModel::Loaded(config, rooms) => match resume {
            ResumeModel::Reload { link } => noticing(
                reloaded(hub, config, rooms),
                link,
                None,
                reload_summary(hub, config, rooms),
            ),
            _ => after_success(hub, resume),
        },
    }
}

/// What the hub does once the work on files is over.
pub open spec fn resuming(hub: Hub, pending: PendingModel, outcome: OutcomeModel) -> Turn {
    let followed = following(hub, pending.resume, outcome);
    match pending.watch {
        Some(watch) => after(
            followed.outs,
            renaming(followed.hub, watch.link, watch.peer, watch.previous),
        ),
        None => followed,
    }
}

impl Router {
    /// A hub that nobody has connected to.
    pub fn new(config: HubConfig, hub_identity: IdentityHash, extensions: Extensions) -> (result:
        Self)
        ensures
            result.model() == new_hub(
                config.model(),
                hub_identity,
                extensions,
                Seq::empty(),
            ),
    {
        Router {
            config,
            hub_identity,
            extensions,
            state: HubState::default(),
            pending_resources: Table::new(),
            last_registry_prune: 0,
        }
    }

    /// A hub that nobody has connected to, with the rooms of the registry.
    pub fn load(
        config: HubConfig,
        hub_identity: IdentityHash,
        extensions: Extensions,
        rooms: Table<String, Room>,
    ) -> (result: Self)
        ensures
            result.model() == new_hub(config.model(), hub_identity, extensions, rooms.model()),
    {
        let mut router = Router::new(config, hub_identity, extensions);
        router.state.rooms = rooms;
        router
    }

    /// One reading of both clocks, of which nothing is said: what is done at each is stated for all.
    fn read_clock(&self) -> (result: Clock) {
        Clock { wall: wall_time(), mono: elapsed(&self.state.started) }
    }

    /// Starts a session for `link`.
    pub fn established(&mut self, link: LinkId)
        ensures
            exists|clock: Clock|
                final(self).model() == (Hub {
                    state: #[trigger] established(
                        old(self).model().state,
                        link,
                        old(self).model().config.rate_limit_msgs_per_minute,
                        clock.mono,
                    ),
                    ..old(self).model()
                }),
    {
        let clock = self.read_clock();
        self.established_at(clock, link);
    }

    /// Starts a session for `link` at the time of `clock`.
    pub fn established_at(&mut self, clock: Clock, link: LinkId)
        ensures
            final(self).model() == (Hub {
                state: established(
                    old(self).model().state,
                    link,
                    old(self).model().config.rate_limit_msgs_per_minute,
                    clock.mono,
                ),
                ..old(self).model()
            }),
    {
        self.state.establish(link, &self.config, clock.mono);
    }

    /// Notes that `link` is `peer`'s; a link of a banned identity is to be closed.
    pub fn identified(&mut self, link: LinkId, peer: IdentityHash) -> (result: Vec<Action>)
        ensures
            (final(self).model(), models(result@)) == identifying(old(self).model(), link, peer),
    {
        let mut actions: Vec<Action> = Vec::new();
        if contains_identity(&self.config.banned_identities, &peer) {
            actions.push(Action::Close(link));
            assert(models(actions@) =~= seq![ActionModel::Close(link)]);
            return actions;
        }
        self.state.identify(link, peer);
        actions
    }

    /// Draws message identifiers, stamps and writes what is to be said, and counts what is sent.
    fn deliver(&mut self, reply: Reply, wall: Nanos) -> (result: Step)
        ensures
            delivers(turn(old(self).model(), reply), wall, final(self).model(), result),
    {
        let ghost done = turn(self.model(), reply);
        let Reply { outs, pending } = reply;
        let draws = draw(outs.len());
        let millis: u128 = wall / 1_000_000;
        let actions = seal_with(outs, &draws, millis);
        self.state.counters.bytes_out = count_sent(self.state.counters.bytes_out, &actions);
        let step = Step { actions, pending };
        proof {
            assert(models(step.actions@) == sealed(done.outs, draws@, millis as int));
        }
        step
    }

    /// Handles a packet on `link`.
    pub fn packet(&mut self, link: LinkId, data: &[u8]) -> (result: Step)
        ensures
            exists|clock: Clock|
                delivers(
                    #[trigger] reading(old(self).model(), clock, link, data@),
                    clock.wall,
                    final(self).model(),
                    result,
                ),
    {
        let clock = self.read_clock();
        self.packet_at(clock, link, data)
    }

    /// Handles a packet on `link` at the time of `clock`.
    pub fn packet_at(&mut self, clock: Clock, link: LinkId, data: &[u8]) -> (result: Step)
        ensures
            delivers(
                reading(old(self).model(), clock, link, data@),
                clock.wall,
                final(self).model(),
                result,
            ),
    {
        let reply = self.read_packet(clock, link, data);
        self.deliver(reply, clock.wall)
    }

    /// Handles a packet on `link`, up to the drawing of message identifiers.
    pub fn read_packet(&mut self, clock: Clock, link: LinkId, data: &[u8]) -> (result: Reply)
        ensures
            turn(final(self).model(), result) == reading(
                old(self).model(),
                clock,
                link,
                data@,
            ),
    {
        let counters = self.state.counters;
        self.state.counters.packets_in = count(counters.packets_in, 1);
        self.state.counters.bytes_in = count(counters.bytes_in, data.len());
        let mut granted = false;
        let limit: u32 = self.config.rate_limit_msgs_per_minute;
        let identified = match self.state.sessions.get(&link) {
            Some(session) => match session.peer {
                Some(peer) => Some((peer, session.welcomed)),
                None => None,
            },
            None => None,
        };
        let (peer, welcomed) = match identified {
            Some(known) => known,
            None => return nothing(),
        };
        if let Some(session) = self.state.sessions.get_mut(&link) {
            granted = session.take_rate_token(limit, clock.mono);
        }
        if !granted {
            self.state.counters.rate_limited = count(self.state.counters.rate_limited, 1);
            return self.refuse(link, None, "rate limited");
        }
        let envelope = match Envelope::decode(data) {
            Ok(envelope) => envelope,
            Err(error) => {
                self.state.counters.packets_bad = count(self.state.counters.packets_bad, 1);
                let mut text = String::from_str("bad message: ");
                text.append(error.message().as_str());
                return self.refuse(link, None, text.as_str());
            },
        };
        self.handle(clock, link, peer, welcomed, envelope)
    }

    /// Handles an envelope of `peer`.
    fn handle(
        &mut self,
        clock: Clock,
        link: LinkId,
        peer: IdentityHash,
        welcomed: bool,
        envelope: Envelope,
    ) -> (result: Reply)
        requires
            integer_field(envelope.fields.map(), K_T) is Some,
        ensures
            turn(final(self).model(), result) == handling(
                old(self).model(),
                clock,
                link,
                peer,
                welcomed,
                envelope.fields.map(),
            ),
    {
        let kind: u64 = match envelope.integer(K_T) {
            Some(kind) => kind,
            None => 0,
        };
        if kind == T_PONG {
            self.state.counters.pongs_in = count(self.state.counters.pongs_in, 1);
            if let Some(session) = self.state.sessions.get_mut(&link) {
                session.awaiting_pong = None;
            }
            nothing()
        } else if kind == T_RESOURCE_ENVELOPE {
            self.resource_envelope(clock.mono, link, &envelope)
        } else if !welcomed || kind == T_HELLO {
            self.hello(link, &envelope)
        } else if kind == T_JOIN {
            self.join(clock.wall, link, peer, &envelope)
        } else if kind == T_PART {
            self.part(clock.wall, link, peer, &envelope)
        } else if kind == T_MSG || kind == T_NOTICE || kind == T_ACTION {
            self.message(clock, link, peer, kind, envelope)
        } else if kind == T_PING {
            self.pong(link, envelope)
        } else {
            self.refuse(link, None, "unsupported message type")
        }
    }

    /// Answers a PING.
    fn pong(&mut self, link: LinkId, envelope: Envelope) -> (result: Reply)
        ensures
            turn(final(self).model(), result) == answering(
                old(self).model(),
                link,
                envelope.fields.map(),
            ),
    {
        let counters = self.state.counters;
        self.state.counters.pings_in = count(counters.pings_in, 1);
        self.state.counters.pongs_out = count(counters.pongs_out, 1);
        let mut envelope = envelope;
        let mut fields = new_draft(T_PONG, self.hub_identity.as_slice());
        if let Some(body) = envelope.fields.take(K_BODY) {
            fields.set(K_BODY, body);
        }
        let out = to_one(link, fields);
        let mut outs: Vec<Outgoing> = Vec::new();
        outs.push(out);
        assert(models(outs@) =~= seq![out.model()]);
        only(outs)
    }

    /// Handles a resource that has arrived on `link`.
    pub fn resource_received(&mut self, link: LinkId, payload: Vec<u8>) -> (result: Step)
        ensures
            exists|clock: Clock|
                delivers(
                    #[trigger] receiving(old(self).model(), clock.mono, link, payload@),
                    clock.wall,
                    final(self).model(),
                    result,
                ),
    {
        let clock = self.read_clock();
        self.resource_received_at(clock, link, payload)
    }

    /// Handles a resource that has arrived on `link` at the time of `clock`.
    pub fn resource_received_at(&mut self, clock: Clock, link: LinkId, payload: Vec<u8>) -> (result:
        Step)
        ensures
            delivers(
                receiving(old(self).model(), clock.mono, link, payload@),
                clock.wall,
                final(self).model(),
                result,
            ),
    {
        let reply = self.receive(clock.mono, link, payload);
        self.deliver(reply, clock.wall)
    }

    /// Handles a closed link.
    pub fn closed(&mut self, link: LinkId) -> (result: Step)
        ensures
            exists|clock: Clock|
                delivers(
                    #[trigger] closing(old(self).model(), clock.wall, link),
                    clock.wall,
                    final(self).model(),
                    result,
                ),
    {
        let clock = self.read_clock();
        self.closed_at(clock, link)
    }

    /// Handles a link that was closed at the time of `clock`.
    pub fn closed_at(&mut self, clock: Clock, link: LinkId) -> (result: Step)
        ensures
            delivers(
                closing(old(self).model(), clock.wall, link),
                clock.wall,
                final(self).model(),
                result,
            ),
    {
        let reply = self.close_link(clock.wall, link);
        self.deliver(reply, clock.wall)
    }

    /// Does what is to be done at regular intervals.
    pub fn liveness_tick(&mut self) -> (result: Step)
        ensures
            exists|clock: Clock|
                delivers(
                    #[trigger] ticking(old(self).model(), clock),
                    clock.wall,
                    final(self).model(),
                    result,
                ),
    {
        let clock = self.read_clock();
        self.liveness_tick_at(clock)
    }

    /// Does what is to be done at regular intervals, at the time of `clock`.
    pub fn liveness_tick_at(&mut self, clock: Clock) -> (result: Step)
        ensures
            delivers(
                ticking(old(self).model(), clock),
                clock.wall,
                final(self).model(),
                result,
            ),
    {
        let reply = self.tick(clock);
        self.deliver(reply, clock.wall)
    }

    /// Continues once the work on files is over.
    pub fn resume(&mut self, pending: Pending, outcome: Outcome) -> (result: Step)
        ensures
            exists|clock: Clock|
                #[trigger] delivers(
                    resuming(old(self).model(), pending.model(), outcome.model()),
                    clock.wall,
                    final(self).model(),
                    result,
                ),
    {
        let clock = self.read_clock();
        self.resume_at(clock, pending, outcome)
    }

    /// Continues once the work on files is over, at the time of `clock`.
    pub fn resume_at(&mut self, clock: Clock, pending: Pending, outcome: Outcome) -> (result: Step)
        ensures
            delivers(
                resuming(old(self).model(), pending.model(), outcome.model()),
                clock.wall,
                final(self).model(),
                result,
            ),
    {
        let Pending { work: _, resume, watch } = pending;
        let mut outs = self.follow(resume, outcome);
        if let Some(watch) = watch {
            let mut more = self.nick_change_notices(watch.link, watch.peer, &watch.previous);
            outs.append(&mut more);
        }
        self.deliver(only(outs), clock.wall)
    }

    fn registry_error(&mut self, link: LinkId, room: &String, error: &str) -> (result: Vec<
        Outgoing,
    >)
        ensures
            saying(final(self).model(), models(result@)) == registry_failure(
                old(self).model(),
                link,
                room@,
                error@,
            ),
    {
        let mut text = String::from_str("room persist failed: ");
        text.append(error);
        self.error(link, Some(room.as_str()), text.as_str())
    }

    fn follow_failure(&mut self, resume: Resume, error: &str) -> (result: Vec<Outgoing>)
        ensures
            saying(final(self).model(), models(result@)) == after_failure(
                old(self).model(),
                resume.model(),
                error@,
            ),
    {
        match resume {
            Resume::Quiet => Vec::new(),
            Resume::Complain { link, room } => self.registry_error(link, &room, error),
            Resume::RoomState { link, room, .. } => self.registry_error(link, &room, error),
            Resume::Members { link, room, .. } => self.registry_error(link, &room, error),
            Resume::Access { link, room, .. } => self.registry_error(link, &room, error),
            Resume::Bans { link, .. } => {
                let mut text = String::from_str("kline persist failed: ");
                text.append(error);
                self.error(link, None, text.as_str())
            },
            Resume::Reload { link } => {
                let mut text = String::from_str("reload failed: ");
                text.append(error);
                self.error(link, None, text.as_str())
            },
        }
    }

    fn follow_access(
        &mut self,
        link: LinkId,
        context: Option<&str>,
        room: &String,
        status: &str,
        invite: Option<(LinkId, String)>,
        evicted: Option<LinkId>,
    ) -> (result: Vec<Outgoing>)
        ensures
            saying(final(self).model(), models(result@)) == after_access(
                old(self).model(),
                link,
                text_view(context),
                room@,
                status@,
                match invite {
                    Some((to, text)) => Some((to, text@)),
                    None => None,
                },
                evicted,
            ),
    {
        let mut outs = self.notice(link, context, status);
        if let Some((to, text)) = invite {
            let mut more = self.notice(to, Some(room.as_str()), text.as_str());
            outs.append(&mut more);
        }
        if let Some(to) = evicted {
            let mut text = String::from_str("banned from ");
            text.append(room.as_str());
            let mut more = self.error(to, Some(room.as_str()), text.as_str());
            outs.append(&mut more);
        }
        outs
    }

    fn follow_bans(&mut self, link: LinkId, text: &str, close: &Vec<LinkId>) -> (result: Vec<
        Outgoing,
    >)
        ensures
            ({
                let told = noticing(old(self).model(), link, None, text@);
                &&& final(self).model() == told.hub
                &&& models(result@) == told.outs + closing_all(close@)
            }),
    {
        let mut outs = self.notice(link, None, text);
        let ghost told = models(outs@);
        let mut i: usize = 0;
        assert(closing_all(close@.take(0)) =~= Seq::empty());
        while i < close.len()
            invariant
                i <= close@.len(),
                models(outs@) == told + closing_all(close@.take(i as int)),
            decreases close@.len() - i,
        {
            let ghost before = models(outs@);
            outs.push(Outgoing::Close(close[i]));
            assert(closing_all(close@.take(i + 1)) =~= closing_all(close@.take(i as int)).push(
                Out::Close(close@[i as int]),
            ));
            i += 1;
            assert(models(outs@) =~= told + closing_all(close@.take(i as int)));
        }
        outs
    }

    fn follow_success(&mut self, resume: Resume) -> (result: Vec<Outgoing>)
        ensures
            saying(final(self).model(), models(result@)) == after_success(
                old(self).model(),
                resume.model(),
            ),
    {
        match resume {
            Resume::Quiet => Vec::new(),
            Resume::Complain { .. } => Vec::new(),
            Resume::RoomState { link: _, room, to, text } => {
                self.room_state_notice_to(&room, &to, text.as_str())
            },
            Resume::Members { link: _, room, to, text } => {
                self.notice_to(&room, &to, text.as_str())
            },
            Resume::Access { link, context, room, status, invite, evicted } => {
                self.follow_access(
                    link,
                    borrowed(&context),
                    &room,
                    status.as_str(),
                    invite,
                    evicted,
                )
            },
            Resume::Bans { link, text, close } => self.follow_bans(link, text.as_str(), &close),
            Resume::Reload { .. } => Vec::new(),
        }
    }

    fn follow(&mut self, resume: Resume, outcome: Outcome) -> (result: Vec<Outgoing>)
        ensures
            saying(final(self).model(), models(result@)) == following(
                old(self).model(),
                resume.model(),
                outcome.model(),
            ),
    {
        match outcome {
            Outcome::Failed(error) => self.follow_failure(resume, error.as_str()),
            Outcome::Done => self.follow_success(resume),
            Outcome::Loaded(config, rooms) => match resume {
                Resume::Reload { link } => {
                    let text = self.reload(config, rooms);
                    self.notice(link, None, text.as_str())
                },
                _ => self.follow_success(resume),
            },
        }
    }

    /// Counts the bytes of an envelope that was sent with a structured part.
    pub fn count_extended(&mut self, size: usize)
        ensures
            final(self).model() == recounted(
                old(self).model(),
                (Counters {
                    bytes_out: counted(old(self).model().state.counters.bytes_out, size as int),
                    ..old(self).model().state.counters
                }),
            ),
    {
        self.state.counters.bytes_out = count(self.state.counters.bytes_out, size);
    }

    /// Counts an announcement of the hub.
    pub fn count_announce(&mut self)
        ensures
            final(self).model() == recounted(
                old(self).model(),
                (Counters {
                    announces: counted(old(self).model().state.counters.announces, 1),
                    ..old(self).model().state.counters
                }),
            ),
    {
        self.state.counters.announces = count(self.state.counters.announces, 1);
    }
}

} // verus!
