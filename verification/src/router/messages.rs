//! Room messages, direct notices, and what passing them on changes.

use crate::cbor::{copy_bytes, Cbor, CborKey, Datum};
use crate::clock::Clock;
use crate::collections::{group_collections, group_sequences, lookup, models, Key, Model};
use crate::config::{hash_from, to_hash};
use crate::constants::{K_BODY, K_DST, K_NICK, K_ROOM, K_SRC, T_ACTION, T_MSG, T_NOTICE};
use crate::outgoing::{text_view, Out, Outgoing, Parcel, ParcelModel};
use crate::protocol::{bytes_field, field, text_field, with_field, with_text, Envelope, FieldMap};
use crate::state::{
    count, counted, nick_on, nicked, room_error_text, room_name, speaks, Counters, IdentityHash,
    LinkId,
};
use crate::text::{byte_len, leads_with, text_len, trim_start};
use super::commands::commanding;
use super::membership::{carried_nick, nicked_if, read_nick};
use super::moderation::is_in;
use super::rooms::renaming;
use super::{
    after, failing, only, recounted, saying, turn, Hub, NickWatch, Pending, PendingModel, Reply,
    Router, Turn, WatchModel,
};
use vstd::prelude::*;

verus! {

broadcast use {group_collections, group_sequences};

/// The hub with one more message passed on.
pub open spec fn forwarded(hub: Hub, message_type: u64) -> Hub {
    let counters = hub.state.counters;
    let all = Counters { forwarded: counted(counters.forwarded, 1), ..counters };
    recounted(
        hub,
        if message_type == T_MSG {
            Counters { messages_forwarded: counted(counters.messages_forwarded, 1), ..all }
        } else if message_type == T_NOTICE {
            Counters { notices_forwarded: counted(counters.notices_forwarded, 1), ..all }
        } else if message_type == T_ACTION {
            Counters { actions_forwarded: counted(counters.actions_forwarded, 1), ..all }
        } else {
            all
        },
    )
}

/// The nickname that a message is passed on under: the one that it carries where that is valid,
/// else the one that the client has.
pub open spec fn passed_nick(hub: Hub, link: LinkId, fields: FieldMap) -> Option<Seq<char>> {
    match carried_nick(fields, hub.config.max_nick_bytes as nat) {
        Some(nick) => Some(nick),
        None => nick_on(hub.state, link),
    }
}

/// The fields of a message as it is passed on: its source is the peer on the link, whatever the
/// client has claimed.
pub open spec fn passed_fields(
    hub: Hub,
    link: LinkId,
    peer: IdentityHash,
    fields: FieldMap,
    room: Option<Seq<char>>,
) -> FieldMap {
    let sourced = with_text(with_field(fields, K_SRC, Cbor::Bytes(peer@)), K_ROOM, room);
    match passed_nick(hub, link, fields) {
        Some(nick) => with_field(sourced, K_NICK, Cbor::Text(nick)),
        None => sourced.remove(CborKey::Integer(K_NICK as int)),
    }
}

/// The hub after it has passed on a message: the client has the nickname that the message went
/// out under.
pub open spec fn passed_hub(hub: Hub, link: LinkId, fields: FieldMap) -> Hub {
    let nick = passed_nick(hub, link, fields);
    if nick == nick_on(hub.state, link) {
        hub
    } else {
        Hub { state: nicked(hub.state, link, nick), ..hub }
    }
}

/// What the hub does with a direct notice: it goes to exactly one link of the identity that it
/// is for.
pub open spec fn passing_direct(
    hub: Hub,
    link: LinkId,
    peer: IdentityHash,
    message_type: u64,
    fields: FieldMap,
) -> Turn {
    if field(fields, K_ROOM) is Some {
        failing(hub, link, None, "direct notice must not include room"@)
    } else {
        let target = match bytes_field(fields, K_DST) {
            Some(bytes) => hash_from(bytes),
            None => None,
        };
        match target {
            None => failing(hub, link, None, "direct notice requires destination identity"@),
            Some(identity) => match lookup(hub.state.links_by_identity, identity) {
                None => failing(hub, link, None, "destination not connected"@),
                Some(target_link) => saying(
                    forwarded(passed_hub(hub, link, fields), message_type),
                    seq![
                        Out::Forward(
                            ParcelModel {
                                to: seq![target_link],
                                fields: passed_fields(hub, link, peer, fields, None),
                            },
                        ),
                    ],
                ),
            },
        }
    }
}

/// Why a message to a room is not passed on, if it is not.
pub open spec fn message_refusal(
    hub: Hub,
    link: LinkId,
    peer: IdentityHash,
    name: Seq<char>,
    fields: FieldMap,
) -> Option<Seq<char>> {
    let body = text_field(fields, K_BODY);
    if body is Some && byte_len(body->0) > hub.config.max_msg_body_bytes {
        Some("message too large"@)
    } else {
        match lookup(hub.state.rooms, name) {
            None => Some("no such room"@),
            Some(room) => if !is_in(hub.state, link, name) && room.no_outside_messages {
                Some("no outside messages (+n)"@)
            } else if room.banned.contains(peer) {
                Some("banned from room"@)
            } else if !speaks(room, peer) {
                Some("room is moderated (+m)"@)
            } else {
                None
            },
        }
    }
}

/// What the hub does with a message to a room.
pub open spec fn passing_room(
    hub: Hub,
    link: LinkId,
    peer: IdentityHash,
    message_type: u64,
    fields: FieldMap,
) -> Turn {
    match text_field(fields, K_ROOM) {
        None => failing(hub, link, None, "message requires room name"@),
        Some(text) => match room_name(text, hub.config.max_room_name_bytes as nat) {
            Err(error) => failing(hub, link, None, room_error_text(error)),
            Ok(name) => match message_refusal(hub, link, peer, name, fields) {
                Some(text) => failing(hub, link, Some(name), text),
                None => {
                    let told = renaming(
                        passed_hub(hub, link, fields),
                        link,
                        peer,
                        nick_on(hub.state, link),
                    );
                    let out = Out::Forward(
                        ParcelModel {
                            to: lookup(hub.state.rooms, name)->0.members,
                            fields: passed_fields(hub, link, peer, fields, Some(name)),
                        },
                    );
                    saying(forwarded(told.hub, message_type), seq![out] + told.outs)
                },
            },
        },
    }
}

/// Whether a message is a command: a MSG or NOTICE whose text begins with a slash.
pub open spec fn is_command(message_type: u64, fields: FieldMap) -> bool {
    (message_type == T_MSG || message_type == T_NOTICE) && match text_field(fields, K_BODY) {
        Some(text) => trim_start(text).len() > 0 && trim_start(text)[0] == '/',
        None => false,
    }
}

/// A turn after which a change of nickname is told: at once, or after the work on files that it
/// asks for.
pub open spec fn watching(
    done: Turn,
    link: LinkId,
    peer: IdentityHash,
    previous: Option<Seq<char>>,
) -> Turn {
    match done.pending {
        Some(pending) => Turn {
            pending: Some(
                PendingModel { watch: Some(WatchModel { link, peer, previous }), ..pending },
            ),
            ..done
        },
        None => after(done.outs, renaming(done.hub, link, peer, previous)),
    }
}

/// What the hub does with a MSG, NOTICE or ACTION.
pub open spec fn passing(
    hub: Hub,
    clock: Clock,
    link: LinkId,
    peer: IdentityHash,
    message_type: u64,
    fields: FieldMap,
) -> Turn {
    if is_command(message_type, fields) {
        let named = Hub {
            state: nicked_if(
                hub.state,
                link,
                carried_nick(fields, hub.config.max_nick_bytes as nat),
            ),
            ..hub
        };
        watching(
            commanding(named, clock, link, peer, fields),
            link,
            peer,
            nick_on(hub.state, link),
        )
    } else if message_type == T_NOTICE && field(fields, K_DST) is Some {
        passing_direct(hub, link, peer, message_type, fields)
    } else {
        passing_room(hub, link, peer, message_type, fields)
    }
}

impl Router {
    /// Counts a message that is passed on.
    pub fn count_forwarded(&mut self, message_type: u64)
        ensures
            final(self).model() == forwarded(old(self).model(), message_type),
    {
        let counters = self.state.counters;
        self.state.counters.forwarded = count(counters.forwarded, 1);
        if message_type == T_MSG {
            self.state.counters.messages_forwarded = count(counters.messages_forwarded, 1);
        } else if message_type == T_NOTICE {
            self.state.counters.notices_forwarded = count(counters.notices_forwarded, 1);
        } else if message_type == T_ACTION {
            self.state.counters.actions_forwarded = count(counters.actions_forwarded, 1);
        }
    }

    fn nick_of_link(&self, link: &LinkId) -> (result: Option<String>)
        ensures
            result.model() == nick_on(self.model().state, *link),
    {
        match self.state.sessions.get(link) {
            Some(session) => session.nick.duplicate(),
            None => None,
        }
    }

    /// Makes a message ready to be passed on.
    fn authorize_envelope(
        &mut self,
        link: LinkId,
        peer: IdentityHash,
        envelope: &mut Envelope,
        room: Option<&str>,
    )
        ensures
            final(self).model() == passed_hub(
                old(self).model(),
                link,
                old(envelope).fields.map(),
            ),
            final(envelope).fields.map() == passed_fields(
                old(self).model(),
                link,
                peer,
                old(envelope).fields.map(),
                text_view(room),
            ),
    {
        let own = self.nick_of_link(&link);
        let nick = match read_nick(envelope, self.config.max_nick_bytes) {
            Some(nick) => Some(nick),
            None => own.duplicate(),
        };
        envelope.set(K_SRC, Datum::Bytes(copy_bytes(peer.as_slice())));
        if let Some(room) = room {
            envelope.set(K_ROOM, Datum::Text(String::from_str(room)));
        }
        if !nick.same(&own) {
            self.state.set_nick(link, nick.duplicate());
        }
        match nick {
            Some(nick) => envelope.set(K_NICK, Datum::Text(nick)),
            None => envelope.remove(K_NICK),
        }
    }

    fn pass_direct(
        &mut self,
        link: LinkId,
        peer: IdentityHash,
        message_type: u64,
        envelope: Envelope,
    ) -> (result: Reply)
        ensures
            turn(final(self).model(), result) == passing_direct(
                old(self).model(),
                link,
                peer,
                message_type,
                envelope.fields.map(),
            ),
    {
        if envelope.get(K_ROOM).is_some() {
            return self.refuse(link, None, "direct notice must not include room");
        }
        let target = match envelope.bytes(K_DST) {
            Some(bytes) => to_hash(bytes),
            None => None,
        };
        let identity = match target {
            Some(identity) => identity,
            None => return self.refuse(
                link,
                None,
                "direct notice requires destination identity",
            ),
        };
        let target_link = match self.state.links_by_identity.get(&identity) {
            Some(target_link) => *target_link,
            None => return self.refuse(link, None, "destination not connected"),
        };
        let mut envelope = envelope;
        self.authorize_envelope(link, peer, &mut envelope, None);
        self.count_forwarded(message_type);
        let mut to: Vec<LinkId> = Vec::new();
        to.push(target_link);
        assert(to@ =~= seq![target_link]);
        let parcel = Parcel { to, fields: envelope.fields };
        let mut outs: Vec<Outgoing> = Vec::new();
        outs.push(Outgoing::Forward(parcel));
        assert(models(outs@) =~= seq![Out::Forward(parcel.model())]);
        only(outs)
    }

    fn message_refusal(
        &self,
        link: &LinkId,
        peer: &IdentityHash,
        name: &String,
        envelope: &Envelope,
    ) -> (result: Option<String>)
        ensures
            result.model() == message_refusal(
                self.model(),
                *link,
                *peer,
                name@,
                envelope.fields.map(),
            ),
    {
        if let Some(text) = envelope.text(K_BODY) {
            if text_len(text) > self.config.max_msg_body_bytes {
                return Some(String::from_str("message too large"));
            }
        }
        let room = match self.state.rooms.get(name) {
            Some(room) => room,
            None => return Some(String::from_str("no such room")),
        };
        if !self.state.is_member(link, name) && room.no_outside_messages {
            return Some(String::from_str("no outside messages (+n)"));
        }
        if room.banned.contains(peer) {
            return Some(String::from_str("banned from room"));
        }
        if !room.may_speak(peer) {
            return Some(String::from_str("room is moderated (+m)"));
        }
        None
    }

    fn pass_room(
        &mut self,
        link: LinkId,
        peer: IdentityHash,
        message_type: u64,
        envelope: Envelope,
    ) -> (result: Reply)
        ensures
            turn(final(self).model(), result) == passing_room(
                old(self).model(),
                link,
                peer,
                message_type,
                envelope.fields.map(),
            ),
    {
        let ghost start = self.model();
        let ghost fields = envelope.fields.map();
        let name = match envelope.text(K_ROOM) {
            None => return self.refuse(link, None, "message requires room name"),
            Some(text) => match self.state.normalize_room(text, &self.config) {
                Ok(name) => name,
                Err(error) => return self.refuse(link, None, error.message().as_str()),
            },
        };
        if let Some(text) = self.message_refusal(&link, &peer, &name, &envelope) {
            return self.refuse(link, Some(name.as_str()), text.as_str());
        }
        let to = self.room_members(&name);
        let previous = self.nick_of_link(&link);
        let mut envelope = envelope;
        self.authorize_envelope(link, peer, &mut envelope, Some(name.as_str()));
        let parcel = Parcel { to, fields: envelope.fields };
        let mut outs: Vec<Outgoing> = Vec::new();
        outs.push(Outgoing::Forward(parcel));
        assert(models(outs@) =~= seq![Out::Forward(parcel.model())]);
        let mut more = self.nick_change_notices(link, peer, &previous);
        outs.append(&mut more);
        self.count_forwarded(message_type);
        only(outs)
    }

    /// Handles a MSG, NOTICE or ACTION.
    pub(crate) fn message(
        &mut self,
        clock: Clock,
        link: LinkId,
        peer: IdentityHash,
        message_type: u64,
        envelope: Envelope,
    ) -> (result: Reply)
        ensures
            turn(final(self).model(), result) == passing(
                old(self).model(),
                clock,
                link,
                peer,
                message_type,
                envelope.fields.map(),
            ),
    {
        let command = (message_type == T_MSG || message_type == T_NOTICE) && match envelope.text(
            K_BODY,
        ) {
            Some(text) => leads_with(text, '/'),
            None => false,
        };
        if command {
            let previous = self.nick_of_link(&link);
            let nick = read_nick(&envelope, self.config.max_nick_bytes);
            if nick.is_some() {
                self.state.set_nick(link, nick);
            }
            let reply = self.command(clock, link, peer, &envelope);
            return self.watch(reply, link, peer, previous);
        }
        if message_type == T_NOTICE && envelope.get(K_DST).is_some() {
            return self.pass_direct(link, peer, message_type, envelope);
        }
        self.pass_room(link, peer, message_type, envelope)
    }

    fn watch(
        &mut self,
        reply: Reply,
        link: LinkId,
        peer: IdentityHash,
        previous: Option<String>,
    ) -> (result: Reply)
        ensures
            turn(final(self).model(), result) == watching(
                turn(old(self).model(), reply),
                link,
                peer,
                previous.model(),
            ),
    {
        let Reply { outs, pending } = reply;
        match pending {
            Some(pending) => Reply {
                outs,
                pending: Some(
                    Pending {
                        work: pending.work,
                        resume: pending.resume,
                        watch: Some(NickWatch { link, peer, previous }),
                    },
                ),
            },
            None => {
                let mut outs = outs;
                let mut more = self.nick_change_notices(link, peer, &previous);
                outs.append(&mut more);
                only(outs)
            },
        }
    }
}

} // verus!
