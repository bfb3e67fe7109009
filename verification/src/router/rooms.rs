//! Notices to the members of rooms, and how a room is described in them.

use crate::cbor::{Cbor, Datum};
use crate::collections::{group_collections, group_sequences, lookup, models, Key, Model};
use crate::constants::{K_BODY, K_ROOM, T_NOTICE};
use crate::outgoing::{
    draft, new_draft, single, to_one, Extension, ExtensionModel, Out, Outgoing, RoomState,
    RoomStateModel,
};
use crate::protocol::{with_field, FieldMap};
use crate::state::{IdentityHash, LinkId, Room, RoomModel, StateModel};
use crate::text::{head, hexadecimal, to_hexadecimal};
use super::{after, idle, noticing, saying, Hub, Router, Turn};
use vstd::prelude::*;

verus! {

broadcast use {group_collections, group_sequences};

/// A mode flag, where it is set.
pub open spec fn flag(set: bool, name: char) -> Seq<char> {
    if set {
        seq![name]
    } else {
        Seq::empty()
    }
}

/// The mode flags that are set in a room.
pub open spec fn flags(room: RoomModel) -> Seq<char> {
    flag(room.invite_only, 'i') + flag(room.key is Some, 'k') + flag(room.moderated, 'm') + flag(
        room.no_outside_messages,
        'n',
    ) + flag(room.private, 'p') + flag(room.registered, 'r') + flag(room.topic_ops_only, 't')
}

/// The modes of a room, as they are shown.
pub open spec fn modes(room: RoomModel) -> Seq<char> {
    if flags(room).len() == 0 {
        "(none)"@
    } else {
        "+"@ + flags(room)
    }
}

/// The modes of the room `name`, as they are shown.
pub open spec fn modes_of(state: StateModel, name: Seq<char>) -> Seq<char> {
    match lookup(state.rooms, name) {
        Some(room) => modes(room),
        None => "(none)"@,
    }
}

/// What the room `name` is like, in parts.
pub open spec fn described(state: StateModel, name: Seq<char>) -> Option<RoomStateModel> {
    match lookup(state.rooms, name) {
        Some(room) => Some(
            RoomStateModel { registered: room.registered, modes: modes(room), topic: room.topic },
        ),
        None => None,
    }
}

/// Whether the client on `link` has announced a capability.
pub open spec fn supports(state: StateModel, link: LinkId, capability: i128) -> bool {
    match lookup(state.sessions, link) {
        Some(session) => session.peer_caps.dom().contains(capability)
            && session.peer_caps[capability],
        None => false,
    }
}

/// A draft to `link`, with the state of the room `name` where the client knows what that is.
pub open spec fn with_state(hub: Hub, link: LinkId, name: Seq<char>, fields: FieldMap) -> Out {
    match described(hub.state, name) {
        Some(state) => if supports(hub.state, link, hub.extensions.room_state) {
            Out::Extended(link, fields, ExtensionModel::RoomState(state))
        } else {
            single(link, fields)
        },
        None => single(link, fields),
    }
}

/// The draft of a notice about the room `name`.
pub open spec fn room_draft(hub: Hub, name: Seq<char>, text: Seq<char>) -> FieldMap {
    with_field(
        with_field(draft(T_NOTICE, hub.identity@), K_ROOM, Cbor::Text(name)),
        K_BODY,
        Cbor::Text(text),
    )
}

/// A notice about the state of the room `name`, to each of the links.
pub open spec fn stating(hub: Hub, name: Seq<char>, to: Seq<LinkId>, text: Seq<char>) -> Seq<Out> {
    Seq::new(to.len(), |i: int| with_state(hub, to[i], name, room_draft(hub, name, text)))
}

/// A notice about the room `name`, to each of the links.
pub open spec fn announcing(hub: Hub, name: Seq<char>, to: Seq<LinkId>, text: Seq<char>) -> Turn
    decreases to.len(),
{
    if to.len() == 0 {
        idle(hub)
    } else {
        let before = announcing(hub, name, to.drop_last(), text);
        after(before.outs, noticing(before.hub, to.last(), Some(name), text))
    }
}

/// The links in the room `name`.
pub open spec fn members_of(state: StateModel, name: Seq<char>) -> Seq<LinkId> {
    match lookup(state.rooms, name) {
        Some(room) => room.members,
        None => Seq::empty(),
    }
}

/// A notice to everyone in each of the rooms.
pub open spec fn announcing_in(hub: Hub, names: Seq<Seq<char>>, text: Seq<char>) -> Turn
    decreases names.len(),
{
    if names.len() == 0 {
        idle(hub)
    } else {
        let before = announcing_in(hub, names.drop_last(), text);
        after(
            before.outs,
            announcing(
                before.hub,
                names.last(),
                members_of(before.hub.state, names.last()),
                text,
            ),
        )
    }
}

/// The nickname, or the start of the identity where there is none.
pub open spec fn shown(nick: Option<Seq<char>>, peer: IdentityHash) -> Seq<char> {
    match nick {
        Some(nick) => nick,
        None => hexadecimal(peer@).take(12),
    }
}

/// What is told in the client's rooms where its nickname is no longer `previous`.
pub open spec fn renaming(
    hub: Hub,
    link: LinkId,
    peer: IdentityHash,
    previous: Option<Seq<char>>,
) -> Turn {
    match lookup(hub.state.sessions, link) {
        None => idle(hub),
        Some(session) => if session.nick == previous {
            idle(hub)
        } else {
            announcing_in(
                hub,
                session.rooms,
                "nick changed: "@ + shown(previous, peer) + " -> "@ + shown(session.nick, peer),
            )
        },
    }
}

fn push_flag(flags: &mut String, set: bool, name: char)
    ensures
        final(flags)@ == old(flags)@ + flag(set, name),
{
    if set {
        flags.push(name);
        assert(flags@ =~= old(flags)@ + seq![name]);
    } else {
        assert(flags@ =~= old(flags)@ + Seq::empty());
    }
}

/// The modes of a room, as they are shown.
pub fn mode_string(room: &Room) -> (result: String)
    ensures
        result@ == modes(room.model()),
{
    let mut flags = String::new();
    push_flag(&mut flags, room.invite_only, 'i');
    push_flag(&mut flags, room.key.is_some(), 'k');
    push_flag(&mut flags, room.moderated, 'm');
    push_flag(&mut flags, room.no_outside_messages, 'n');
    push_flag(&mut flags, room.private, 'p');
    push_flag(&mut flags, room.registered, 'r');
    push_flag(&mut flags, room.topic_ops_only, 't');
    assert(flags@ =~= self::flags(room.model()));
    if flags.as_str().is_empty() {
        String::from_str("(none)")
    } else {
        let mut text = String::from_str("+");
        text.append(flags.as_str());
        text
    }
}

/// The start of an identity, as it is shown.
pub(crate) fn short_hash(peer: &IdentityHash, count: usize) -> (result: String)
    requires
        count <= 32,
    ensures
        result@ == hexadecimal(peer@).take(count as int),
{
    let text = to_hexadecimal(peer.as_slice());
    head(text.as_str(), count)
}

fn show(nick: &Option<String>, peer: &IdentityHash) -> (result: String)
    ensures
        result@ == shown(nick.model(), *peer),
{
    match nick {
        Some(nick) => nick.clone(),
        None => short_hash(peer, 12),
    }
}

impl Router {
    /// The modes of the room `room_name`, as they are shown.
    pub fn room_mode_string(&self, room_name: &String) -> (result: String)
        ensures
            result@ == modes_of(self.model().state, room_name@),
    {
        match self.state.rooms.get(room_name) {
            Some(room) => mode_string(room),
            None => String::from_str("(none)"),
        }
    }

    pub(crate) fn room_protocol_state(&self, room_name: &String) -> (result: Option<RoomState>)
        ensures
            result.model() == described(self.model().state, room_name@),
    {
        match self.state.rooms.get(room_name) {
            Some(room) => Some(
                RoomState {
                    registered: room.registered,
                    modes: mode_string(room),
                    topic: room.topic.duplicate(),
                },
            ),
            None => None,
        }
    }

    pub(crate) fn peer_supports(&self, link: &LinkId, capability: i128) -> (result: bool)
        ensures
            result == supports(self.model().state, *link, capability),
    {
        match self.state.sessions.get(link) {
            Some(session) => session.peer_caps.supports(capability),
            None => false,
        }
    }

    /// A draft to `link`, with the state of the room where the client knows what that is.
    pub(crate) fn send_with_state(
        &self,
        link: LinkId,
        room_name: &String,
        fields: crate::cbor::Fields,
    ) -> (result: Outgoing)
        ensures
            result.model() == with_state(self.model(), link, room_name@, fields.map()),
    {
        match self.room_protocol_state(room_name) {
            Some(state) => if self.peer_supports(&link, self.extensions.room_state) {
                Outgoing::Extended(link, fields, Extension::RoomState(state))
            } else {
                to_one(link, fields)
            },
            None => to_one(link, fields),
        }
    }

    /// A notice about the state of a room, to each of the links.
    pub(crate) fn room_state_notice_to(
        &self,
        room_name: &String,
        recipients: &Vec<LinkId>,
        text: &str,
    ) -> (result: Vec<Outgoing>)
        ensures
            models(result@) == stating(self.model(), room_name@, recipients@, text@),
    {
        let ghost all = stating(self.model(), room_name@, recipients@, text@);
        let mut outs: Vec<Outgoing> = Vec::new();
        let mut i: usize = 0;
        assert(models(outs@) =~= all.take(0));
        while i < recipients.len()
            invariant
                i <= recipients@.len(),
                all == stating(self.model(), room_name@, recipients@, text@),
                models(outs@) == all.take(i as int),
            decreases recipients@.len() - i,
        {
            let mut fields = new_draft(T_NOTICE, self.hub_identity.as_slice());
            fields.set(K_ROOM, Datum::Text(room_name.clone()));
            fields.set(K_BODY, Datum::Text(String::from_str(text)));
            outs.push(self.send_with_state(recipients[i], room_name, fields));
            i += 1;
            assert(models(outs@) =~= all.take(i as int));
        }
        outs
    }

    /// The links in a room.
    pub(crate) fn room_members(&self, room_name: &String) -> (result: Vec<LinkId>)
        ensures
            result@ == members_of(self.model().state, room_name@),
    {
        match self.state.rooms.get(room_name) {
            Some(room) => room.members.to_links(),
            None => Vec::new(),
        }
    }

    /// A notice about a room, to each of the links.
    pub(crate) fn notice_to(
        &mut self,
        room_name: &String,
        recipients: &Vec<LinkId>,
        text: &str,
    ) -> (result: Vec<Outgoing>)
        ensures
            saying(final(self).model(), models(result@)) == announcing(
                old(self).model(),
                room_name@,
                recipients@,
                text@,
            ),
    {
        let ghost start = self.model();
        let mut outs: Vec<Outgoing> = Vec::new();
        let mut i: usize = 0;
        while i < recipients.len()
            invariant
                i <= recipients@.len(),
                saying(self.model(), models(outs@)) == announcing(
                    start,
                    room_name@,
                    recipients@.take(i as int),
                    text@,
                ),
            decreases recipients@.len() - i,
        {
            assert(recipients@.take(i + 1).drop_last() == recipients@.take(i as int));
            let mut more = self.notice(recipients[i], Some(room_name.as_str()), text);
            outs.append(&mut more);
            i += 1;
        }
        outs
    }

    /// What is told in the client's rooms where its nickname is no longer `previous`.
    pub(crate) fn nick_change_notices(
        &mut self,
        link: LinkId,
        peer: IdentityHash,
        previous: &Option<String>,
    ) -> (result: Vec<Outgoing>)
        ensures
            saying(final(self).model(), models(result@)) == renaming(
                old(self).model(),
                link,
                peer,
                previous.model(),
            ),
    {
        let ghost start = self.model();
        let (current, rooms) = match self.state.sessions.get(&link) {
            Some(session) => (session.nick.duplicate(), session.rooms.to_vec()),
            None => return Vec::new(),
        };
        if current.same(previous) {
            return Vec::new();
        }
        let mut text = String::from_str("nick changed: ");
        text.append(show(previous, &peer).as_str());
        text.append(" -> ");
        text.append(show(&current, &peer).as_str());
        let ghost names = models(rooms@);
        let mut outs: Vec<Outgoing> = Vec::new();
        let mut i: usize = 0;
        while i < rooms.len()
            invariant
                i <= rooms@.len(),
                names == models(rooms@),
                saying(self.model(), models(outs@)) == announcing_in(
                    start,
                    names.take(i as int),
                    text@,
                ),
            decreases rooms@.len() - i,
        {
            assert(names.take(i + 1).drop_last() == names.take(i as int));
            let members = self.room_members(&rooms[i]);
            let mut more = self.notice_to(&rooms[i], &members, text.as_str());
            outs.append(&mut more);
            i += 1;
        }
        outs
    }
}

} // verus!
