//! What anyone may ask: the public rooms and who is in a room.

use crate::cbor::{Cbor, Datum};
use crate::collections::{
    gathered, group_collections, group_sequences, lookup, models, ranking, sort, sorted, Key, Model,
    Ranked,
};
use crate::config::contains_identity;
use crate::constants::{K_BODY, T_NOTICE};
use crate::outgoing::{
    draft, new_draft, single, text_view, to_one, Extension, ExtensionModel, Out, Outgoing,
    UserInfo, UserModel,
};
use crate::protocol::{with_field, FieldMap};
use crate::state::{
    room_error_text, room_name, IdentityHash, LinkId, RoomModel, SessionModel, StateModel,
};
use crate::text::{
    head, hexadecimal, is_text_before, join, joined, text_before, to_hexadecimal,
};
use super::rooms::supports;
use super::{noticing, only, saying, turn, Hub, Reply, Router, Turn};
use vstd::prelude::*;

verus! {

broadcast use {group_collections, group_sequences};

impl Ranked for String {
    open spec fn ranks_before(left: Seq<char>, right: Seq<char>) -> bool {
        text_before(left, right)
    }

    fn is_before(&self, other: &Self) -> (result: bool) {
        is_text_before(self.as_str(), other.as_str())
    }
}

/// The line for a room in the list of public rooms; only registered rooms that are not private
/// have one.
pub open spec fn listing_line(entry: (Seq<char>, RoomModel)) -> Option<Seq<char>> {
    if entry.1.registered && !entry.1.private {
        Some(
            match entry.1.topic {
                Some(topic) => "  "@ + entry.0 + " - "@ + topic,
                None => "  "@ + entry.0,
            },
        )
    } else {
        None
    }
}

/// [`listing_line`] as a function.
pub open spec fn listing_liner() -> spec_fn((Seq<char>, RoomModel)) -> Option<Seq<char>> {
    |entry: (Seq<char>, RoomModel)| listing_line(entry)
}

/// The lines of the list of public rooms, in order.
pub open spec fn listing(rooms: Seq<(Seq<char>, RoomModel)>) -> Seq<Seq<char>> {
    sorted(gathered(rooms, listing_liner()), ranking::<String>())
}

/// The answer to `/list`.
pub open spec fn listing_text(rooms: Seq<(Seq<char>, RoomModel)>) -> Seq<char> {
    let lines = listing(rooms);
    if lines.len() == 0 {
        "No public rooms registered"@
    } else {
        joined(seq!["Registered public rooms:"@] + lines, "\n"@)
    }
}

/// A member of a room as it is listed, where its client is identified.
pub open spec fn user_on(
    sessions: Seq<(LinkId, SessionModel)>,
    room: RoomModel,
    link: LinkId,
) -> Option<UserModel> {
    match lookup(sessions, link) {
        Some(session) => match session.peer {
            Some(peer) => Some(
                UserModel {
                    nick: session.nick,
                    identity: hexadecimal(peer@),
                    operator: room.operators.contains(peer),
                    voiced: room.voiced.contains(peer),
                },
            ),
            None => None,
        },
        None => None,
    }
}

/// [`user_on`] as a function of the link.
pub open spec fn user_finder(
    sessions: Seq<(LinkId, SessionModel)>,
    room: RoomModel,
) -> spec_fn(LinkId) -> Option<UserModel> {
    |link: LinkId| user_on(sessions, room, link)
}

/// What a user is ordered by: the nickname, or the identity where there is none.
pub open spec fn user_key(user: UserModel) -> Seq<char> {
    match user.nick {
        Some(nick) => nick,
        None => user.identity,
    }
}

impl Ranked for UserInfo {
    open spec fn ranks_before(left: UserModel, right: UserModel) -> bool {
        text_before(user_key(left), user_key(right))
    }

    fn is_before(&self, other: &Self) -> (result: bool) {
        let left = match &self.nick {
            Some(nick) => nick.as_str(),
            None => self.identity.as_str(),
        };
        let right = match &other.nick {
            Some(nick) => nick.as_str(),
            None => other.identity.as_str(),
        };
        is_text_before(left, right)
    }
}

/// The members of the room `name` that are identified, in order.
pub open spec fn users_in(state: StateModel, name: Seq<char>) -> Seq<UserModel> {
    match lookup(state.rooms, name) {
        Some(room) => sorted(
            gathered(room.members, user_finder(state.sessions, room)),
            ranking::<UserInfo>(),
        ),
        None => Seq::empty(),
    }
}

/// A user as it is shown.
pub open spec fn user_text(user: UserModel) -> Seq<char> {
    match user.nick {
        Some(nick) => nick + " ("@ + user.identity.take(12) + ")"@,
        None => user.identity,
    }
}

/// The answer to `/who`.
pub open spec fn users_text(name: Seq<char>, users: Seq<UserModel>) -> Seq<char> {
    "members in "@ + name + ": "@ + if users.len() == 0 {
        "(none)"@
    } else {
        joined(Seq::new(users.len(), |i: int| user_text(users[i])), ", "@)
    }
}

/// The draft of the answer to `/who`.
pub open spec fn users_draft(hub: Hub, name: Seq<char>) -> FieldMap {
    with_field(
        draft(T_NOTICE, hub.identity@),
        K_BODY,
        Cbor::Text(users_text(name, users_in(hub.state, name))),
    )
}

/// Whether the members of the room `name` are hidden from `peer`.
pub open spec fn hidden(hub: Hub, name: Seq<char>, peer: IdentityHash) -> bool {
    match lookup(hub.state.rooms, name) {
        Some(room) => room.private && !hub.config.trusted_identities.contains(peer),
        None => false,
    }
}

/// What the hub does with `/who` and `/names`. The members of a private room are shown to trusted
/// identities alone.
pub open spec fn listing_users(
    hub: Hub,
    link: LinkId,
    peer: IdentityHash,
    context: Option<Seq<char>>,
    parts: Seq<Seq<char>>,
) -> Turn {
    let requested = if parts.len() > 1 {
        Some(parts[1])
    } else {
        context
    };
    match requested {
        None => noticing(hub, link, None, "usage: /who [room]"@),
        Some(text) => match room_name(text, hub.config.max_room_name_bytes as nat) {
            Err(error) => noticing(hub, link, None, "bad room: "@ + room_error_text(error)),
            Ok(name) => if hidden(hub, name, peer) {
                noticing(hub, link, None, "room "@ + name + " is private"@)
            } else if supports(hub.state, link, hub.extensions.user_list) {
                saying(
                    hub,
                    seq![
                        Out::Extended(
                            link,
                            users_draft(hub, name),
                            ExtensionModel::Users(users_in(hub.state, name)),
                        ),
                    ],
                )
            } else {
                saying(hub, seq![single(link, users_draft(hub, name))])
            },
        },
    }
}

/// A user as it is shown.
fn show_user(user: &UserInfo) -> (result: String)
    requires
        user.identity@.len() >= 12,
    ensures
        result@ == user_text(user.model()),
{
    match &user.nick {
        Some(nick) => {
            let mut text = nick.clone();
            text.append(" (");
            text.append(head(user.identity.as_str(), 12).as_str());
            text.append(")");
            text
        },
        None => user.identity.clone(),
    }
}

/// Whether every user has an identity of full length.
spec fn full_identities(users: Seq<UserModel>) -> bool {
    forall|i: int| 0 <= i < users.len() ==> (#[trigger] users[i]).identity.len() == 32
}

proof fn lemma_placed_full(
    users: Seq<UserModel>,
    user: UserModel,
    before: spec_fn(UserModel, UserModel) -> bool,
)
    requires
        full_identities(users),
        user.identity.len() == 32,
    ensures
        full_identities(crate::collections::placed(users, user, before)),
    decreases users.len(),
{
    if users.len() > 0 && before(user, users.last()) {
        lemma_placed_full(users.drop_last(), user, before);
    }
}

proof fn lemma_sorted_full(
    users: Seq<UserModel>,
    before: spec_fn(UserModel, UserModel) -> bool,
)
    requires
        full_identities(users),
    ensures
        full_identities(sorted(users, before)),
    decreases users.len(),
{
    if users.len() > 0 {
        lemma_sorted_full(users.drop_last(), before);
        lemma_placed_full(sorted(users.drop_last(), before), users.last(), before);
    }
}

/// The answer to `/who`.
fn format_users(room_name: &String, users: &Vec<UserInfo>) -> (result: String)
    requires
        full_identities(models(users@)),
    ensures
        result@ == users_text(room_name@, models(users@)),
{
    let mut text = String::from_str("members in ");
    text.append(room_name.as_str());
    text.append(": ");
    if users.len() == 0 {
        text.append("(none)");
        return text;
    }
    let ghost all = Seq::new(models(users@).len(), |i: int| user_text(models(users@)[i]));
    let mut shown: Vec<String> = Vec::new();
    let mut i: usize = 0;
    while i < users.len()
        invariant
            i <= users@.len(),
            full_identities(models(users@)),
            all == Seq::new(models(users@).len(), |i: int| user_text(models(users@)[i])),
            models(shown@) == all.take(i as int),
        decreases users@.len() - i,
    {
        assert(models(users@)[i as int].identity.len() == 32);
        shown.push(show_user(&users[i]));
        i += 1;
        assert(models(shown@) =~= all.take(i as int));
    }
    assert(models(shown@).skip(0) =~= all);
    text.append(join(&shown, 0, ", ").as_str());
    text
}

impl Router {
    /// The answer to `/list`.
    pub(crate) fn list_rooms(&self) -> (result: String)
        ensures
            result@ == listing_text(self.model().state.rooms),
    {
        let ghost all = self.state.rooms.model();
        let mut lines: Vec<String> = Vec::new();
        let mut i: usize = 0;
        while i < self.state.rooms.len()
            invariant
                i <= all.len(),
                all == self.state.rooms.model(),
                models(lines@) == gathered(all.take(i as int), listing_liner()),
            decreases all.len() - i,
        {
            assert(all.take(i + 1).drop_last() == all.take(i as int));
            let room = self.state.rooms.value(i);
            if room.registered && !room.private {
                let mut line = String::from_str("  ");
                line.append(self.state.rooms.key(i).as_str());
                if let Some(topic) = &room.topic {
                    line.append(" - ");
                    line.append(topic.as_str());
                }
                lines.push(line);
            }
            i += 1;
        }
        let mut ordered = sort(lines);
        if ordered.len() == 0 {
            String::from_str("No public rooms registered")
        } else {
            let ghost rest = models(ordered@);
            let mut answer: Vec<String> = Vec::new();
            answer.push(String::from_str("Registered public rooms:"));
            answer.append(&mut ordered);
            assert(models(answer@).skip(0) =~= seq!["Registered public rooms:"@] + rest);
            join(&answer, 0, "\n")
        }
    }

    fn room_users(&self, room_name: &String) -> (result: Vec<UserInfo>)
        ensures
            models(result@) == users_in(self.model().state, room_name@),
            full_identities(models(result@)),
    {
        let room = match self.state.rooms.get(room_name) {
            Some(room) => room,
            None => return Vec::new(),
        };
        let ghost links = room.members.model();
        let ghost finder = user_finder(self.state.sessions.model(), room.model());
        let mut users: Vec<UserInfo> = Vec::new();
        let mut i: usize = 0;
        while i < room.members.len()
            invariant
                i <= links.len(),
                links == room.members.model(),
                finder == user_finder(self.state.sessions.model(), room.model()),
                models(users@) == gathered(links.take(i as int), finder),
                full_identities(models(users@)),
            decreases links.len() - i,
        {
            assert(links.take(i + 1).drop_last() == links.take(i as int));
            if let Some(session) = self.state.sessions.get(room.members.get(i)) {
                if let Some(peer) = session.peer {
                    users.push(
                        UserInfo {
                            nick: session.nick.duplicate(),
                            identity: to_hexadecimal(peer.as_slice()),
                            operator: room.operators.contains(&peer),
                            voiced: room.voiced.contains(&peer),
                        },
                    );
                }
            }
            i += 1;
        }
        proof {
            lemma_sorted_full(models(users@), ranking::<UserInfo>());
        }
        sort(users)
    }

    /// Handles `/who` and `/names`.
    pub(crate) fn who_command(
        &mut self,
        link: LinkId,
        peer: IdentityHash,
        context: Option<&str>,
        parts: &Vec<String>,
    ) -> (result: Reply)
        ensures
            turn(final(self).model(), result) == listing_users(
                old(self).model(),
                link,
                peer,
                text_view(context),
                models(parts@),
            ),
    {
        let requested = if parts.len() > 1 {
            Some(parts[1].as_str())
        } else {
            context
        };
        let name = match requested {
            None => return self.tell(link, None, "usage: /who [room]"),
            Some(text) => match self.state.normalize_room(text, &self.config) {
                Ok(name) => name,
                Err(error) => {
                    let mut text = String::from_str("bad room: ");
                    text.append(error.message().as_str());
                    return self.tell(link, None, text.as_str());
                },
            },
        };
        let hidden = match self.state.rooms.get(&name) {
            Some(room) => room.private && !contains_identity(
                &self.config.trusted_identities,
                &peer,
            ),
            None => false,
        };
        if hidden {
            let mut text = String::from_str("room ");
            text.append(name.as_str());
            text.append(" is private");
            return self.tell(link, None, text.as_str());
        }
        let users = self.room_users(&name);
        let mut fields = new_draft(T_NOTICE, self.hub_identity.as_slice());
        fields.set(K_BODY, Datum::Text(format_users(&name, &users)));
        let mut outs: Vec<Outgoing> = Vec::new();
        if self.peer_supports(&link, self.extensions.user_list) {
            outs.push(Outgoing::Extended(link, fields, Extension::Users(users)));
        } else {
            outs.push(to_one(link, fields));
        }
        assert(models(outs@) =~= listing_users(
            old(self).model(),
            link,
            peer,
            text_view(context),
            models(parts@),
        ).outs);
        only(outs)
    }
}

} // verus!
