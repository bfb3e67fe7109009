//! Who may be in a room: bans and invitations.

use crate::clock::{add_time, gap, later, time_gap, Nanos, SECOND};
use crate::collections::{
    at, dropped, gathered, group_collections, group_sequences, lookup, models, put, with, without,
    Model,
};
use crate::outgoing::{owned, text_view};
use crate::state::{room_error_text, room_name, IdentityHash, LinkId, Room, RoomModel};
use crate::text::{
    ascii_lower, decimal, hexadecimal, join, joined, same_text, to_ascii_lower, to_decimal,
    to_hexadecimal,
};
use super::moderation::{evicted, operates_in, with_room};
use super::targets::{
    format_target_matches, read_hash, resolved, sole, sole_target, spelled, target_report,
};
use super::{
    ask, asking, failing, noticing, turn, Hub, Reply, Resume, ResumeModel, Router, Turn, Work,
};
use vstd::prelude::*;

verus! {

broadcast use {group_collections, group_sequences};

/// What an access command does.
#[derive(Clone, Copy, Debug, PartialEq)]
pub enum Access {
    Invite,
    Uninvite,
    Ban,
    Unban,
}

/// The line for an invitation, where it has not expired.
pub open spec fn invitation_line(entry: (IdentityHash, Nanos), now: Nanos) -> Option<Seq<char>> {
    if entry.1 > now {
        Some(
            hexadecimal(entry.0@) + " expires_in="@ + decimal(
                (gap(entry.1, now) / SECOND) as nat,
            ) + "s"@,
        )
    } else {
        None
    }
}

/// [`invitation_line`] as a function of the entry.
pub open spec fn invitation_liner(now: Nanos) -> spec_fn((IdentityHash, Nanos)) -> Option<
    Seq<char>,
> {
    |entry: (IdentityHash, Nanos)| invitation_line(entry, now)
}

/// The lines of a list, or a word for none.
pub open spec fn list_text(lines: Seq<Seq<char>>) -> Seq<char> {
    if lines.len() == 0 {
        "(none)"@
    } else {
        joined(lines, ", "@)
    }
}

/// The answer to `/invite <room> list` and `/ban <room> list`.
pub open spec fn access_list(room: RoomModel, invitations: bool, now: Nanos) -> Seq<char> {
    if invitations {
        list_text(gathered(room.invited, invitation_liner(now)))
    } else {
        list_text(Seq::new(room.banned.len(), |i: int| hexadecimal(room.banned[i]@)))
    }
}

/// A room after an access command on one identity. An invitation is only kept where the room
/// asks for one.
pub open spec fn access_set(
    room: RoomModel,
    access: Access,
    target: IdentityHash,
    now: Nanos,
    timeout: Nanos,
) -> RoomModel {
    let changed = match access {
        Access::Invite => if room.key is Some || room.invite_only {
            RoomModel { invited: put(room.invited, target, later(now, timeout)), ..room }
        } else {
            room
        },
        Access::Uninvite => RoomModel { invited: dropped(room.invited, target), ..room },
        Access::Ban => RoomModel { banned: with(room.banned, target), ..room },
        Access::Unban => RoomModel { banned: without(room.banned, target), ..room },
    };
    RoomModel { last_used_ts: now, ..changed }
}

/// What is said of an access command.
pub open spec fn access_status(
    room: RoomModel,
    access: Access,
    name: Seq<char>,
    token: Seq<char>,
    timeout: Nanos,
) -> Seq<char> {
    match access {
        Access::Invite => if room.key is Some || room.invite_only {
            "invite added in "@ + name + " (expires in "@ + decimal(
                (timeout / SECOND) as nat,
            ) + "s)"@
        } else {
            "invite sent to "@ + token + " for "@ + name
        },
        Access::Uninvite => "invite removed in "@ + name,
        Access::Ban => "ban added in "@ + name,
        Access::Unban => "ban removed in "@ + name,
    }
}

/// What an invited client is told.
pub open spec fn invite_text(room: RoomModel, name: Seq<char>) -> Seq<char> {
    if room.key is Some {
        "You have been invited to join "@ + name
            + ". This invite allows joining without the key (+k)."@
    } else {
        "You have been invited to join "@ + name + "."@
    }
}

/// What the hub does with an access command on one identity. A ban puts out of the room the link
/// that the index of identities names.
pub open spec fn changing_access(
    hub: Hub,
    now: Nanos,
    link: LinkId,
    context: Option<Seq<char>>,
    access: Access,
    name: Seq<char>,
    token: Seq<char>,
    target: IdentityHash,
) -> Turn {
    let timeout = hub.config.room_invite_timeout;
    let room = access_set(lookup(hub.state.rooms, name)->0, access, target, now, timeout);
    let set = with_room(hub, name, room);
    let standing = lookup(hub.state.links_by_identity, target);
    let out = if access == Access::Ban {
        standing
    } else {
        None
    };
    let changed = match out {
        Some(target_link) => Hub { state: evicted(set.state, target_link, name), ..set },
        None => set,
    };
    asking(
        changed,
        Seq::empty(),
        Work::SaveRooms,
        ResumeModel::Access {
            link,
            context,
            room: name,
            status: access_status(room, access, name, token, timeout),
            invite: match standing {
                Some(target_link) => if access == Access::Invite {
                    Some((target_link, invite_text(room, name)))
                } else {
                    None
                },
                None => None,
            },
            evicted: out,
        },
    )
}

/// The access that a command and an operation stand for.
pub open spec fn access_of(invitations: bool, adding: bool) -> Access {
    if invitations && adding {
        Access::Invite
    } else if invitations {
        Access::Uninvite
    } else if adding {
        Access::Ban
    } else {
        Access::Unban
    }
}

/// What the hub does with an access command of an operator on the token of an identity.
pub open spec fn targeting_access(
    hub: Hub,
    now: Nanos,
    link: LinkId,
    context: Option<Seq<char>>,
    access: Access,
    name: Seq<char>,
    token: Seq<char>,
) -> Turn {
    let place = if access == Access::Invite || access == Access::Uninvite {
        None
    } else {
        Some(name)
    };
    let found = resolved(hub, token, place);
    let target = match sole(found) {
        Some(target) => Some(target),
        None => spelled(token),
    };
    match target {
        None => noticing(hub, link, context, target_report(token, found)),
        Some(target) => changing_access(hub, now, link, context, access, name, token, target),
    }
}

/// What the hub does with `/invite`, `/ban` and `/unban`.
pub open spec fn accessing(
    hub: Hub,
    now: Nanos,
    link: LinkId,
    peer: IdentityHash,
    context: Option<Seq<char>>,
    parts: Seq<Seq<char>>,
) -> Turn {
    let usage = "usage: /invite|ban <room> add|del|list [nick|hash]"@;
    if parts.len() < 3 {
        noticing(hub, link, context, usage)
    } else {
        match room_name(parts[1], hub.config.max_room_name_bytes as nat) {
            Err(error) => failing(hub, link, context, room_error_text(error)),
            Ok(name) => {
                let command = ascii_lower(parts[0]);
                let invitations = command == "/invite"@;
                let operation = if command == "/unban"@ {
                    "del"@
                } else {
                    ascii_lower(parts[2])
                };
                let token = if command == "/unban"@ {
                    2int
                } else {
                    3int
                };
                if invitations && !operates_in(hub.state, name, peer) {
                    failing(hub, link, Some(name), "not authorized"@)
                } else if operation != "list"@ && operation != "add"@ && operation != "del"@ {
                    noticing(hub, link, context, usage)
                } else if !operates_in(hub.state, name, peer) {
                    failing(hub, link, Some(name), "not authorized"@)
                } else if operation == "list"@ {
                    noticing(
                        hub,
                        link,
                        context,
                        access_list(at(hub.state.rooms, name), invitations, now),
                    )
                } else if parts.len() <= token {
                    failing(hub, link, context, "target is required"@)
                } else {
                    targeting_access(
                        hub,
                        now,
                        link,
                        context,
                        access_of(invitations, operation == "add"@),
                        name,
                        parts[token],
                    )
                }
            },
        }
    }
}

/// The lines of a list, or a word for none.
fn format_list(lines: &Vec<String>) -> (result: String)
    ensures
        result@ == list_text(models(lines@)),
{
    if lines.len() == 0 {
        String::from_str("(none)")
    } else {
        assert(models(lines@).skip(0) =~= models(lines@));
        join(lines, 0, ", ")
    }
}

impl Room {
    /// The answer to `/invite <room> list` and `/ban <room> list`.
    fn list_access(&self, invitations: bool, now: Nanos) -> (result: String)
        ensures
            result@ == access_list(self.model(), invitations, now),
    {
        let mut lines: Vec<String> = Vec::new();
        let mut i: usize = 0;
        if invitations {
            let ghost all = self.invited.model();
            while i < self.invited.len()
                invariant
                    i <= all.len(),
                    all == self.invited.model(),
                    models(lines@) == gathered(all.take(i as int), invitation_liner(now)),
                decreases all.len() - i,
            {
                assert(all.take(i + 1).drop_last() == all.take(i as int));
                let expires: Nanos = *self.invited.value(i);
                if expires > now {
                    let mut line = to_hexadecimal(self.invited.key(i).as_slice());
                    line.append(" expires_in=");
                    line.append(to_decimal(time_gap(expires, now) / SECOND).as_str());
                    line.append("s");
                    lines.push(line);
                }
                i += 1;
            }
        } else {
            let ghost all = Seq::new(
                self.banned.model().len(),
                |i: int| hexadecimal(self.banned.model()[i]@),
            );
            assert(models(lines@) =~= all.take(0));
            while i < self.banned.len()
                invariant
                    i <= all.len(),
                    all == Seq::new(
                        self.banned.model().len(),
                        |i: int| hexadecimal(self.banned.model()[i]@),
                    ),
                    models(lines@) == all.take(i as int),
                decreases all.len() - i,
            {
                lines.push(to_hexadecimal(self.banned.get(i).as_slice()));
                i += 1;
                assert(models(lines@) =~= all.take(i as int));
            }
        }
        format_list(&lines)
    }

    fn set_access(&mut self, access: Access, target: IdentityHash, now: Nanos, timeout: Nanos)
        ensures
            final(self).model() == access_set(old(self).model(), access, target, now, timeout),
    {
        match access {
            Access::Invite => {
                if self.key.is_some() || self.invite_only {
                    self.invited.insert(target, add_time(now, timeout));
                }
            },
            Access::Uninvite => {
                self.invited.remove(&target);
            },
            Access::Ban => {
                self.banned.insert(target);
            },
            Access::Unban => {
                self.banned.remove(&target);
            },
        }
        self.last_used_ts = now;
    }

    fn format_access(
        &self,
        access: Access,
        name: &String,
        token: &str,
        timeout: Nanos,
    ) -> (result: String)
        ensures
            result@ == access_status(self.model(), access, name@, token@, timeout),
    {
        match access {
            Access::Invite => {
                if self.key.is_some() || self.invite_only {
                    let mut text = String::from_str("invite added in ");
                    text.append(name.as_str());
                    text.append(" (expires in ");
                    text.append(to_decimal(timeout / SECOND).as_str());
                    text.append("s)");
                    text
                } else {
                    let mut text = String::from_str("invite sent to ");
                    text.append(token);
                    text.append(" for ");
                    text.append(name.as_str());
                    text
                }
            },
            Access::Uninvite => {
                let mut text = String::from_str("invite removed in ");
                text.append(name.as_str());
                text
            },
            Access::Ban => {
                let mut text = String::from_str("ban added in ");
                text.append(name.as_str());
                text
            },
            Access::Unban => {
                let mut text = String::from_str("ban removed in ");
                text.append(name.as_str());
                text
            },
        }
    }

    fn format_invite(&self, name: &String) -> (result: String)
        ensures
            result@ == invite_text(self.model(), name@),
    {
        let mut text = String::from_str("You have been invited to join ");
        text.append(name.as_str());
        if self.key.is_some() {
            text.append(". This invite allows joining without the key (+k).");
        } else {
            text.append(".");
        }
        text
    }
}

impl Router {
    /// Handles `/invite`, `/ban` and `/unban`.
    pub(crate) fn access_command(
        &mut self,
        now: Nanos,
        link: LinkId,
        peer: IdentityHash,
        context: Option<&str>,
        parts: &Vec<String>,
    ) -> (result: Reply)
        ensures
            turn(final(self).model(), result) == accessing(
                old(self).model(),
                now,
                link,
                peer,
                text_view(context),
                models(parts@),
            ),
    {
        if parts.len() < 3 {
            return self.tell(
                link,
                context,
                "usage: /invite|ban <room> add|del|list [nick|hash]",
            );
        }
        let name = match self.state.normalize_room(parts[1].as_str(), &self.config) {
            Ok(name) => name,
            Err(error) => return self.refuse(link, context, error.message().as_str()),
        };
        let command = to_ascii_lower(parts[0].as_str());
        let invitations = same_text(command.as_str(), "/invite");
        let unban = same_text(command.as_str(), "/unban");
        let operation = if unban {
            String::from_str("del")
        } else {
            to_ascii_lower(parts[2].as_str())
        };
        let operator = self.state.is_room_operator(&name, &peer);
        if invitations && !operator {
            return self.refuse(link, Some(name.as_str()), "not authorized");
        }
        let listing = same_text(operation.as_str(), "list");
        let adding = same_text(operation.as_str(), "add");
        if !listing && !adding && !same_text(operation.as_str(), "del") {
            return self.tell(
                link,
                context,
                "usage: /invite|ban <room> add|del|list [nick|hash]",
            );
        }
        if !operator {
            return self.refuse(link, Some(name.as_str()), "not authorized");
        }
        if listing {
            let text = match self.state.rooms.get(&name) {
                Some(room) => room.list_access(invitations, now),
                None => String::new(),
            };
            return self.tell(link, context, text.as_str());
        }
        let token: usize = if unban {
            2
        } else {
            3
        };
        if parts.len() <= token {
            return self.refuse(link, context, "target is required");
        }
        let access = if invitations && adding {
            Access::Invite
        } else if invitations {
            Access::Uninvite
        } else if adding {
            Access::Ban
        } else {
            Access::Unban
        };
        self.target_access(now, link, context, access, name, parts[token].as_str())
    }

    fn target_access(
        &mut self,
        now: Nanos,
        link: LinkId,
        context: Option<&str>,
        access: Access,
        name: String,
        token: &str,
    ) -> (result: Reply)
        requires
            lookup(old(self).model().state.rooms, name@) is Some,
        ensures
            turn(final(self).model(), result) == targeting_access(
                old(self).model(),
                now,
                link,
                text_view(context),
                access,
                name@,
                token@,
            ),
    {
        let place = match access {
            Access::Invite => None,
            Access::Uninvite => None,
            Access::Ban => Some(&name),
            Access::Unban => Some(&name),
        };
        let found = self.resolve_identities(token, place);
        let target = match sole_target(&found) {
            Some(target) => Some(target),
            None => read_hash(token),
        };
        match target {
            Some(target) => self.change_access(now, link, context, access, name, token, target),
            None => {
                let text = format_target_matches(token, &found);
                self.tell(link, context, text.as_str())
            },
        }
    }

    fn change_access(
        &mut self,
        now: Nanos,
        link: LinkId,
        context: Option<&str>,
        access: Access,
        name: String,
        token: &str,
        target: IdentityHash,
    ) -> (result: Reply)
        requires
            lookup(old(self).model().state.rooms, name@) is Some,
        ensures
            turn(final(self).model(), result) == changing_access(
                old(self).model(),
                now,
                link,
                text_view(context),
                access,
                name@,
                token@,
                target,
            ),
    {
        let timeout: Nanos = self.config.room_invite_timeout;
        let standing = match self.state.links_by_identity.get(&target) {
            Some(target_link) => Some(*target_link),
            None => None,
        };
        let mut status = String::new();
        let mut told = String::new();
        if let Some(room) = self.state.rooms.get_mut(&name) {
            room.set_access(access, target, now, timeout);
            status = room.format_access(access, &name, token, timeout);
            told = room.format_invite(&name);
        }
        let invite = match (access, standing) {
            (Access::Invite, Some(target_link)) => Some((target_link, told)),
            _ => None,
        };
        let evicted = match access {
            Access::Ban => standing,
            _ => None,
        };
        if let Some(target_link) = evicted {
            self.state.evict(&target_link, &name);
        }
        ask(
            Vec::new(),
            Work::SaveRooms,
            Resume::Access { link, context: owned(context), room: name, status, invite, evicted },
        )
    }
}

} // verus!
