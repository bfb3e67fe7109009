//! What founders and operators do to their rooms: registration, topics, modes and kicks.

use crate::clock::Nanos;
use crate::collections::{
    group_collections, group_sequences, lookup, models, put, with, without, Key, Model,
};
use crate::outgoing::text_view;
use crate::state::{
    operates, room_error_text, room_name, HubState, IdentityHash, LinkId, Room, RoomModel,
    SessionModel, StateModel,
};
use crate::text::{ascii_lower, hexadecimal, join, joined, same_text, to_ascii_lower};
use super::rooms::{mode_string, modes, short_hash};
use super::targets::{format_target_matches, resolved, sole, sole_target, target_report};
use super::{
    after, ask, asking, failing, noticing, only, turn, Hub, Reply, Resume, ResumeModel, Router,
    Turn, Work,
};
use vstd::prelude::*;

verus! {

broadcast use {group_collections, group_sequences};

/// The hub with another room under `name`.
pub open spec fn with_room(hub: Hub, name: Seq<char>, room: RoomModel) -> Hub {
    Hub { state: StateModel { rooms: put(hub.state.rooms, name, room), ..hub.state }, ..hub }
}

/// Whether the session on `link` is in the room `name`.
pub open spec fn is_in(state: StateModel, link: LinkId, name: Seq<char>) -> bool {
    match lookup(state.sessions, link) {
        Some(session) => session.rooms.contains(name),
        None => false,
    }
}

/// Whether `peer` operates the room `name`.
pub open spec fn operates_in(state: StateModel, name: Seq<char>, peer: IdentityHash) -> bool {
    match lookup(state.rooms, name) {
        Some(room) => operates(room, peer),
        None => false,
    }
}

/// A room after its founder has registered it or taken it off the registry. Registration also
/// sets the modes `n` and `t` and makes the founder an operator.
pub open spec fn registered_as(
    room: RoomModel,
    peer: IdentityHash,
    register: bool,
    now: Nanos,
) -> RoomModel {
    if register {
        RoomModel {
            registered: true,
            no_outside_messages: true,
            topic_ops_only: true,
            operators: with(room.operators, peer),
            last_used_ts: now,
            ..room
        }
    } else {
        RoomModel { registered: false, last_used_ts: now, ..room }
    }
}

/// What the hub does with `/register` and `/unregister`.
pub open spec fn registering(
    hub: Hub,
    now: Nanos,
    link: LinkId,
    peer: IdentityHash,
    context: Option<Seq<char>>,
    parts: Seq<Seq<char>>,
    register: bool,
) -> Turn {
    if parts.len() <= 1 {
        noticing(hub, link, context, "usage: /register|unregister <room>"@)
    } else {
        match room_name(parts[1], hub.config.max_room_name_bytes as nat) {
            Err(error) => failing(hub, link, context, room_error_text(error)),
            Ok(name) => if !is_in(hub.state, link, name) {
                failing(hub, link, context, "must be present in the room"@)
            } else {
                match lookup(hub.state.rooms, name) {
                    None => failing(hub, link, context, "no such room"@),
                    Some(room) => if room.founder != Some(peer) {
                        failing(hub, link, Some(name), "only the room founder can do that"@)
                    } else {
                        asking(
                            with_room(hub, name, registered_as(room, peer, register, now)),
                            Seq::empty(),
                            Work::SaveRooms,
                            ResumeModel::RoomState {
                                link,
                                room: name,
                                to: room.members,
                                text: if register {
                                    "room registered"@
                                } else {
                                    "room unregistered"@
                                },
                            },
                        )
                    },
                }
            },
        }
    }
}

/// The topic of a room, as it is shown.
pub open spec fn topic_text(room: RoomModel) -> Seq<char> {
    match room.topic {
        Some(topic) => topic,
        None => "(none)"@,
    }
}

/// What the hub does with `/topic`.
pub open spec fn setting_topic(
    hub: Hub,
    now: Nanos,
    link: LinkId,
    peer: IdentityHash,
    context: Option<Seq<char>>,
    parts: Seq<Seq<char>>,
) -> Turn {
    if parts.len() <= 1 {
        noticing(hub, link, context, "usage: /topic <room> [topic]"@)
    } else {
        match room_name(parts[1], hub.config.max_room_name_bytes as nat) {
            Err(error) => failing(hub, link, context, room_error_text(error)),
            Ok(name) => match lookup(hub.state.rooms, name) {
                None => failing(hub, link, context, "no such room"@),
                Some(room) => if parts.len() == 2 {
                    noticing(
                        hub,
                        link,
                        context,
                        "topic for "@ + name + ": "@ + topic_text(room),
                    )
                } else if room.topic_ops_only && !operates(room, peer) {
                    failing(hub, link, Some(name), "not authorized (+t)"@)
                } else {
                    let topic = joined(parts.skip(2), " "@);
                    asking(
                        with_room(
                            hub,
                            name,
                            RoomModel {
                                topic: if topic.len() == 0 {
                                    None
                                } else {
                                    Some(topic)
                                },
                                last_used_ts: now,
                                ..room
                            },
                        ),
                        Seq::empty(),
                        Work::SaveRooms,
                        ResumeModel::RoomState {
                            link,
                            room: name,
                            to: room.members,
                            text: "topic for "@ + name + " is now: "@ + topic,
                        },
                    )
                },
            },
        }
    }
}

/// A room after a mode flag has been set or taken away; none where there is no such flag or its
/// key is missing.
pub open spec fn mode_set(room: RoomModel, flag: Seq<char>, parts: Seq<Seq<char>>) -> Option<
    RoomModel,
> {
    if flag == "+m"@ {
        Some(RoomModel { moderated: true, ..room })
    } else if flag == "-m"@ {
        Some(RoomModel { moderated: false, ..room })
    } else if flag == "+i"@ {
        Some(RoomModel { invite_only: true, ..room })
    } else if flag == "-i"@ {
        Some(RoomModel { invite_only: false, ..room })
    } else if flag == "+t"@ {
        Some(RoomModel { topic_ops_only: true, ..room })
    } else if flag == "-t"@ {
        Some(RoomModel { topic_ops_only: false, ..room })
    } else if flag == "+n"@ {
        Some(RoomModel { no_outside_messages: true, ..room })
    } else if flag == "-n"@ {
        Some(RoomModel { no_outside_messages: false, ..room })
    } else if flag == "+p"@ {
        Some(RoomModel { private: true, ..room })
    } else if flag == "-p"@ {
        Some(RoomModel { private: false, ..room })
    } else if flag == "+k"@ && parts.len() >= 4 {
        Some(RoomModel { key: Some(joined(parts.skip(3), " "@)), ..room })
    } else if flag == "-k"@ {
        Some(RoomModel { key: None, ..room })
    } else {
        None
    }
}

/// The command that a mode flag of a member stands for.
pub open spec fn member_command(flag: Seq<char>) -> Option<Seq<char>> {
    if flag == "+o"@ {
        Some("/op"@)
    } else if flag == "-o"@ {
        Some("/deop"@)
    } else if flag == "+v"@ {
        Some("/voice"@)
    } else if flag == "-v"@ {
        Some("/devoice"@)
    } else {
        None
    }
}

/// What the hub does with `/mode`.
pub open spec fn setting_mode(
    hub: Hub,
    now: Nanos,
    link: LinkId,
    peer: IdentityHash,
    context: Option<Seq<char>>,
    parts: Seq<Seq<char>>,
) -> Turn {
    if parts.len() < 3 {
        noticing(hub, link, context, "usage: /mode <room> <mode> [key]"@)
    } else {
        match room_name(parts[1], hub.config.max_room_name_bytes as nat) {
            Err(error) => failing(hub, link, context, room_error_text(error)),
            Ok(name) => match lookup(hub.state.rooms, name) {
                None => failing(hub, link, context, "no such room"@),
                Some(room) => if !operates(room, peer) {
                    failing(hub, link, Some(name), "not authorized"@)
                } else {
                    mode_setting(hub, now, link, peer, context, parts, name, room)
                },
            },
        }
    }
}

/// What the hub does with `/mode` of an operator.
pub open spec fn mode_setting(
    hub: Hub,
    now: Nanos,
    link: LinkId,
    peer: IdentityHash,
    context: Option<Seq<char>>,
    parts: Seq<Seq<char>>,
    name: Seq<char>,
    room: RoomModel,
) -> Turn {
    let flag = ascii_lower(parts[2]);
    match member_command(flag) {
        Some(command) => setting_member(
            hub,
            now,
            link,
            peer,
            context,
            seq![
                command,
                parts[1],
                if parts.len() > 3 {
                    parts[3]
                } else {
                    ""@
                },
            ],
        ),
        None => match mode_set(room, flag, parts) {
            Some(set) => {
                let changed = RoomModel { last_used_ts: now, ..set };
                asking(
                    with_room(hub, name, changed),
                    Seq::empty(),
                    Work::SaveRooms,
                    ResumeModel::RoomState {
                        link,
                        room: name,
                        to: room.members,
                        text: "mode for "@ + name + " is now: "@ + modes(changed),
                    },
                )
            },
            None => if flag == "+r"@ || flag == "-r"@ {
                noticing(hub, link, context, "use /register or /unregister to change +r"@)
            } else {
                failing(hub, link, context, "unknown or incomplete room mode"@)
            },
        },
    }
}

/// A room after a member has become an operator or has been given a voice, or the reverse.
pub open spec fn member_set(room: RoomModel, command: Seq<char>, target: IdentityHash) -> RoomModel {
    if command == "/op"@ {
        RoomModel { operators: with(room.operators, target), ..room }
    } else if command == "/deop"@ {
        RoomModel { operators: without(room.operators, target), ..room }
    } else if command == "/voice"@ {
        RoomModel { voiced: with(room.voiced, target), ..room }
    } else {
        RoomModel { voiced: without(room.voiced, target), ..room }
    }
}

/// The mode flag that a command stands for.
pub open spec fn member_flag(command: Seq<char>) -> Seq<char> {
    if command == "/op"@ {
        "+o"@
    } else if command == "/deop"@ {
        "-o"@
    } else if command == "/voice"@ {
        "+v"@
    } else {
        "-v"@
    }
}

/// What the hub does with `/op`, `/deop`, `/voice` and `/devoice`.
pub open spec fn setting_member(
    hub: Hub,
    now: Nanos,
    link: LinkId,
    peer: IdentityHash,
    context: Option<Seq<char>>,
    parts: Seq<Seq<char>>,
) -> Turn {
    if parts.len() < 3 {
        noticing(hub, link, context, "usage: /op|deop|voice|devoice <room> <nick|hash>"@)
    } else {
        match room_name(parts[1], hub.config.max_room_name_bytes as nat) {
            Err(error) => failing(hub, link, context, room_error_text(error)),
            Ok(name) => if !operates_in(hub.state, name, peer) {
                failing(hub, link, Some(name), "not authorized"@)
            } else {
                let found = resolved(hub, parts[2], Some(name));
                match sole(found) {
                    None => noticing(hub, link, context, target_report(parts[2], found)),
                    Some(target) => member_setting(
                        hub,
                        now,
                        link,
                        context,
                        ascii_lower(parts[0]),
                        name,
                        target,
                    ),
                }
            },
        }
    }
}

/// What the hub does with a member command on one identity. The founder stays an operator.
pub open spec fn member_setting(
    hub: Hub,
    now: Nanos,
    link: LinkId,
    context: Option<Seq<char>>,
    command: Seq<char>,
    name: Seq<char>,
    target: IdentityHash,
) -> Turn {
    let room = lookup(hub.state.rooms, name)->0;
    if command == "/deop"@ && room.founder == Some(target) {
        failing(hub, link, context, "cannot deop founder"@)
    } else {
        asking(
            with_room(
                hub,
                name,
                RoomModel { last_used_ts: now, ..member_set(room, command, target) },
            ),
            Seq::empty(),
            Work::SaveRooms,
            ResumeModel::Members {
                link,
                room: name,
                to: room.members,
                text: "mode for "@ + name + " is now: "@ + member_flag(command) + " "@
                    + hexadecimal(target@).take(12),
            },
        )
    }
}

/// The state after `link` has been put out of the room `name`.
pub open spec fn evicted(state: StateModel, link: LinkId, name: Seq<char>) -> StateModel {
    StateModel {
        rooms: match lookup(state.rooms, name) {
            Some(room) => put(
                state.rooms,
                name,
                RoomModel { members: without(room.members, link), ..room },
            ),
            None => state.rooms,
        },
        sessions: match lookup(state.sessions, link) {
            Some(session) => put(
                state.sessions,
                link,
                SessionModel { rooms: without(session.rooms, name), ..session },
            ),
            None => state.sessions,
        },
        ..state
    }
}

/// What the hub does with `/kick`.
pub open spec fn kicking(
    hub: Hub,
    link: LinkId,
    peer: IdentityHash,
    context: Option<Seq<char>>,
    parts: Seq<Seq<char>>,
) -> Turn {
    if parts.len() < 3 {
        noticing(hub, link, context, "usage: /kick <room> <nick|hash>"@)
    } else {
        match room_name(parts[1], hub.config.max_room_name_bytes as nat) {
            Err(error) => failing(hub, link, context, room_error_text(error)),
            Ok(name) => if !operates_in(hub.state, name, peer) {
                failing(hub, link, Some(name), "not authorized"@)
            } else {
                let found = resolved(hub, parts[2], Some(name));
                match sole(found) {
                    None => noticing(hub, link, context, target_report(parts[2], found)),
                    Some(target) => match lookup(hub.state.links_by_identity, target) {
                        None => failing(hub, link, context, "target is not connected"@),
                        Some(target_link) => {
                            let out = Hub { state: evicted(hub.state, target_link, name), ..hub };
                            let told = failing(
                                out,
                                target_link,
                                Some(name),
                                "kicked from "@ + name,
                            );
                            after(
                                told.outs,
                                noticing(
                                    told.hub,
                                    link,
                                    context,
                                    "kicked "@ + parts[2] + " from "@ + name,
                                ),
                            )
                        },
                    },
                }
            },
        }
    }
}

impl HubState {
    /// Puts `link` out of a room.
    pub(crate) fn evict(&mut self, link: &LinkId, room_name: &String)
        ensures
            final(self).model() == evicted(old(self).model(), *link, room_name@),
    {
        if let Some(room) = self.rooms.get_mut(room_name) {
            room.members.remove(link);
        }
        if let Some(session) = self.sessions.get_mut(link) {
            session.rooms.remove(room_name);
        }
    }

    /// Whether the session on `link` is in a room.
    pub(crate) fn is_member(&self, link: &LinkId, room_name: &String) -> (result: bool)
        ensures
            result == is_in(self.model(), *link, room_name@),
    {
        match self.sessions.get(link) {
            Some(session) => session.rooms.contains(room_name),
            None => false,
        }
    }

    /// Whether `peer` operates a room.
    pub(crate) fn is_room_operator(&self, room_name: &String, peer: &IdentityHash) -> (result: bool)
        ensures
            result == operates_in(self.model(), room_name@, *peer),
    {
        match self.rooms.get(room_name) {
            Some(room) => room.is_operator(peer),
            None => false,
        }
    }
}

impl Room {
    fn register_as(&mut self, peer: IdentityHash, register: bool, now: Nanos)
        ensures
            final(self).model() == registered_as(old(self).model(), peer, register, now),
    {
        self.registered = register;
        self.last_used_ts = now;
        if register {
            self.no_outside_messages = true;
            self.topic_ops_only = true;
            self.operators.insert(peer);
        }
    }

    /// Sets or takes away a mode flag; says whether there is such a flag.
    fn set_mode(&mut self, flag: &str, parts: &Vec<String>) -> (result: bool)
        ensures
            match mode_set(old(self).model(), flag@, models(parts@)) {
                Some(room) => result && final(self).model() == room,
                None => !result && final(self).model() == old(self).model(),
            },
    {
        if same_text(flag, "+m") {
            self.moderated = true;
        } else if same_text(flag, "-m") {
            self.moderated = false;
        } else if same_text(flag, "+i") {
            self.invite_only = true;
        } else if same_text(flag, "-i") {
            self.invite_only = false;
        } else if same_text(flag, "+t") {
            self.topic_ops_only = true;
        } else if same_text(flag, "-t") {
            self.topic_ops_only = false;
        } else if same_text(flag, "+n") {
            self.no_outside_messages = true;
        } else if same_text(flag, "-n") {
            self.no_outside_messages = false;
        } else if same_text(flag, "+p") {
            self.private = true;
        } else if same_text(flag, "-p") {
            self.private = false;
        } else if same_text(flag, "+k") && parts.len() >= 4 {
            self.key = Some(join(parts, 3, " "));
        } else if same_text(flag, "-k") {
            self.key = None;
        } else {
            return false;
        }
        true
    }

    fn set_member(&mut self, command: &str, target: IdentityHash)
        ensures
            final(self).model() == member_set(old(self).model(), command@, target),
    {
        if same_text(command, "/op") {
            self.operators.insert(target);
        } else if same_text(command, "/deop") {
            self.operators.remove(&target);
        } else if same_text(command, "/voice") {
            self.voiced.insert(target);
        } else {
            self.voiced.remove(&target);
        }
    }
}

impl Router {
    /// Handles `/register` and `/unregister`.
    pub(crate) fn register_command(
        &mut self,
        now: Nanos,
        link: LinkId,
        peer: IdentityHash,
        context: Option<&str>,
        parts: &Vec<String>,
        register: bool,
    ) -> (result: Reply)
        ensures
            turn(final(self).model(), result) == registering(
                old(self).model(),
                now,
                link,
                peer,
                text_view(context),
                models(parts@),
                register,
            ),
    {
        if parts.len() <= 1 {
            return self.tell(link, context, "usage: /register|unregister <room>");
        }
        let name = match self.state.normalize_room(parts[1].as_str(), &self.config) {
            Ok(name) => name,
            Err(error) => return self.refuse(link, context, error.message().as_str()),
        };
        if !self.state.is_member(&link, &name) {
            return self.refuse(link, context, "must be present in the room");
        }
        let founded = match self.state.rooms.get(&name) {
            Some(room) => crate::state::is_identity(&room.founder, &peer),
            None => return self.refuse(link, context, "no such room"),
        };
        if !founded {
            return self.refuse(
                link,
                Some(name.as_str()),
                "only the room founder can do that",
            );
        }
        let to = self.room_members(&name);
        if let Some(room) = self.state.rooms.get_mut(&name) {
            room.register_as(peer, register, now);
        }
        let text = if register {
            String::from_str("room registered")
        } else {
            String::from_str("room unregistered")
        };
        ask(Vec::new(), Work::SaveRooms, Resume::RoomState { link, room: name, to, text })
    }

    /// Handles `/topic`.
    pub(crate) fn topic_command(
        &mut self,
        now: Nanos,
        link: LinkId,
        peer: IdentityHash,
        context: Option<&str>,
        parts: &Vec<String>,
    ) -> (result: Reply)
        ensures
            turn(final(self).model(), result) == setting_topic(
                old(self).model(),
                now,
                link,
                peer,
                text_view(context),
                models(parts@),
            ),
    {
        if parts.len() <= 1 {
            return self.tell(link, context, "usage: /topic <room> [topic]");
        }
        let name = match self.state.normalize_room(parts[1].as_str(), &self.config) {
            Ok(name) => name,
            Err(error) => return self.refuse(link, context, error.message().as_str()),
        };
        let (topic, allowed) = match self.state.rooms.get(&name) {
            Some(room) => (
                room.topic.duplicate(),
                !room.topic_ops_only || room.is_operator(&peer),
            ),
            None => return self.refuse(link, context, "no such room"),
        };
        if parts.len() == 2 {
            let mut text = String::from_str("topic for ");
            text.append(name.as_str());
            text.append(": ");
            match &topic {
                Some(topic) => text.append(topic.as_str()),
                None => text.append("(none)"),
            }
            return self.tell(link, context, text.as_str());
        }
        if !allowed {
            return self.refuse(link, Some(name.as_str()), "not authorized (+t)");
        }
        let to = self.room_members(&name);
        let topic = join(parts, 2, " ");
        let mut text = String::from_str("topic for ");
        text.append(name.as_str());
        text.append(" is now: ");
        text.append(topic.as_str());
        if let Some(room) = self.state.rooms.get_mut(&name) {
            room.topic = if topic.as_str().is_empty() {
                None
            } else {
                Some(topic)
            };
            room.last_used_ts = now;
        }
        ask(Vec::new(), Work::SaveRooms, Resume::RoomState { link, room: name, to, text })
    }

    /// Handles `/mode`.
    pub(crate) fn mode_command(
        &mut self,
        now: Nanos,
        link: LinkId,
        peer: IdentityHash,
        context: Option<&str>,
        parts: &Vec<String>,
    ) -> (result: Reply)
        ensures
            turn(final(self).model(), result) == setting_mode(
                old(self).model(),
                now,
                link,
                peer,
                text_view(context),
                models(parts@),
            ),
    {
        if parts.len() < 3 {
            return self.tell(link, context, "usage: /mode <room> <mode> [key]");
        }
        let name = match self.state.normalize_room(parts[1].as_str(), &self.config) {
            Ok(name) => name,
            Err(error) => return self.refuse(link, context, error.message().as_str()),
        };
        let operator = match self.state.rooms.get(&name) {
            Some(room) => room.is_operator(&peer),
            None => return self.refuse(link, context, "no such room"),
        };
        if !operator {
            return self.refuse(link, Some(name.as_str()), "not authorized");
        }
        self.change_mode(now, link, peer, context, parts, name)
    }

    fn change_mode(
        &mut self,
        now: Nanos,
        link: LinkId,
        peer: IdentityHash,
        context: Option<&str>,
        parts: &Vec<String>,
        name: String,
    ) -> (result: Reply)
        requires
            parts@.len() >= 3,
            lookup(old(self).model().state.rooms, name@) is Some,
        ensures
            turn(final(self).model(), result) == mode_setting(
                old(self).model(),
                now,
                link,
                peer,
                text_view(context),
                models(parts@),
                name@,
                lookup(old(self).model().state.rooms, name@)->0,
            ),
    {
        let flag = to_ascii_lower(parts[2].as_str());
        let command = if same_text(flag.as_str(), "+o") {
            Some("/op")
        } else if same_text(flag.as_str(), "-o") {
            Some("/deop")
        } else if same_text(flag.as_str(), "+v") {
            Some("/voice")
        } else if same_text(flag.as_str(), "-v") {
            Some("/devoice")
        } else {
            None
        };
        if let Some(command) = command {
            let mut translated: Vec<String> = Vec::new();
            translated.push(String::from_str(command));
            translated.push(parts[1].clone());
            if parts.len() > 3 {
                translated.push(parts[3].clone());
            } else {
                translated.push(String::from_str(""));
            }
            assert(models(translated@) =~= seq![
                command@,
                parts@[1]@,
                if parts@.len() > 3 {
                    parts@[3]@
                } else {
                    ""@
                },
            ]);
            return self.member_mode_command(now, link, peer, context, &translated);
        }
        let to = self.room_members(&name);
        let mut known = false;
        let mut text = String::from_str("mode for ");
        text.append(name.as_str());
        text.append(" is now: ");
        if let Some(room) = self.state.rooms.get_mut(&name) {
            known = room.set_mode(flag.as_str(), parts);
            if known {
                room.last_used_ts = now;
                text.append(mode_string(room).as_str());
            }
        }
        if known {
            return ask(
                Vec::new(),
                Work::SaveRooms,
                Resume::RoomState { link, room: name, to, text },
            );
        }
        proof {
            crate::collections::lemma_put_same(old(self).model().state.rooms, name@);
        }
        if same_text(flag.as_str(), "+r") || same_text(flag.as_str(), "-r") {
            self.tell(link, context, "use /register or /unregister to change +r")
        } else {
            self.refuse(link, context, "unknown or incomplete room mode")
        }
    }

    /// Handles `/op`, `/deop`, `/voice` and `/devoice`.
    pub(crate) fn member_mode_command(
        &mut self,
        now: Nanos,
        link: LinkId,
        peer: IdentityHash,
        context: Option<&str>,
        parts: &Vec<String>,
    ) -> (result: Reply)
        ensures
            turn(final(self).model(), result) == setting_member(
                old(self).model(),
                now,
                link,
                peer,
                text_view(context),
                models(parts@),
            ),
    {
        if parts.len() < 3 {
            return self.tell(
                link,
                context,
                "usage: /op|deop|voice|devoice <room> <nick|hash>",
            );
        }
        let name = match self.state.normalize_room(parts[1].as_str(), &self.config) {
            Ok(name) => name,
            Err(error) => return self.refuse(link, context, error.message().as_str()),
        };
        if !self.state.is_room_operator(&name, &peer) {
            return self.refuse(link, Some(name.as_str()), "not authorized");
        }
        let found = self.resolve_identities(parts[2].as_str(), Some(&name));
        let target = match sole_target(&found) {
            Some(target) => target,
            None => {
                let text = format_target_matches(parts[2].as_str(), &found);
                return self.tell(link, context, text.as_str());
            },
        };
        let command = to_ascii_lower(parts[0].as_str());
        self.change_member(now, link, context, command.as_str(), name, target)
    }

    fn change_member(
        &mut self,
        now: Nanos,
        link: LinkId,
        context: Option<&str>,
        command: &str,
        name: String,
        target: IdentityHash,
    ) -> (result: Reply)
        requires
            lookup(old(self).model().state.rooms, name@) is Some,
        ensures
            turn(final(self).model(), result) == member_setting(
                old(self).model(),
                now,
                link,
                text_view(context),
                command@,
                name@,
                target,
            ),
    {
        let founder = match self.state.rooms.get(&name) {
            Some(room) => crate::state::is_identity(&room.founder, &target),
            None => false,
        };
        if same_text(command, "/deop") && founder {
            return self.refuse(link, context, "cannot deop founder");
        }
        let to = self.room_members(&name);
        if let Some(room) = self.state.rooms.get_mut(&name) {
            room.set_member(command, target);
            room.last_used_ts = now;
        }
        let mut text = String::from_str("mode for ");
        text.append(name.as_str());
        text.append(" is now: ");
        text.append(
            if same_text(command, "/op") {
                "+o"
            } else if same_text(command, "/deop") {
                "-o"
            } else if same_text(command, "/voice") {
                "+v"
            } else {
                "-v"
            },
        );
        text.append(" ");
        text.append(short_hash(&target, 12).as_str());
        ask(Vec::new(), Work::SaveRooms, Resume::Members { link, room: name, to, text })
    }

    /// Handles `/kick`.
    pub(crate) fn kick_command(
        &mut self,
        link: LinkId,
        peer: IdentityHash,
        context: Option<&str>,
        parts: &Vec<String>,
    ) -> (result: Reply)
        ensures
            turn(final(self).model(), result) == kicking(
                old(self).model(),
                link,
                peer,
                text_view(context),
                models(parts@),
            ),
    {
        if parts.len() < 3 {
            return self.tell(link, context, "usage: /kick <room> <nick|hash>");
        }
        let name = match self.state.normalize_room(parts[1].as_str(), &self.config) {
            Ok(name) => name,
            Err(error) => return self.refuse(link, context, error.message().as_str()),
        };
        if !self.state.is_room_operator(&name, &peer) {
            return self.refuse(link, Some(name.as_str()), "not authorized");
        }
        let found = self.resolve_identities(parts[2].as_str(), Some(&name));
        let target = match sole_target(&found) {
            Some(target) => target,
            None => {
                let text = format_target_matches(parts[2].as_str(), &found);
                return self.tell(link, context, text.as_str());
            },
        };
        let target_link = match self.state.links_by_identity.get(&target) {
            Some(target_link) => *target_link,
            None => return self.refuse(link, context, "target is not connected"),
        };
        self.state.evict(&target_link, &name);
        let mut text = String::from_str("kicked from ");
        text.append(name.as_str());
        let mut outs = self.error(target_link, Some(name.as_str()), text.as_str());
        let mut text = String::from_str("kicked ");
        text.append(parts[2].as_str());
        text.append(" from ");
        text.append(name.as_str());
        let mut more = self.notice(link, context, text.as_str());
        outs.append(&mut more);
        only(outs)
    }
}

} // verus!
