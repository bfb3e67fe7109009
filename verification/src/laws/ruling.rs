//! The commands that rule rooms: who may give them, and all that they change.

use crate::cbor::Cbor;
use crate::clock::{later, Nanos, SECOND};
use crate::collections::{
    at, dropped, group_collections, group_sequences, holds, lookup, put, with, without,
};
use crate::constants::{T_ERROR, T_NOTICE};
use crate::router::access::accessing;
use crate::router::moderation::{
    kicking, mode_set, registering, setting_member, setting_mode, setting_topic,
};
use crate::router::rooms::modes;
use crate::router::targets::{resolved, spelled, target_report};
use crate::router::{
    failing, noticing, resuming, Hub, OutcomeModel, PendingModel, ResumeModel, Turn, Work,
};
use crate::state::{
    room_error_text, room_name, IdentityHash, LinkId, RoomModel, RoomNameError, SessionModel,
};
use crate::text::{ascii_lower, decimal, hexadecimal, joined};
use super::effects::{
    differ_at, envelope, goes_to, informs, law_error, law_notice, law_stated, reads, refuses,
    same_but_counters, utters,
};
use super::passing::has_joined;
use vstd::prelude::*;

verus! {

broadcast use {group_collections, group_sequences};

/// Whether the words of a command name a room.
pub open spec fn names_room(hub: Hub, parts: Seq<Seq<char>>, name: Seq<char>) -> bool {
    parts.len() > 1 && room_name(parts[1], hub.config.max_room_name_bytes as nat) == Ok::<
        Seq<char>,
        RoomNameError,
    >(name)
}

/// Whether an identity is the founder of a room or among its operators.
pub open spec fn rules(hub: Hub, name: Seq<char>, peer: IdentityHash) -> bool {
    holds(hub.state.rooms, name) && (at(hub.state.rooms, name).founder == Some(peer) || at(
        hub.state.rooms,
        name,
    ).operators.contains(peer))
}

/// Whether a room has become another and nothing else has changed.
pub open spec fn changes_room(before: Hub, after: Hub, name: Seq<char>, room: RoomModel) -> bool {
    &&& lookup(after.state.rooms, name) == Some(room)
    &&& differ_at(before.state.rooms, after.state.rooms, name)
    &&& after.state.sessions == before.state.sessions
    &&& after.state.links_by_identity == before.state.links_by_identity
    &&& after.state.links_by_nick == before.state.links_by_nick
    &&& after.state.counters == before.state.counters
    &&& after.config == before.config
    &&& after.identity == before.identity
    &&& after.extensions == before.extensions
    &&& after.expected == before.expected
    &&& after.last_prune == before.last_prune
}

/// Whether the rooms are to be saved, after which links are told something of a room.
pub open spec fn saves_and_tells(
    done: Turn,
    link: LinkId,
    name: Seq<char>,
    to: Seq<LinkId>,
    text: Seq<char>,
) -> bool {
    &&& done.outs.len() == 0
    &&& done.pending is Some
    &&& done.pending->0.work == Work::SaveRooms
    &&& done.pending->0.watch is None
    &&& done.pending->0.resume == ResumeModel::RoomState { link, room: name, to, text }
        || done.pending->0.resume == ResumeModel::Members { link, room: name, to, text }
}

/// When the rooms have been saved, every link of the list is told the text, under the room's name;
/// when that has failed, the link that gave the command gets an error that says why, and nobody
/// else hears anything.
#[verifier::rlimit(40)]
pub proof fn law_saved_is_told(
    hub: Hub,
    link: LinkId,
    name: Seq<char>,
    to: Seq<LinkId>,
    text: Seq<char>,
    error: Seq<char>,
    i: int,
)
    requires
        0 <= i < to.len(),
    ensures
        ({
            let pending = PendingModel {
                work: Work::SaveRooms,
                resume: ResumeModel::RoomState { link, room: name, to, text },
                watch: None,
            };
            let done = resuming(hub, pending, OutcomeModel::Done);
            &&& done.hub == hub
            &&& done.pending is None
            &&& done.outs.len() == to.len()
            &&& goes_to(done.outs[i], to[i])
            &&& reads(
                envelope(done.outs[i]),
                T_NOTICE,
                hub.identity,
                Some(name),
                None,
                Some(Cbor::Text(text)),
            )
            &&& refuses(
                hub,
                resuming(hub, pending, OutcomeModel::Failed(error)),
                link,
                Some(name),
                "room persist failed: "@ + error,
            )
        }),
        ({
            let pending = PendingModel {
                work: Work::SaveRooms,
                resume: ResumeModel::Members { link, room: name, to, text },
                watch: None,
            };
            let done = resuming(hub, pending, OutcomeModel::Done);
            &&& same_but_counters(hub, done.hub)
            &&& done.pending is None
            &&& exists|first: int, until: int|
                0 <= first <= until <= done.outs.len() && #[trigger] utters(
                    done.outs.subrange(first, until),
                    to[i],
                    T_NOTICE,
                    hub.identity,
                    Some(name),
                    None,
                    text,
                )
            &&& refuses(
                hub,
                resuming(hub, pending, OutcomeModel::Failed(error)),
                link,
                Some(name),
                "room persist failed: "@ + error,
            )
        }),
{
    law_stated(hub, name, to, text);
    super::effects::law_announced(hub, name, to, text, i);
    law_error(hub, link, Some(name), "room persist failed: "@ + error);
    assert(goes_to(crate::router::rooms::stating(hub, name, to, text)[i], to[i]));
}

/// Registering a room, or taking it off the registry, is for its founder, when present. It changes
/// whether the room is registered and when it was used; registering also turns on `n` and `t` and
/// makes the founder an operator. Nothing else of the room changes, nor anything else: topic, key,
/// founder, members, bans, voices, invitations and the other modes are what they were. The rooms
/// are saved, and the members told.
pub proof fn law_registration(
    hub: Hub,
    now: Nanos,
    link: LinkId,
    peer: IdentityHash,
    context: Option<Seq<char>>,
    parts: Seq<Seq<char>>,
    register: bool,
    name: Seq<char>,
    other: IdentityHash,
)
    requires
        names_room(hub, parts, name),
    ensures
        ({
            let done = registering(hub, now, link, peer, context, parts, register);
            let former = at(hub.state.rooms, name);
            let room = at(done.hub.state.rooms, name);
            if !has_joined(hub, link, name) {
                refuses(hub, done, link, context, "must be present in the room"@)
            } else if !holds(hub.state.rooms, name) {
                refuses(hub, done, link, context, "no such room"@)
            } else if former.founder != Some(peer) {
                refuses(hub, done, link, Some(name), "only the room founder can do that"@)
            } else {
                &&& changes_room(
                    hub,
                    done.hub,
                    name,
                    RoomModel {
                        registered: register,
                        no_outside_messages: former.no_outside_messages || register,
                        topic_ops_only: former.topic_ops_only || register,
                        operators: room.operators,
                        last_used_ts: now,
                        ..former
                    },
                )
                &&& !register ==> room.operators == former.operators
                &&& room.operators.contains(other) == (former.operators.contains(other) || (
                register && other == peer))
                &&& saves_and_tells(
                    done,
                    link,
                    name,
                    former.members,
                    if register {
                        "room registered"@
                    } else {
                        "room unregistered"@
                    },
                )
            }
        }),
{
    law_error(hub, link, context, "must be present in the room"@);
    law_error(hub, link, context, "no such room"@);
    law_error(hub, link, Some(name), "only the room founder can do that"@);
}

/// Whoever asks for a topic is told it. Whoever sets one gets it set, to the words behind the
/// room's name with a space between each two, whenever the room lets anyone set it or the asker is
/// its founder or one of its operators; nothing else of the room changes but when it was used, the
/// rooms are saved, and the members told.
pub proof fn law_topic(
    hub: Hub,
    now: Nanos,
    link: LinkId,
    peer: IdentityHash,
    context: Option<Seq<char>>,
    parts: Seq<Seq<char>>,
    name: Seq<char>,
)
    requires
        names_room(hub, parts, name),
    ensures
        ({
            let done = setting_topic(hub, now, link, peer, context, parts);
            let former = at(hub.state.rooms, name);
            let topic = joined(parts.skip(2), " "@);
            if !holds(hub.state.rooms, name) {
                refuses(hub, done, link, context, "no such room"@)
            } else if parts.len() == 2 {
                informs(
                    hub,
                    done,
                    link,
                    context,
                    "topic for "@ + name + ": "@ + (if former.topic is Some {
                        former.topic->0
                    } else {
                        "(none)"@
                    }),
                )
            } else if former.topic_ops_only && former.founder != Some(peer)
                && !former.operators.contains(peer) {
                refuses(hub, done, link, Some(name), "not authorized (+t)"@)
            } else {
                &&& changes_room(
                    hub,
                    done.hub,
                    name,
                    RoomModel {
                        topic: if topic.len() > 0 {
                            Some(topic)
                        } else {
                            None
                        },
                        last_used_ts: now,
                        ..former
                    },
                )
                &&& saves_and_tells(
                    done,
                    link,
                    name,
                    former.members,
                    "topic for "@ + name + " is now: "@ + topic,
                )
            }
        }),
{
    let former = at(hub.state.rooms, name);
    law_error(hub, link, context, "no such room"@);
    law_error(hub, link, Some(name), "not authorized (+t)"@);
    law_notice(
        hub,
        link,
        context,
        "topic for "@ + name + ": "@ + crate::router::moderation::topic_text(former),
    );
}

/// Joining words puts each between two of them once, and leaves the words as they are.
pub proof fn law_joined_words(parts: Seq<Seq<char>>, separator: Seq<char>)
    ensures
        parts.len() == 0 ==> joined(parts, separator).len() == 0,
        parts.len() == 1 ==> joined(parts, separator) == parts[0],
        parts.len() > 1 ==> joined(parts, separator) == parts[0] + separator + joined(
            parts.skip(1),
            separator,
        ),
    decreases parts.len(),
{
    if parts.len() == 2 {
        assert(parts.drop_last()[0] == parts[0]);
        assert(parts.skip(1)[0] == parts[1]);
        assert(joined(parts.drop_last(), separator) == parts[0]);
        assert(joined(parts.skip(1), separator) == parts[1]);
    } else if parts.len() > 2 {
        let rest = parts.drop_last();
        law_joined_words(rest, separator);
        assert(rest.skip(1) =~= parts.skip(1).drop_last());
        assert(parts.skip(1).last() == parts.last());
        assert(joined(parts.skip(1), separator) == joined(rest.skip(1), separator) + separator
            + parts.last());
        assert(joined(parts, separator) =~= parts[0] + separator + joined(
            parts.skip(1),
            separator,
        ));
    }
}

/// `/mode` is for the founder and the operators of a room. The registration cannot be changed so,
/// and a flag that is not known, or that lacks its key, is refused.
#[verifier::rlimit(40)]
pub proof fn law_mode_is_refused(
    hub: Hub,
    now: Nanos,
    link: LinkId,
    peer: IdentityHash,
    context: Option<Seq<char>>,
    parts: Seq<Seq<char>>,
    name: Seq<char>,
)
    requires
        names_room(hub, parts, name),
        parts.len() >= 3,
    ensures
        ({
            let done = setting_mode(hub, now, link, peer, context, parts);
            let flag = ascii_lower(parts[2]);
            &&& !holds(hub.state.rooms, name) ==> refuses(
                hub,
                done,
                link,
                context,
                "no such room"@,
            )
            &&& holds(hub.state.rooms, name) && !rules(hub, name, peer) ==> refuses(
                hub,
                done,
                link,
                Some(name),
                "not authorized"@,
            )
            &&& rules(hub, name, peer) && (flag == "+r"@ || flag == "-r"@) ==> informs(
                hub,
                done,
                link,
                context,
                "use /register or /unregister to change +r"@,
            )
            &&& rules(hub, name, peer) && flag.len() != 2 ==> refuses(
                hub,
                done,
                link,
                context,
                "unknown or incomplete room mode"@,
            )
            &&& rules(hub, name, peer) && flag == "+k"@ && parts.len() == 3 ==> refuses(
                hub,
                done,
                link,
                context,
                "unknown or incomplete room mode"@,
            )
        }),
{
    law_error(hub, link, context, "no such room"@);
    law_error(hub, link, Some(name), "not authorized"@);
    law_error(hub, link, context, "unknown or incomplete room mode"@);
    law_notice(hub, link, context, "use /register or /unregister to change +r"@);
    lemma_flag_names();
}

/// The flags of `/mode` are of two characters, and no two of them are the same.
proof fn lemma_flag_names()
    ensures
        "+m"@ == seq!['+', 'm'],
        "-m"@ == seq!['-', 'm'],
        "+i"@ == seq!['+', 'i'],
        "-i"@ == seq!['-', 'i'],
        "+t"@ == seq!['+', 't'],
        "-t"@ == seq!['-', 't'],
        "+n"@ == seq!['+', 'n'],
        "-n"@ == seq!['-', 'n'],
        "+p"@ == seq!['+', 'p'],
        "-p"@ == seq!['-', 'p'],
        "+k"@ == seq!['+', 'k'],
        "-k"@ == seq!['-', 'k'],
        "+r"@ == seq!['+', 'r'],
        "-r"@ == seq!['-', 'r'],
        "+o"@ == seq!['+', 'o'],
        "-o"@ == seq!['-', 'o'],
        "+v"@ == seq!['+', 'v'],
        "-v"@ == seq!['-', 'v'],
{
    reveal_strlit("+m");
    reveal_strlit("-m");
    reveal_strlit("+i");
    reveal_strlit("-i");
    reveal_strlit("+t");
    reveal_strlit("-t");
    reveal_strlit("+n");
    reveal_strlit("-n");
    reveal_strlit("+p");
    reveal_strlit("-p");
    reveal_strlit("+k");
    reveal_strlit("-k");
    reveal_strlit("+r");
    reveal_strlit("-r");
    reveal_strlit("+o");
    reveal_strlit("-o");
    reveal_strlit("+v");
    reveal_strlit("-v");
}

/// A flag of the room is set by its founder or one of its operators, and nothing else changes but
/// when the room was used; the rooms are saved, and the members told which modes the room has.
#[verifier::rlimit(40)]
pub proof fn law_mode_is_set(
    hub: Hub,
    now: Nanos,
    link: LinkId,
    peer: IdentityHash,
    context: Option<Seq<char>>,
    parts: Seq<Seq<char>>,
    name: Seq<char>,
    sign: char,
    letter: char,
)
    requires
        names_room(hub, parts, name),
        parts.len() >= 3,
        rules(hub, name, peer),
        ascii_lower(parts[2]) == seq![sign, letter],
        sign == '+' || sign == '-',
        letter == 'm' || letter == 'i' || letter == 't' || letter == 'n' || letter == 'p'
            || letter == 'k',
        letter == 'k' && sign == '+' ==> parts.len() >= 4,
    ensures
        ({
            let done = setting_mode(hub, now, link, peer, context, parts);
            let former = at(hub.state.rooms, name);
            let room = at(done.hub.state.rooms, name);
            let on = sign == '+';
            &&& changes_room(
                hub,
                done.hub,
                name,
                RoomModel {
                    moderated: room.moderated,
                    invite_only: room.invite_only,
                    topic_ops_only: room.topic_ops_only,
                    no_outside_messages: room.no_outside_messages,
                    private: room.private,
                    key: room.key,
                    last_used_ts: now,
                    ..former
                },
            )
            &&& room.moderated == if letter == 'm' {
                on
            } else {
                former.moderated
            }
            &&& room.invite_only == if letter == 'i' {
                on
            } else {
                former.invite_only
            }
            &&& room.topic_ops_only == if letter == 't' {
                on
            } else {
                former.topic_ops_only
            }
            &&& room.no_outside_messages == if letter == 'n' {
                on
            } else {
                former.no_outside_messages
            }
            &&& room.private == if letter == 'p' {
                on
            } else {
                former.private
            }
            &&& room.key == if letter != 'k' {
                former.key
            } else if on {
                Some(joined(parts.skip(3), " "@))
            } else {
                None
            }
            &&& saves_and_tells(
                done,
                link,
                name,
                former.members,
                "mode for "@ + name + " is now: "@ + modes(room),
            )
        }),
{
    let flag = ascii_lower(parts[2]);
    let former = at(hub.state.rooms, name);
    lemma_mode(former, flag, parts, sign, letter);
    let set = mode_set(former, flag, parts)->0;
    lemma_mode_turn(hub, now, link, peer, context, parts, name, set);
}

/// What `/mode` does with a flag that sets something.
#[verifier::rlimit(40)]
proof fn lemma_mode_turn(
    hub: Hub,
    now: Nanos,
    link: LinkId,
    peer: IdentityHash,
    context: Option<Seq<char>>,
    parts: Seq<Seq<char>>,
    name: Seq<char>,
    set: RoomModel,
)
    requires
        names_room(hub, parts, name),
        parts.len() >= 3,
        rules(hub, name, peer),
        crate::router::moderation::member_command(ascii_lower(parts[2])) is None,
        mode_set(at(hub.state.rooms, name), ascii_lower(parts[2]), parts) == Some(set),
    ensures
        ({
            let done = setting_mode(hub, now, link, peer, context, parts);
            let room = RoomModel { last_used_ts: now, ..set };
            &&& changes_room(hub, done.hub, name, room)
            &&& saves_and_tells(
                done,
                link,
                name,
                at(hub.state.rooms, name).members,
                "mode for "@ + name + " is now: "@ + modes(room),
            )
        }),
{
}

#[verifier::rlimit(40)]
proof fn lemma_mode(
    former: RoomModel,
    flag: Seq<char>,
    parts: Seq<Seq<char>>,
    sign: char,
    letter: char,
)
    requires
        flag == seq![sign, letter],
        sign == '+' || sign == '-',
        letter == 'm' || letter == 'i' || letter == 't' || letter == 'n' || letter == 'p'
            || letter == 'k',
        letter == 'k' && sign == '+' ==> parts.len() >= 4,
    ensures
        crate::router::moderation::member_command(flag) is None,
        ({
            let on = sign == '+';
            mode_set(former, flag, parts) == Some(
                RoomModel {
                    moderated: if letter == 'm' {
                        on
                    } else {
                        former.moderated
                    },
                    invite_only: if letter == 'i' {
                        on
                    } else {
                        former.invite_only
                    },
                    topic_ops_only: if letter == 't' {
                        on
                    } else {
                        former.topic_ops_only
                    },
                    no_outside_messages: if letter == 'n' {
                        on
                    } else {
                        former.no_outside_messages
                    },
                    private: if letter == 'p' {
                        on
                    } else {
                        former.private
                    },
                    key: if letter != 'k' {
                        former.key
                    } else if on {
                        Some(joined(parts.skip(3), " "@))
                    } else {
                        None
                    },
                    ..former
                },
            )
        }),
{
    lemma_flag_names();
    assert(flag[0] == sign && flag[1] == letter);
    assert("+m"@[0] == '+' && "+m"@[1] == 'm');
    assert("-m"@[0] == '-' && "-m"@[1] == 'm');
    assert("+i"@[0] == '+' && "+i"@[1] == 'i');
    assert("-i"@[0] == '-' && "-i"@[1] == 'i');
    assert("+t"@[0] == '+' && "+t"@[1] == 't');
    assert("-t"@[0] == '-' && "-t"@[1] == 't');
    assert("+n"@[0] == '+' && "+n"@[1] == 'n');
    assert("-n"@[0] == '-' && "-n"@[1] == 'n');
    assert("+p"@[0] == '+' && "+p"@[1] == 'p');
    assert("-p"@[0] == '-' && "-p"@[1] == 'p');
    assert("+k"@[0] == '+' && "+k"@[1] == 'k');
    assert("-k"@[0] == '-' && "-k"@[1] == 'k');
    assert("+o"@[1] == 'o' && "-o"@[1] == 'o' && "+v"@[1] == 'v' && "-v"@[1] == 'v');
}

/// A mode flag that is not one of the known ones sets nothing.
pub proof fn law_unknown_modes(room: RoomModel, flag: Seq<char>, parts: Seq<Seq<char>>)
    requires
        mode_set(room, flag, parts) is Some,
    ensures
        flag == "+m"@ || flag == "-m"@ || flag == "+i"@ || flag == "-i"@ || flag == "+t"@ || flag
            == "-t"@ || flag == "+n"@ || flag == "-n"@ || flag == "+p"@ || flag == "-p"@ || (flag
            == "+k"@ && parts.len() >= 4) || flag == "-k"@,
{
}

/// `/mode` with a flag of a member does what the command for it does.
pub proof fn law_member_flags(
    hub: Hub,
    now: Nanos,
    link: LinkId,
    peer: IdentityHash,
    context: Option<Seq<char>>,
    parts: Seq<Seq<char>>,
    name: Seq<char>,
)
    requires
        names_room(hub, parts, name),
        parts.len() >= 3,
        rules(hub, name, peer),
    ensures
        ({
            let done = setting_mode(hub, now, link, peer, context, parts);
            let flag = ascii_lower(parts[2]);
            let target = if parts.len() > 3 {
                parts[3]
            } else {
                ""@
            };
            &&& flag == "+o"@ ==> done == setting_member(
                hub,
                now,
                link,
                peer,
                context,
                seq!["/op"@, parts[1], target],
            )
            &&& flag == "-o"@ ==> done == setting_member(
                hub,
                now,
                link,
                peer,
                context,
                seq!["/deop"@, parts[1], target],
            )
            &&& flag == "+v"@ ==> done == setting_member(
                hub,
                now,
                link,
                peer,
                context,
                seq!["/voice"@, parts[1], target],
            )
            &&& flag == "-v"@ ==> done == setting_member(
                hub,
                now,
                link,
                peer,
                context,
                seq!["/devoice"@, parts[1], target],
            )
        }),
{
    reveal_strlit("+o");
    reveal_strlit("-o");
    reveal_strlit("+v");
    reveal_strlit("-v");
    assert("+o"@[0] == '+' && "+o"@[1] == 'o');
    assert("-o"@[0] == '-' && "-o"@[1] == 'o');
    assert("+v"@[0] == '+' && "+v"@[1] == 'v');
    assert("-v"@[0] == '-' && "-v"@[1] == 'v');
}

/// `/op`, `/deop`, `/voice` and `/devoice` are for the founder and the operators of a room, on one
/// of its members that the token means alone. They add the identity to the operators or to the
/// voices, or take it from them, and change nothing else of the room but when it was used; the
/// founder stays an operator. The rooms are saved, and the members told.
#[verifier::rlimit(40)]
pub proof fn law_member_command(
    hub: Hub,
    now: Nanos,
    link: LinkId,
    peer: IdentityHash,
    context: Option<Seq<char>>,
    parts: Seq<Seq<char>>,
    name: Seq<char>,
)
    requires
        names_room(hub, parts, name),
        parts.len() >= 3,
    ensures
        ({
            let done = setting_member(hub, now, link, peer, context, parts);
            let former = at(hub.state.rooms, name);
            let command = ascii_lower(parts[0]);
            let matches = resolved(hub, parts[2], Some(name));
            let target = matches[0].identity;
            let changed = RoomModel { last_used_ts: now, ..former };
            let told = |flag: Seq<char>|
                "mode for "@ + name + " is now: "@ + flag + " "@ + hexadecimal(target@).take(12);
            if !rules(hub, name, peer) {
                refuses(hub, done, link, Some(name), "not authorized"@)
            } else if matches.len() != 1 {
                informs(hub, done, link, context, target_report(parts[2], matches))
            } else {
                &&& command == "/op"@ ==> changes_room(
                    hub,
                    done.hub,
                    name,
                    RoomModel { operators: with(former.operators, target), ..changed },
                ) && saves_and_tells(done, link, name, former.members, told("+o"@))
                &&& command == "/deop"@ && former.founder == Some(target) ==> refuses(
                    hub,
                    done,
                    link,
                    context,
                    "cannot deop founder"@,
                )
                &&& command == "/deop"@ && former.founder != Some(target) ==> changes_room(
                    hub,
                    done.hub,
                    name,
                    RoomModel { operators: without(former.operators, target), ..changed },
                ) && saves_and_tells(done, link, name, former.members, told("-o"@))
                &&& command == "/voice"@ ==> changes_room(
                    hub,
                    done.hub,
                    name,
                    RoomModel { voiced: with(former.voiced, target), ..changed },
                ) && saves_and_tells(done, link, name, former.members, told("+v"@))
                &&& command == "/devoice"@ ==> changes_room(
                    hub,
                    done.hub,
                    name,
                    RoomModel { voiced: without(former.voiced, target), ..changed },
                ) && saves_and_tells(done, link, name, former.members, told("-v"@))
            }
        }),
{
    let matches = resolved(hub, parts[2], Some(name));
    law_error(hub, link, Some(name), "not authorized"@);
    law_error(hub, link, context, "cannot deop founder"@);
    law_notice(hub, link, context, target_report(parts[2], matches));
    reveal_strlit("/op");
    reveal_strlit("/deop");
    reveal_strlit("/voice");
    reveal_strlit("/devoice");
    assert("/op"@.len() == 3);
    assert("/deop"@.len() == 5);
    assert("/voice"@.len() == 6);
    assert("/devoice"@.len() == 8);
}

/// The identity that a token means: that of the only match, or the one that it spells in full.
pub open spec fn meant(hub: Hub, token: Seq<char>, room: Option<Seq<char>>) -> Option<IdentityHash> {
    let matches = resolved(hub, token, room);
    if matches.len() == 1 {
        Some(matches[0].identity)
    } else {
        spelled(token)
    }
}

/// Whether the rooms are to be saved, after which the command is answered.
pub open spec fn saves_and_answers(
    done: Turn,
    link: LinkId,
    context: Option<Seq<char>>,
    name: Seq<char>,
    status: Seq<char>,
    invite: Option<(LinkId, Seq<char>)>,
    evicted: Option<LinkId>,
) -> bool {
    &&& done.outs.len() == 0
    &&& done.pending is Some
    &&& done.pending->0.work == Work::SaveRooms
    &&& done.pending->0.watch is None
    &&& done.pending->0.resume == (ResumeModel::Access {
        link,
        context,
        room: name,
        status,
        invite,
        evicted,
    })
}

/// `/invite <room> add` is for the founder and the operators. It lets the identity in until the
/// invitation expires, where the room is for the invited or has a key; in any other room it only
/// asks the identity over. `/invite <room> del` takes the invitation back. Nothing else of the room
/// changes but when it was used; the rooms are saved, the command is answered, and an identity that
/// is connected is told that it is invited.
#[verifier::rlimit(40)]
pub proof fn law_invite_command(
    hub: Hub,
    now: Nanos,
    link: LinkId,
    peer: IdentityHash,
    context: Option<Seq<char>>,
    parts: Seq<Seq<char>>,
    name: Seq<char>,
)
    requires
        names_room(hub, parts, name),
        parts.len() >= 4,
        ascii_lower(parts[0]) == "/invite"@,
        rules(hub, name, peer),
    ensures
        ({
            let done = accessing(hub, now, link, peer, context, parts);
            let former = at(hub.state.rooms, name);
            let operation = ascii_lower(parts[2]);
            let guarded = former.key is Some || former.invite_only;
            let expires = later(now, hub.config.room_invite_timeout);
            let changed = RoomModel { last_used_ts: now, ..former };
            let target = meant(hub, parts[3], None);
            let standing = lookup(hub.state.links_by_identity, target->0);
            let adding = operation == "add"@;
            adding || operation == "del"@ ==> if target is None {
                informs(
                    hub,
                    done,
                    link,
                    context,
                    target_report(parts[3], resolved(hub, parts[3], None)),
                )
            } else if adding {
                &&& changes_room(
                    hub,
                    done.hub,
                    name,
                    RoomModel {
                        invited: if guarded {
                            put(former.invited, target->0, expires)
                        } else {
                            former.invited
                        },
                        ..changed
                    },
                )
                &&& saves_and_answers(
                    done,
                    link,
                    context,
                    name,
                    if guarded {
                        "invite added in "@ + name + " (expires in "@ + decimal(
                            (hub.config.room_invite_timeout / SECOND) as nat,
                        ) + "s)"@
                    } else {
                        "invite sent to "@ + parts[3] + " for "@ + name
                    },
                    match standing {
                        None => None,
                        Some(to) => Some(
                            (
                                to,
                                "You have been invited to join "@ + name + (if former.key is Some {
                                    ". This invite allows joining without the key (+k)."@
                                } else {
                                    "."@
                                }),
                            ),
                        ),
                    },
                    None,
                )
            } else {
                &&& changes_room(
                    hub,
                    done.hub,
                    name,
                    RoomModel { invited: dropped(former.invited, target->0), ..changed },
                )
                &&& saves_and_answers(
                    done,
                    link,
                    context,
                    name,
                    "invite removed in "@ + name,
                    None,
                    None,
                )
            }
        }),
{
    reveal_strlit("add");
    reveal_strlit("del");
    reveal_strlit("list");
    reveal_strlit("/invite");
    reveal_strlit("/unban");
    assert("add"@[0] == 'a');
    assert("del"@[0] == 'd');
    assert("list"@[0] == 'l');
    assert("/invite"@[1] == 'i');
    assert("/unban"@[1] == 'u');
    law_notice(hub, link, context, target_report(parts[3], resolved(hub, parts[3], None)));
}

/// `/ban <room> add`, `/ban <room> del` and `/unban <room>` are for the founder and the operators.
/// They put the identity among those who are banned from the room, or take it from them; a ban also
/// puts the link that the index has for the identity out of the room. Nothing else changes but when
/// the room was used; the rooms are saved, the command is answered, and a link that is put out is
/// told so.
#[verifier::rlimit(40)]
pub proof fn law_ban_command(
    hub: Hub,
    now: Nanos,
    link: LinkId,
    peer: IdentityHash,
    context: Option<Seq<char>>,
    parts: Seq<Seq<char>>,
    name: Seq<char>,
)
    requires
        names_room(hub, parts, name),
        parts.len() >= 3,
        rules(hub, name, peer),
    ensures
        ({
            let done = accessing(hub, now, link, peer, context, parts);
            let former = at(hub.state.rooms, name);
            let state = done.hub.state;
            let command = ascii_lower(parts[0]);
            let operation = ascii_lower(parts[2]);
            let banning = command == "/ban"@ && operation == "add"@ && parts.len() >= 4;
            let lifting = (command == "/ban"@ && operation == "del"@ && parts.len() >= 4) || command
                == "/unban"@;
            let token = if command == "/unban"@ {
                parts[2]
            } else {
                parts[3]
            };
            let target = meant(hub, token, Some(name));
            let standing = lookup(hub.state.links_by_identity, target->0);
            let changed = RoomModel { last_used_ts: now, ..former };
            &&& (banning || lifting) && target is None ==> informs(
                hub,
                done,
                link,
                context,
                target_report(token, resolved(hub, token, Some(name))),
            )
            &&& lifting && target is Some ==> changes_room(
                hub,
                done.hub,
                name,
                RoomModel { banned: without(former.banned, target->0), ..changed },
            ) && saves_and_answers(
                done,
                link,
                context,
                name,
                "ban removed in "@ + name,
                None,
                None,
            )
            &&& banning && target is Some ==> {
                &&& lookup(state.rooms, name) == Some(
                    RoomModel {
                        banned: with(former.banned, target->0),
                        members: match standing {
                            Some(out) => without(former.members, out),
                            None => former.members,
                        },
                        ..changed
                    },
                )
                &&& differ_at(hub.state.rooms, state.rooms, name)
                &&& match standing {
                    None => state.sessions == hub.state.sessions,
                    Some(out) => {
                        &&& differ_at(hub.state.sessions, state.sessions, out)
                        &&& lookup(state.sessions, out) == match lookup(hub.state.sessions, out) {
                            Some(session) => Some(
                                SessionModel { rooms: without(session.rooms, name), ..session },
                            ),
                            None => None,
                        }
                    },
                }
                &&& state.links_by_identity == hub.state.links_by_identity
                &&& state.links_by_nick == hub.state.links_by_nick
                &&& done.hub.config == hub.config
                &&& done.hub.expected == hub.expected
                &&& saves_and_answers(
                    done,
                    link,
                    context,
                    name,
                    "ban added in "@ + name,
                    None,
                    standing,
                )
            }
        }),
{
    reveal_strlit("add");
    reveal_strlit("del");
    reveal_strlit("list");
    reveal_strlit("/invite");
    reveal_strlit("/unban");
    reveal_strlit("/ban");
    assert("add"@[0] == 'a');
    assert("del"@[0] == 'd');
    assert("list"@[0] == 'l');
    assert("/invite"@[1] == 'i');
    assert("/unban"@[1] == 'u');
    assert("/ban"@[1] == 'b');
    let token = if ascii_lower(parts[0]) == "/unban"@ {
        parts[2]
    } else {
        parts[3]
    };
    law_notice(hub, link, context, target_report(token, resolved(hub, token, Some(name))));
}

/// The founder and the operators of a room are told who is banned from it, or who is invited and
/// for how long, and nothing changes with it.
#[verifier::rlimit(40)]
pub proof fn law_access_lists(
    hub: Hub,
    now: Nanos,
    link: LinkId,
    peer: IdentityHash,
    context: Option<Seq<char>>,
    parts: Seq<Seq<char>>,
    name: Seq<char>,
)
    requires
        names_room(hub, parts, name),
        parts.len() >= 3,
        rules(hub, name, peer),
        ascii_lower(parts[0]) == "/ban"@ || ascii_lower(parts[0]) == "/invite"@,
        ascii_lower(parts[2]) == "list"@,
    ensures
        ({
            let done = accessing(hub, now, link, peer, context, parts);
            let room = at(hub.state.rooms, name);
            let lines = if ascii_lower(parts[0]) == "/ban"@ {
                Seq::new(room.banned.len(), |i: int| hexadecimal(room.banned[i]@))
            } else {
                crate::collections::gathered(room.invited, invitation_shown(now))
            };
            informs(
                hub,
                done,
                link,
                context,
                if lines.len() == 0 {
                    "(none)"@
                } else {
                    joined(lines, ", "@)
                },
            )
        }),
{
    reveal_strlit("list");
    reveal_strlit("/invite");
    reveal_strlit("/unban");
    reveal_strlit("/ban");
    assert("/invite"@[1] == 'i');
    assert("/unban"@[1] == 'u');
    assert("/ban"@[1] == 'b');
    let room = at(hub.state.rooms, name);
    let invitations = ascii_lower(parts[0]) == "/invite"@;
    lemma_invitations(room.invited, now);
    law_notice(
        hub,
        link,
        context,
        crate::router::access::access_list(room, invitations, now),
    );
}

/// How an invitation that has not expired is shown, as a function.
pub open spec fn invitation_shown(now: Nanos) -> spec_fn((IdentityHash, Nanos)) -> Option<Seq<char>> {
    |entry: (IdentityHash, Nanos)|
        if entry.1 > now {
            Some(
                hexadecimal(entry.0@) + " expires_in="@ + decimal(
                    ((entry.1 - now) / SECOND as int) as nat,
                ) + "s"@,
            )
        } else {
            None
        }
}

proof fn lemma_invitations(invited: Seq<(IdentityHash, Nanos)>, now: Nanos)
    ensures
        crate::collections::gathered(invited, invitation_shown(now))
            == crate::collections::gathered(
            invited,
            crate::router::access::invitation_liner(now),
        ),
    decreases invited.len(),
{
    if invited.len() > 0 {
        lemma_invitations(invited.drop_last(), now);
        let entry = invited.last();
        assert(invitation_shown(now)(entry) == crate::router::access::invitation_liner(now)(entry));
    } else {
        assert(crate::collections::gathered(invited, invitation_shown(now))
            =~= crate::collections::gathered(
            invited,
            crate::router::access::invitation_liner(now),
        ));
    }
}

/// An access command of anybody else than the founder and the operators of a room is refused.
pub proof fn law_access_is_refused(
    hub: Hub,
    now: Nanos,
    link: LinkId,
    peer: IdentityHash,
    context: Option<Seq<char>>,
    parts: Seq<Seq<char>>,
    name: Seq<char>,
)
    requires
        names_room(hub, parts, name),
        parts.len() >= 3,
        !rules(hub, name, peer),
        ascii_lower(parts[0]) == "/invite"@ || ascii_lower(parts[0]) == "/unban"@ || ascii_lower(
            parts[2],
        ) == "add"@ || ascii_lower(parts[2]) == "del"@ || ascii_lower(parts[2]) == "list"@,
    ensures
        refuses(
            hub,
            accessing(hub, now, link, peer, context, parts),
            link,
            Some(name),
            "not authorized"@,
        ),
{
    law_error(hub, link, Some(name), "not authorized"@);
}

/// Where nothing is to be said of work, nothing is; where only a failure is to be told, a failure
/// is told to the link that it is for.
pub proof fn law_quiet_work(
    hub: Hub,
    work: Work,
    link: LinkId,
    name: Seq<char>,
    error: Seq<char>,
)
    ensures
        ({
            let quiet = PendingModel { work, resume: ResumeModel::Quiet, watch: None };
            let complaining = PendingModel {
                work,
                resume: ResumeModel::Complain { link, room: name },
                watch: None,
            };
            let done = resuming(hub, quiet, OutcomeModel::Done);
            let failed = resuming(hub, quiet, OutcomeModel::Failed(error));
            let well = resuming(hub, complaining, OutcomeModel::Done);
            &&& done.hub == hub && done.outs.len() == 0 && done.pending is None
            &&& failed.hub == hub && failed.outs.len() == 0 && failed.pending is None
            &&& well.hub == hub && well.outs.len() == 0 && well.pending is None
            &&& refuses(
                hub,
                resuming(hub, complaining, OutcomeModel::Failed(error)),
                link,
                Some(name),
                "room persist failed: "@ + error,
            )
        }),
{
    law_error(hub, link, Some(name), "room persist failed: "@ + error);
}

/// An access command that lacks its target is refused, and one that is neither to add, to delete
/// nor to list is answered with how it is used.
#[verifier::rlimit(40)]
pub proof fn law_access_usage(
    hub: Hub,
    now: Nanos,
    link: LinkId,
    peer: IdentityHash,
    context: Option<Seq<char>>,
    parts: Seq<Seq<char>>,
    name: Seq<char>,
)
    requires
        names_room(hub, parts, name),
    ensures
        ({
            let done = accessing(hub, now, link, peer, context, parts);
            let usage = "usage: /invite|ban <room> add|del|list [nick|hash]"@;
            let operation = ascii_lower(parts[2]);
            let command = ascii_lower(parts[0]);
            &&& parts.len() < 3 ==> informs(hub, done, link, context, usage)
            &&& parts.len() == 3 && rules(hub, name, peer) && command != "/unban"@ && (operation
                == "add"@ || operation == "del"@) ==> refuses(
                hub,
                done,
                link,
                context,
                "target is required"@,
            )
            &&& parts.len() >= 3 && command == "/ban"@ && operation != "add"@ && operation
                != "del"@ && operation != "list"@ ==> informs(hub, done, link, context, usage)
        }),
{
    reveal_strlit("add");
    reveal_strlit("del");
    reveal_strlit("list");
    reveal_strlit("/invite");
    reveal_strlit("/unban");
    reveal_strlit("/ban");
    assert("add"@[0] == 'a');
    assert("del"@[0] == 'd');
    assert("list"@[0] == 'l');
    assert("/invite"@[1] == 'i');
    assert("/unban"@[1] == 'u');
    assert("/ban"@[1] == 'b');
    law_error(hub, link, context, "target is required"@);
    law_notice(hub, link, context, "usage: /invite|ban <room> add|del|list [nick|hash]"@);
}

/// After the rooms have been saved, whoever gave an access command is answered, whoever is invited
/// is told under the room's name, and whoever is put out gets an error; after a failure only the
/// first hears of it.
#[verifier::rlimit(50)]
#[verifier::spinoff_prover]
pub proof fn law_access_is_answered(
    hub: Hub,
    link: LinkId,
    context: Option<Seq<char>>,
    name: Seq<char>,
    status: Seq<char>,
    invite: Option<(LinkId, Seq<char>)>,
    evicted: Option<LinkId>,
    error: Seq<char>,
)
    ensures
        ({
            let pending = PendingModel {
                work: Work::SaveRooms,
                resume: ResumeModel::Access { link, context, room: name, status, invite, evicted },
                watch: None,
            };
            let done = resuming(hub, pending, OutcomeModel::Done);
            let told = noticing(hub, link, context, status);
            let first = told.outs.len() as int;
            &&& same_but_counters(hub, done.hub)
            &&& done.pending is None
            &&& done.outs.len() >= first
            &&& utters(
                done.outs.take(first),
                link,
                T_NOTICE,
                hub.identity,
                context,
                None,
                status,
            )
            &&& match invite {
                None => true,
                Some((to, text)) => exists|until: int|
                    first <= until <= done.outs.len() && #[trigger] utters(
                        done.outs.subrange(first, until),
                        to,
                        T_NOTICE,
                        hub.identity,
                        Some(name),
                        None,
                        text,
                    ),
            }
            &&& evicted is Some ==> done.outs.len() > 0 && goes_to(done.outs.last(), evicted->0)
                && reads(
                envelope(done.outs.last()),
                T_ERROR,
                hub.identity,
                Some(name),
                None,
                Some(Cbor::Text("banned from "@ + name)),
            )
            &&& invite is None && evicted is None ==> done.outs.len() == first
            &&& refuses(
                hub,
                resuming(hub, pending, OutcomeModel::Failed(error)),
                link,
                Some(name),
                "room persist failed: "@ + error,
            )
        }),
{
    law_error(hub, link, Some(name), "room persist failed: "@ + error);
    law_notice(hub, link, context, status);
    let pending = PendingModel {
        work: Work::SaveRooms,
        resume: ResumeModel::Access { link, context, room: name, status, invite, evicted },
        watch: None,
    };
    let done = resuming(hub, pending, OutcomeModel::Done);
    let told = noticing(hub, link, context, status);
    let first = told.outs.len() as int;
    match invite {
        Some((to, text)) => {
            law_notice(told.hub, to, Some(name), text);
            let asked = noticing(told.hub, to, Some(name), text);
            law_error(asked.hub, evicted->0, Some(name), "banned from "@ + name);
            let until = first + asked.outs.len();
            assert(done.outs.subrange(first, until) =~= asked.outs);
        },
        None => {
            law_error(told.hub, evicted->0, Some(name), "banned from "@ + name);
        },
    }
    assert(done.outs.take(first) =~= told.outs);
}

/// `/kick` is for the founder and the operators of a room, on one of its members that the token
/// means alone. It puts the link that the index has for the identity out of the room, and changes
/// nothing else; the link gets an error that says so, and whoever gave the command is told.
#[verifier::rlimit(40)]
pub proof fn law_kick_command(
    hub: Hub,
    link: LinkId,
    peer: IdentityHash,
    context: Option<Seq<char>>,
    parts: Seq<Seq<char>>,
    name: Seq<char>,
)
    requires
        names_room(hub, parts, name),
        parts.len() >= 3,
    ensures
        ({
            let done = kicking(hub, link, peer, context, parts);
            let state = done.hub.state;
            let former = at(hub.state.rooms, name);
            let matches = resolved(hub, parts[2], Some(name));
            let target = matches[0].identity;
            if !rules(hub, name, peer) {
                refuses(hub, done, link, Some(name), "not authorized"@)
            } else if matches.len() != 1 {
                informs(hub, done, link, context, target_report(parts[2], matches))
            } else if !holds(hub.state.links_by_identity, target) {
                refuses(hub, done, link, context, "target is not connected"@)
            } else {
                let out = at(hub.state.links_by_identity, target);
                &&& lookup(state.rooms, name) == Some(
                    RoomModel { members: without(former.members, out), ..former },
                )
                &&& differ_at(hub.state.rooms, state.rooms, name)
                &&& differ_at(hub.state.sessions, state.sessions, out)
                &&& lookup(state.sessions, out) == match lookup(hub.state.sessions, out) {
                    Some(session) => Some(
                        SessionModel { rooms: without(session.rooms, name), ..session },
                    ),
                    None => None,
                }
                &&& state.links_by_identity == hub.state.links_by_identity
                &&& state.links_by_nick == hub.state.links_by_nick
                &&& done.hub.config == hub.config
                &&& done.hub.expected == hub.expected
                &&& done.pending is None
                &&& done.outs.len() > 0
                &&& goes_to(done.outs[0], out)
                &&& reads(
                    envelope(done.outs[0]),
                    T_ERROR,
                    hub.identity,
                    Some(name),
                    None,
                    Some(Cbor::Text("kicked from "@ + name)),
                )
                &&& utters(
                    done.outs.skip(1),
                    link,
                    T_NOTICE,
                    hub.identity,
                    context,
                    None,
                    "kicked "@ + parts[2] + " from "@ + name,
                )
            }
        }),
{
    let matches = resolved(hub, parts[2], Some(name));
    let target = matches[0].identity;
    law_error(hub, link, Some(name), "not authorized"@);
    law_error(hub, link, context, "target is not connected"@);
    law_notice(hub, link, context, target_report(parts[2], matches));
    if rules(hub, name, peer) && matches.len() == 1 && holds(hub.state.links_by_identity, target) {
        let target_link = at(hub.state.links_by_identity, target);
        let out = Hub {
            state: crate::router::moderation::evicted(hub.state, target_link, name),
            ..hub
        };
        law_error(out, target_link, Some(name), "kicked from "@ + name);
        let told = failing(out, target_link, Some(name), "kicked from "@ + name);
        let text = "kicked "@ + parts[2] + " from "@ + name;
        law_notice(told.hub, link, context, text);
        let done = kicking(hub, link, peer, context, parts);
        assert(done.outs.skip(1) =~= noticing(told.hub, link, context, text).outs);
    }
}

/// A room command that names no room, or none that can be one, is answered with how it is used, or
/// with what is wrong with the name; and nothing changes.
#[verifier::rlimit(40)]
pub proof fn law_room_commands_need_a_room(
    hub: Hub,
    now: Nanos,
    link: LinkId,
    peer: IdentityHash,
    context: Option<Seq<char>>,
    parts: Seq<Seq<char>>,
    register: bool,
)
    ensures
        parts.len() <= 1 ==> {
            &&& informs(
                hub,
                registering(hub, now, link, peer, context, parts, register),
                link,
                context,
                "usage: /register|unregister <room>"@,
            )
            &&& informs(
                hub,
                setting_topic(hub, now, link, peer, context, parts),
                link,
                context,
                "usage: /topic <room> [topic]"@,
            )
        },
        parts.len() < 3 ==> {
            &&& informs(
                hub,
                setting_mode(hub, now, link, peer, context, parts),
                link,
                context,
                "usage: /mode <room> <mode> [key]"@,
            )
            &&& informs(
                hub,
                setting_member(hub, now, link, peer, context, parts),
                link,
                context,
                "usage: /op|deop|voice|devoice <room> <nick|hash>"@,
            )
            &&& informs(
                hub,
                kicking(hub, link, peer, context, parts),
                link,
                context,
                "usage: /kick <room> <nick|hash>"@,
            )
        },
        parts.len() >= 3 ==> match room_name(parts[1], hub.config.max_room_name_bytes as nat) {
            Ok(_) => true,
            Err(error) => {
                let text = room_error_text(error);
                &&& refuses(
                    hub,
                    registering(hub, now, link, peer, context, parts, register),
                    link,
                    context,
                    text,
                )
                &&& refuses(
                    hub,
                    setting_topic(hub, now, link, peer, context, parts),
                    link,
                    context,
                    text,
                )
                &&& refuses(
                    hub,
                    setting_mode(hub, now, link, peer, context, parts),
                    link,
                    context,
                    text,
                )
                &&& refuses(
                    hub,
                    setting_member(hub, now, link, peer, context, parts),
                    link,
                    context,
                    text,
                )
                &&& refuses(
                    hub,
                    accessing(hub, now, link, peer, context, parts),
                    link,
                    context,
                    text,
                )
                &&& refuses(hub, kicking(hub, link, peer, context, parts), link, context, text)
            },
        },
{
    law_notice(hub, link, context, "usage: /register|unregister <room>"@);
    law_notice(hub, link, context, "usage: /topic <room> [topic]"@);
    law_notice(hub, link, context, "usage: /mode <room> <mode> [key]"@);
    law_notice(hub, link, context, "usage: /op|deop|voice|devoice <room> <nick|hash>"@);
    law_notice(hub, link, context, "usage: /kick <room> <nick|hash>"@);
    match room_name(parts[1], hub.config.max_room_name_bytes as nat) {
        Ok(_) => {},
        Err(error) => law_error(hub, link, context, room_error_text(error)),
    }
}

} // verus!
