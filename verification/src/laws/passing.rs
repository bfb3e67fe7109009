//! What clients say to each other: whom it reaches, what of it is passed on, and what is refused.

use crate::cbor::{Cbor, CborKey};
use crate::clock::Clock;
use crate::collections::{at, group_collections, group_sequences, holds, lookup};
use crate::config::hash_from;
use crate::constants::{
    K_BODY, K_DST, K_NICK, K_ROOM, K_SRC, T_ACTION, T_MSG, T_NOTICE,
};
use crate::protocol::{bytes_field, field, nick_of, text_field, FieldMap};
use crate::router::commands::running;
use crate::router::messages::{is_command, passing};
use crate::router::rooms::{announcing, announcing_in, renaming};
use crate::router::{resuming, Hub, OutcomeModel, PendingModel, WatchModel};
use crate::state::{
    counted, nicked, room_error_text, room_name, Counters, IdentityHash, LinkId, RoomNameError,
    SessionModel,
};
use crate::text::{byte_len, hexadecimal, is_white, lowercase, trim_start, trimmed, words};
use super::effects::{
    differ_at, law_announced, law_error, refuses, same_but_counters, text_value, utters,
};
use super::sources::{from, lemma_renaming};
use super::turns::{law_announcing_only_counts, law_renaming_only_counts};
use vstd::prelude::*;

verus! {

broadcast use {group_collections, group_sequences};

/// Whether `text` is `front`, `middle` and `back`, where `front` and `back` are white space.
pub open spec fn padded(
    text: Seq<char>,
    front: Seq<char>,
    middle: Seq<char>,
    back: Seq<char>,
) -> bool {
    &&& text == front + middle + back
    &&& forall|i: int| 0 <= i < front.len() ==> is_white(#[trigger] front[i])
    &&& forall|i: int| 0 <= i < back.len() ==> is_white(#[trigger] back[i])
}

proof fn lemma_front(text: Seq<char>) -> (front: Seq<char>)
    ensures
        text == front + trim_start(text),
        forall|i: int| 0 <= i < front.len() ==> is_white(#[trigger] front[i]),
        trim_start(text).len() > 0 ==> !is_white(trim_start(text)[0]),
    decreases text.len(),
{
    if text.len() > 0 && is_white(text.first()) {
        let rest = lemma_front(text.drop_first());
        let front = seq![text.first()] + rest;
        assert(front + trim_start(text) =~= seq![text.first()] + (rest + trim_start(text)));
        assert(seq![text.first()] + text.drop_first() =~= text);
        front
    } else {
        assert(Seq::<char>::empty() + text =~= text);
        Seq::empty()
    }
}

proof fn lemma_back(text: Seq<char>) -> (back: Seq<char>)
    ensures
        text == crate::text::trim_end(text) + back,
        forall|i: int| 0 <= i < back.len() ==> is_white(#[trigger] back[i]),
        crate::text::trim_end(text).len() > 0 ==> !is_white(crate::text::trim_end(text).last()),
    decreases text.len(),
{
    if text.len() > 0 && is_white(text.last()) {
        let rest = lemma_back(text.drop_last());
        let back = rest.push(text.last());
        assert(crate::text::trim_end(text) + back =~= (crate::text::trim_end(text) + rest).push(
            text.last(),
        ));
        assert(text.drop_last().push(text.last()) =~= text);
        back
    } else {
        assert(text + Seq::<char>::empty() =~= text);
        Seq::empty()
    }
}

/// Trimming takes off the white space at both ends, all of it, and nothing else.
pub proof fn law_trimming(text: Seq<char>)
    ensures
        exists|front: Seq<char>, back: Seq<char>| #[trigger]
            padded(text, front, trimmed(text), back),
        trimmed(text).len() > 0 ==> !is_white(trimmed(text)[0]) && !is_white(trimmed(text).last()),
{
    let front = lemma_front(text);
    let inner = trim_start(text);
    let back = lemma_back(inner);
    assert(front + inner =~= front + trimmed(text) + back);
    assert(padded(text, front, trimmed(text), back));
    if trimmed(text).len() > 0 {
        assert(inner[0] == trimmed(text)[0]);
    }
}

/// A room name is what is left of a text once it is trimmed, in lowercase; there is none where
/// nothing is left, where it is longer than allowed, or where a line break or a null is in it.
pub proof fn law_room_names(text: Seq<char>, max_bytes: nat)
    ensures
        room_name(text, max_bytes) is Ok == (trimmed(text).len() > 0 && byte_len(trimmed(text))
            <= max_bytes && !trimmed(text).contains('\n') && !trimmed(text).contains('\r')
            && !trimmed(text).contains('\0')),
        room_name(text, max_bytes) is Ok ==> room_name(text, max_bytes)->Ok_0 == lowercase(
            trimmed(text),
        ),
        trimmed(text).len() == 0 ==> room_name(text, max_bytes) == Err::<Seq<char>, RoomNameError>(
            RoomNameError::Empty,
        ),
        trimmed(text).len() > 0 && byte_len(trimmed(text)) > max_bytes ==> room_name(
            text,
            max_bytes,
        ) == Err::<Seq<char>, RoomNameError>(RoomNameError::TooLong),
        room_error_text(RoomNameError::Empty) == "room name is empty"@,
        room_error_text(RoomNameError::TooLong) == "room name too long"@,
        room_error_text(RoomNameError::Invalid) == "invalid room name"@,
{
    lemma_controls(trimmed(text));
}

proof fn lemma_controls(text: Seq<char>)
    ensures
        crate::text::has_control(text) == (text.contains('\n') || text.contains('\r')
            || text.contains('\0')),
{
    if crate::text::has_control(text) {
        let i = choose|i: int|
            0 <= i < text.len() && #[trigger] crate::text::is_control(text[i]);
        assert(text.contains(text[i]));
    }
    if text.contains('\n') {
        let i = choose|i: int| 0 <= i < text.len() && text[i] == '\n';
        assert(crate::text::is_control(text[i]));
    }
    if text.contains('\r') {
        let i = choose|i: int| 0 <= i < text.len() && text[i] == '\r';
        assert(crate::text::is_control(text[i]));
    }
    if text.contains('\0') {
        let i = choose|i: int| 0 <= i < text.len() && text[i] == '\0';
        assert(crate::text::is_control(text[i]));
    }
}

/// A nickname is what is left of a text once it is trimmed; it is accepted exactly where something
/// is left that is no longer than allowed and has no line break and no null in it.
pub proof fn law_nicknames(text: Seq<char>, max_bytes: nat)
    ensures
        nick_of(text, max_bytes) == if trimmed(text).len() > 0 && byte_len(trimmed(text))
            <= max_bytes && !trimmed(text).contains('\n') && !trimmed(text).contains('\r')
            && !trimmed(text).contains('\0') {
            Some(trimmed(text))
        } else {
            None
        },
{
    lemma_controls(trimmed(text));
}

/// A message is a command exactly where it is a MSG or a NOTICE whose text begins, after white
/// space, with a slash.
pub proof fn law_commands_begin_with_a_slash(message_type: u64, fields: FieldMap)
    ensures
        is_command(message_type, fields) == ((message_type == T_MSG || message_type == T_NOTICE)
            && text_field(fields, K_BODY) is Some && exists|i: int|
            0 <= i < text_field(fields, K_BODY)->0.len() && #[trigger] text_field(
                fields,
                K_BODY,
            )->0[i] == '/' && forall|j: int|
                0 <= j < i ==> is_white(#[trigger] text_field(fields, K_BODY)->0[j])),
{
    if text_field(fields, K_BODY) is Some {
        let text = text_field(fields, K_BODY)->0;
        let front = lemma_front(text);
        let rest = trim_start(text);
        assert(!is_white('/'));
        if rest.len() > 0 {
            assert(text[front.len() as int] == rest[0]);
            if rest[0] == '/' {
                assert forall|j: int| 0 <= j < front.len() implies is_white(#[trigger] text[j]) by {
                    assert(text[j] == front[j]);
                }
            }
        }
        if exists|i: int|
            0 <= i < text.len() && #[trigger] text[i] == '/' && forall|j: int|
                0 <= j < i ==> is_white(#[trigger] text[j]) {
            let i = choose|i: int|
                0 <= i < text.len() && #[trigger] text[i] == '/' && forall|j: int|
                    0 <= j < i ==> is_white(#[trigger] text[j]);
            if i < front.len() {
                assert(text[i] == front[i]);
            }
            if i > front.len() {
                assert(is_white(text[front.len() as int]));
            }
            assert(i == front.len());
        }
    }
}

/// The nickname that a link has.
pub open spec fn own_nick(hub: Hub, link: LinkId) -> Option<Seq<char>> {
    if holds(hub.state.sessions, link) {
        at(hub.state.sessions, link).nick
    } else {
        None
    }
}

/// The nickname that a link speaks under: the one that its message carries where it is accepted,
/// else the one that it has.
pub open spec fn spoken_nick(hub: Hub, link: LinkId, fields: FieldMap) -> Option<Seq<char>> {
    match text_field(fields, K_NICK) {
        Some(text) => match nick_of(text, hub.config.max_nick_bytes as nat) {
            Some(nick) => Some(nick),
            None => own_nick(hub, link),
        },
        None => own_nick(hub, link),
    }
}

/// Whether an envelope is what a client sent, but for its source, its room and its nickname.
pub open spec fn as_sent(
    passed: FieldMap,
    fields: FieldMap,
    peer: IdentityHash,
    room: Option<Seq<char>>,
    nick: Option<Seq<char>>,
) -> bool {
    &&& field(passed, K_SRC) == Some(Cbor::Bytes(peer@))
    &&& field(passed, K_ROOM) == text_value(room)
    &&& field(passed, K_NICK) == text_value(nick)
    &&& forall|key: CborKey|
        key != CborKey::Integer(K_SRC as int) && key != CborKey::Integer(K_ROOM as int) && key
            != CborKey::Integer(K_NICK as int) ==> {
            &&& #[trigger] passed.dom().contains(key) == fields.dom().contains(key)
            &&& fields.dom().contains(key) ==> passed[key] == fields[key]
        }
}

/// Whether a link is in a room, as its session has it.
pub open spec fn has_joined(hub: Hub, link: LinkId, name: Seq<char>) -> bool {
    holds(hub.state.sessions, link) && at(hub.state.sessions, link).rooms.contains(name)
}

/// Whether nothing has changed but the nickname of a link, the index of nicknames and the counters.
pub open spec fn same_but_nick(
    before: Hub,
    after: Hub,
    link: LinkId,
    nick: Option<Seq<char>>,
) -> bool {
    &&& after.config == before.config
    &&& after.identity == before.identity
    &&& after.extensions == before.extensions
    &&& after.expected == before.expected
    &&& after.last_prune == before.last_prune
    &&& after.state.rooms == before.state.rooms
    &&& after.state.links_by_identity == before.state.links_by_identity
    &&& differ_at(before.state.sessions, after.state.sessions, link)
    &&& lookup(after.state.sessions, link) == match lookup(before.state.sessions, link) {
        Some(session) => Some(SessionModel { nick, ..session }),
        None => None,
    }
}

/// Whether one more message of a type has been counted as passed on.
pub open spec fn counts_passed(before: Counters, after: Counters, message_type: u64) -> bool {
    &&& after.forwarded == counted(before.forwarded, 1)
    &&& after.messages_forwarded == if message_type == T_MSG {
        counted(before.messages_forwarded, 1)
    } else {
        before.messages_forwarded
    }
    &&& after.notices_forwarded == if message_type == T_NOTICE {
        counted(before.notices_forwarded, 1)
    } else {
        before.notices_forwarded
    }
    &&& after.actions_forwarded == if message_type == T_ACTION {
        counted(before.actions_forwarded, 1)
    } else {
        before.actions_forwarded
    }
    &&& after.errors == before.errors
}

/// The hub passes a direct notice on to the one link that the index has for the identity that it
/// is for, exactly as it was sent but for source and nickname, and to nobody else. A direct notice
/// that names a room, has no identity to go to, or is for one who is not connected, is refused.
#[verifier::rlimit(40)]
pub proof fn law_direct_notice_is_passed_on(
    hub: Hub,
    clock: Clock,
    link: LinkId,
    peer: IdentityHash,
    fields: FieldMap,
)
    requires
        !is_command(T_NOTICE, fields),
        field(fields, K_DST) is Some,
        holds(hub.state.sessions, link),
    ensures
        ({
            let done = passing(hub, clock, link, peer, T_NOTICE, fields);
            let target = match bytes_field(fields, K_DST) {
                Some(bytes) => hash_from(bytes),
                None => None,
            };
            let nick = spoken_nick(hub, link, fields);
            if field(fields, K_ROOM) is Some {
                refuses(hub, done, link, None, "direct notice must not include room"@)
            } else if target is None {
                refuses(hub, done, link, None, "direct notice requires destination identity"@)
            } else if !holds(hub.state.links_by_identity, target->0) {
                refuses(hub, done, link, None, "destination not connected"@)
            } else {
                &&& done.outs.len() == 1
                &&& done.outs[0] is Forward
                &&& done.outs[0]->Forward_0.to == seq![
                    at(hub.state.links_by_identity, target->0),
                ]
                &&& as_sent(done.outs[0]->Forward_0.fields, fields, peer, None, nick)
                &&& done.pending is None
                &&& same_but_nick(hub, done.hub, link, nick)
                &&& counts_passed(hub.state.counters, done.hub.state.counters, T_NOTICE)
            }
        }),
{
    law_error(hub, link, None, "direct notice must not include room"@);
    law_error(hub, link, None, "direct notice requires destination identity"@);
    law_error(hub, link, None, "destination not connected"@);
}

/// The text with which a message to a room is refused, where it is: it is too large, there is no
/// such room, the room takes no messages from outside, the speaker is banned, or the room is
/// moderated and the speaker is neither its founder nor among its operators or voices.
pub open spec fn speech_refusal(
    hub: Hub,
    link: LinkId,
    peer: IdentityHash,
    name: Seq<char>,
    fields: FieldMap,
) -> Option<Seq<char>> {
    let room = at(hub.state.rooms, name);
    if text_field(fields, K_BODY) is Some && byte_len(text_field(fields, K_BODY)->0)
        > hub.config.max_msg_body_bytes {
        Some("message too large"@)
    } else if !holds(hub.state.rooms, name) {
        Some("no such room"@)
    } else if room.no_outside_messages && !has_joined(hub, link, name) {
        Some("no outside messages (+n)"@)
    } else if room.banned.contains(peer) {
        Some("banned from room"@)
    } else if room.moderated && room.founder != Some(peer) && !room.operators.contains(peer)
        && !room.voiced.contains(peer) {
        Some("room is moderated (+m)"@)
    } else {
        None
    }
}

/// Whether no counter has changed but those of the resources that are sent.
pub open spec fn counts_offers(before: Counters, after: Counters) -> bool {
    after == Counters {
        resources_sent: after.resources_sent,
        resource_bytes_sent: after.resource_bytes_sent,
        ..before
    }
}

proof fn lemma_announcing_counts(hub: Hub, name: Seq<char>, to: Seq<LinkId>, text: Seq<char>)
    ensures
        counts_offers(
            hub.state.counters,
            crate::router::rooms::announcing(hub, name, to, text).hub.state.counters,
        ),
    decreases to.len(),
{
    if to.len() > 0 {
        lemma_announcing_counts(hub, name, to.drop_last(), text);
    }
}

proof fn lemma_announcing_in_counts(hub: Hub, names: Seq<Seq<char>>, text: Seq<char>)
    ensures
        counts_offers(
            hub.state.counters,
            announcing_in(hub, names, text).hub.state.counters,
        ),
    decreases names.len(),
{
    if names.len() > 0 {
        let before = announcing_in(hub, names.drop_last(), text);
        lemma_announcing_in_counts(hub, names.drop_last(), text);
        lemma_announcing_counts(
            before.hub,
            names.last(),
            crate::router::rooms::members_of(before.hub.state, names.last()),
            text,
        );
    }
}

proof fn lemma_renaming_counts(
    hub: Hub,
    link: LinkId,
    peer: IdentityHash,
    previous: Option<Seq<char>>,
)
    ensures
        counts_offers(
            hub.state.counters,
            renaming(hub, link, peer, previous).hub.state.counters,
        ),
{
    if holds(hub.state.sessions, link) {
        let session = at(hub.state.sessions, link);
        lemma_announcing_in_counts(
            hub,
            session.rooms,
            "nick changed: "@ + crate::router::rooms::shown(previous, peer) + " -> "@
                + crate::router::rooms::shown(session.nick, peer),
        );
    }
}

/// What is said in a room reaches all its members, exactly as it was sent but for source, room and
/// nickname: whenever the message is not too large, the room exists and takes it from where it
/// comes, and the speaker is not banned and may speak. In a room that is moderated the founder, the
/// operators and those with a voice may speak, and nobody else. Whatever is refused reaches nobody.
#[verifier::rlimit(40)]
pub proof fn law_room_message_is_passed_on(
    hub: Hub,
    clock: Clock,
    link: LinkId,
    peer: IdentityHash,
    message_type: u64,
    fields: FieldMap,
    name: Seq<char>,
)
    requires
        message_type == T_MSG || message_type == T_NOTICE || message_type == T_ACTION,
        !is_command(message_type, fields),
        message_type == T_NOTICE ==> field(fields, K_DST) is None,
        text_field(fields, K_ROOM) is Some,
        room_name(text_field(fields, K_ROOM)->0, hub.config.max_room_name_bytes as nat) == Ok::<
            Seq<char>,
            RoomNameError,
        >(name),
        holds(hub.state.sessions, link),
    ensures
        ({
            let done = passing(hub, clock, link, peer, message_type, fields);
            let nick = spoken_nick(hub, link, fields);
            match speech_refusal(hub, link, peer, name, fields) {
                Some(text) => refuses(hub, done, link, Some(name), text),
                None => {
                    &&& done.outs.len() >= 1
                    &&& done.outs[0] is Forward
                    &&& done.outs[0]->Forward_0.to == at(hub.state.rooms, name).members
                    &&& as_sent(done.outs[0]->Forward_0.fields, fields, peer, Some(name), nick)
                    &&& forall|i: int|
                        1 <= i < done.outs.len() ==> !((#[trigger] done.outs[i]) is Forward)
                    &&& nick == own_nick(hub, link) ==> done.outs.len() == 1
                    &&& nick != own_nick(hub, link) ==> done.outs.skip(1) == renaming(
                        Hub { state: nicked(hub.state, link, nick), ..hub },
                        link,
                        peer,
                        own_nick(hub, link),
                    ).outs
                    &&& counts_passed(hub.state.counters, done.hub.state.counters, message_type)
                    &&& done.pending is None
                    &&& same_but_nick(hub, done.hub, link, nick)
                }
            }
        }),
{
    reveal(from);
    let done = passing(hub, clock, link, peer, message_type, fields);
    assert forall|text: Seq<char>| refuses(
        hub,
        #[trigger] crate::router::failing(hub, link, Some(name), text),
        link,
        Some(name),
        text,
    ) by {
        law_error(hub, link, Some(name), text);
    }
    if speech_refusal(hub, link, peer, name, fields) is None {
        let passed = crate::router::messages::passed_hub(hub, link, fields);
        let told = renaming(passed, link, peer, own_nick(hub, link));
        law_renaming_only_counts(passed, link, peer, own_nick(hub, link));
        lemma_renaming(passed, link, peer, own_nick(hub, link));
        lemma_renaming_counts(passed, link, peer, own_nick(hub, link));
        assert(done.outs.skip(1) =~= told.outs);
        assert forall|i: int| 1 <= i < done.outs.len() implies !((
        #[trigger] done.outs[i]) is Forward) by {
            assert(done.outs[i] == told.outs[i - 1]);
        }
    }
}

/// A message that names no room, or none that can be one, is refused.
pub proof fn law_message_needs_a_room(
    hub: Hub,
    clock: Clock,
    link: LinkId,
    peer: IdentityHash,
    message_type: u64,
    fields: FieldMap,
)
    requires
        message_type == T_MSG || message_type == T_NOTICE || message_type == T_ACTION,
        !is_command(message_type, fields),
        message_type == T_NOTICE ==> field(fields, K_DST) is None,
    ensures
        ({
            let done = passing(hub, clock, link, peer, message_type, fields);
            match text_field(fields, K_ROOM) {
                None => refuses(hub, done, link, None, "message requires room name"@),
                Some(text) => match room_name(text, hub.config.max_room_name_bytes as nat) {
                    Err(error) => refuses(hub, done, link, None, room_error_text(error)),
                    Ok(_) => true,
                },
            }
        }),
{
    assert forall|text: Seq<char>| refuses(
        hub,
        #[trigger] crate::router::failing(hub, link, None, text),
        link,
        None,
        text,
    ) by {
        law_error(hub, link, None, text);
    }
}

/// A command is run with the words of its text, for the link that sent it, which by then has the
/// nickname that the message carries where that is accepted; what running it says comes first.
#[verifier::rlimit(40)]
pub proof fn law_command_is_run(
    hub: Hub,
    clock: Clock,
    link: LinkId,
    peer: IdentityHash,
    message_type: u64,
    fields: FieldMap,
)
    requires
        is_command(message_type, fields),
    ensures
        ({
            let done = passing(hub, clock, link, peer, message_type, fields);
            let carried = match text_field(fields, K_NICK) {
                Some(text) => nick_of(text, hub.config.max_nick_bytes as nat),
                None => None,
            };
            let named = if carried is Some {
                Hub { state: nicked(hub.state, link, carried), ..hub }
            } else {
                hub
            };
            let ran = running(
                named,
                clock,
                link,
                peer,
                text_field(fields, K_ROOM),
                words(trimmed(text_field(fields, K_BODY)->0)),
            );
            &&& same_but_counters(ran.hub, done.hub)
            &&& done.outs.len() >= ran.outs.len()
            &&& done.outs.take(ran.outs.len() as int) == ran.outs
            &&& done.pending is Some == ran.pending is Some
            &&& ran.pending is Some ==> {
                &&& done.outs == ran.outs
                &&& done.pending->0.work == ran.pending->0.work
                &&& done.pending->0.resume == ran.pending->0.resume
                &&& done.pending->0.watch == Some(
                    WatchModel { link, peer, previous: own_nick(hub, link) },
                )
            }
            &&& ran.pending is None ==> done.outs.skip(ran.outs.len() as int) == renaming(
                ran.hub,
                link,
                peer,
                own_nick(hub, link),
            ).outs
        }),
{
    let carried = match text_field(fields, K_NICK) {
        Some(text) => nick_of(text, hub.config.max_nick_bytes as nat),
        None => None,
    };
    let named = if carried is Some {
        Hub { state: nicked(hub.state, link, carried), ..hub }
    } else {
        hub
    };
    let ran = running(
        named,
        clock,
        link,
        peer,
        text_field(fields, K_ROOM),
        words(trimmed(text_field(fields, K_BODY)->0)),
    );
    law_renaming_only_counts(ran.hub, link, peer, own_nick(hub, link));
    let done = passing(hub, clock, link, peer, message_type, fields);
    if ran.pending is None {
        let told = renaming(ran.hub, link, peer, own_nick(hub, link));
        assert(done.outs == ran.outs + told.outs);
        assert(done.outs.take(ran.outs.len() as int) =~= ran.outs);
        assert(done.outs.skip(ran.outs.len() as int) =~= told.outs);
    } else {
        assert(done.outs.take(ran.outs.len() as int) =~= ran.outs);
    }
}

/// A link that is watched while work is done has its new nickname told behind what follows the
/// work, as it would have been without the work.
pub proof fn law_watched_nickname_is_told(
    hub: Hub,
    pending: PendingModel,
    outcome: OutcomeModel,
)
    requires
        pending.watch is Some,
    ensures
        ({
            let watch = pending.watch->0;
            let done = resuming(hub, pending, outcome);
            let plain = resuming(hub, PendingModel { watch: None, ..pending }, outcome);
            let told = renaming(plain.hub, watch.link, watch.peer, watch.previous);
            &&& done.outs == plain.outs + told.outs
            &&& done.hub == told.hub
        }),
{
}

/// How somebody is called: by nickname, or by the first twelve digits of the identity.
pub open spec fn called(nick: Option<Seq<char>>, peer: IdentityHash) -> Seq<char> {
    if nick is Some {
        nick->0
    } else {
        hexadecimal(peer@).take(12)
    }
}

proof fn lemma_told_in(
    hub: Hub,
    names: Seq<Seq<char>>,
    text: Seq<char>,
    room: int,
    member: int,
)
    requires
        0 <= room < names.len(),
        holds(hub.state.rooms, names[room]),
        0 <= member < at(hub.state.rooms, names[room]).members.len(),
    ensures
        exists|first: int, until: int|
            0 <= first <= until <= announcing_in(hub, names, text).outs.len()
                && #[trigger] utters(
                announcing_in(hub, names, text).outs.subrange(first, until),
                at(hub.state.rooms, names[room]).members[member],
                T_NOTICE,
                hub.identity,
                Some(names[room]),
                None,
                text,
            ),
    decreases names.len(),
{
    let rest = names.drop_last();
    let before = announcing_in(hub, rest, text);
    lemma_announcing_in_quiet(hub, rest, text);
    let to = crate::router::rooms::members_of(before.hub.state, names.last());
    let last = announcing(before.hub, names.last(), to, text);
    let outs = announcing_in(hub, names, text).outs;
    let link = at(hub.state.rooms, names[room]).members[member];
    assert(outs == before.outs + last.outs);
    if room == names.len() - 1 {
        law_announced(before.hub, names.last(), to, text, member);
        let (first, until) = choose|first: int, until: int|
            0 <= first <= until <= last.outs.len() && #[trigger] utters(
                last.outs.subrange(first, until),
                to[member],
                T_NOTICE,
                before.hub.identity,
                Some(names.last()),
                None,
                text,
            );
        let skip = before.outs.len() as int;
        assert(outs.subrange(skip + first, skip + until) =~= last.outs.subrange(first, until));
    } else {
        assert(rest[room] == names[room]);
        lemma_told_in(hub, rest, text, room, member);
        let (first, until) = choose|first: int, until: int|
            0 <= first <= until <= before.outs.len() && #[trigger] utters(
                before.outs.subrange(first, until),
                link,
                T_NOTICE,
                hub.identity,
                Some(names[room]),
                None,
                text,
            );
        assert(outs.subrange(first, until) =~= before.outs.subrange(first, until));
    }
}

proof fn lemma_announcing_in_quiet(hub: Hub, names: Seq<Seq<char>>, text: Seq<char>)
    ensures
        same_but_counters(hub, announcing_in(hub, names, text).hub),
    decreases names.len(),
{
    if names.len() > 0 {
        lemma_announcing_in_quiet(hub, names.drop_last(), text);
        let before = announcing_in(hub, names.drop_last(), text);
        law_announcing_only_counts(
            before.hub,
            names.last(),
            crate::router::rooms::members_of(before.hub.state, names.last()),
            text,
        );
    }
}

/// Where a link's nickname is no longer what it was, every member of every room that it is in is
/// told both; where it is the same, nobody is told anything.
pub proof fn law_new_nickname_is_told(
    hub: Hub,
    link: LinkId,
    peer: IdentityHash,
    previous: Option<Seq<char>>,
    room: int,
    member: int,
)
    requires
        holds(hub.state.sessions, link),
    ensures
        ({
            let session = at(hub.state.sessions, link);
            let outs = renaming(hub, link, peer, previous).outs;
            let text = "nick changed: "@ + called(previous, peer) + " -> "@ + called(
                session.nick,
                peer,
            );
            &&& session.nick == previous ==> outs.len() == 0
            &&& session.nick != previous && 0 <= room < session.rooms.len() && holds(
                hub.state.rooms,
                session.rooms[room],
            ) && 0 <= member < at(hub.state.rooms, session.rooms[room]).members.len()
                ==> exists|first: int, until: int|
                0 <= first <= until <= outs.len() && #[trigger] utters(
                    outs.subrange(first, until),
                    at(hub.state.rooms, session.rooms[room]).members[member],
                    T_NOTICE,
                    hub.identity,
                    Some(session.rooms[room]),
                    None,
                    text,
                )
        }),
{
    let session = at(hub.state.sessions, link);
    if session.nick != previous && 0 <= room < session.rooms.len() && holds(
        hub.state.rooms,
        session.rooms[room],
    ) && 0 <= member < at(hub.state.rooms, session.rooms[room]).members.len() {
        lemma_told_in(
            hub,
            session.rooms,
            "nick changed: "@ + called(previous, peer) + " -> "@ + called(session.nick, peer),
            room,
            member,
        );
    }
}

} // verus!
