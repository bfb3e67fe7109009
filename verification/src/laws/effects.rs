//! What the hub says, envelope by envelope, and the words in which the other laws speak of it.

use crate::cbor::{Cbor, CborKey};
use crate::collections::{at, group_collections, group_sequences, holds, lookup};
use crate::constants::{
    K_BODY, K_DST, K_NICK, K_ROOM, K_SRC, K_T, K_V, T_ACTION, T_ERROR, T_MSG, T_NOTICE, VERSION,
};
use crate::outgoing::Out;
use crate::protocol::{field, text_field, FieldMap};
use crate::router::rooms::{announcing, flags, modes, stating, with_state};
use crate::router::{failing, noticing, telling, Hub, Turn};
use crate::state::{counted, IdentityHash, LinkId, RoomModel};
use crate::text::{byte_len, chunks};
use super::limits::flat;
use vstd::prelude::*;

verus! {

broadcast use {group_collections, group_sequences};

/// Whether two tables hold the same for every key but one.
pub open spec fn differ_at<K, V>(before: Seq<(K, V)>, after: Seq<(K, V)>, key: K) -> bool {
    forall|other: K| other != key ==> #[trigger] lookup(after, other) == lookup(before, other)
}

/// Whether nothing but the counters has changed.
pub open spec fn same_but_counters(before: Hub, after: Hub) -> bool {
    &&& after.config == before.config
    &&& after.identity == before.identity
    &&& after.extensions == before.extensions
    &&& after.expected == before.expected
    &&& after.last_prune == before.last_prune
    &&& after.state.sessions == before.state.sessions
    &&& after.state.rooms == before.state.rooms
    &&& after.state.links_by_identity == before.state.links_by_identity
    &&& after.state.links_by_nick == before.state.links_by_nick
}

/// A text as a value, where there is one.
pub open spec fn text_value(text: Option<Seq<char>>) -> Option<Cbor> {
    match text {
        Some(text) => Some(Cbor::Text(text)),
        None => None,
    }
}

/// Whether an envelope is of a type, from a source, and says just this: a room, a nickname and a
/// body, each where there is one.
pub open spec fn reads(
    fields: FieldMap,
    kind: u64,
    source: IdentityHash,
    room: Option<Seq<char>>,
    nick: Option<Seq<char>>,
    body: Option<Cbor>,
) -> bool {
    &&& field(fields, K_V) == Some(Cbor::Integer(VERSION as int))
    &&& field(fields, K_T) == Some(Cbor::Integer(kind as int))
    &&& field(fields, K_SRC) == Some(Cbor::Bytes(source@))
    &&& field(fields, K_ROOM) == text_value(room)
    &&& field(fields, K_NICK) == text_value(nick)
    &&& field(fields, K_BODY) == body
    &&& field(fields, K_DST) is None
    &&& forall|key: CborKey| #[trigger]
        fields.dom().contains(key) ==> key == CborKey::Integer(K_V as int) || key
            == CborKey::Integer(K_T as int) || key == CborKey::Integer(K_SRC as int) || key
            == CborKey::Integer(K_ROOM as int) || key == CborKey::Integer(K_NICK as int) || key
            == CborKey::Integer(K_BODY as int)
}

/// Whether one envelope goes to one link, with a structured part or without.
pub open spec fn goes_to(out: Out, link: LinkId) -> bool {
    match out {
        Out::Packets(parcels) => parcels.len() == 1 && parcels[0].to == seq![link],
        Out::Extended(to, _, _) => to == link,
        _ => false,
    }
}

/// The envelope that goes out.
pub open spec fn envelope(out: Out) -> FieldMap {
    match out {
        Out::Packets(parcels) => parcels[0].fields,
        Out::Extended(_, fields, _) => fields,
        Out::Forward(parcel) => parcel.fields,
        _ => Map::empty(),
    }
}

/// Whether a link gets an error and nothing else happens: nothing changes but the counters, of
/// which the one of errors goes up, and no work on files is asked for.
pub open spec fn refuses(
    hub: Hub,
    done: Turn,
    link: LinkId,
    room: Option<Seq<char>>,
    text: Seq<char>,
) -> bool {
    &&& same_but_counters(hub, done.hub)
    &&& done.pending is None
    &&& done.outs.len() == 1
    &&& done.outs[0] is Packets
    &&& goes_to(done.outs[0], link)
    &&& reads(
        envelope(done.outs[0]),
        T_ERROR,
        hub.identity,
        room,
        None,
        Some(Cbor::Text(text)),
    )
}

/// An error goes to the link alone, from the hub, with its text, and names the room where there is
/// one.
pub proof fn law_error(hub: Hub, link: LinkId, room: Option<Seq<char>>, text: Seq<char>)
    ensures
        refuses(hub, failing(hub, link, room, text), link, room, text),
        failing(hub, link, room, text).hub.state.counters == (crate::state::Counters {
            errors: counted(hub.state.counters.errors, 1),
            ..hub.state.counters
        }),
{
}

/// Whether what is said to a link is one text, in a packet, in pieces that make it up, or as a
/// resource.
pub open spec fn utters(
    outs: Seq<Out>,
    link: LinkId,
    kind: u64,
    source: IdentityHash,
    room: Option<Seq<char>>,
    nick: Option<Seq<char>>,
    text: Seq<char>,
) -> bool {
    if outs.len() == 1 && outs[0] is Offer {
        let offer = outs[0]->Offer_0;
        &&& offer.to == link
        &&& offer.source == source
        &&& offer.room == room
        &&& offer.nick == nick
        &&& offer.text == text
    } else {
        &&& forall|i: int|
            0 <= i < outs.len() ==> {
                &&& (#[trigger] outs[i]) is Packets
                &&& goes_to(outs[i], link)
                &&& text_field(envelope(outs[i]), K_BODY) is Some
                &&& reads(
                    envelope(outs[i]),
                    kind,
                    source,
                    room,
                    nick,
                    Some(Cbor::Text(text_field(envelope(outs[i]), K_BODY)->0)),
                )
            }
        &&& flat(
            Seq::new(outs.len(), |i: int| text_field(envelope(outs[i]), K_BODY)->0),
        ) == text
    }
}

/// The type that a text of a kind is sent under: messages as MSG, actions as ACTION, everything
/// else as NOTICE.
pub proof fn law_kinds(kind: Seq<char>)
    ensures
        crate::router::kind_type(kind) == if kind == "message"@ || kind == "msg"@ {
            T_MSG
        } else if kind == "action"@ {
            T_ACTION
        } else {
            T_NOTICE
        },
        crate::router::kind_type("message"@) == T_MSG,
        crate::router::kind_type("msg"@) == T_MSG,
        crate::router::kind_type("action"@) == T_ACTION,
        crate::router::kind_type("notice"@) == T_NOTICE,
        crate::router::kind_type("motd"@) == T_NOTICE,
{
    reveal_strlit("message");
    reveal_strlit("msg");
    reveal_strlit("action");
    reveal_strlit("notice");
    reveal_strlit("motd");
    assert("message"@[0] == 'm' && "message"@.len() == 7);
    assert("msg"@[0] == 'm' && "msg"@.len() == 3);
    assert("action"@[0] == 'a');
    assert("notice"@[0] == 'n');
    assert("motd"@[0] == 'm' && "motd"@.len() == 4);
}

proof fn lemma_flat_one(parts: Seq<Seq<char>>)
    requires
        parts.len() == 1,
    ensures
        flat(parts) == parts[0],
{
    assert(parts.drop_first() =~= Seq::empty());
    assert(flat(parts.drop_first()) =~= Seq::empty());
    assert(flat(parts) =~= parts[0]);
}

/// A text reaches its link whole, however long it is: in one packet up to 512 bytes, beyond that as
/// a resource where resources are on and it is not too large, and else in pieces that make it up.
#[verifier::rlimit(40)]
pub proof fn law_text(
    hub: Hub,
    link: LinkId,
    source: IdentityHash,
    nick: Option<Seq<char>>,
    room: Option<Seq<char>>,
    kind: Seq<char>,
    text: Seq<char>,
)
    ensures
        ({
            let done = telling(hub, link, source, nick, room, kind, text);
            let short = byte_len(text) <= 512;
            let offered = !short && hub.config.enable_resource_transfer && byte_len(text)
                <= hub.config.max_resource_bytes;
            &&& utters(
                done.outs,
                link,
                crate::router::kind_type(kind),
                source,
                room,
                nick,
                text,
            )
            &&& same_but_counters(hub, done.hub)
            &&& done.pending is None
            &&& short ==> done.outs.len() == 1 && done.outs[0] is Packets
            &&& offered ==> done.outs.len() == 1 && done.outs[0] is Offer
                && done.outs[0]->Offer_0.kind == kind
            &&& !offered ==> forall|i: int|
                0 <= i < done.outs.len() ==> (#[trigger] done.outs[i]) is Packets
            &&& !short && !offered ==> done.outs.len() == chunks(text, 300).len()
            &&& done.hub.state.counters == if offered {
                crate::state::Counters {
                    resources_sent: counted(hub.state.counters.resources_sent, 1),
                    resource_bytes_sent: counted(
                        hub.state.counters.resource_bytes_sent,
                        byte_len(text) as int,
                    ),
                    ..hub.state.counters
                }
            } else {
                hub.state.counters
            }
        }),
{
    let done = telling(hub, link, source, nick, room, kind, text);
    let bodies = Seq::new(
        done.outs.len(),
        |i: int| text_field(envelope(done.outs[i]), K_BODY)->0,
    );
    if byte_len(text) <= 512 {
        lemma_flat_one(bodies);
    } else if !hub.config.enable_resource_transfer || byte_len(text)
        > hub.config.max_resource_bytes {
        let parts = chunks(text, 300);
        super::limits::law_chunks(text, 300);
        assert forall|i: int| 0 <= i < done.outs.len() implies #[trigger] bodies[i] == parts[i] by {
            assert(text_field(envelope(done.outs[i]), K_BODY) == Some(parts[i]));
        }
        assert(bodies =~= parts);
    }
}

/// Whether a link is told a text by the hub, and nothing else happens.
pub open spec fn informs(
    hub: Hub,
    done: Turn,
    link: LinkId,
    room: Option<Seq<char>>,
    text: Seq<char>,
) -> bool {
    &&& same_but_counters(hub, done.hub)
    &&& done.pending is None
    &&& utters(done.outs, link, T_NOTICE, hub.identity, room, None, text)
}

/// A notice of the hub goes to its link whole, as a NOTICE from the hub.
pub proof fn law_notice(hub: Hub, link: LinkId, room: Option<Seq<char>>, text: Seq<char>)
    ensures
        informs(hub, noticing(hub, link, room, text), link, room, text),
{
    law_text(hub, link, hub.identity, None, room, "notice"@, text);
    law_kinds("notice"@);
}

/// Every link of a list gets a notice to a room, each the whole text, in order.
#[verifier::rlimit(40)]
pub proof fn law_announced(
    hub: Hub,
    name: Seq<char>,
    to: Seq<LinkId>,
    text: Seq<char>,
    i: int,
)
    requires
        0 <= i < to.len(),
    ensures
        exists|from: int, until: int|
            0 <= from <= until <= announcing(hub, name, to, text).outs.len() && #[trigger] utters(
                announcing(hub, name, to, text).outs.subrange(from, until),
                to[i],
                T_NOTICE,
                hub.identity,
                Some(name),
                None,
                text,
            ),
        same_but_counters(hub, announcing(hub, name, to, text).hub),
        announcing(hub, name, to, text).pending is None,
    decreases to.len(),
{
    let rest = to.drop_last();
    let before = announcing(hub, name, rest, text);
    lemma_announcing_quiet(hub, name, rest, text);
    let last = noticing(before.hub, to.last(), Some(name), text);
    law_notice(before.hub, to.last(), Some(name), text);
    let outs = announcing(hub, name, to, text).outs;
    assert(outs == before.outs + last.outs);
    if i == to.len() - 1 {
        assert(outs.subrange(before.outs.len() as int, outs.len() as int) =~= last.outs);
    } else {
        law_announced(hub, name, rest, text, i);
        let (from, until) = choose|from: int, until: int|
            0 <= from <= until <= before.outs.len() && #[trigger] utters(
                before.outs.subrange(from, until),
                rest[i],
                T_NOTICE,
                hub.identity,
                Some(name),
                None,
                text,
            );
        assert(outs.subrange(from, until) =~= before.outs.subrange(from, until));
    }
}

proof fn lemma_announcing_quiet(hub: Hub, name: Seq<char>, to: Seq<LinkId>, text: Seq<char>)
    ensures
        same_but_counters(hub, announcing(hub, name, to, text).hub),
        announcing(hub, name, to, text).pending is None,
        announcing(hub, name, to, text).hub.identity == hub.identity,
    decreases to.len(),
{
    if to.len() > 0 {
        lemma_announcing_quiet(hub, name, to.drop_last(), text);
        let before = announcing(hub, name, to.drop_last(), text);
        law_notice(before.hub, to.last(), Some(name), text);
    }
}

/// A link that understands the state of rooms gets it with what it is told of a room: whether the
/// room is registered, its modes and its topic. Any other link gets the envelope alone; and the
/// envelope is the same for both.
pub proof fn law_room_state(hub: Hub, link: LinkId, name: Seq<char>, fields: FieldMap)
    ensures
        ({
            let out = with_state(hub, link, name, fields);
            let capable = holds(hub.state.sessions, link) && at(
                hub.state.sessions,
                link,
            ).peer_caps.dom().contains(hub.extensions.room_state) && at(
                hub.state.sessions,
                link,
            ).peer_caps[hub.extensions.room_state];
            &&& goes_to(out, link)
            &&& envelope(out) == fields
            &&& out is Extended == (capable && holds(hub.state.rooms, name))
            &&& out is Extended ==> {
                let room = at(hub.state.rooms, name);
                let told = out->Extended_2->RoomState_0;
                &&& out->Extended_2 is RoomState
                &&& told.registered == room.registered
                &&& told.topic == room.topic
                &&& told.modes == modes(room)
            }
        }),
{
}

/// The modes of a room are shown as a plus and the letters of those that are set, each once, in
/// alphabetical order; and as none where none is set.
pub proof fn law_modes_shown(room: RoomModel)
    ensures
        ({
            let letters = flags(room);
            &&& modes(room) == if letters.len() == 0 {
                "(none)"@
            } else {
                "+"@ + letters
            }
            &&& letters.contains('i') == room.invite_only
            &&& letters.contains('k') == (room.key is Some)
            &&& letters.contains('m') == room.moderated
            &&& letters.contains('n') == room.no_outside_messages
            &&& letters.contains('p') == room.private
            &&& letters.contains('r') == room.registered
            &&& letters.contains('t') == room.topic_ops_only
            &&& forall|i: int, j: int|
                0 <= i < j < letters.len() ==> #[trigger] letters[i] < #[trigger] letters[j]
            &&& forall|i: int|
                0 <= i < letters.len() ==> {
                    let letter = #[trigger] letters[i];
                    letter == 'i' || letter == 'k' || letter == 'm' || letter == 'n' || letter
                        == 'p' || letter == 'r' || letter == 't'
                }
        }),
{
    lemma_flags(room);
}

spec fn sorted_below(letters: Seq<char>, bound: char) -> bool {
    &&& forall|i: int, j: int|
        0 <= i < j < letters.len() ==> #[trigger] letters[i] < #[trigger] letters[j]
    &&& forall|i: int| 0 <= i < letters.len() ==> #[trigger] letters[i] < bound
}

proof fn lemma_flag(letters: Seq<char>, set: bool, name: char, bound: char)
    requires
        sorted_below(letters, name),
        name < bound,
    ensures
        sorted_below(letters + crate::router::rooms::flag(set, name), bound),
        forall|other: char| #[trigger]
            (letters + crate::router::rooms::flag(set, name)).contains(other) == (letters.contains(
                other,
            ) || (set && other == name)),
{
    let after = letters + crate::router::rooms::flag(set, name);
    assert forall|other: char| #[trigger] after.contains(other) == (letters.contains(other) || (set
        && other == name)) by {
        if letters.contains(other) {
            let i = choose|i: int| 0 <= i < letters.len() && letters[i] == other;
            assert(after[i] == other);
        }
        if set && other == name {
            assert(after[letters.len() as int] == other);
        }
    }
}

proof fn lemma_flags(room: RoomModel)
    ensures
        sorted_below(flags(room), 'u'),
        flags(room).contains('i') == room.invite_only,
        flags(room).contains('k') == (room.key is Some),
        flags(room).contains('m') == room.moderated,
        flags(room).contains('n') == room.no_outside_messages,
        flags(room).contains('p') == room.private,
        flags(room).contains('r') == room.registered,
        flags(room).contains('t') == room.topic_ops_only,
        forall|i: int|
            0 <= i < flags(room).len() ==> {
                let letter = #[trigger] flags(room)[i];
                letter == 'i' || letter == 'k' || letter == 'm' || letter == 'n' || letter == 'p'
                    || letter == 'r' || letter == 't'
            },
{
    let none = Seq::<char>::empty();
    let a = crate::router::rooms::flag(room.invite_only, 'i');
    lemma_flag(none, room.invite_only, 'i', 'k');
    assert(none + a =~= a);
    lemma_flag(a, room.key is Some, 'k', 'm');
    let b = a + crate::router::rooms::flag(room.key is Some, 'k');
    lemma_flag(b, room.moderated, 'm', 'n');
    let c = b + crate::router::rooms::flag(room.moderated, 'm');
    lemma_flag(c, room.no_outside_messages, 'n', 'p');
    let d = c + crate::router::rooms::flag(room.no_outside_messages, 'n');
    lemma_flag(d, room.private, 'p', 'r');
    let e = d + crate::router::rooms::flag(room.private, 'p');
    lemma_flag(e, room.registered, 'r', 't');
    let f = e + crate::router::rooms::flag(room.registered, 'r');
    lemma_flag(f, room.topic_ops_only, 't', 'u');
    assert forall|i: int| 0 <= i < flags(room).len() implies {
        let letter = #[trigger] flags(room)[i];
        letter == 'i' || letter == 'k' || letter == 'm' || letter == 'n' || letter == 'p' || letter
            == 'r' || letter == 't'
    } by {
        assert(flags(room).contains(flags(room)[i]));
    }
}

/// The notice on a room that goes to every link of a list says the same to each, under the room's
/// name.
pub proof fn law_stated(hub: Hub, name: Seq<char>, to: Seq<LinkId>, text: Seq<char>)
    ensures
        stating(hub, name, to, text).len() == to.len(),
        forall|i: int|
            0 <= i < to.len() ==> {
                let out = #[trigger] stating(hub, name, to, text)[i];
                &&& goes_to(out, to[i])
                &&& reads(
                    envelope(out),
                    T_NOTICE,
                    hub.identity,
                    Some(name),
                    None,
                    Some(Cbor::Text(text)),
                )
            },
{
    assert forall|i: int| 0 <= i < to.len() implies {
        let out = #[trigger] stating(hub, name, to, text)[i];
        &&& goes_to(out, to[i])
        &&& reads(
            envelope(out),
            T_NOTICE,
            hub.identity,
            Some(name),
            None,
            Some(Cbor::Text(text)),
        )
    } by {
        law_room_state(
            hub,
            to[i],
            name,
            crate::router::rooms::room_draft(hub, name, text),
        );
    }
}

} // verus!
