//! Resources: which are expected, which are taken, what becomes of their text; and how everything
//! that goes out is sent.

use crate::cbor::Cbor;
use crate::clock::{later, Nanos};
use crate::collections::{
    at, group_collections, group_sequences, holds, lookup, put, without,
};
use crate::constants::{
    B_RES_ENCODING, B_RES_ID, B_RES_KIND, B_RES_SHA256, B_RES_SIZE, K_BODY, K_DST, K_ID, K_NICK,
    K_ROOM, K_SRC, K_T, K_TS, K_V, T_ACTION, T_MSG, T_NOTICE, T_RESOURCE_ENVELOPE, VERSION,
};
use crate::outgoing::{
    offer_draft, sealed, sealed_one, sent_bytes, sha256_of, single, stamped, ActionModel, Draw,
    ExtensionModel, OfferModel, Out, ParcelModel,
};
use crate::protocol::{
    bytes_field, encoded, field, map_field, text_field, unsigned_field, FieldMap,
};
use crate::router::resources::{
    accepting, announced, announcing_resource, awaited, fitting_index, passing_text, receiving,
    telling_all,
};
use crate::router::{sent, telling, ExpectationModel, Hub};
use crate::state::{counted, Counters, IdentityHash, LinkId, StateModel};
use crate::text::{ascii_lower, byte_len};
use super::effects::{
    differ_at, law_error, law_kinds, law_text, refuses, same_but_counters, text_value, utters,
};
use vstd::prelude::*;
use vstd::utf8::{decode_utf8, encode_utf8, valid_utf8};

verus! {

broadcast use {group_collections, group_sequences};

/// Whether an announcement is in order: it has an identifier, a kind and a size, and a digest of 32
/// bytes and an encoding that is a text, where it has them.
pub open spec fn in_good_order(body: FieldMap) -> bool {
    &&& bytes_field(body, B_RES_ID) is Some
    &&& text_field(body, B_RES_KIND) is Some
    &&& text_field(body, B_RES_KIND)->0.len() > 0
    &&& unsigned_field(body, B_RES_SIZE) is Some
    &&& unsigned_field(body, B_RES_SIZE)->0 <= usize::MAX
    &&& field(body, B_RES_SHA256) is Some ==> bytes_field(body, B_RES_SHA256) is Some
        && bytes_field(body, B_RES_SHA256)->0.len() == 32
    &&& field(body, B_RES_ENCODING) is Some ==> text_field(body, B_RES_ENCODING) is Some
}

/// A resource that is announced in good order and is not too large is expected with what was
/// announced of it. Anything else is refused, and it is said why.
pub proof fn law_announcement(
    body: FieldMap,
    max_bytes: usize,
    room: Option<Seq<char>>,
    expires: Nanos,
)
    ensures
        ({
            let result = announced(body, max_bytes, room, expires);
            let expected = result->Ok_0;
            &&& (result is Ok) == (in_good_order(body) && unsigned_field(body, B_RES_SIZE)->0
                <= max_bytes)
            &&& in_good_order(body) && unsigned_field(body, B_RES_SIZE)->0 > max_bytes ==> result
                == Err::<ExpectationModel, Seq<char>>("resource too large"@)
            &&& bytes_field(body, B_RES_ID) is None ==> result == Err::<
                ExpectationModel,
                Seq<char>,
            >("resource envelope missing id"@)
            &&& bytes_field(body, B_RES_ID) is Some && (text_field(body, B_RES_KIND) is None
                || text_field(body, B_RES_KIND)->0.len() == 0) ==> result == Err::<
                ExpectationModel,
                Seq<char>,
            >("resource envelope missing kind"@)
            &&& result is Ok ==> {
                &&& expected.id == bytes_field(body, B_RES_ID)->0
                &&& expected.kind == text_field(body, B_RES_KIND)->0
                &&& expected.size == unsigned_field(body, B_RES_SIZE)->0
                &&& expected.sha256 == bytes_field(body, B_RES_SHA256)
                &&& expected.encoding == text_field(body, B_RES_ENCODING)
                &&& expected.room == room
                &&& expected.expires == expires
            }
        }),
{
}

/// What a link is awaited to send is what it has announced and what has not expired.
pub proof fn law_awaited(hub: Hub, link: LinkId, now: Nanos, expectation: ExpectationModel)
    ensures
        awaited(hub, link, now).contains(expectation) == (holds(hub.expected, link) && at(
            hub.expected,
            link,
        ).contains(expectation) && expectation.expires > now),
{
    if holds(hub.expected, link) {
        lemma_kept(
            at(hub.expected, link),
            crate::router::resources::being_awaited(now),
            expectation,
        );
    }
}

proof fn lemma_kept(
    items: Seq<ExpectationModel>,
    keep: spec_fn(ExpectationModel) -> bool,
    item: ExpectationModel,
)
    ensures
        crate::collections::kept(items, keep).contains(item) == (items.contains(item) && keep(
            item,
        )),
    decreases items.len(),
{
    if items.len() > 0 {
        let rest = items.drop_last();
        let less = crate::collections::kept(rest, keep);
        let all = crate::collections::kept(items, keep);
        lemma_kept(rest, keep, item);
        if items.contains(item) {
            let i = choose|i: int| 0 <= i < items.len() && items[i] == item;
            if i < rest.len() {
                assert(rest[i] == item);
            }
        }
        if rest.contains(item) {
            let i = choose|i: int| 0 <= i < rest.len() && rest[i] == item;
            assert(items[i] == item);
        }
        assert(items[items.len() - 1] == items.last());
        if keep(items.last()) {
            if less.contains(item) {
                let i = choose|i: int| 0 <= i < less.len() && less[i] == item;
                assert(all[i] == item);
            }
            assert(all[less.len() as int] == items.last());
            if all.contains(item) {
                let i = choose|i: int| 0 <= i < all.len() && all[i] == item;
                if i < less.len() {
                    assert(less[i] == item);
                }
            }
        }
    }
}

/// An announcement is noted behind what its link is awaited to send, until the time that is set
/// for it has passed; nothing is said and nothing else changes. Where transfers are off, where the
/// announcement is not in order, and where too much is awaited already, it is refused.
#[verifier::rlimit(40)]
pub proof fn law_announcing(hub: Hub, now: Nanos, link: LinkId, fields: FieldMap)
    ensures
        ({
            let done = announcing_resource(hub, now, link, fields);
            let room = text_field(fields, K_ROOM);
            let live = awaited(hub, link, now);
            let pruned = Hub { expected: put(hub.expected, link, live), ..hub };
            let result = announced(
                map_field(fields, K_BODY)->0,
                hub.config.max_resource_bytes,
                room,
                later(now, hub.config.resource_expectation_ttl),
            );
            if !hub.config.enable_resource_transfer {
                refuses(hub, done, link, room, "resource transfer disabled"@)
            } else if map_field(fields, K_BODY) is None {
                refuses(hub, done, link, room, "invalid resource envelope body"@)
            } else if result is Err {
                refuses(hub, done, link, room, result->Err_0)
            } else if live.len() >= hub.config.max_pending_resource_expectations {
                refuses(pruned, done, link, room, "too many pending resource expectations"@)
            } else {
                &&& done.hub == Hub { expected: done.hub.expected, ..hub }
                &&& lookup(done.hub.expected, link) == Some(live.push(result->Ok_0))
                &&& differ_at(hub.expected, done.hub.expected, link)
                &&& done.outs.len() == 0
                &&& done.pending is None
            }
        }),
{
    let room = text_field(fields, K_ROOM);
    let live = awaited(hub, link, now);
    let result = announced(
        map_field(fields, K_BODY)->0,
        hub.config.max_resource_bytes,
        room,
        later(now, hub.config.resource_expectation_ttl),
    );
    law_error(hub, link, room, "resource transfer disabled"@);
    law_error(hub, link, room, "invalid resource envelope body"@);
    law_error(hub, link, room, result->Err_0);
    law_error(
        Hub { expected: put(hub.expected, link, live), ..hub },
        link,
        room,
        "too many pending resource expectations"@,
    );
}

/// Whether a resource is what was announced: of the size, and with the digest where there was one.
pub open spec fn is_as_announced(expectation: ExpectationModel, payload: Seq<u8>) -> bool {
    &&& payload.len() == expectation.size
    &&& expectation.sha256 is Some ==> expectation.sha256->0 == sha256_of(payload)
}

/// A resource is matched to the first announcement that it is as announced of.
pub proof fn law_matching(expectations: Seq<ExpectationModel>, payload: Seq<u8>)
    ensures
        match fitting_index(expectations, payload) {
            Some(index) => {
                &&& 0 <= index < expectations.len()
                &&& is_as_announced(expectations[index], payload)
                &&& forall|j: int|
                    0 <= j < index ==> !is_as_announced(#[trigger] expectations[j], payload)
            },
            None => forall|j: int|
                0 <= j < expectations.len() ==> !is_as_announced(
                    #[trigger] expectations[j],
                    payload,
                ),
        },
    decreases expectations.len(),
{
    if expectations.len() > 0 {
        let rest = expectations.drop_last();
        law_matching(rest, payload);
        assert forall|j: int| 0 <= j < rest.len() implies #[trigger] expectations[j]
            == rest[j] by {}
    }
}

/// A resource from a link that has announced none, or none such, is rejected: it is counted, and
/// the link gets an error. Any other is counted with its bytes and taken; its announcement is used
/// up, and so are those that have expired.
#[verifier::rlimit(40)]
pub proof fn law_receiving(hub: Hub, now: Nanos, link: LinkId, payload: Seq<u8>)
    ensures
        ({
            let done = receiving(hub, now, link, payload);
            let counters = hub.state.counters;
            let live = awaited(hub, link, now);
            let index = fitting_index(live, payload);
            let rejected = Counters {
                resources_rejected: counted(counters.resources_rejected, 1),
                errors: counted(counters.errors, 1),
                ..counters
            };
            if !holds(hub.expected, link) {
                &&& refuses(hub, done, link, None, "resource received without expectation"@)
                &&& done.hub.state.counters == rejected
            } else if index is None {
                &&& refuses(
                    Hub { expected: put(hub.expected, link, live), ..hub },
                    done,
                    link,
                    None,
                    "resource does not match expectation"@,
                )
                &&& done.hub.state.counters == rejected
            } else {
                done == accepting(
                    Hub {
                        expected: put(hub.expected, link, live.remove(index->0)),
                        state: StateModel {
                            counters: Counters {
                                resources_received: counted(counters.resources_received, 1),
                                resource_bytes_received: counted(
                                    counters.resource_bytes_received,
                                    payload.len() as int,
                                ),
                                ..counters
                            },
                            ..hub.state
                        },
                        ..hub
                    },
                    link,
                    live[index->0],
                    payload,
                )
            }
        }),
{
    let live = awaited(hub, link, now);
    law_error(
        crate::router::resources::rejected(hub),
        link,
        None,
        "resource received without expectation"@,
    );
    law_error(
        crate::router::resources::rejected(
            Hub { expected: put(hub.expected, link, live), ..hub },
        ),
        link,
        None,
        "resource does not match expectation"@,
    );
}

/// The type of the messages in which the text of a resource is passed on.
pub open spec fn passes_as(kind: Seq<char>) -> Option<u64> {
    if kind == "message"@ || kind == "msg"@ {
        Some(T_MSG)
    } else if kind == "notice"@ {
        Some(T_NOTICE)
    } else if kind == "action"@ {
        Some(T_ACTION)
    } else {
        None
    }
}

/// Nothing comes of a blob, nor of a readable message of the day. Any other resource is to be text
/// of a known kind, in UTF-8, and not too large, and is passed on then; else it is rejected.
#[verifier::rlimit(40)]
pub proof fn law_accepting(
    hub: Hub,
    link: LinkId,
    expectation: ExpectationModel,
    payload: Seq<u8>,
)
    ensures
        ({
            let done = accepting(hub, link, expectation, payload);
            let room = expectation.room;
            let kind = expectation.kind;
            let plain = expectation.encoding is None || ascii_lower(expectation.encoding->0)
                == "utf-8"@;
            let text = decode_utf8(payload);
            if kind == "blob"@ {
                done.hub == hub && done.outs.len() == 0 && done.pending is None
            } else if !plain {
                refuses(hub, done, link, room, "unsupported resource encoding"@)
            } else if !valid_utf8(payload) {
                refuses(hub, done, link, room, "resource is not valid UTF-8"@)
            } else if kind == "motd"@ {
                done.hub == hub && done.outs.len() == 0 && done.pending is None
            } else if passes_as(kind) is None {
                refuses(hub, done, link, room, "unknown resource kind"@)
            } else if byte_len(text) > hub.config.max_resource_bytes {
                refuses(hub, done, link, room, "resource text too large"@)
            } else {
                let name = if kind == "msg"@ {
                    "message"@
                } else {
                    kind
                };
                &&& done == passing_text(hub, link, room, name, passes_as(kind)->0, text)
                &&& crate::router::kind_type(name) == passes_as(kind)->0
            }
        }),
{
    let room = expectation.room;
    let again = crate::router::resources::rejected(hub);
    law_error(again, link, room, "unsupported resource encoding"@);
    law_error(again, link, room, "resource is not valid UTF-8"@);
    law_error(again, link, room, "unknown resource kind"@);
    law_error(again, link, room, "resource text too large"@);
    law_kinds("message"@);
    lemma_lower_encoding();
    law_kinds(expectation.kind);
}

/// The encoding that is meant where none is named is in small letters.
proof fn lemma_lower_encoding()
    ensures
        ascii_lower("utf-8"@) == "utf-8"@,
{
    reveal_strlit("utf-8");
    assert(ascii_lower("utf-8"@) =~= "utf-8"@);
}

/// The text of a resource goes to a room that its sender is in, may speak in, and is not banned
/// from: to every member, or to every other member where it is a notice. Each gets the whole text,
/// from the sender, under the sender's nickname and the name of the room.
#[verifier::rlimit(40)]
pub proof fn law_resource_text_is_passed_on(
    hub: Hub,
    link: LinkId,
    name: Seq<char>,
    kind: Seq<char>,
    message_type: u64,
    text: Seq<char>,
    member: LinkId,
)
    requires
        crate::router::kind_type(kind) == message_type,
        holds(hub.state.sessions, link),
        at(hub.state.sessions, link).peer is Some,
    ensures
        ({
            let done = passing_text(hub, link, Some(name), kind, message_type, text);
            let session = at(hub.state.sessions, link);
            let peer = session.peer->0;
            let room = at(hub.state.rooms, name);
            let allowed = room.members.contains(link) && !room.banned.contains(peer) && (
            !room.moderated || room.founder == Some(peer) || room.operators.contains(peer)
                || room.voiced.contains(peer));
            if !holds(hub.state.rooms, name) {
                refuses(hub, done, link, Some(name), "no such room"@)
            } else if !allowed {
                refuses(hub, done, link, Some(name), "resource message is not allowed"@)
            } else {
                &&& same_but_counters(hub, done.hub)
                &&& done.pending is None
                &&& room.members.contains(member) && (message_type != T_NOTICE || member != link)
                    ==> exists|from: int, until: int|
                    0 <= from <= until <= done.outs.len() && #[trigger] utters(
                        done.outs.subrange(from, until),
                        member,
                        message_type,
                        peer,
                        Some(name),
                        session.nick,
                        text,
                    )
            }
        }),
{
    let session = at(hub.state.sessions, link);
    let peer = session.peer->0;
    let room = at(hub.state.rooms, name);
    law_error(
        crate::router::resources::rejected(hub),
        link,
        Some(name),
        "no such room"@,
    );
    law_error(
        crate::router::resources::rejected(hub),
        link,
        Some(name),
        "resource message is not allowed"@,
    );
    let to = if message_type == T_NOTICE {
        without(room.members, link)
    } else {
        room.members
    };
    lemma_telling_all(hub, to, peer, session.nick, name, kind, text);
    if to.contains(member) {
        let i = choose|i: int| 0 <= i < to.len() && to[i] == member;
        lemma_told_each(hub, to, peer, session.nick, name, kind, text, i);
    }
}

/// The text of a resource that names no room, or that comes from a link on which nobody is, goes
/// nowhere.
pub proof fn law_resource_text_needs_a_room(
    hub: Hub,
    link: LinkId,
    name: Option<Seq<char>>,
    kind: Seq<char>,
    message_type: u64,
    text: Seq<char>,
)
    requires
        name is None || !holds(hub.state.sessions, link) || at(
            hub.state.sessions,
            link,
        ).peer is None,
    ensures
        ({
            let done = passing_text(hub, link, name, kind, message_type, text);
            &&& same_but_counters(hub, done.hub)
            &&& done.hub.state.counters == (Counters {
                resources_rejected: counted(hub.state.counters.resources_rejected, 1),
                ..hub.state.counters
            })
            &&& done.outs.len() == 0
            &&& done.pending is None
        }),
{
}

proof fn lemma_telling_all(
    hub: Hub,
    to: Seq<LinkId>,
    source: IdentityHash,
    nick: Option<Seq<char>>,
    room: Seq<char>,
    kind: Seq<char>,
    text: Seq<char>,
)
    ensures
        same_but_counters(hub, telling_all(hub, to, source, nick, room, kind, text).hub),
    decreases to.len(),
{
    if to.len() > 0 {
        lemma_telling_all(hub, to.drop_last(), source, nick, room, kind, text);
        let before = telling_all(hub, to.drop_last(), source, nick, room, kind, text);
        law_text(before.hub, to.last(), source, nick, Some(room), kind, text);
    }
}

proof fn lemma_told_each(
    hub: Hub,
    to: Seq<LinkId>,
    source: IdentityHash,
    nick: Option<Seq<char>>,
    room: Seq<char>,
    kind: Seq<char>,
    text: Seq<char>,
    i: int,
)
    requires
        0 <= i < to.len(),
    ensures
        ({
            let outs = telling_all(hub, to, source, nick, room, kind, text).outs;
            exists|from: int, until: int|
                0 <= from <= until <= outs.len() && #[trigger] utters(
                    outs.subrange(from, until),
                    to[i],
                    crate::router::kind_type(kind),
                    source,
                    Some(room),
                    nick,
                    text,
                )
        }),
    decreases to.len(),
{
    let rest = to.drop_last();
    let before = telling_all(hub, rest, source, nick, room, kind, text);
    let last = telling(before.hub, to.last(), source, nick, Some(room), kind, text);
    let outs = telling_all(hub, to, source, nick, room, kind, text).outs;
    law_text(before.hub, to.last(), source, nick, Some(room), kind, text);
    assert(outs == before.outs + last.outs);
    if i == to.len() - 1 {
        assert(outs.subrange(before.outs.len() as int, outs.len() as int) =~= last.outs);
    } else {
        lemma_told_each(hub, rest, source, nick, room, kind, text, i);
        let (from, until) = choose|from: int, until: int|
            0 <= from <= until <= before.outs.len() && #[trigger] utters(
                before.outs.subrange(from, until),
                rest[i],
                crate::router::kind_type(kind),
                source,
                Some(room),
                nick,
                text,
            );
        assert(outs.subrange(from, until) =~= before.outs.subrange(from, until));
    }
}

/// A stamp puts an identifier and a time on an envelope, and leaves its other fields alone.
pub proof fn law_stamp(fields: FieldMap, id: Seq<u8>, millis: int, key: i128)
    ensures
        field(stamped(fields, id, millis), K_ID) == Some(Cbor::Bytes(id)),
        field(stamped(fields, id, millis), K_TS) == Some(Cbor::Integer(millis)),
        key != K_ID && key != K_TS ==> field(stamped(fields, id, millis), key) == field(
            fields,
            key,
        ),
{
}

/// An envelope of the hub goes to its link stamped; one of a client goes to every recipient as it
/// is. What cannot be encoded is not sent.
pub proof fn law_envelopes_are_sent(
    to: LinkId,
    fields: FieldMap,
    recipients: Seq<LinkId>,
    draw: Draw,
    millis: int,
)
    ensures
        sealed_one(single(to, fields), draw, millis) == match encoded(
            stamped(fields, draw.id@, millis),
        ) {
            Ok(payload) => seq![ActionModel::Send(to, payload)],
            Err(_) => Seq::empty(),
        },
        sealed_one(
            Out::Forward(ParcelModel { to: recipients, fields }),
            draw,
            millis,
        ) == match encoded(fields) {
            Ok(payload) => Seq::new(
                recipients.len(),
                |i: int| ActionModel::Send(recipients[i], payload),
            ),
            Err(_) => Seq::empty(),
        },
        sealed_one(Out::Close(to), draw, millis) == seq![ActionModel::Close(to)],
{
    let parcels = seq![ParcelModel { to: seq![to], fields }];
    assert(parcels.drop_last() =~= Seq::<ParcelModel>::empty());
    assert(parcels.last() == parcels[0]);
    reveal_with_fuel(crate::outgoing::sends_all, 2);
    assert(sealed_one(single(to, fields), draw, millis) =~= match encoded(
        stamped(fields, draw.id@, millis),
    ) {
        Ok(payload) => seq![ActionModel::Send(to, payload)],
        Err(_) => Seq::empty(),
    });
}

/// An envelope with a structured part goes to its link stamped, with that part.
pub proof fn law_structured_are_sent(
    to: LinkId,
    fields: FieldMap,
    extension: ExtensionModel,
    draw: Draw,
    millis: int,
)
    ensures
        sealed_one(Out::Extended(to, fields, extension), draw, millis) == seq![
            ActionModel::SendExtended(to, stamped(fields, draw.id@, millis), extension),
        ],
{
}

/// Each recipient of each envelope in a list gets it, all under one identifier.
pub proof fn law_lists_are_sent(
    parcels: Seq<ParcelModel>,
    draw: Draw,
    millis: int,
    j: int,
    i: int,
)
    requires
        0 <= j < parcels.len(),
        0 <= i < parcels[j].to.len(),
        encoded(stamped(parcels[j].fields, draw.id@, millis)) is Ok,
    ensures
        sealed_one(Out::Packets(parcels), draw, millis).contains(
            ActionModel::Send(
                parcels[j].to[i],
                encoded(stamped(parcels[j].fields, draw.id@, millis))->Ok_0,
            ),
        ),
    decreases parcels.len(),
{
    let rest = parcels.drop_last();
    let less = crate::outgoing::sends_all(rest, draw.id@, millis);
    let all = crate::outgoing::sends_all(parcels, draw.id@, millis);
    let last = crate::outgoing::sends(
        parcels.last().to,
        stamped(parcels.last().fields, draw.id@, millis),
    );
    assert(all == less + last);
    let wanted = ActionModel::Send(
        parcels[j].to[i],
        encoded(stamped(parcels[j].fields, draw.id@, millis))->Ok_0,
    );
    if j == parcels.len() - 1 {
        assert(last[i] == wanted);
        assert(all[less.len() + i] == wanted);
    } else {
        law_lists_are_sent(rest, draw, millis, j, i);
        let k = choose|k: int| 0 <= k < less.len() && less[k] == wanted;
        assert(all[k] == wanted);
    }
}

/// A resource is announced with its identifier, its kind, its size, its digest and its encoding,
/// from its source and under its room and nickname, and sent behind that as UTF-8.
pub proof fn law_offers_are_sent(offer: OfferModel, draw: Draw, millis: int)
    ensures
        ({
            let actions = sealed_one(Out::Offer(offer), draw, millis);
            let told = offer_draft(offer, draw.resource@);
            let body = map_field(told, K_BODY)->0;
            let payload = encode_utf8(offer.text);
            &&& actions.last() == ActionModel::SendResource(offer.to, payload)
            &&& actions.drop_last() == match encoded(stamped(told, draw.id@, millis)) {
                Ok(packet) => seq![ActionModel::Send(offer.to, packet)],
                Err(_) => Seq::empty(),
            }
            &&& field(told, K_V) == Some(Cbor::Integer(VERSION as int))
            &&& field(told, K_T) == Some(Cbor::Integer(T_RESOURCE_ENVELOPE as int))
            &&& field(told, K_SRC) == Some(Cbor::Bytes(offer.source@))
            &&& field(told, K_ROOM) == text_value(offer.room)
            &&& field(told, K_NICK) == text_value(offer.nick)
            &&& field(told, K_DST) is None
            &&& map_field(told, K_BODY) is Some
            &&& field(body, B_RES_ID) == Some(Cbor::Bytes(draw.resource@))
            &&& field(body, B_RES_KIND) == Some(Cbor::Text(offer.kind))
            &&& field(body, B_RES_SIZE) == Some(Cbor::Integer(payload.len() as int))
            &&& field(body, B_RES_SHA256) == Some(Cbor::Bytes(sha256_of(payload)))
            &&& field(body, B_RES_ENCODING) == Some(Cbor::Text("utf-8"@))
        }),
{
    let told = offer_draft(offer, draw.resource@);
    let actions = sealed_one(Out::Offer(offer), draw, millis);
    assert(actions.drop_last() =~= match encoded(stamped(told, draw.id@, millis)) {
        Ok(packet) => seq![ActionModel::Send(offer.to, packet)],
        Err(_) => Seq::empty(),
    });
}

/// A resource that the hub announces is one that a hub would take: what is announced of it is in
/// good order, and what is sent is as announced.
pub proof fn law_offers_are_in_good_order(
    offer: OfferModel,
    id: Seq<u8>,
    max_bytes: usize,
    expires: Nanos,
)
    requires
        offer.kind.len() > 0,
        encode_utf8(offer.text).len() <= max_bytes,
        sha256_of(encode_utf8(offer.text)).len() == 32,
    ensures
        ({
            let body = map_field(offer_draft(offer, id), K_BODY)->0;
            let result = announced(body, max_bytes, offer.room, expires);
            &&& result is Ok
            &&& is_as_announced(result->Ok_0, encode_utf8(offer.text))
        }),
{
}

/// Everything that goes out is sent, and nothing else.
pub proof fn law_all_is_sent(
    outs: Seq<Out>,
    draws: Seq<Draw>,
    millis: int,
    action: ActionModel,
)
    requires
        draws.len() == outs.len(),
    ensures
        sealed(outs, draws, millis).contains(action) == exists|k: int|
            0 <= k < outs.len() && #[trigger] sealed_one(outs[k], draws[k], millis).contains(
                action,
            ),
    decreases outs.len(),
{
    if outs.len() > 0 {
        let rest = outs.drop_last();
        let fewer = draws.drop_last();
        law_all_is_sent(rest, fewer, millis, action);
        lemma_fewer_draws(rest, draws, fewer, millis);
        let less = sealed(rest, fewer, millis);
        let last = sealed_one(outs.last(), draws[outs.len() - 1], millis);
        let all = sealed(outs, draws, millis);
        assert(all == less + last);
        if less.contains(action) {
            let i = choose|i: int| 0 <= i < less.len() && less[i] == action;
            assert(all[i] == action);
            let k = choose|k: int|
                0 <= k < rest.len() && #[trigger] sealed_one(rest[k], fewer[k], millis).contains(
                    action,
                );
            assert(sealed_one(outs[k], draws[k], millis).contains(action));
        }
        if last.contains(action) {
            let i = choose|i: int| 0 <= i < last.len() && last[i] == action;
            assert(all[less.len() + i] == action);
            assert(sealed_one(outs[outs.len() - 1], draws[outs.len() - 1], millis).contains(
                action,
            ));
        }
        if all.contains(action) {
            let i = choose|i: int| 0 <= i < all.len() && all[i] == action;
            if i < less.len() {
                assert(less[i] == action);
            } else {
                assert(last[i - less.len()] == action);
            }
        }
        if exists|k: int|
            0 <= k < outs.len() && #[trigger] sealed_one(outs[k], draws[k], millis).contains(
                action,
            ) {
            let k = choose|k: int|
                0 <= k < outs.len() && #[trigger] sealed_one(outs[k], draws[k], millis).contains(
                    action,
                );
            if k < rest.len() {
                assert(sealed_one(rest[k], fewer[k], millis).contains(action));
            }
        }
    }
}

proof fn lemma_fewer_draws(outs: Seq<Out>, draws: Seq<Draw>, fewer: Seq<Draw>, millis: int)
    requires
        outs.len() <= fewer.len() <= draws.len(),
        forall|i: int| 0 <= i < fewer.len() ==> #[trigger] fewer[i] == draws[i],
    ensures
        sealed(outs, draws, millis) == sealed(outs, fewer, millis),
    decreases outs.len(),
{
    if outs.len() > 0 {
        lemma_fewer_draws(outs.drop_last(), draws, fewer, millis);
    }
}

/// Sending counts the bytes that are sent, and changes nothing else.
pub proof fn law_sending(hub: Hub, actions: Seq<ActionModel>)
    ensures
        sent(hub, actions) == (Hub {
            state: StateModel {
                counters: Counters {
                    bytes_out: counted(hub.state.counters.bytes_out, sent_bytes(actions)),
                    ..hub.state.counters
                },
                ..hub.state
            },
            ..hub
        }),
{
}

/// A counter counts on, and begins again at zero behind the last number of 64 bits.
pub proof fn law_counting(count: u64, more: nat)
    ensures
        count + more <= u64::MAX ==> counted(count, more as int) == count + more,
        counted(u64::MAX, 1) == 0,
{
}

/// The bytes that are counted as sent are those of the packets that are sent.
pub proof fn law_bytes_sent(actions: Seq<ActionModel>, action: ActionModel)
    ensures
        sent_bytes(actions.push(action)) == sent_bytes(actions) + match action {
            ActionModel::Send(_, payload) => payload.len() as int,
            _ => 0,
        },
        actions.len() == 0 ==> sent_bytes(actions) == 0,
{
}

} // verus!
