//! Large payloads: announced in an envelope, awaited for a while, checked when they arrive.

use crate::cbor::{copy_bytes, same_bytes, Datum, Fields};
use crate::clock::{add_time, later, Nanos};
use crate::collections::{
    group_collections, group_sequences, kept, lookup, models, put, without, Key, Model,
};
use crate::constants::{
    B_RES_ENCODING, B_RES_ID, B_RES_KIND, B_RES_SHA256, B_RES_SIZE, K_BODY, K_ROOM, T_ACTION,
    T_MSG, T_NOTICE,
};
use crate::outgoing::{borrowed, owned, sha256, sha256_of, text_view, Outgoing};
use crate::protocol::{
    bytes_field, field, map_field, map_get, text_field, unsigned_field, Envelope, FieldMap,
};
use crate::state::{count, counted, speaks, Counters, IdentityHash, LinkId};
use crate::text::{
    ascii_lower, byte_len, from_utf8, same_text, text_len, to_ascii_lower,
};
use super::messages::forwarded;
use super::{
    after, failing, idle, nothing, only, recounted, saying, telling, turn, ExpectationModel, Hub,
    Reply, ResourceExpectation, Router, Turn,
};
use vstd::prelude::*;
use vstd::utf8::{decode_utf8, valid_utf8};

verus! {

broadcast use {group_collections, group_sequences};

/// The size that the announcement of a resource gives.
pub open spec fn announced_size(body: FieldMap) -> Option<usize> {
    match unsigned_field(body, B_RES_SIZE) {
        Some(size) => if size <= usize::MAX {
            Some(size as usize)
        } else {
            None
        },
        None => None,
    }
}

/// What an announcement says, or what is wrong with it.
pub open spec fn announced(
    body: FieldMap,
    max_bytes: usize,
    room: Option<Seq<char>>,
    expires: Nanos,
) -> Result<ExpectationModel, Seq<char>> {
    let kind = text_field(body, B_RES_KIND);
    let digest = bytes_field(body, B_RES_SHA256);
    let encoding = text_field(body, B_RES_ENCODING);
    if bytes_field(body, B_RES_ID) is None {
        Err("resource envelope missing id"@)
    } else if kind is None || kind->0.len() == 0 {
        Err("resource envelope missing kind"@)
    } else if (field(body, B_RES_SHA256) is Some && (digest is None || digest->0.len() != 32)) || (
    field(body, B_RES_ENCODING) is Some && encoding is None) || announced_size(body) is None {
        Err("invalid resource envelope"@)
    } else if announced_size(body)->0 > max_bytes {
        Err("resource too large"@)
    } else {
        Ok(
            ExpectationModel {
                id: bytes_field(body, B_RES_ID)->0,
                kind: kind->0,
                size: announced_size(body)->0,
                sha256: digest,
                encoding,
                room,
                expires,
            },
        )
    }
}

/// Whether an expectation has not expired, as a function.
pub open spec fn being_awaited(now: Nanos) -> spec_fn(ExpectationModel) -> bool {
    |expectation: ExpectationModel| expectation.expires > now
}

/// The resources that are still awaited on `link`.
pub open spec fn awaited(hub: Hub, link: LinkId, now: Nanos) -> Seq<ExpectationModel> {
    match lookup(hub.expected, link) {
        Some(expectations) => kept(expectations, being_awaited(now)),
        None => Seq::empty(),
    }
}

/// The hub with other expectations on `link`.
pub open spec fn expecting(hub: Hub, link: LinkId, expectations: Seq<ExpectationModel>) -> Hub {
    Hub { expected: put(hub.expected, link, expectations), ..hub }
}

/// What the hub does with the announcement of a resource.
pub open spec fn announcing_resource(
    hub: Hub,
    now: Nanos,
    link: LinkId,
    fields: FieldMap,
) -> Turn {
    let room = text_field(fields, K_ROOM);
    if !hub.config.enable_resource_transfer {
        failing(hub, link, room, "resource transfer disabled"@)
    } else {
        match map_field(fields, K_BODY) {
            None => failing(hub, link, room, "invalid resource envelope body"@),
            Some(body) => match announced(
                body,
                hub.config.max_resource_bytes,
                room,
                later(now, hub.config.resource_expectation_ttl),
            ) {
                Err(text) => failing(hub, link, room, text),
                Ok(expectation) => {
                    let live = awaited(hub, link, now);
                    if live.len() >= hub.config.max_pending_resource_expectations {
                        failing(
                            expecting(hub, link, live),
                            link,
                            room,
                            "too many pending resource expectations"@,
                        )
                    } else {
                        idle(expecting(hub, link, live.push(expectation)))
                    }
                },
            },
        }
    }
}

/// Whether a payload is what is expected.
pub open spec fn fits(expectation: ExpectationModel, payload: Seq<u8>) -> bool {
    expectation.size == payload.len() && (expectation.sha256 is None || expectation.sha256 == Some(
        sha256_of(payload),
    ))
}

/// The first expectation that a payload fits.
pub open spec fn fitting_index(
    expectations: Seq<ExpectationModel>,
    payload: Seq<u8>,
) -> Option<int>
    decreases expectations.len(),
{
    if expectations.len() == 0 {
        None
    } else {
        match fitting_index(expectations.drop_last(), payload) {
            Some(index) => Some(index),
            None => if fits(expectations.last(), payload) {
                Some(expectations.len() - 1)
            } else {
                None
            },
        }
    }
}

/// The hub with one more rejected resource.
pub open spec fn rejected(hub: Hub) -> Hub {
    let counters = hub.state.counters;
    recounted(
        hub,
        Counters { resources_rejected: counted(counters.resources_rejected, 1), ..counters },
    )
}

/// A rejected resource, and why.
pub open spec fn rejecting(
    hub: Hub,
    link: LinkId,
    room: Option<Seq<char>>,
    text: Seq<char>,
) -> Turn {
    failing(rejected(hub), link, room, text)
}

/// The kind and the message type that the text of a resource is passed on under.
pub open spec fn text_kind(kind: Seq<char>) -> Option<(Seq<char>, u64)> {
    if kind == "message"@ || kind == "msg"@ {
        Some(("message"@, T_MSG))
    } else if kind == "notice"@ {
        Some(("notice"@, T_NOTICE))
    } else if kind == "action"@ {
        Some(("action"@, T_ACTION))
    } else {
        None
    }
}

/// A text to each of the links.
pub open spec fn telling_all(
    hub: Hub,
    to: Seq<LinkId>,
    source: IdentityHash,
    nick: Option<Seq<char>>,
    room: Seq<char>,
    kind: Seq<char>,
    text: Seq<char>,
) -> Turn
    decreases to.len(),
{
    if to.len() == 0 {
        idle(hub)
    } else {
        let before = telling_all(hub, to.drop_last(), source, nick, room, kind, text);
        after(
            before.outs,
            telling(before.hub, to.last(), source, nick, Some(room), kind, text),
        )
    }
}

/// What the hub does with the text of a resource for a room. A notice does not go back to the
/// link that it came from.
pub open spec fn passing_text(
    hub: Hub,
    link: LinkId,
    name: Option<Seq<char>>,
    kind: Seq<char>,
    message_type: u64,
    text: Seq<char>,
) -> Turn {
    match name {
        None => idle(rejected(hub)),
        Some(name) => match lookup(hub.state.sessions, link) {
            None => idle(rejected(hub)),
            Some(session) => match session.peer {
                None => idle(rejected(hub)),
                Some(peer) => match lookup(hub.state.rooms, name) {
                    None => rejecting(hub, link, Some(name), "no such room"@),
                    Some(room) => if !room.members.contains(link) || !speaks(room, peer)
                        || room.banned.contains(peer) {
                        rejecting(hub, link, Some(name), "resource message is not allowed"@)
                    } else {
                        let to = if message_type == T_NOTICE {
                            without(room.members, link)
                        } else {
                            room.members
                        };
                        let told = telling_all(hub, to, peer, session.nick, name, kind, text);
                        saying(forwarded(told.hub, message_type), told.outs)
                    },
                },
            },
        },
    }
}

/// The encoding of a resource; UTF-8 where none is given.
pub open spec fn encoding_of(expectation: ExpectationModel) -> Seq<char> {
    match expectation.encoding {
        Some(encoding) => encoding,
        None => "utf-8"@,
    }
}

/// What the hub does with a payload that was expected.
pub open spec fn accepting(
    hub: Hub,
    link: LinkId,
    expectation: ExpectationModel,
    payload: Seq<u8>,
) -> Turn {
    let room = expectation.room;
    let text = decode_utf8(payload);
    if expectation.kind == "blob"@ {
        idle(hub)
    } else if ascii_lower(encoding_of(expectation)) != "utf-8"@ {
        rejecting(hub, link, room, "unsupported resource encoding"@)
    } else if !valid_utf8(payload) {
        rejecting(hub, link, room, "resource is not valid UTF-8"@)
    } else if expectation.kind == "motd"@ {
        idle(hub)
    } else {
        match text_kind(expectation.kind) {
            None => rejecting(hub, link, room, "unknown resource kind"@),
            Some((kind, message_type)) => if byte_len(text) > hub.config.max_resource_bytes {
                rejecting(hub, link, room, "resource text too large"@)
            } else {
                passing_text(hub, link, room, kind, message_type, text)
            },
        }
    }
}

/// The hub with one more received resource.
pub open spec fn received(hub: Hub, size: int) -> Hub {
    let counters = hub.state.counters;
    recounted(
        hub,
        Counters {
            resources_received: counted(counters.resources_received, 1),
            resource_bytes_received: counted(counters.resource_bytes_received, size),
            ..counters
        },
    )
}

/// What the hub does with a resource that has arrived.
pub open spec fn receiving(hub: Hub, now: Nanos, link: LinkId, payload: Seq<u8>) -> Turn {
    match lookup(hub.expected, link) {
        None => rejecting(hub, link, None, "resource received without expectation"@),
        Some(_) => {
            let live = awaited(hub, link, now);
            match fitting_index(live, payload) {
                None => rejecting(
                    expecting(hub, link, live),
                    link,
                    None,
                    "resource does not match expectation"@,
                ),
                Some(index) => accepting(
                    received(
                        expecting(hub, link, live.remove(index)),
                        payload.len() as int,
                    ),
                    link,
                    live[index],
                    payload,
                ),
            }
        },
    }
}

/// Reads the announcement of a resource.
fn read_announcement(
    body: &Fields,
    max_bytes: usize,
    room: Option<&str>,
    expires: Nanos,
) -> (result: Result<ResourceExpectation, String>)
    ensures
        match result {
            Ok(expectation) => announced(body.map(), max_bytes, text_view(room), expires) == Ok::<
                ExpectationModel,
                Seq<char>,
            >(expectation.model()),
            Err(text) => announced(body.map(), max_bytes, text_view(room), expires) == Err::<
                ExpectationModel,
                Seq<char>,
            >(text@),
        },
{
    let id = match map_get(body, B_RES_ID) {
        Some(Datum::Bytes(id)) => copy_bytes(id.as_slice()),
        _ => return Err(String::from_str("resource envelope missing id")),
    };
    let kind = match map_get(body, B_RES_KIND) {
        Some(Datum::Text(kind)) => kind.clone(),
        _ => return Err(String::from_str("resource envelope missing kind")),
    };
    if kind.as_str().is_empty() {
        return Err(String::from_str("resource envelope missing kind"));
    }
    let sha256 = match map_get(body, B_RES_SHA256) {
        None => None,
        Some(Datum::Bytes(digest)) => if digest.len() == 32 {
            Some(copy_bytes(digest.as_slice()))
        } else {
            return Err(String::from_str("invalid resource envelope"));
        },
        Some(_) => return Err(String::from_str("invalid resource envelope")),
    };
    let encoding = match map_get(body, B_RES_ENCODING) {
        None => None,
        Some(Datum::Text(encoding)) => Some(encoding.clone()),
        Some(_) => return Err(String::from_str("invalid resource envelope")),
    };
    let size: usize = match map_get(body, B_RES_SIZE) {
        Some(Datum::Integer(size)) => if *size >= 0 && *size <= usize::MAX as i128 {
            *size as usize
        } else {
            return Err(String::from_str("invalid resource envelope"));
        },
        _ => return Err(String::from_str("invalid resource envelope")),
    };
    if size > max_bytes {
        return Err(String::from_str("resource too large"));
    }
    Ok(ResourceExpectation { id, kind, size, sha256, encoding, room: owned(room), expires })
}

/// Whether a payload with this digest is what is expected.
fn is_fitting(
    expectation: &ResourceExpectation,
    payload: &Vec<u8>,
    digest: &Vec<u8>,
) -> (result: bool)
    requires
        digest@ == sha256_of(payload@),
    ensures
        result == fits(expectation.model(), payload@),
{
    if expectation.size != payload.len() {
        return false;
    }
    match &expectation.sha256 {
        Some(expected) => same_bytes(expected.as_slice(), digest.as_slice()),
        None => true,
    }
}

fn find_fitting(
    expectations: &Vec<ResourceExpectation>,
    payload: &Vec<u8>,
    digest: &Vec<u8>,
) -> (result: Option<usize>)
    requires
        digest@ == sha256_of(payload@),
    ensures
        match result {
            Some(index) => fitting_index(models(expectations@), payload@) == Some(index as int)
                && index < expectations@.len(),
            None => fitting_index(models(expectations@), payload@) is None,
        },
{
    let ghost all = models(expectations@);
    let mut found: Option<usize> = None;
    let mut i: usize = 0;
    while i < expectations.len()
        invariant
            i <= expectations@.len(),
            digest@ == sha256_of(payload@),
            all == models(expectations@),
            match found {
                Some(index) => index < i && fitting_index(all.take(i as int), payload@) == Some(
                    index as int,
                ),
                None => fitting_index(all.take(i as int), payload@) is None,
            },
        decreases expectations@.len() - i,
    {
        assert(all.take(i + 1).drop_last() == all.take(i as int));
        if found.is_none() && is_fitting(&expectations[i], payload, digest) {
            found = Some(i);
        }
        i += 1;
    }
    found
}

/// Drops the expectations that have expired.
fn expire(expectations: &mut Vec<ResourceExpectation>, now: Nanos)
    ensures
        models(final(expectations)@) == kept(models(old(expectations)@), being_awaited(now)),
{
    let ghost all = models(expectations@);
    let ghost mut done: int = 0;
    let mut i: usize = 0;
    assert(models(expectations@) =~= kept(all.take(0), being_awaited(now)) + all.skip(0));
    while i < expectations.len()
        invariant
            0 <= done <= all.len(),
            i <= expectations@.len(),
            models(expectations@) == kept(all.take(done), being_awaited(now)) + all.skip(done),
            kept(all.take(done), being_awaited(now)).len() == i,
        decreases expectations@.len() - i,
    {
        let ghost current = models(expectations@);
        proof {
            assert(current[i as int] == all.skip(done)[0]);
            assert(all.take(done + 1).drop_last() == all.take(done));
            assert(all.take(done + 1).last() == all[done]);
        }
        if expectations[i].expires > now {
            assert(models(expectations@) =~= kept(all.take(done + 1), being_awaited(now))
                + all.skip(done + 1));
            i += 1;
        } else {
            expectations.remove(i);
            assert(models(expectations@) =~= current.remove(i as int));
            assert(models(expectations@) =~= kept(all.take(done + 1), being_awaited(now))
                + all.skip(done + 1));
        }
        proof {
            done = done + 1;
        }
    }
    assert(all.skip(done).len() == 0);
    assert(all.take(done) =~= all);
    assert(models(expectations@) =~= kept(all, being_awaited(now)));
}

impl Router {
    /// Handles the announcement of a resource.
    pub(crate) fn resource_envelope(
        &mut self,
        now: Nanos,
        link: LinkId,
        envelope: &Envelope,
    ) -> (result: Reply)
        ensures
            turn(final(self).model(), result) == announcing_resource(
                old(self).model(),
                now,
                link,
                envelope.fields.map(),
            ),
    {
        let room = envelope.text(K_ROOM);
        if !self.config.enable_resource_transfer {
            return self.refuse(link, room, "resource transfer disabled");
        }
        let body = match envelope.map(K_BODY) {
            Some(body) => body,
            None => return self.refuse(link, room, "invalid resource envelope body"),
        };
        let expires: Nanos = add_time(now, self.config.resource_expectation_ttl);
        let expectation = match read_announcement(
            body,
            self.config.max_resource_bytes,
            room,
            expires,
        ) {
            Ok(expectation) => expectation,
            Err(text) => return self.refuse(link, room, text.as_str()),
        };
        if !self.pending_resources.contains_key(&link) {
            self.pending_resources.insert(link, Vec::new());
        }
        let mut full = false;
        if let Some(expectations) = self.pending_resources.get_mut(&link) {
            expire(expectations, now);
            full = expectations.len() >= self.config.max_pending_resource_expectations;
            if !full {
                expectations.push(expectation);
            }
        }
        if full {
            return self.refuse(link, room, "too many pending resource expectations");
        }
        nothing()
    }

    fn reject(&mut self, link: LinkId, room: Option<&str>, text: &str) -> (result: Reply)
        ensures
            turn(final(self).model(), result) == rejecting(
                old(self).model(),
                link,
                text_view(room),
                text@,
            ),
    {
        self.state.counters.resources_rejected = count(
            self.state.counters.resources_rejected,
            1,
        );
        self.refuse(link, room, text)
    }

    fn reject_silently(&mut self) -> (result: Reply)
        ensures
            turn(final(self).model(), result) == idle(rejected(old(self).model())),
    {
        self.state.counters.resources_rejected = count(
            self.state.counters.resources_rejected,
            1,
        );
        nothing()
    }

    fn tell_all(
        &mut self,
        to: &Vec<LinkId>,
        source: IdentityHash,
        nick: Option<&str>,
        room: &str,
        kind: &str,
        text: &str,
    ) -> (result: Vec<Outgoing>)
        ensures
            saying(final(self).model(), models(result@)) == telling_all(
                old(self).model(),
                to@,
                source,
                text_view(nick),
                room@,
                kind@,
                text@,
            ),
    {
        let ghost start = self.model();
        let mut outs: Vec<Outgoing> = Vec::new();
        let mut i: usize = 0;
        while i < to.len()
            invariant
                i <= to@.len(),
                saying(self.model(), models(outs@)) == telling_all(
                    start,
                    to@.take(i as int),
                    source,
                    text_view(nick),
                    room@,
                    kind@,
                    text@,
                ),
            decreases to@.len() - i,
        {
            assert(to@.take(i + 1).drop_last() == to@.take(i as int));
            let mut more = self.resource_text_actions(
                to[i],
                source,
                nick,
                Some(room),
                kind,
                text,
            );
            outs.append(&mut more);
            i += 1;
        }
        outs
    }

    fn pass_text(
        &mut self,
        link: LinkId,
        name: &Option<String>,
        kind: &str,
        message_type: u64,
        text: &str,
    ) -> (result: Reply)
        ensures
            turn(final(self).model(), result) == passing_text(
                old(self).model(),
                link,
                name.model(),
                kind@,
                message_type,
                text@,
            ),
    {
        let name = match name {
            Some(name) => name,
            None => return self.reject_silently(),
        };
        let (peer, nick) = match self.state.sessions.get(&link) {
            Some(session) => match session.peer {
                Some(peer) => (peer, session.nick.duplicate()),
                None => return self.reject_silently(),
            },
            None => return self.reject_silently(),
        };
        let (allowed, to) = match self.state.rooms.get(name) {
            Some(room) => {
                let allowed = room.members.contains(&link) && room.may_speak(&peer)
                    && !room.banned.contains(&peer);
                let mut members = room.members.duplicate();
                if message_type == T_NOTICE {
                    members.remove(&link);
                }
                (allowed, members.to_links())
            },
            None => return self.reject(link, Some(name.as_str()), "no such room"),
        };
        if !allowed {
            return self.reject(link, Some(name.as_str()), "resource message is not allowed");
        }
        let outs = self.tell_all(&to, peer, borrowed(&nick), name.as_str(), kind, text);
        self.count_forwarded(message_type);
        only(outs)
    }

    fn accept(
        &mut self,
        link: LinkId,
        expectation: &ResourceExpectation,
        payload: Vec<u8>,
    ) -> (result: Reply)
        ensures
            turn(final(self).model(), result) == accepting(
                old(self).model(),
                link,
                expectation.model(),
                payload@,
            ),
    {
        let room = borrowed(&expectation.room);
        let kind = expectation.kind.as_str();
        if same_text(kind, "blob") {
            return nothing();
        }
        let plain = match &expectation.encoding {
            Some(encoding) => same_text(to_ascii_lower(encoding.as_str()).as_str(), "utf-8"),
            None => {
                proof {
                    reveal_strlit("utf-8");
                    assert(ascii_lower("utf-8"@) =~= "utf-8"@);
                }
                true
            },
        };
        if !plain {
            return self.reject(link, room, "unsupported resource encoding");
        }
        let text = match from_utf8(payload) {
            Some(text) => text,
            None => return self.reject(link, room, "resource is not valid UTF-8"),
        };
        if same_text(kind, "motd") {
            return nothing();
        }
        let (passed_kind, message_type) = if same_text(kind, "message") || same_text(kind, "msg") {
            ("message", T_MSG)
        } else if same_text(kind, "notice") {
            ("notice", T_NOTICE)
        } else if same_text(kind, "action") {
            ("action", T_ACTION)
        } else {
            return self.reject(link, room, "unknown resource kind");
        };
        if text_len(text.as_str()) > self.config.max_resource_bytes {
            return self.reject(link, room, "resource text too large");
        }
        self.pass_text(link, &expectation.room, passed_kind, message_type, text.as_str())
    }

    /// Handles a resource that has arrived.
    pub(crate) fn receive(&mut self, now: Nanos, link: LinkId, payload: Vec<u8>) -> (result: Reply)
        ensures
            turn(final(self).model(), result) == receiving(
                old(self).model(),
                now,
                link,
                payload@,
            ),
    {
        let digest = sha256(payload.as_slice());
        if !self.pending_resources.contains_key(&link) {
            return self.reject(link, None, "resource received without expectation");
        }
        let mut taken: Option<ResourceExpectation> = None;
        if let Some(expectations) = self.pending_resources.get_mut(&link) {
            expire(expectations, now);
            let ghost live = models(expectations@);
            if let Some(index) = find_fitting(expectations, &payload, &digest) {
                taken = Some(expectations.remove(index));
                assert(models(expectations@) =~= live.remove(index as int));
            }
        }
        let expectation = match taken {
            Some(expectation) => expectation,
            None => return self.reject(link, None, "resource does not match expectation"),
        };
        let counters = self.state.counters;
        self.state.counters.resources_received = count(counters.resources_received, 1);
        self.state.counters.resource_bytes_received = count(
            counters.resource_bytes_received,
            payload.len(),
        );
        self.accept(link, &expectation, payload)
    }
}

} // verus!
