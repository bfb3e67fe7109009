//! Targets: whom a token means.

use crate::collections::{group_collections, group_sequences};
use crate::router::targets::{
    candidates, candidate_line, listed, resolved, target_report, Candidate,
};
use crate::state::{IdentityHash, SessionModel};
use crate::router::Hub;
use crate::text::{after_0x, decimal, digit_value, hexadecimal, joined, lowercase, quoted, trimmed};
use super::authority::lemma_candidates;
use super::order::{in_order, law_rankings_are_orders, law_sorted};
use vstd::prelude::*;

verus! {

broadcast use {group_collections, group_sequences};

/// Whether a text in small letters is the beginning of an identity in hexadecimal, of three bytes
/// or more.
pub open spec fn begins_identity(text: Seq<char>, peer: IdentityHash) -> bool {
    &&& text.len() >= 6
    &&& text.len() % 2 == 0
    &&& text.len() <= hexadecimal(peer@).len()
    &&& forall|i: int| 0 <= i < text.len() ==> #[trigger] text[i] == hexadecimal(peer@)[i]
}

/// Whether a session is one that a token means, in a room where one is named: the token is the
/// nickname without regard to case, or the beginning of the identity.
pub open spec fn is_meant(
    session: SessionModel,
    token: Seq<char>,
    room: Option<Seq<char>>,
    peer: IdentityHash,
) -> bool {
    let plain = lowercase(trimmed(token));
    &&& session.peer == Some(peer)
    &&& room is Some ==> session.rooms.contains(room->0)
    &&& (session.nick is Some && lowercase(session.nick->0) == plain) || begins_identity(
        after_0x(plain),
        peer,
    )
}

/// A token means the identities on those sessions that it names, in the order of their bytes; an
/// empty token means nobody.
pub proof fn law_meaning(
    hub: Hub,
    token: Seq<char>,
    room: Option<Seq<char>>,
    peer: IdentityHash,
)
    ensures
        listed(resolved(hub, token, room), peer) == (lowercase(trimmed(token)).len() > 0
            && exists|i: int|
            0 <= i < hub.state.sessions.len() && #[trigger] is_meant(
                hub.state.sessions[i].1,
                token,
                room,
                peer,
            )),
        in_order(resolved(hub, token, room), crate::collections::ranking::<Candidate>()),
{
    let sessions = hub.state.sessions;
    let plain = lowercase(trimmed(token));
    let found = candidates(sessions, plain, room);
    let all = resolved(hub, token, room);
    if plain.len() > 0 {
        lemma_candidates(sessions, plain, room, peer);
        law_rankings_are_orders();
        law_sorted(found, crate::collections::ranking::<Candidate>());
        assert(listed(all, peer) == listed(found, peer)) by {
            if listed(all, peer) {
                let i = choose|i: int| 0 <= i < all.len() && (#[trigger] all[i]).identity == peer;
                assert(all.contains(all[i]));
                let j = choose|j: int| 0 <= j < found.len() && found[j] == all[i];
                assert(found[j].identity == peer);
            }
            if listed(found, peer) {
                let i = choose|i: int|
                    0 <= i < found.len() && (#[trigger] found[i]).identity == peer;
                assert(found.contains(found[i]));
                assert(all.contains(found[i]));
                let j = choose|j: int| 0 <= j < all.len() && all[j] == found[i];
                assert(all[j].identity == peer);
            }
        }
        assert forall|session: SessionModel| #[trigger]
            is_meant(session, token, room, peer) == (session.peer == Some(peer)
                && crate::router::targets::within(session, room) && crate::router::targets::means(
                plain,
                session,
            )) by {
            lemma_beginning(after_0x(plain), peer);
        }
        if listed(found, peer) {
            let i = choose|i: int|
                0 <= i < sessions.len() && (#[trigger] sessions[i]).1.peer == Some(peer)
                    && crate::router::targets::within(sessions[i].1, room)
                    && crate::router::targets::means(plain, sessions[i].1);
            assert(is_meant(sessions[i].1, token, room, peer));
        }
        if exists|i: int|
            0 <= i < sessions.len() && #[trigger] is_meant(sessions[i].1, token, room, peer) {
            let i = choose|i: int|
                0 <= i < sessions.len() && #[trigger] is_meant(sessions[i].1, token, room, peer);
            assert(sessions[i].1.peer == Some(peer));
        }
    }
}

proof fn lemma_beginning(text: Seq<char>, peer: IdentityHash)
    ensures
        begins_identity(text, peer) == (crate::router::targets::is_hash_prefix(text)
            && crate::text::starts(hexadecimal(peer@), text)),
{
    let whole = hexadecimal(peer@);
    if begins_identity(text, peer) {
        assert(whole.take(text.len() as int) =~= text);
        assert forall|i: int| 0 <= i < text.len() implies digit_value(#[trigger] text[i]) is Some by {
            assert(text[i] == whole[i]);
            let byte = peer@[i / 2];
            assert(0 <= byte as int / 16 < 16 && 0 <= byte as int % 16 < 16);
        }
    }
    if crate::text::starts(whole, text) {
        assert forall|i: int| 0 <= i < text.len() implies #[trigger] text[i] == whole[i] by {
            assert(whole.take(text.len() as int)[i] == whole[i]);
        }
    }
}

/// A `0x` before an identity is left off, and nothing else is.
pub proof fn law_prefix(text: Seq<char>)
    ensures
        after_0x(seq!['0', 'x'] + text) == text,
        !(text.len() >= 2 && text[0] == '0' && text[1] == 'x') ==> after_0x(text) == text,
{
    assert((seq!['0', 'x'] + text).skip(2) =~= text);
}

/// Whoever names nobody, or more than one, is told so, and in the latter case whom the token may
/// mean.
pub proof fn law_report(hub: Hub, token: Seq<char>, room: Option<Seq<char>>)
    ensures
        ({
            let found = resolved(hub, token, room);
            let lines = Seq::new(
                found.len(),
                |i: int|
                    "  - "@ + hexadecimal(found[i].identity@).take(16) + " "@ + (
                    match found[i].nick {
                        Some(nick) => "nick="@ + quoted(nick),
                        None => "(no nick)"@,
                    }),
            );
            target_report(token, found) == if found.len() == 0 {
                "target '"@ + token + "' not found"@
            } else {
                "ambiguous: '"@ + token + "' matches "@ + decimal(found.len())
                    + " identities:\n"@ + joined(lines, "\n"@)
                    + "\nUse full or longer identity hash to disambiguate."@
            }
        }),
{
    let found = resolved(hub, token, room);
    assert(Seq::new(found.len(), |i: int| candidate_line(found[i])) =~= Seq::new(
        found.len(),
        |i: int|
            "  - "@ + hexadecimal(found[i].identity@).take(16) + " "@ + (match found[i].nick {
                Some(nick) => "nick="@ + quoted(nick),
                None => "(no nick)"@,
            }),
    ));
}

} // verus!
