//! Whom a command means: identities by nickname, by hash or by the start of a hash.

use crate::collections::{
    group_collections, group_sequences, models, ranking, sort, sorted, Key, Model, Ranked,
};
use crate::config::{hash_from, to_hash};
use crate::state::{IdentityHash, LinkId, SessionModel};
use crate::text::{
    after_0x, decimal, digit_value, from_hexadecimal, hexadecimal, join, joined, lowercase, quoted,
    starts, starts_with, strip_0x, to_chars, to_decimal, to_hexadecimal, to_lowercase, to_quoted,
    trim, trimmed, unhexed,
};
use super::rooms::short_hash;
use super::{Hub, Router};
use vstd::prelude::*;

verus! {

broadcast use {group_collections, group_sequences};

/// An identity that a token may mean.
pub struct Candidate {
    pub identity: IdentityHash,
    pub nick: Option<String>,
}

#[verifier::ext_equal]
pub struct CandidateModel {
    pub identity: IdentityHash,
    pub nick: Option<Seq<char>>,
}

impl Model for Candidate {
    type M = CandidateModel;

    open spec fn model(&self) -> CandidateModel {
        CandidateModel { identity: self.identity, nick: self.nick.model() }
    }
}

/// Whether `left` comes before `right` byte by byte.
pub open spec fn bytes_before(left: Seq<u8>, right: Seq<u8>) -> bool
    decreases left.len(),
{
    if right.len() == 0 {
        false
    } else if left.len() == 0 {
        true
    } else if left[0] != right[0] {
        left[0] < right[0]
    } else {
        bytes_before(left.drop_first(), right.drop_first())
    }
}

/// Whether `left` comes before `right` byte by byte.
pub fn is_hash_before(left: &IdentityHash, right: &IdentityHash) -> (result: bool)
    ensures
        result == bytes_before(left@, right@),
{
    let mut i: usize = 0;
    assert(left@.skip(0) =~= left@);
    assert(right@.skip(0) =~= right@);
    while i < 16 && left[i] == right[i]
        invariant
            i <= 16,
            bytes_before(left@, right@) == bytes_before(left@.skip(i as int), right@.skip(i as int)),
        decreases 16 - i,
    {
        assert(left@.skip(i as int).drop_first() =~= left@.skip(i + 1));
        assert(right@.skip(i as int).drop_first() =~= right@.skip(i + 1));
        i += 1;
    }
    if i == 16 {
        false
    } else {
        assert(left@.skip(i as int)[0] == left@[i as int]);
        assert(right@.skip(i as int)[0] == right@[i as int]);
        left[i] < right[i]
    }
}

impl Ranked for Candidate {
    open spec fn ranks_before(left: CandidateModel, right: CandidateModel) -> bool {
        bytes_before(left.identity@, right.identity@)
    }

    fn is_before(&self, other: &Self) -> (result: bool) {
        is_hash_before(&self.identity, &other.identity)
    }
}

/// Whether a text is the start of a hash: at least three bytes in hexadecimal.
pub open spec fn is_hash_prefix(text: Seq<char>) -> bool {
    text.len() >= 6 && text.len() % 2 == 0 && all_digits(text)
}

/// Whether every character is a hexadecimal digit.
pub open spec fn all_digits(text: Seq<char>) -> bool {
    forall|i: int| 0 <= i < text.len() ==> digit_value(#[trigger] text[i]) is Some
}

/// Whether a token, in lowercase, means the client of a session: it is its nickname, or the start
/// of its identity.
pub open spec fn means(token: Seq<char>, session: SessionModel) -> bool {
    match session.peer {
        None => false,
        Some(peer) => {
            let named = match session.nick {
                Some(nick) => lowercase(nick) == token,
                None => false,
            };
            named || (is_hash_prefix(after_0x(token)) && starts(
                hexadecimal(peer@),
                after_0x(token),
            ))
        },
    }
}

/// Whether a session is in the room, where one is given.
pub open spec fn within(session: SessionModel, room: Option<Seq<char>>) -> bool {
    match room {
        Some(room) => session.rooms.contains(room),
        None => true,
    }
}

/// Whether an identity is among the candidates.
pub open spec fn listed(candidates: Seq<CandidateModel>, identity: IdentityHash) -> bool {
    exists|i: int| 0 <= i < candidates.len() && (#[trigger] candidates[i]).identity == identity
}

/// The identities that a token in lowercase may mean, in the order of their sessions, each once.
pub open spec fn candidates(
    sessions: Seq<(LinkId, SessionModel)>,
    token: Seq<char>,
    room: Option<Seq<char>>,
) -> Seq<CandidateModel>
    decreases sessions.len(),
{
    if sessions.len() == 0 {
        Seq::empty()
    } else {
        let before = candidates(sessions.drop_last(), token, room);
        let session = sessions.last().1;
        if within(session, room) && means(token, session) && !listed(before, session.peer->0) {
            before.push(CandidateModel { identity: session.peer->0, nick: session.nick })
        } else {
            before
        }
    }
}

/// The identities that a token may mean, ordered by identity.
pub open spec fn resolved(hub: Hub, token: Seq<char>, room: Option<Seq<char>>) -> Seq<
    CandidateModel,
> {
    let plain = lowercase(trimmed(token));
    if plain.len() == 0 {
        Seq::empty()
    } else {
        sorted(candidates(hub.state.sessions, plain, room), ranking::<Candidate>())
    }
}

/// The identity that a token means, where it means exactly one.
pub open spec fn sole(candidates: Seq<CandidateModel>) -> Option<IdentityHash> {
    if candidates.len() == 1 {
        Some(candidates[0].identity)
    } else {
        None
    }
}

/// The identity that a text spells in full.
pub open spec fn spelled(text: Seq<char>) -> Option<IdentityHash> {
    match unhexed(text) {
        Some(bytes) => hash_from(bytes),
        None => None,
    }
}

/// One line for a candidate.
pub open spec fn candidate_line(candidate: CandidateModel) -> Seq<char> {
    "  - "@ + hexadecimal(candidate.identity@).take(16) + " "@ + match candidate.nick {
        Some(nick) => "nick="@ + quoted(nick),
        None => "(no nick)"@,
    }
}

/// What is said of a token that does not mean exactly one identity.
pub open spec fn target_report(token: Seq<char>, candidates: Seq<CandidateModel>) -> Seq<char> {
    if candidates.len() == 0 {
        "target '"@ + token + "' not found"@
    } else {
        "ambiguous: '"@ + token + "' matches "@ + decimal(candidates.len()) + " identities:\n"@
            + joined(
            Seq::new(candidates.len(), |i: int| candidate_line(candidates[i])),
            "\n"@,
        ) + "\nUse full or longer identity hash to disambiguate."@
    }
}

fn has_all_digits(text: &str) -> (result: bool)
    ensures
        result == all_digits(text@),
{
    let chars = to_chars(text);
    let mut i: usize = 0;
    while i < chars.len()
        invariant
            i <= chars@.len(),
            chars@ == text@,
            forall|j: int| 0 <= j < i ==> digit_value(#[trigger] text@[j]) is Some,
        decreases chars@.len() - i,
    {
        let c = chars[i];
        if !(('0' <= c && c <= '9') || ('a' <= c && c <= 'f') || ('A' <= c && c <= 'F')) {
            assert(digit_value(text@[i as int]) is None);
            return false;
        }
        i += 1;
    }
    true
}

fn is_hash_start(text: &str) -> (result: bool)
    ensures
        result == is_hash_prefix(text@),
{
    let count: usize = to_chars(text).len();
    count >= 6 && count % 2 == 0 && has_all_digits(text)
}

fn is_listed(candidates: &Vec<Candidate>, identity: &IdentityHash) -> (result: bool)
    ensures
        result == listed(models(candidates@), *identity),
{
    let mut i: usize = 0;
    while i < candidates.len()
        invariant
            i <= candidates@.len(),
            forall|j: int|
                0 <= j < i ==> (#[trigger] models(candidates@)[j]).identity != *identity,
        decreases candidates@.len() - i,
    {
        if candidates[i].identity.same(identity) {
            assert(models(candidates@)[i as int].identity == *identity);
            return true;
        }
        i += 1;
    }
    false
}

/// The identity that a text spells in full.
pub(crate) fn read_hash(text: &str) -> (result: Option<IdentityHash>)
    ensures
        result == spelled(text@),
{
    match from_hexadecimal(text) {
        Some(bytes) => to_hash(bytes.as_slice()),
        None => None,
    }
}

/// The identity that a token means, where it means exactly one.
pub(crate) fn sole_target(candidates: &Vec<Candidate>) -> (result: Option<IdentityHash>)
    ensures
        result == sole(models(candidates@)),
{
    if candidates.len() == 1 {
        Some(candidates[0].identity)
    } else {
        None
    }
}

/// What is said of a token that does not mean exactly one identity.
pub(crate) fn format_target_matches(token: &str, candidates: &Vec<Candidate>) -> (result: String)
    ensures
        result@ == target_report(token@, models(candidates@)),
{
    if candidates.len() == 0 {
        let mut text = String::from_str("target '");
        text.append(token);
        text.append("' not found");
        return text;
    }
    let ghost all = Seq::new(
        candidates@.len(),
        |i: int| candidate_line(models(candidates@)[i]),
    );
    let mut lines: Vec<String> = Vec::new();
    let mut i: usize = 0;
    while i < candidates.len()
        invariant
            i <= candidates@.len(),
            all == Seq::new(candidates@.len(), |i: int| candidate_line(models(candidates@)[i])),
            models(lines@) == all.take(i as int),
        decreases candidates@.len() - i,
    {
        let candidate = &candidates[i];
        let mut line = String::from_str("  - ");
        line.append(short_hash(&candidate.identity, 16).as_str());
        line.append(" ");
        match &candidate.nick {
            Some(nick) => {
                let mut named = String::from_str("nick=");
                named.append(to_quoted(nick.as_str()).as_str());
                line.append(named.as_str());
            },
            None => line.append("(no nick)"),
        }
        lines.push(line);
        assert(line@ == candidate_line(models(candidates@)[i as int]));
        i += 1;
        assert(models(lines@) =~= all.take(i as int));
    }
    assert(models(lines@) =~= all);
    assert(models(lines@).skip(0) =~= all);
    let mut text = String::from_str("ambiguous: '");
    text.append(token);
    text.append("' matches ");
    text.append(to_decimal(candidates.len() as u128).as_str());
    text.append(" identities:\n");
    text.append(join(&lines, 0, "\n").as_str());
    text.append("\nUse full or longer identity hash to disambiguate.");
    assert(all =~= Seq::new(
        models(candidates@).len(),
        |i: int| candidate_line(models(candidates@)[i]),
    ));
    text
}

impl Router {
    /// The identities that a token may mean, ordered by identity.
    pub(crate) fn resolve_identities(&self, token: &str, room: Option<&String>) -> (result: Vec<
        Candidate,
    >)
        ensures
            models(result@) == resolved(
                self.model(),
                token@,
                match room {
                    Some(room) => Some(room@),
                    None => None,
                },
            ),
    {
        let ghost place = match room {
            Some(room) => Some(room@),
            None => None,
        };
        let plain = to_lowercase(trim(token).as_str());
        if plain.as_str().is_empty() {
            return Vec::new();
        }
        let digits = strip_0x(plain.as_str());
        let prefix = is_hash_start(digits.as_str());
        let ghost all = self.state.sessions.model();
        let mut found: Vec<Candidate> = Vec::new();
        let mut i: usize = 0;
        while i < self.state.sessions.len()
            invariant
                i <= all.len(),
                all == self.state.sessions.model(),
                digits@ == after_0x(plain@),
                prefix == is_hash_prefix(digits@),
                place == match room {
                    Some(room) => Some(room@),
                    None => None,
                },
                models(found@) == candidates(all.take(i as int), plain@, place),
            decreases all.len() - i,
        {
            assert(all.take(i + 1).drop_last() == all.take(i as int));
            let session = self.state.sessions.value(i);
            let inside = match room {
                Some(room) => session.rooms.contains(room),
                None => true,
            };
            if inside {
                if let Some(peer) = session.peer {
                    let named = match &session.nick {
                        Some(nick) => to_lowercase(nick.as_str()) == plain,
                        None => false,
                    };
                    if (named || (prefix && starts_with(
                        to_hexadecimal(peer.as_slice()).as_str(),
                        digits.as_str(),
                    ))) && !is_listed(&found, &peer) {
                        found.push(Candidate { identity: peer, nick: session.nick.duplicate() });
                    }
                }
            }
            i += 1;
        }
        sort(found)
    }
}

} // verus!
