//! What is written to files is what is read from them: identities, bans and registered rooms.

use crate::clock::Nanos;
use crate::collections::{
    at, gathered, group_collections, group_sequences, holds, lookup, ranking, unique,
};
use crate::config::{filled, hash_of, hashes_of, hex_list};
use crate::registry::{
    hex_sorted, keeping, kept_invitations, loaded, read_hashes, read_invitations, record_of,
    room_of, saved, saved_names, Invitation, InvitationModel, RecordModel,
};
use crate::router::admin::{being_registered, registered_names};
use crate::state::{IdentityHash, RoomModel};
use crate::text::{after_0x, digit, digit_value, hexadecimal, is_white, trimmed, unhexed};
use super::order::{law_rankings_are_orders, law_sorted};
use super::rooms::lemma_gathered;
use super::sound::{lemma_held_index, lemma_unique_at, orderly};
use vstd::prelude::*;

verus! {

broadcast use {group_collections, group_sequences};

proof fn lemma_digit(value: int)
    requires
        0 <= value < 16,
    ensures
        digit_value(digit(value)) == Some(value),
        !is_white(digit(value)),
        digit(value) != 'x',
{
}

/// An identity that was written in hexadecimal is read as itself.
pub proof fn law_identity_is_read_back(identity: IdentityHash)
    ensures
        hash_of(hexadecimal(identity@)) == Some(identity),
{
    let bytes = identity@;
    let text = hexadecimal(bytes);
    assert(text.len() == 32);
    assert forall|i: int| 0 <= i < text.len() implies digit_value(#[trigger] text[i]) is Some
        && !is_white(text[i]) && text[i] != 'x' by {
        lemma_digit(bytes[i / 2] as int / 16);
        lemma_digit(bytes[i / 2] as int % 16);
    }
    assert(!is_white(text.first()));
    assert(!is_white(text.last()));
    assert(trimmed(text) == text);
    assert(text[1] != 'x');
    assert(after_0x(text) == text);
    let back = unhexed(text)->0;
    assert(back =~= bytes) by {
        assert forall|i: int| 0 <= i < 16 implies back[i] == bytes[i] by {
            assert((2 * i) / 2 == i && (2 * i) % 2 == 0);
            assert((2 * i + 1) / 2 == i && (2 * i + 1) % 2 == 1);
            lemma_digit(bytes[i] as int / 16);
            lemma_digit(bytes[i] as int % 16);
            assert(text[2 * i] == digit(bytes[i] as int / 16));
            assert(text[2 * i + 1] == digit(bytes[i] as int % 16));
        }
    }
    let chosen = choose|hash: IdentityHash| #[trigger] hash@ == bytes;
    assert(identity@ == bytes);
    assert(chosen@ =~= identity@);
    assert(chosen =~= identity);
}

/// A list of identities that was saved is read as itself: the bans of the hub outlast it.
pub proof fn law_identities_are_read_back(identities: Seq<IdentityHash>)
    ensures
        hashes_of(hex_list(identities)) == Ok::<Seq<IdentityHash>, Seq<char>>(identities),
    decreases identities.len(),
{
    if identities.len() > 0 {
        law_identities_are_read_back(identities.drop_last());
        law_identity_is_read_back(identities.last());
        assert(hex_list(identities).drop_last() == hex_list(identities.drop_last()));
        assert(hex_list(identities).last() == hexadecimal(identities.last()@));
        assert(identities.drop_last().push(identities.last()) == identities);
    } else {
        assert(hex_list(identities).len() == 0);
        assert(identities =~= Seq::empty());
    }
}

proof fn lemma_read_hashes(texts: Seq<Seq<char>>, identity: IdentityHash)
    ensures
        read_hashes(texts).contains(identity) == exists|i: int|
            0 <= i < texts.len() && hash_of(#[trigger] texts[i]) == Some(identity),
    decreases texts.len(),
{
    if texts.len() > 0 {
        let rest = texts.drop_last();
        lemma_read_hashes(rest, identity);
        if exists|i: int| 0 <= i < rest.len() && hash_of(#[trigger] rest[i]) == Some(identity) {
            let i = choose|i: int|
                0 <= i < rest.len() && hash_of(#[trigger] rest[i]) == Some(identity);
            assert(hash_of(texts[i]) == Some(identity));
        }
        if exists|i: int| 0 <= i < texts.len() && hash_of(#[trigger] texts[i]) == Some(identity) {
            let i = choose|i: int|
                0 <= i < texts.len() && hash_of(#[trigger] texts[i]) == Some(identity);
            if i < rest.len() {
                assert(hash_of(rest[i]) == Some(identity));
            }
        }
        if hash_of(texts.last()) == Some(identity) {
            assert(hash_of(texts[texts.len() - 1]) == Some(identity));
        }
    }
}

proof fn lemma_hex_sorted(identities: Seq<IdentityHash>, identity: IdentityHash)
    ensures
        read_hashes(hex_sorted(identities)).contains(identity) == identities.contains(identity),
{
    let texts = Seq::new(identities.len(), |i: int| hexadecimal(identities[i]@));
    let written = hex_sorted(identities);
    law_rankings_are_orders();
    law_sorted(texts, ranking::<String>());
    lemma_read_hashes(written, identity);
    if identities.contains(identity) {
        let i = choose|i: int| 0 <= i < identities.len() && identities[i] == identity;
        assert(texts[i] == hexadecimal(identity@));
        assert(texts.contains(texts[i]));
        assert(written.contains(texts[i]));
        let j = choose|j: int| 0 <= j < written.len() && written[j] == texts[i];
        law_identity_is_read_back(identity);
        assert(hash_of(written[j]) == Some(identity));
    }
    if exists|i: int| 0 <= i < written.len() && hash_of(#[trigger] written[i]) == Some(identity) {
        let i = choose|i: int|
            0 <= i < written.len() && hash_of(#[trigger] written[i]) == Some(identity);
        assert(written.contains(written[i]));
        assert(texts.contains(written[i]));
        let j = choose|j: int| 0 <= j < texts.len() && texts[j] == written[i];
        law_identity_is_read_back(identities[j]);
        assert(identities[j] == identity);
    }
}

proof fn lemma_read_invitations(
    invitations: Seq<InvitationModel>,
    now: Nanos,
    peer: IdentityHash,
)
    ensures
        holds(read_invitations(invitations, now), peer) == exists|i: int|
            0 <= i < invitations.len() && hash_of((#[trigger] invitations[i]).hash) == Some(peer)
                && invitations[i].expires > now,
        holds(read_invitations(invitations, now), peer) ==> exists|i: int|
            0 <= i < invitations.len() && hash_of((#[trigger] invitations[i]).hash) == Some(peer)
                && invitations[i].expires > now && invitations[i].expires == at(
                read_invitations(invitations, now),
                peer,
            ),
    decreases invitations.len(),
{
    if invitations.len() > 0 {
        let rest = invitations.drop_last();
        lemma_read_invitations(rest, now, peer);
        let last = invitations.last();
        let before = read_invitations(rest, now);
        let result = read_invitations(invitations, now);
        assert(invitations[invitations.len() - 1] == last);
        if holds(before, peer) {
            let i = choose|i: int|
                0 <= i < rest.len() && hash_of((#[trigger] rest[i]).hash) == Some(peer)
                    && rest[i].expires > now && rest[i].expires == at(before, peer);
            assert(hash_of(invitations[i].hash) == Some(peer) && invitations[i].expires > now);
            assert(invitations[i].expires == at(before, peer));
        }
        if exists|i: int|
            0 <= i < invitations.len() && hash_of((#[trigger] invitations[i]).hash) == Some(peer)
                && invitations[i].expires > now {
            let i = choose|i: int|
                0 <= i < invitations.len() && hash_of((#[trigger] invitations[i]).hash) == Some(
                    peer,
                ) && invitations[i].expires > now;
            if i < rest.len() {
                assert(hash_of(rest[i].hash) == Some(peer) && rest[i].expires > now);
            }
        }
    }
}

proof fn lemma_kept_invitations(
    invited: Seq<(IdentityHash, Nanos)>,
    now: Nanos,
    afterwards: Nanos,
    peer: IdentityHash,
)
    requires
        unique(invited),
        now <= afterwards,
    ensures
        lookup(read_invitations(kept_invitations(invited, now), afterwards), peer) == match lookup(
            invited,
            peer,
        ) {
            Some(expires) => if expires > afterwards {
                Some(expires)
            } else {
                None
            },
            None => None,
        },
{
    let gained = gathered(invited, keeping(now));
    let written = kept_invitations(invited, now);
    law_rankings_are_orders();
    law_sorted(gained, ranking::<Invitation>());
    lemma_read_invitations(written, afterwards, peer);
    let back = read_invitations(written, afterwards);
    if holds(back, peer) {
        let i = choose|i: int|
            0 <= i < written.len() && hash_of((#[trigger] written[i]).hash) == Some(peer)
                && written[i].expires > afterwards && written[i].expires == at(back, peer);
        assert(written.contains(written[i]));
        assert(gained.contains(written[i]));
        lemma_gathered(invited, keeping(now), written[i]);
        let j = choose|j: int|
            0 <= j < invited.len() && keeping(now)(#[trigger] invited[j]) == Some(written[i]);
        law_identity_is_read_back(invited[j].0);
        lemma_unique_at(invited, j);
        assert(invited[j].0 == peer);
    }
    if holds(invited, peer) && at(invited, peer) > afterwards {
        let j = lemma_held_index(invited, peer);
        let entry = InvitationModel { hash: hexadecimal(peer@), expires: at(invited, peer) };
        assert(keeping(now)(invited[j]) == Some(entry));
        lemma_gathered(invited, keeping(now), entry);
        assert(gained.contains(entry));
        assert(written.contains(entry));
        let i = choose|i: int| 0 <= i < written.len() && written[i] == entry;
        law_identity_is_read_back(peer);
        assert(hash_of(written[i].hash) == Some(peer) && written[i].expires > afterwards);
    }
}

proof fn lemma_loaded(records: Seq<RecordModel>, now: Nanos, name: Seq<char>)
    ensures
        holds(loaded(records, now), name) == exists|i: int|
            0 <= i < records.len() && (#[trigger] records[i]).name == name,
        holds(loaded(records, now), name) ==> exists|i: int|
            0 <= i < records.len() && (#[trigger] records[i]).name == name && at(
                loaded(records, now),
                name,
            ) == room_of(records[i], now),
    decreases records.len(),
{
    if records.len() > 0 {
        let rest = records.drop_last();
        lemma_loaded(rest, now, name);
        let before = loaded(rest, now);
        assert(records[records.len() - 1] == records.last());
        if holds(before, name) {
            let i = choose|i: int|
                0 <= i < rest.len() && (#[trigger] rest[i]).name == name && at(before, name)
                    == room_of(rest[i], now);
            assert(records[i].name == name && at(before, name) == room_of(records[i], now));
        }
        if exists|i: int| 0 <= i < records.len() && (#[trigger] records[i]).name == name {
            let i = choose|i: int| 0 <= i < records.len() && (#[trigger] records[i]).name == name;
            if i < rest.len() {
                assert(rest[i].name == name);
            }
        }
    }
}

proof fn lemma_saved_names(rooms: Seq<(Seq<char>, RoomModel)>, name: Seq<char>)
    requires
        unique(rooms),
    ensures
        saved_names(rooms).contains(name) == (holds(rooms, name) && at(rooms, name).registered),
{
    law_rankings_are_orders();
    law_sorted(registered_names(rooms), ranking::<String>());
    lemma_gathered(rooms, being_registered(), name);
    assert(saved_names(rooms).contains(name) == registered_names(rooms).contains(name));
    if registered_names(rooms).contains(name) {
        let i = choose|i: int|
            0 <= i < rooms.len() && being_registered()(#[trigger] rooms[i]) == Some(name);
        lemma_unique_at(rooms, i);
    }
    if holds(rooms, name) && at(rooms, name).registered {
        let i = lemma_held_index(rooms, name);
        assert(being_registered()(rooms[i]) == Some(name));
    }
}

/// Whether a room has come back as it was, but for those in it, for invitations that have expired,
/// and for a topic or a key without a character.
pub open spec fn survived(room: RoomModel, back: RoomModel, now: Nanos) -> bool {
    &&& back == (RoomModel {
        members: Seq::empty(),
        operators: back.operators,
        voiced: back.voiced,
        banned: back.banned,
        invited: back.invited,
        topic: filled(room.topic),
        key: filled(room.key),
        ..room
    })
    &&& forall|peer: IdentityHash| #[trigger]
        back.operators.contains(peer) == room.operators.contains(peer)
    &&& forall|peer: IdentityHash| #[trigger]
        back.voiced.contains(peer) == room.voiced.contains(peer)
    &&& forall|peer: IdentityHash| #[trigger]
        back.banned.contains(peer) == room.banned.contains(peer)
    &&& forall|peer: IdentityHash| #[trigger]
        lookup(back.invited, peer) == match lookup(room.invited, peer) {
            Some(expires) => if expires > now {
                Some(expires)
            } else {
                None
            },
            None => None,
        }
}

/// Registered rooms outlast the hub: when the rooms are saved and read again later, exactly the
/// registered ones are there, each with its founder, topic, key, modes, operators, voices, bans,
/// time of last use, and the invitations that have not expired.
pub proof fn law_registered_rooms_survive(
    rooms: Seq<(Seq<char>, RoomModel)>,
    now: Nanos,
    afterwards: Nanos,
    name: Seq<char>,
)
    requires
        unique(rooms),
        orderly(rooms),
        now <= afterwards,
    ensures
        holds(loaded(saved(rooms, now), afterwards), name) == (holds(rooms, name) && at(
            rooms,
            name,
        ).registered),
        holds(rooms, name) && at(rooms, name).registered ==> survived(
            at(rooms, name),
            at(loaded(saved(rooms, now), afterwards), name),
            afterwards,
        ),
{
    let names = saved_names(rooms);
    let records = saved(rooms, now);
    lemma_saved_names(rooms, name);
    lemma_loaded(records, afterwards, name);
    if names.contains(name) {
        let i = choose|i: int| 0 <= i < names.len() && names[i] == name;
        assert(records[i].name == name);
    }
    if exists|i: int| 0 <= i < records.len() && (#[trigger] records[i]).name == name {
        let i = choose|i: int| 0 <= i < records.len() && (#[trigger] records[i]).name == name;
        assert(names[i] == name);
    }
    if holds(rooms, name) && at(rooms, name).registered {
        let room = at(rooms, name);
        let back = at(loaded(records, afterwards), name);
        let i = choose|i: int|
            0 <= i < records.len() && (#[trigger] records[i]).name == name && back == room_of(
                records[i],
                afterwards,
            );
        assert(records[i] == record_of(name, room, now));
        match room.founder {
            Some(founder) => {
                law_identity_is_read_back(founder);
            },
            None => {},
        }
        assert forall|peer: IdentityHash| #[trigger]
            back.operators.contains(peer) == room.operators.contains(peer) by {
            lemma_hex_sorted(room.operators, peer);
        }
        assert forall|peer: IdentityHash| #[trigger]
            back.voiced.contains(peer) == room.voiced.contains(peer) by {
            lemma_hex_sorted(room.voiced, peer);
        }
        assert forall|peer: IdentityHash| #[trigger]
            back.banned.contains(peer) == room.banned.contains(peer) by {
            lemma_hex_sorted(room.banned, peer);
        }
        assert forall|peer: IdentityHash| #[trigger]
            lookup(back.invited, peer) == match lookup(room.invited, peer) {
                Some(expires) => if expires > afterwards {
                    Some(expires)
                } else {
                    None
                },
                None => None,
            } by {
            lemma_kept_invitations(room.invited, now, afterwards, peer);
        }
    }
}

} // verus!
