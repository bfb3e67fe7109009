//! Envelopes: which are sound, what their fields are read as, and what stands in the files.

use crate::cbor::{cbor_decoded, cbor_encoded, switches, writable, Cbor, CborKey};
use crate::collections::{gathered, group_collections, group_sequences, ranking};
use crate::config::{announcement, hash_of, list_setting, text_setting, IdentityHash};
use crate::constants::{
    K_DST, K_ID, K_NICK, K_ROOM, K_SRC, K_T, K_TS, K_V, VERSION,
};
use crate::protocol::{
    bytes_field, decoded, encoded, error_text, field, flaw, integer_field, map_field, text_field, unsigned_field,
    with_field, with_text, EnvelopeError, FieldMap,
};
use crate::clock::{seconds, Nanos};
use crate::registry::{
    entry_parts, first_of, hex_sorted, invitation_entry, keeping, record_of, record_settings,
    room_of, Invitation, InvitationModel, RecordModel,
};
use crate::state::{room_error_text, RoomModel, RoomNameError};
use crate::text::{hexadecimal, signed_decimal};
use super::order::{in_order, law_rankings_are_orders, law_sorted};
use super::rooms::lemma_gathered;
use vstd::prelude::*;

verus! {

broadcast use {group_collections, group_sequences};

/// What a field is read as: as a number, a text, bytes or fields, where it is one.
pub proof fn law_fields_are_read(fields: FieldMap, key: i128, value: Cbor, other: i128)
    ensures
        ({
            let set = with_field(fields, key, value);
            &&& field(set, key) == Some(value)
            &&& other != key ==> field(set, other) == field(fields, other)
            &&& text_field(set, key) == match value {
                Cbor::Text(text) => Some(text),
                _ => None,
            }
            &&& bytes_field(set, key) == match value {
                Cbor::Bytes(bytes) => Some(bytes),
                _ => None,
            }
            &&& map_field(set, key) == match value {
                Cbor::Fields(map) => Some(map),
                _ => None,
            }
            &&& value is Integer && 0 <= value->Integer_0 ==> unsigned_field(set, key) == Some(
                value->Integer_0,
            )
            &&& value is Integer && 0 <= value->Integer_0 <= u64::MAX ==> integer_field(
                set,
                key,
            ) == Some(value->Integer_0 as u64)
            &&& !(value is Integer && 0 <= value->Integer_0) ==> unsigned_field(
                set,
                key,
            ) is None
            &&& !(value is Integer && 0 <= value->Integer_0 <= u64::MAX) ==> integer_field(
                set,
                key,
            ) is None
            &&& with_text(fields, key, None) == fields
        }),
{
}

/// An absent field is read as nothing.
pub proof fn law_absent_fields(fields: FieldMap, key: i128)
    requires
        !fields.dom().contains(CborKey::Integer(key as int)),
    ensures
        field(fields, key) is None,
        text_field(fields, key) is None,
        bytes_field(fields, key) is None,
        map_field(fields, key) is None,
        unsigned_field(fields, key) is None,
        integer_field(fields, key) is None,
{
}

/// The capabilities that a client announces are the entries of its map that have a number for a key
/// and a truth value for a value; the others are passed over.
pub proof fn law_switches(map: FieldMap, key: i128)
    ensures
        switches(map).dom().contains(key) == (field(map, key) is Some && field(map, key)->0
            is Bool),
        switches(map).dom().contains(key) ==> field(map, key) == Some(
            Cbor::Bool(switches(map)[key]),
        ),
{
}

/// Whether an envelope is sound: its keys are natural numbers; it is of the version, has a type
/// that fits a number of 64 bits, an identifier, a time and a source; and its room, nickname and
/// destination, where they are there, are two texts and bytes.
pub open spec fn is_sound(fields: FieldMap) -> bool {
    &&& forall|key: CborKey| #[trigger]
        fields.dom().contains(key) ==> key is Integer && key->Integer_0 >= 0
    &&& field(fields, K_V) == Some(Cbor::Integer(VERSION as int))
    &&& field(fields, K_T) matches Some(Cbor::Integer(kind)) && 0 <= kind <= u64::MAX
    &&& field(fields, K_ID) matches Some(Cbor::Bytes(_))
    &&& field(fields, K_TS) matches Some(Cbor::Integer(time)) && 0 <= time
    &&& field(fields, K_SRC) matches Some(Cbor::Bytes(_))
    &&& field(fields, K_ROOM) is None || (field(fields, K_ROOM) matches Some(Cbor::Text(_)))
    &&& field(fields, K_NICK) is None || (field(fields, K_NICK) matches Some(Cbor::Text(_)))
    &&& field(fields, K_DST) is None || (field(fields, K_DST) matches Some(Cbor::Bytes(_)))
}

/// The sound envelopes are those without a flaw; and a flaw that is named is there.
#[verifier::rlimit(40)]
pub proof fn law_flaws(fields: FieldMap)
    ensures
        (flaw(fields) is None) == is_sound(fields),
        match flaw(fields) {
            None => true,
            Some(EnvelopeError::BadKey) => exists|key: CborKey| #[trigger]
                fields.dom().contains(key) && !(key is Integer && key->Integer_0 >= 0),
            Some(EnvelopeError::Missing(key)) => field(fields, key) is None && (key == K_V || key
                == K_T || key == K_ID || key == K_TS || key == K_SRC),
            Some(EnvelopeError::Version) => field(fields, K_V) is Some && field(fields, K_V)
                != Some(Cbor::Integer(VERSION as int)),
            Some(EnvelopeError::MessageType) => field(fields, K_T) is Some && integer_field(
                fields,
                K_T,
            ) is None,
            Some(EnvelopeError::MessageId) => field(fields, K_ID) is Some && bytes_field(
                fields,
                K_ID,
            ) is None,
            Some(EnvelopeError::Timestamp) => field(fields, K_TS) is Some && unsigned_field(
                fields,
                K_TS,
            ) is None,
            Some(EnvelopeError::Source) => field(fields, K_SRC) is Some && bytes_field(
                fields,
                K_SRC,
            ) is None,
            Some(EnvelopeError::Room) => field(fields, K_ROOM) is Some && text_field(
                fields,
                K_ROOM,
            ) is None,
            Some(EnvelopeError::Nick) => field(fields, K_NICK) is Some && text_field(
                fields,
                K_NICK,
            ) is None,
            Some(EnvelopeError::Destination) => field(fields, K_DST) is Some && bytes_field(
                fields,
                K_DST,
            ) is None,
            Some(_) => false,
        },
{
}

/// Bytes are an envelope when they are CBOR, a map, and sound; the envelope has the fields that
/// were read.
pub proof fn law_decoding(bytes: Seq<u8>)
    ensures
        match cbor_decoded(bytes) {
            None => decoded(bytes) == Err::<FieldMap, EnvelopeError>(EnvelopeError::Malformed),
            Some(Cbor::Fields(fields)) => if is_sound(fields) {
                decoded(bytes) == Ok::<FieldMap, EnvelopeError>(fields)
            } else {
                decoded(bytes) is Err && flaw(fields) == Some(decoded(bytes)->Err_0)
            },
            Some(_) => decoded(bytes) == Err::<FieldMap, EnvelopeError>(EnvelopeError::NotAMap),
        },
{
    match cbor_decoded(bytes) {
        Some(Cbor::Fields(fields)) => law_flaws(fields),
        _ => {},
    }
}

/// An envelope is sent when it is sound and can be written, and then as what it is.
pub proof fn law_encoding(fields: FieldMap)
    ensures
        (encoded(fields) is Ok) == (is_sound(fields) && writable(Cbor::Fields(fields))),
        encoded(fields) is Ok ==> encoded(fields)->Ok_0 == cbor_encoded(Cbor::Fields(fields))->0,
        !is_sound(fields) ==> flaw(fields) == Some(encoded(fields)->Err_0),
{
    law_flaws(fields);
}

/// An invitation in the registry is written as who is invited and until when, and read back so.
pub proof fn law_invitations_are_read_back(invitation: InvitationModel)
    requires
        !invitation.hash.contains(':'),
    ensures
        entry_parts(invitation_entry(invitation)) == Some(
            (invitation.hash, seconds(invitation.expires as nat)),
        ),
{
    reveal_strlit(":");
    let rest = seconds(invitation.expires as nat);
    let entry = invitation_entry(invitation);
    assert(":"@ =~= seq![':']);
    lemma_first(invitation.hash, ':', rest);
    assert(entry =~= invitation.hash + seq![':'] + rest);
    assert(entry.take(invitation.hash.len() as int) =~= invitation.hash);
    assert(entry.skip(invitation.hash.len() as int + 1) =~= rest);
}

proof fn lemma_first(before: Seq<char>, c: char, rest: Seq<char>)
    requires
        !before.contains(c),
    ensures
        first_of(before + seq![c] + rest, c) == before.len(),
    decreases before.len(),
{
    let text = before + seq![c] + rest;
    if before.len() > 0 {
        let fewer = before.drop_first();
        assert(text.first() == before[0]);
        assert(before.contains(before[0]));
        assert(text.drop_first() =~= fewer + seq![c] + rest);
        if fewer.contains(c) {
            let i = choose|i: int| 0 <= i < fewer.len() && fewer[i] == c;
            assert(before[i + 1] == c);
        }
        lemma_first(fewer, c, rest);
    } else {
        assert(text.first() == c);
    }
}

/// What is told of a yes or a no.
pub open spec fn yes_or_no(value: bool) -> Seq<char> {
    if value {
        "yes"@
    } else {
        "no"@
    }
}

/// What is recorded of a room is what holds of it: the identities in hexadecimal and in order, and
/// of the invitations those that have not lapsed.
pub proof fn law_records(name: Seq<char>, room: RoomModel, now: Nanos, text: Seq<char>)
    ensures
        ({
            let record = record_of(name, room, now);
            &&& record.name == name
            &&& record.founder is Some == room.founder is Some
            &&& room.founder is Some ==> record.founder == Some(hexadecimal(room.founder->0@))
            &&& record.topic == room.topic
            &&& record.key == room.key
            &&& record.moderated == room.moderated
            &&& record.invite_only == room.invite_only
            &&& record.private == room.private
            &&& record.topic_ops_only == room.topic_ops_only
            &&& record.no_outside_msgs == room.no_outside_messages
            &&& record.last_used_ts == Some(room.last_used_ts)
            &&& record.operators.contains(text) == written_for(room.operators, text)
            &&& record.voiced.contains(text) == written_for(room.voiced, text)
            &&& record.bans.contains(text) == written_for(room.banned, text)
            &&& in_order(record.operators, ranking::<String>())
            &&& in_order(record.voiced, ranking::<String>())
            &&& in_order(record.bans, ranking::<String>())
        }),
{
    lemma_written(room.operators, text);
    lemma_written(room.voiced, text);
    lemma_written(room.banned, text);
}

/// Whether a text is one of the identities in hexadecimal.
pub open spec fn written_for(identities: Seq<IdentityHash>, text: Seq<char>) -> bool {
    exists|i: int| 0 <= i < identities.len() && text == hexadecimal(#[trigger] identities[i]@)
}

proof fn lemma_written(identities: Seq<IdentityHash>, text: Seq<char>)
    ensures
        hex_sorted(identities).contains(text) == written_for(identities, text),
        in_order(hex_sorted(identities), ranking::<String>()),
{
    let texts = Seq::new(identities.len(), |i: int| hexadecimal(identities[i]@));
    law_rankings_are_orders();
    law_sorted(texts, ranking::<String>());
    if texts.contains(text) {
        let i = choose|i: int| 0 <= i < texts.len() && texts[i] == text;
        assert(text == hexadecimal(identities[i]@));
    }
    if written_for(identities, text) {
        let i = choose|i: int|
            0 <= i < identities.len() && text == hexadecimal(#[trigger] identities[i]@);
        assert(texts[i] == text);
    }
}

/// The invitations that are recorded are those that have not lapsed.
pub proof fn law_recorded_invitations(
    name: Seq<char>,
    room: RoomModel,
    now: Nanos,
    invitation: InvitationModel,
)
    ensures
        record_of(name, room, now).invited.contains(invitation) == exists|i: int|
            0 <= i < room.invited.len() && (#[trigger] room.invited[i]).1 > now
                && invitation.expires == room.invited[i].1 && invitation.hash == hexadecimal(
                room.invited[i].0@,
            ),
{
    let pick = keeping(now);
    let found = gathered(room.invited, pick);
    law_rankings_are_orders();
    law_sorted(found, ranking::<Invitation>());
    lemma_gathered(room.invited, pick, invitation);
    if exists|i: int|
        0 <= i < room.invited.len() && (#[trigger] room.invited[i]).1 > now && invitation.expires
            == room.invited[i].1 && invitation.hash == hexadecimal(room.invited[i].0@) {
        let i = choose|i: int|
            0 <= i < room.invited.len() && (#[trigger] room.invited[i]).1 > now
                && invitation.expires == room.invited[i].1 && invitation.hash == hexadecimal(
                room.invited[i].0@,
            );
        assert(pick(room.invited[i]) == Some(invitation));
    }
}

/// A room that is read is registered and nobody is in it; it has what is recorded of it, and was
/// used now where that is not recorded. An empty topic is none, and so is an empty key.
pub proof fn law_read_room(record: RecordModel, now: Nanos)
    ensures
        ({
            let room = room_of(record, now);
            &&& room.registered
            &&& room.members.len() == 0
            &&& room.founder == match record.founder {
                Some(text) => hash_of(text),
                None => None,
            }
            &&& room.topic == if record.topic is Some && record.topic->0.len() > 0 {
                record.topic
            } else {
                None
            }
            &&& room.key == if record.key is Some && record.key->0.len() > 0 {
                record.key
            } else {
                None
            }
            &&& room.moderated == record.moderated
            &&& room.invite_only == record.invite_only
            &&& room.private == record.private
            &&& room.topic_ops_only == record.topic_ops_only
            &&& room.no_outside_messages == record.no_outside_msgs
            &&& room.last_used_ts == if record.last_used_ts is Some {
                record.last_used_ts->0
            } else {
                now
            }
        }),
{
}

/// Everything that is recorded of a room is written under its name, and what is not there is left
/// out.
#[verifier::rlimit(40)]
pub proof fn law_records_are_written(record: RecordModel)
    ensures
        ({
            let settings = record_settings(record);
            let optional = |there: bool| if there { 1int } else { 0int };
            &&& settings.len() == 9 + optional(record.founder is Some) + optional(
                record.topic is Some,
            ) + optional(record.key is Some) + optional(record.last_used_ts is Some)
            &&& record.founder is Some ==> settings.contains(
                text_setting("founder"@, record.founder->0),
            )
            &&& record.topic is Some ==> settings.contains(
                text_setting("topic"@, record.topic->0),
            )
            &&& record.key is Some ==> settings.contains(text_setting("key"@, record.key->0))
            &&& record.last_used_ts is Some ==> settings.contains(
                text_setting("last_used_ts"@, seconds(record.last_used_ts->0 as nat)),
            )
            &&& settings.contains(text_setting("moderated"@, yes_or_no(record.moderated)))
            &&& settings.contains(text_setting("invite_only"@, yes_or_no(record.invite_only)))
            &&& settings.contains(text_setting("private"@, yes_or_no(record.private)))
            &&& settings.contains(
                text_setting("topic_ops_only"@, yes_or_no(record.topic_ops_only)),
            )
            &&& settings.contains(
                text_setting("no_outside_msgs"@, yes_or_no(record.no_outside_msgs)),
            )
            &&& settings.contains(list_setting("operators"@, record.operators))
            &&& settings.contains(list_setting("voiced"@, record.voiced))
            &&& settings.contains(list_setting("bans"@, record.bans))
            &&& settings.contains(
                list_setting(
                    "invited"@,
                    Seq::new(record.invited.len(), |i: int| invitation_entry(record.invited[i])),
                ),
            )
        }),
{
    let settings = record_settings(record);
    let founder = if record.founder is Some {
        1int
    } else {
        0int
    };
    let topic = if record.topic is Some {
        founder + 1
    } else {
        founder
    };
    let key = if record.key is Some {
        topic + 1
    } else {
        topic
    };
    if record.founder is Some {
        assert(settings[0] == text_setting("founder"@, record.founder->0));
    }
    if record.topic is Some {
        assert(settings[founder] == text_setting("topic"@, record.topic->0));
    }
    if record.key is Some {
        assert(settings[topic] == text_setting("key"@, record.key->0));
    }
    assert(settings[key] == text_setting("moderated"@, yes_or_no(record.moderated)));
    assert(settings[key + 1] == text_setting("invite_only"@, yes_or_no(record.invite_only)));
    assert(settings[key + 2] == text_setting("private"@, yes_or_no(record.private)));
    assert(settings[key + 3] == text_setting("topic_ops_only"@, yes_or_no(record.topic_ops_only)));
    assert(settings[key + 4] == text_setting(
        "no_outside_msgs"@,
        yes_or_no(record.no_outside_msgs),
    ));
    assert(settings[key + 5] == list_setting("operators"@, record.operators));
    assert(settings[key + 6] == list_setting("voiced"@, record.voiced));
    assert(settings[key + 7] == list_setting("bans"@, record.bans));
    assert(settings[key + 8] == list_setting(
        "invited"@,
        Seq::new(record.invited.len(), |i: int| invitation_entry(record.invited[i])),
    ));
    if record.last_used_ts is Some {
        assert(settings[key + 9] == text_setting(
            "last_used_ts"@,
            seconds(record.last_used_ts->0 as nat),
        ));
    }
}

/// An announcement tells the protocol, its version and the name of the hub, and nothing else.
pub proof fn law_hub_announcement(hub_name: Seq<char>, key: CborKey)
    ensures
        ({
            let told = announcement(hub_name);
            &&& told.dom().contains(key) == (key == CborKey::Text("proto"@) || key
                == CborKey::Text("v"@) || key == CborKey::Text("hub"@))
            &&& told[CborKey::Text("proto"@)] == Cbor::Text("rrc"@)
            &&& told[CborKey::Text("v"@)] == Cbor::Integer(1)
            &&& told[CborKey::Text("hub"@)] == Cbor::Text(hub_name)
        }),
{
    reveal_strlit("proto");
    reveal_strlit("v");
    reveal_strlit("hub");
    assert("proto"@.len() == 5);
    assert("v"@.len() == 1);
    assert("hub"@.len() == 3);
}

/// What is said of each flaw of an envelope, and of each flaw of a name that is to be a room's.
pub proof fn law_flaws_are_named(error: EnvelopeError, name: RoomNameError)
    ensures
        error_text(error) == match error {
            EnvelopeError::Malformed => "invalid CBOR"@,
            EnvelopeError::NotAMap => "envelope must be a CBOR map"@,
            EnvelopeError::BadKey => "envelope keys must be unsigned integers"@,
            EnvelopeError::Missing(key) => "missing envelope key "@ + signed_decimal(key as int),
            EnvelopeError::Version => "unsupported protocol version"@,
            EnvelopeError::MessageType => "message type must be an unsigned integer"@,
            EnvelopeError::MessageId => "message id must be bytes"@,
            EnvelopeError::Timestamp => "timestamp must be unsigned"@,
            EnvelopeError::Source => "sender identity must be bytes"@,
            EnvelopeError::Room => "room name must be a string"@,
            EnvelopeError::Nick => "nickname must be a string"@,
            EnvelopeError::Destination => "destination identity must be bytes"@,
            EnvelopeError::Encoding => "CBOR encoding failed"@,
        },
        room_error_text(name) == match name {
            RoomNameError::Empty => "room name is empty"@,
            RoomNameError::TooLong => "room name too long"@,
            RoomNameError::Invalid => "invalid room name"@,
        },
{
}

} // verus!
