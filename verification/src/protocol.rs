//! Envelopes: CBOR maps with unsigned integer keys, and what makes one valid.

use crate::cbor::{decode, encode, Cbor, CborKey, Datum, Fields};
use crate::cbor::{cbor_decoded, cbor_encoded, max_depth, plain, writable};
use crate::constants::{K_DST, K_ID, K_NICK, K_ROOM, K_SRC, K_T, K_TS, K_V, VERSION};
use crate::text::{
    byte_len, contains_control, has_control, signed_decimal, text_len, to_signed_decimal, trim,
    trimmed,
};
use vstd::prelude::*;

verus! {

/// The fields of an envelope, or of a map inside one.
pub type FieldMap = Map<CborKey, Cbor>;

/// The value of the field with the integer key `key`.
pub open spec fn field(fields: FieldMap, key: i128) -> Option<Cbor> {
    if fields.dom().contains(CborKey::Integer(key as int)) {
        Some(fields[CborKey::Integer(key as int)])
    } else {
        None
    }
}

/// The field as an integer that is not negative.
pub open spec fn unsigned_field(fields: FieldMap, key: i128) -> Option<int> {
    match field(fields, key) {
        Some(Cbor::Integer(value)) => if value >= 0 {
            Some(value)
        } else {
            None
        },
        _ => None,
    }
}

/// The field as an integer of 64 bits.
pub open spec fn integer_field(fields: FieldMap, key: i128) -> Option<u64> {
    match unsigned_field(fields, key) {
        Some(value) => if value <= u64::MAX {
            Some(value as u64)
        } else {
            None
        },
        None => None,
    }
}

/// The field as a text.
pub open spec fn text_field(fields: FieldMap, key: i128) -> Option<Seq<char>> {
    match field(fields, key) {
        Some(Cbor::Text(text)) => Some(text),
        _ => None,
    }
}

/// The field as a byte string.
pub open spec fn bytes_field(fields: FieldMap, key: i128) -> Option<Seq<u8>> {
    match field(fields, key) {
        Some(Cbor::Bytes(bytes)) => Some(bytes),
        _ => None,
    }
}

/// The field as a map.
pub open spec fn map_field(fields: FieldMap, key: i128) -> Option<FieldMap> {
    match field(fields, key) {
        Some(Cbor::Fields(map)) => Some(map),
        _ => None,
    }
}

/// `fields` with the value of one field set.
pub open spec fn with_field(fields: FieldMap, key: i128, value: Cbor) -> FieldMap {
    fields.insert(CborKey::Integer(key as int), value)
}

/// `fields` with a text field set where there is a text.
pub open spec fn with_text(fields: FieldMap, key: i128, text: Option<Seq<char>>) -> FieldMap {
    match text {
        Some(text) => with_field(fields, key, Cbor::Text(text)),
        None => fields,
    }
}

/// What is wrong with an envelope.
#[derive(Debug, PartialEq)]
pub enum EnvelopeError {
    Malformed,
    NotAMap,
    BadKey,
    Missing(i128),
    Version,
    MessageType,
    MessageId,
    Timestamp,
    Source,
    Room,
    Nick,
    Destination,
    Encoding,
}

/// Whether every key is an integer that is not negative.
pub open spec fn unsigned_keys(fields: FieldMap) -> bool {
    forall|key: CborKey| #[trigger]
        fields.dom().contains(key) ==> key is Integer && key->Integer_0 >= 0
}

/// What is wrong with the fields of an envelope, if anything.
pub open spec fn flaw(fields: FieldMap) -> Option<EnvelopeError> {
    if !unsigned_keys(fields) {
        Some(EnvelopeError::BadKey)
    } else if field(fields, K_V) is None {
        Some(EnvelopeError::Missing(K_V))
    } else if field(fields, K_T) is None {
        Some(EnvelopeError::Missing(K_T))
    } else if field(fields, K_ID) is None {
        Some(EnvelopeError::Missing(K_ID))
    } else if field(fields, K_TS) is None {
        Some(EnvelopeError::Missing(K_TS))
    } else if field(fields, K_SRC) is None {
        Some(EnvelopeError::Missing(K_SRC))
    } else if integer_field(fields, K_V) != Some(VERSION) {
        Some(EnvelopeError::Version)
    } else if integer_field(fields, K_T) is None {
        Some(EnvelopeError::MessageType)
    } else if bytes_field(fields, K_ID) is None {
        Some(EnvelopeError::MessageId)
    } else if unsigned_field(fields, K_TS) is None {
        Some(EnvelopeError::Timestamp)
    } else if bytes_field(fields, K_SRC) is None {
        Some(EnvelopeError::Source)
    } else if field(fields, K_ROOM) is Some && text_field(fields, K_ROOM) is None {
        Some(EnvelopeError::Room)
    } else if field(fields, K_NICK) is Some && text_field(fields, K_NICK) is None {
        Some(EnvelopeError::Nick)
    } else if field(fields, K_DST) is Some && bytes_field(fields, K_DST) is None {
        Some(EnvelopeError::Destination)
    } else {
        None
    }
}

/// What `Envelope::decode` makes of `bytes`.
pub open spec fn decoded(bytes: Seq<u8>) -> Result<FieldMap, EnvelopeError> {
    match cbor_decoded(bytes) {
        None => Err(EnvelopeError::Malformed),
        Some(Cbor::Fields(fields)) => match flaw(fields) {
            None => Ok(fields),
            Some(error) => Err(error),
        },
        Some(_) => Err(EnvelopeError::NotAMap),
    }
}

/// What `Envelope::encode` makes of an envelope.
pub open spec fn encoded(fields: FieldMap) -> Result<Seq<u8>, EnvelopeError> {
    match flaw(fields) {
        Some(error) => Err(error),
        None => if writable(Cbor::Fields(fields)) {
            Ok(cbor_encoded(Cbor::Fields(fields))->0)
        } else {
            Err(EnvelopeError::Encoding)
        },
    }
}

/// The text of an envelope error.
pub open spec fn error_text(error: EnvelopeError) -> Seq<char> {
    match error {
        EnvelopeError::Malformed => "invalid CBOR"@,
        EnvelopeError::NotAMap => "envelope must be a CBOR map"@,
        EnvelopeError::BadKey => "envelope keys must be unsigned integers"@,
        EnvelopeError::Missing(key) => "missing envelope key "@ + signed_decimal(key as int),
        EnvelopeError::Version => "unsupported protocol version"@,
        EnvelopeError::MessageType => "message type must be an unsigned integer"@,
        EnvelopeError::MessageId => "message id must be bytes"@,
        EnvelopeError::Timestamp => "timestamp must be unsigned"@,
        EnvelopeError::Source => "sender identity must be bytes"@,
        EnvelopeError::Room => "room name must be a string"@,
        EnvelopeError::Nick => "nickname must be a string"@,
        EnvelopeError::Destination => "destination identity must be bytes"@,
        EnvelopeError::Encoding => "CBOR encoding failed"@,
    }
}

impl EnvelopeError {
    /// The error in words.
    pub fn message(&self) -> (result: String)
        ensures
            result@ == error_text(*self),
    {
        match self {
            EnvelopeError::Malformed => String::from_str("invalid CBOR"),
            EnvelopeError::NotAMap => String::from_str("envelope must be a CBOR map"),
            EnvelopeError::BadKey => String::from_str("envelope keys must be unsigned integers"),
            EnvelopeError::Missing(key) => {
                let mut text = String::from_str("missing envelope key ");
                text.append(to_signed_decimal(*key).as_str());
                text
            },
            EnvelopeError::Version => String::from_str("unsupported protocol version"),
            EnvelopeError::MessageType => {
                String::from_str("message type must be an unsigned integer")
            },
            EnvelopeError::MessageId => String::from_str("message id must be bytes"),
            EnvelopeError::Timestamp => String::from_str("timestamp must be unsigned"),
            EnvelopeError::Source => String::from_str("sender identity must be bytes"),
            EnvelopeError::Room => String::from_str("room name must be a string"),
            EnvelopeError::Nick => String::from_str("nickname must be a string"),
            EnvelopeError::Destination => String::from_str("destination identity must be bytes"),
            EnvelopeError::Encoding => String::from_str("CBOR encoding failed"),
        }
    }
}

/// A message of the protocol.
#[derive(Debug, PartialEq)]
pub struct Envelope {
    pub fields: Fields,
}

/// The value of the field with the integer key `field`.
pub fn map_get(map: &Fields, field: i128) -> (result: Option<&Datum>)
    ensures
        match result {
            Some(value) => self::field(map.map(), field) == Some(value.tree()),
            None => self::field(map.map(), field) is None,
        },
{
    map.get(field)
}

impl Envelope {
    /// Reads an envelope and checks it.
    pub fn decode(bytes: &[u8]) -> (result: Result<Self, EnvelopeError>)
        ensures
            match result {
                Ok(envelope) => {
                    &&& decoded(bytes@) == Ok::<FieldMap, EnvelopeError>(envelope.fields.map())
                    &&& writable(Cbor::Fields(envelope.fields.map()))
                },
                Err(error) => decoded(bytes@) == Err::<FieldMap, EnvelopeError>(error),
            },
    {
        match decode(bytes) {
            None => Err(EnvelopeError::Malformed),
            Some(Datum::Fields(fields)) => {
                let envelope = Envelope { fields };
                match envelope.validate() {
                    Ok(()) => Ok(envelope),
                    Err(error) => Err(error),
                }
            },
            Some(_) => Err(EnvelopeError::NotAMap),
        }
    }

    /// Checks the envelope and writes it.
    pub fn encode(&self) -> (result: Result<Vec<u8>, EnvelopeError>)
        ensures
            match result {
                Ok(bytes) => {
                    &&& encoded(self.fields.map()) == Ok::<Seq<u8>, EnvelopeError>(bytes@)
                    &&& plain(Cbor::Fields(self.fields.map()), max_depth()) ==> decoded(bytes@)
                        == Ok::<FieldMap, EnvelopeError>(self.fields.map())
                },
                Err(error) => encoded(self.fields.map()) == Err::<Seq<u8>, EnvelopeError>(error),
            },
    {
        match self.validate() {
            Ok(()) => match self.fields.encode() {
                Some(bytes) => Ok(bytes),
                None => Err(EnvelopeError::Encoding),
            },
            Err(error) => Err(error),
        }
    }

    /// Checks that the envelope is valid.
    pub fn validate(&self) -> (result: Result<(), EnvelopeError>)
        ensures
            match result {
                Ok(_) => flaw(self.fields.map()) is None,
                Err(error) => flaw(self.fields.map()) == Some(error),
            },
    {
        if !self.fields.has_unsigned_keys() {
            return Err(EnvelopeError::BadKey);
        }
        if self.get(K_V).is_none() {
            return Err(EnvelopeError::Missing(K_V));
        }
        if self.get(K_T).is_none() {
            return Err(EnvelopeError::Missing(K_T));
        }
        if self.get(K_ID).is_none() {
            return Err(EnvelopeError::Missing(K_ID));
        }
        if self.get(K_TS).is_none() {
            return Err(EnvelopeError::Missing(K_TS));
        }
        if self.get(K_SRC).is_none() {
            return Err(EnvelopeError::Missing(K_SRC));
        }
        match self.integer(K_V) {
            Some(version) => if version != VERSION {
                return Err(EnvelopeError::Version);
            },
            None => return Err(EnvelopeError::Version),
        }
        if self.integer(K_T).is_none() {
            return Err(EnvelopeError::MessageType);
        }
        if self.bytes(K_ID).is_none() {
            return Err(EnvelopeError::MessageId);
        }
        if self.unsigned(K_TS).is_none() {
            return Err(EnvelopeError::Timestamp);
        }
        if self.bytes(K_SRC).is_none() {
            return Err(EnvelopeError::Source);
        }
        if self.get(K_ROOM).is_some() && self.text(K_ROOM).is_none() {
            return Err(EnvelopeError::Room);
        }
        if self.get(K_NICK).is_some() && self.text(K_NICK).is_none() {
            return Err(EnvelopeError::Nick);
        }
        if self.get(K_DST).is_some() && self.bytes(K_DST).is_none() {
            return Err(EnvelopeError::Destination);
        }
        Ok(())
    }

    pub fn get(&self, field: i128) -> (result: Option<&Datum>)
        ensures
            match result {
                Some(value) => self::field(self.fields.map(), field) == Some(value.tree()),
                None => self::field(self.fields.map(), field) is None,
            },
    {
        map_get(&self.fields, field)
    }

    pub fn integer(&self, field: i128) -> (result: Option<u64>)
        ensures
            result == integer_field(self.fields.map(), field),
    {
        match self.unsigned(field) {
            Some(value) => if value <= 0xffff_ffff_ffff_ffffu128 {
                Some(value as u64)
            } else {
                None
            },
            None => None,
        }
    }

    pub fn unsigned(&self, field: i128) -> (result: Option<u128>)
        ensures
            match result {
                Some(value) => unsigned_field(self.fields.map(), field) == Some(value as int),
                None => unsigned_field(self.fields.map(), field) is None,
            },
    {
        match self.get(field) {
            Some(Datum::Integer(value)) => if *value >= 0 {
                Some(*value as u128)
            } else {
                None
            },
            _ => None,
        }
    }

    pub fn text(&self, field: i128) -> (result: Option<&str>)
        ensures
            match result {
                Some(text) => text_field(self.fields.map(), field) == Some(text@),
                None => text_field(self.fields.map(), field) is None,
            },
    {
        match self.get(field) {
            Some(Datum::Text(text)) => Some(text.as_str()),
            _ => None,
        }
    }

    pub fn bytes(&self, field: i128) -> (result: Option<&[u8]>)
        ensures
            match result {
                Some(bytes) => bytes_field(self.fields.map(), field) == Some(bytes@),
                None => bytes_field(self.fields.map(), field) is None,
            },
    {
        match self.get(field) {
            Some(Datum::Bytes(bytes)) => Some(bytes.as_slice()),
            _ => None,
        }
    }

    pub fn map(&self, field: i128) -> (result: Option<&Fields>)
        ensures
            match result {
                Some(map) => map_field(self.fields.map(), field) == Some(map.map()),
                None => map_field(self.fields.map(), field) is None,
            },
    {
        match self.get(field) {
            Some(Datum::Fields(map)) => Some(map),
            _ => None,
        }
    }

    pub fn set(&mut self, field: i128, value: Datum)
        ensures
            final(self).fields.map() == with_field(old(self).fields.map(), field, value.tree()),
    {
        self.fields.set(field, value);
    }

    pub fn remove(&mut self, field: i128)
        ensures
            final(self).fields.map() == old(self).fields.map().remove(
                CborKey::Integer(field as int),
            ),
    {
        self.fields.remove(field);
    }
}

/// The nickname that `text` stands for: trimmed, and none where it is empty, too long or holds a
/// line feed, a carriage return or a NUL.
pub open spec fn nick_of(text: Seq<char>, max_bytes: nat) -> Option<Seq<char>> {
    let nick = trimmed(text);
    if nick.len() == 0 || byte_len(nick) > max_bytes || has_control(nick) {
        None
    } else {
        Some(nick)
    }
}

/// Trims a nickname and checks it.
pub fn normalize_nick(value: &str, max_bytes: usize) -> (result: Option<String>)
    ensures
        match result {
            Some(nick) => nick_of(value@, max_bytes as nat) == Some(nick@),
            None => nick_of(value@, max_bytes as nat) is None,
        },
{
    let nick = trim(value);
    let empty = nick.as_str().is_empty();
    if empty || text_len(nick.as_str()) > max_bytes || contains_control(nick.as_str()) {
        None
    } else {
        Some(nick)
    }
}

} // verus!
