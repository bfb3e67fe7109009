//! Envelopes: what is read, what is written, and what is refused.

use rsrrcd::cbor::{decode, encode, Datum, FieldKey, Fields};
use rsrrcd::constants::{
    K_BODY, K_DST, K_ID, K_NICK, K_ROOM, K_SRC, K_T, K_TS, K_V, T_HELLO, T_MSG, T_PING,
};
use rsrrcd::protocol::{map_get, normalize_nick, Envelope, EnvelopeError};
use serde_cbor::Value as Outside;
use std::collections::BTreeMap;

fn text(value: &str) -> Datum {
    Datum::Text(value.into())
}

fn refused(change: fn(&mut Envelope)) -> EnvelopeError {
    let mut envelope = Envelope::new(T_MSG, &[7; 16]);
    change(&mut envelope);
    let bytes = encode(&Datum::Fields(envelope.fields)).unwrap();
    Envelope::decode(&bytes).unwrap_err()
}

#[test]
fn envelope_round_trip_uses_integer_keys() {
    let mut envelope = Envelope::new(T_MSG, &[7; 16]);
    envelope.set(K_ROOM, text("test"));
    envelope.set(K_BODY, text("hello"));
    let decoded = Envelope::decode(&envelope.encode().unwrap()).unwrap();
    assert_eq!(decoded.integer(K_T), Some(T_MSG));
    assert_eq!(decoded.text(K_ROOM), Some("test"));
}

#[test]
fn rejects_missing_required_fields() {
    let bytes = serde_cbor::to_vec(&Outside::Map(BTreeMap::new())).unwrap();
    assert!(Envelope::decode(&bytes).is_err());
}

#[test]
fn rejects_non_integer_and_negative_keys_but_allows_extensions() {
    let mut envelope = Envelope::new(T_HELLO, &[7; 16]);
    envelope.fields.insert(FieldKey::Text("bad".into()), Datum::Bool(true));
    assert!(envelope.encode().is_err());

    let mut envelope = Envelope::new(T_HELLO, &[7; 16]);
    envelope.fields.insert(FieldKey::Integer(-1), Datum::Bool(true));
    assert!(envelope.encode().is_err());

    let mut envelope = Envelope::new(T_HELLO, &[7; 16]);
    envelope.fields.insert(FieldKey::Integer(64), Datum::Bool(true));
    assert!(envelope.encode().is_ok());
}

#[test]
fn every_flaw_has_its_error() {
    assert_eq!(Envelope::decode(&[0xff, 0x00]).unwrap_err(), EnvelopeError::Malformed);
    let number = serde_cbor::to_vec(&Outside::Integer(5)).unwrap();
    assert_eq!(Envelope::decode(&number).unwrap_err(), EnvelopeError::NotAMap);
    assert_eq!(refused(|e| e.set(-3, Datum::Null)), EnvelopeError::BadKey);
    for key in [K_V, K_T, K_ID, K_TS, K_SRC] {
        let mut envelope = Envelope::new(T_MSG, &[7; 16]);
        envelope.remove(key);
        let bytes = encode(&Datum::Fields(envelope.fields)).unwrap();
        assert_eq!(Envelope::decode(&bytes).unwrap_err(), EnvelopeError::Missing(key));
    }
    assert_eq!(refused(|e| e.set(K_V, Datum::Integer(2))), EnvelopeError::Version);
    assert_eq!(refused(|e| e.set(K_T, Datum::Integer(-1))), EnvelopeError::MessageType);
    assert_eq!(refused(|e| e.set(K_ID, Datum::Null)), EnvelopeError::MessageId);
    assert_eq!(refused(|e| e.set(K_TS, Datum::Integer(-1))), EnvelopeError::Timestamp);
    assert_eq!(refused(|e| e.set(K_SRC, Datum::Integer(1))), EnvelopeError::Source);
    assert_eq!(refused(|e| e.set(K_ROOM, Datum::Integer(1))), EnvelopeError::Room);
    assert_eq!(refused(|e| e.set(K_NICK, Datum::Integer(1))), EnvelopeError::Nick);
    assert_eq!(refused(|e| e.set(K_DST, Datum::Integer(1))), EnvelopeError::Destination);
    let mut envelope = Envelope::new(T_MSG, &[7; 16]);
    envelope.set(K_BODY, Datum::Integer(i128::MAX));
    assert_eq!(envelope.encode().unwrap_err(), EnvelopeError::Encoding);
}

#[test]
fn errors_are_told_in_words() {
    assert_eq!(EnvelopeError::NotAMap.message(), "envelope must be a CBOR map");
    assert_eq!(EnvelopeError::BadKey.message(), "envelope keys must be unsigned integers");
    assert_eq!(EnvelopeError::Missing(4).message(), "missing envelope key 4");
    assert_eq!(EnvelopeError::Missing(-12).message(), "missing envelope key -12");
    assert_eq!(
        EnvelopeError::Missing(i128::MIN).message(),
        format!("missing envelope key {}", i128::MIN)
    );
    assert_eq!(EnvelopeError::Version.message(), "unsupported protocol version");
}

#[test]
fn a_new_envelope_is_complete() {
    let envelope = Envelope::new(T_PING, &[3; 16]);
    assert!(envelope.validate().is_ok());
    assert_eq!(envelope.integer(K_V), Some(1));
    assert_eq!(envelope.integer(K_T), Some(T_PING));
    assert_eq!(envelope.bytes(K_SRC), Some(&[3; 16][..]));
    assert_eq!(envelope.bytes(K_ID).map(|id| id.len()), Some(8));
    assert!(envelope.unsigned(K_TS).unwrap() > 1_600_000_000_000);
    let other = Envelope::new(T_PING, &[3; 16]);
    assert_ne!(envelope.bytes(K_ID), other.bytes(K_ID));
}

#[test]
fn fields_are_read_by_their_kind() {
    let mut envelope = Envelope::new(T_MSG, &[7; 16]);
    let mut inner = Fields::new();
    inner.set(2, Datum::Bool(true));
    envelope.set(K_BODY, Datum::Fields(inner));
    envelope.set(64, Datum::Integer(u64::MAX as i128));
    envelope.set(65, Datum::Integer(-5));
    assert_eq!(map_get(envelope.map(K_BODY).unwrap(), 2), Some(&Datum::Bool(true)));
    assert_eq!(map_get(envelope.map(K_BODY).unwrap(), 3), None);
    assert_eq!(envelope.integer(64), Some(u64::MAX));
    assert_eq!(envelope.integer(65), None);
    assert_eq!(envelope.unsigned(65), None);
    assert_eq!(envelope.text(64), None);
    assert_eq!(envelope.bytes(64), None);
    assert_eq!(envelope.get(66), None);
    envelope.remove(64);
    assert_eq!(envelope.get(64), None);
    envelope.set(65, text("now a text"));
    assert_eq!(envelope.text(65), Some("now a text"));
}

#[test]
fn bytes_agree_with_the_cbor_library() {
    let mut map = BTreeMap::new();
    map.insert(Outside::Integer(1), Outside::Text("one".into()));
    map.insert(Outside::Text("two".into()), Outside::Array(vec![Outside::Null]));
    map.insert(Outside::Integer(-7), Outside::Bytes(vec![1, 2, 3]));
    map.insert(Outside::Float(0.5), Outside::Float(1.5));
    let bytes = serde_cbor::to_vec(&Outside::Map(map)).unwrap();
    let value = decode(&bytes).unwrap();
    let Datum::Fields(fields) = &value else {
        panic!("expected a map");
    };
    assert_eq!(fields.get(1), Some(&text("one")));
    assert_eq!(fields.get(-7), Some(&Datum::Bytes(vec![1, 2, 3])));
    assert_eq!(encode(&value), Some(bytes));
    assert_eq!(encode(&Datum::Integer(-1)), Some(vec![0x20]));
    assert_eq!(encode(&text("a")), Some(vec![0x61, 0x61]));
    assert_eq!(decode(&[0x82, 0xf5, 0xf6]), Some(Datum::Array(vec![Datum::Bool(true), Datum::Null])));
    assert_eq!(decode(&[0x61]), None);
    assert_eq!(decode(&[0x01, 0x02]), None);
}

#[test]
fn the_last_of_two_values_for_a_key_counts() {
    let mut fields = Fields::new();
    fields.insert(FieldKey::Integer(1), Datum::Integer(10));
    fields.insert(FieldKey::Integer(1), Datum::Integer(20));
    assert_eq!(fields.get(1), Some(&Datum::Integer(20)));
    let Some(Datum::Fields(back)) = decode(&fields.encode().unwrap()) else {
        panic!("expected a map");
    };
    assert_eq!(back.get(1), Some(&Datum::Integer(20)));
    assert_eq!(fields.take(1), Some(Datum::Integer(20)));
    assert_eq!(fields.get(1), None);
}

#[test]
fn nicknames_are_trimmed_and_checked() {
    assert_eq!(normalize_nick("  alice ", 32), Some("alice".into()));
    assert_eq!(normalize_nick("\u{3000}alice\u{a0}", 32), Some("alice".into()));
    assert_eq!(normalize_nick("   ", 32), None);
    assert_eq!(normalize_nick("", 32), None);
    assert_eq!(normalize_nick("alice", 4), None);
    assert_eq!(normalize_nick("alice", 5), Some("alice".into()));
    assert_eq!(normalize_nick("héé", 5), Some("héé".into()));
    assert_eq!(normalize_nick("héé", 4), None);
    assert_eq!(normalize_nick("a\nb", 32), None);
    assert_eq!(normalize_nick("a\rb", 32), None);
    assert_eq!(normalize_nick("a\0b", 32), None);
}

#[test]
fn maps_with_any_keys_are_read_back() {
    let mut key_map = Fields::new();
    key_map.set(1, text("one"));
    let keys = [
        Datum::Null,
        Datum::Bool(true),
        Datum::Bool(false),
        Datum::Bytes(vec![1, 2, 3]),
        Datum::Array(vec![Datum::Integer(-1), Datum::Array(vec![])]),
        Datum::Fields(key_map),
        Datum::Integer(-5),
        text("text"),
    ];
    let mut body = Fields::new();
    for (number, key) in keys.iter().enumerate() {
        body.insert(FieldKey::new(key).unwrap(), Datum::Integer(number as i128));
    }
    let mut envelope = Envelope::new(T_MSG, &[7; 16]);
    envelope.set(K_BODY, Datum::Fields(body));
    let bytes = envelope.encode().unwrap();
    let back = Envelope::decode(&bytes).unwrap();
    assert_eq!(back.encode().unwrap(), bytes);
    let Outside::Map(outer) = serde_cbor::from_slice(&bytes).unwrap() else {
        panic!("expected a map");
    };
    let Some(Outside::Map(inner)) = outer.get(&Outside::Integer(K_BODY)) else {
        panic!("expected a map");
    };
    assert_eq!(inner.len(), keys.len());
    assert_eq!(inner.get(&Outside::Bool(true)), Some(&Outside::Integer(1)));
    assert_eq!(inner.get(&Outside::Bytes(vec![1, 2, 3])), Some(&Outside::Integer(3)));
    assert!(FieldKey::new(&Datum::Integer(i128::MAX)).is_none());
    assert!(FieldKey::new(&Datum::Array(vec![Datum::Integer(i128::MIN)])).is_none());
}

#[test]
fn values_are_read_back_down_to_a_depth() {
    let nested = |depth: usize| {
        let mut value = Datum::Null;
        for _ in 0..depth {
            value = Datum::Array(vec![value]);
        }
        value
    };
    let bytes = encode(&nested(127)).unwrap();
    assert_eq!(decode(&bytes), Some(nested(127)));
    assert_eq!(decode(&encode(&nested(128)).unwrap()), None);
    let keyed = |depth: usize| {
        let mut fields = Fields::new();
        fields.insert(FieldKey::new(&nested(depth)).unwrap(), Datum::Null);
        Datum::Fields(fields)
    };
    let bytes = encode(&keyed(126)).unwrap();
    assert_eq!(encode(&decode(&bytes).unwrap()), Some(bytes));
    assert_eq!(decode(&encode(&keyed(127)).unwrap()), None);
}
