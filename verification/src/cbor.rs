//! CBOR values as the protocol sees them, and their way to and from bytes.
//!
//! [`Datum`] is a tree of plain values. Bytes are read and written by the `serde_cbor` crate; the
//! functions here take its values apart and put them together again.

use crate::collections::group_collections;
use crate::collections::{at, dropped, holds};
use vstd::prelude::*;

verus! {

/// The `serde_cbor` crate's own value type.
#[verifier::external_type_specification]
#[verifier::external_body]
pub struct ExCborValue(serde_cbor::Value);

/// The `serde_cbor` crate's error type.
#[verifier::external_type_specification]
#[verifier::external_body]
pub struct ExCborError(serde_cbor::Error);

/// The key of a map entry. A key that is neither an integer nor a text is known by the bytes
/// that it is written as, if it can be written at all.
pub enum CborKey {
    Integer(int),
    Text(Seq<char>),
    Other(Option<Seq<u8>>),
}

/// A CBOR value as a mathematical tree. A value of another kind (a floating-point number) is known
/// by the bytes that it is written as, if it can be written at all.
pub enum Cbor {
    Null,
    Bool(bool),
    Integer(int),
    Bytes(Seq<u8>),
    Text(Seq<char>),
    Array(Seq<Cbor>),
    Fields(Map<CborKey, Cbor>),
    Other(Option<Seq<u8>>),
}

/// The tree that a `serde_cbor` value holds.
pub uninterp spec fn cbor_tree(value: serde_cbor::Value) -> Cbor;

/// Whether a `serde_cbor` value and everything in it is of the variants for plain values and
/// floating-point numbers: no tag, and not the variant that the crate hides.
pub uninterp spec fn cbor_untagged(value: serde_cbor::Value) -> bool;

/// What `serde_cbor::from_slice` reads from `bytes`, or `None` where it fails.
pub uninterp spec fn cbor_decoded(bytes: Seq<u8>) -> Option<Cbor>;

/// What `serde_cbor::to_vec` writes for a value that holds `tree`, or `None` where it fails.
pub uninterp spec fn cbor_encoded(tree: Cbor) -> Option<Seq<u8>>;

/// The key that a value is when it stands before another value in a map.
pub open spec fn key_of(tree: Cbor) -> CborKey {
    match tree {
        Cbor::Integer(value) => CborKey::Integer(value),
        Cbor::Text(text) => CborKey::Text(text),
        _ => CborKey::Other(cbor_encoded(tree)),
    }
}

/// The map that `pairs` make up; of several values for one key the last one counts.
pub open spec fn map_of<K, V>(pairs: Seq<(K, V)>) -> Map<K, V> {
    Map::new(|key: K| holds(pairs, key), |key: K| at(pairs, key))
}

/// The integers that CBOR can carry.
pub open spec fn in_range(value: int) -> bool {
    -0x1_0000_0000_0000_0000 <= value <= 0xffff_ffff_ffff_ffff
}

/// Whether a key can be written.
pub open spec fn key_writable(key: CborKey) -> bool {
    match key {
        CborKey::Integer(value) => in_range(value),
        CborKey::Text(_) => true,
        CborKey::Other(bytes) => bytes is Some,
    }
}

/// Whether a value can be written: it and everything in it.
pub open spec fn writable(tree: Cbor) -> bool
    decreases tree,
{
    &&& tree is Integer ==> in_range(tree->Integer_0)
    &&& tree is Array ==> forall|i: int|
        0 <= i < tree->Array_0.len() ==> writable(#[trigger] tree->Array_0[i])
    &&& tree is Fields ==> forall|key: CborKey| #[trigger]
        tree->Fields_0.dom().contains(key) ==> key_writable(key) && writable(tree->Fields_0[key])
    &&& tree is Other ==> tree->Other_0 is Some
}

/// Whether a value holds no value of another kind and nests arrays and maps at most `depth` deep,
/// keys included. A key that is known by its bytes is taken for the value that is written so.
pub open spec fn plain(tree: Cbor, depth: nat) -> bool
    decreases depth,
{
    &&& tree is Array || tree is Fields ==> depth > 0
    &&& tree is Array ==> forall|i: int|
        0 <= i < tree->Array_0.len() ==> plain(#[trigger] tree->Array_0[i], (depth - 1) as nat)
    &&& tree is Fields ==> forall|key: CborKey| #[trigger]
        tree->Fields_0.dom().contains(key) ==> {
            &&& plain(tree->Fields_0[key], (depth - 1) as nat)
            &&& key is Other ==> exists|own: Cbor|
                #[trigger] key_of(own) == key && plain(own, (depth - 1) as nat)
        }
    &&& !(tree is Other)
}

/// How deeply `serde_cbor` lets arrays and maps nest when it reads.
pub open spec fn max_depth() -> nat {
    127
}

/// A `serde_cbor` value taken apart by one level.
pub enum Node {
    Null,
    Bool(bool),
    Integer(i128),
    Bytes(Vec<u8>),
    Text(String),
    Array(Vec<serde_cbor::Value>),
    Fields(Vec<(serde_cbor::Value, serde_cbor::Value)>),
    Other(serde_cbor::Value),
}

/// The trees of the items of an array.
pub open spec fn item_trees(items: Seq<serde_cbor::Value>) -> Seq<Cbor> {
    Seq::new(items.len(), |i: int| cbor_tree(items[i]))
}

/// The keys and trees of the entries of a map.
pub open spec fn entry_trees(entries: Seq<(serde_cbor::Value, serde_cbor::Value)>) -> Seq<
    (CborKey, Cbor),
> {
    Seq::new(entries.len(), |i: int| (key_of(cbor_tree(entries[i].0)), cbor_tree(entries[i].1)))
}

/// Whether no two entries of a map have the same key.
pub open spec fn keys_differ(entries: Seq<(serde_cbor::Value, serde_cbor::Value)>) -> bool {
    forall|i: int, j: int|
        0 <= i < j < entries.len() ==> (#[trigger] entry_trees(entries)[i]).0 != (
        #[trigger] entry_trees(entries)[j]).0
}

impl Node {
    /// Whether everything that hangs on the node is untagged.
    pub open spec fn untagged(self) -> bool {
        match self {
            Node::Array(items) => forall|i: int|
                0 <= i < items@.len() ==> cbor_untagged(#[trigger] items@[i]),
            Node::Fields(entries) => forall|i: int|
                0 <= i < entries@.len() ==> cbor_untagged((#[trigger] entries@[i]).0)
                    && cbor_untagged(entries@[i].1),
            Node::Other(value) => cbor_untagged(value),
            _ => true,
        }
    }

    /// The tree that the node and what hangs on it hold.
    pub open spec fn tree(self) -> Cbor {
        match self {
            Node::Null => Cbor::Null,
            Node::Bool(value) => Cbor::Bool(value),
            Node::Integer(value) => Cbor::Integer(value as int),
            Node::Bytes(bytes) => Cbor::Bytes(bytes@),
            Node::Text(text) => Cbor::Text(text@),
            Node::Array(items) => Cbor::Array(item_trees(items@)),
            Node::Fields(entries) => Cbor::Fields(map_of(entry_trees(entries@))),
            Node::Other(value) => cbor_tree(value),
        }
    }
}

/// `serde_cbor::from_slice`: reads one value that takes up all of `bytes`. What it reads from
/// which bytes is left to the name [`cbor_decoded`]; whatever it reads can be written. It has no
/// tag in it: without its `tags` feature, which is off, the crate reads past tags.
#[verifier::external_body]
fn parse(bytes: &[u8]) -> (result: Result<serde_cbor::Value, serde_cbor::Error>)
    ensures
        match result {
            Ok(value) => {
                &&& cbor_decoded(bytes@) == Some(cbor_tree(value))
                &&& writable(cbor_tree(value))
                &&& cbor_untagged(value)
            },
            Err(_) => cbor_decoded(bytes@) is None,
        },
{
    serde_cbor::from_slice(bytes)
}

/// `serde_cbor::to_vec`: writes a value. It fails exactly on a value that holds an integer outside
/// the range of CBOR. Which bytes it writes is left to the name [`cbor_encoded`]; reading gives
/// every value back that holds no value of another kind and nests no deeper than the reader
/// allows.
#[verifier::external_body]
fn write(value: &serde_cbor::Value) -> (result: Result<Vec<u8>, serde_cbor::Error>)
    requires
        cbor_untagged(*value),
    ensures
        match result {
            Ok(bytes) => {
                &&& writable(cbor_tree(*value))
                &&& cbor_encoded(cbor_tree(*value)) == Some(bytes@)
                &&& plain(cbor_tree(*value), max_depth()) ==> cbor_decoded(bytes@) == Some(
                    cbor_tree(*value),
                )
            },
            Err(_) => !writable(cbor_tree(*value)) && cbor_encoded(cbor_tree(*value)) is None,
        },
{
    serde_cbor::to_vec(value)
}

/// Takes a `serde_cbor::Value` apart by its variants. The entries of a map come out of its
/// `BTreeMap` in order; in a value that can be written, every part can be written and no two
/// entries of a map have the same key, since the order of values tells keys apart as their bytes
/// do.
#[verifier::external_body]
fn open(value: serde_cbor::Value) -> (result: Node)
    requires
        cbor_untagged(value),
    ensures
        result.tree() == cbor_tree(value),
        result.untagged(),
        match result {
            Node::Array(items) => forall|i: int|
                0 <= i < items@.len() && writable(cbor_tree(value)) ==> writable(
                    cbor_tree(#[trigger] items@[i]),
                ),
            Node::Fields(entries) => writable(cbor_tree(value)) ==> {
                &&& forall|i: int|
                    0 <= i < entries@.len() ==> writable(cbor_tree((#[trigger] entries@[i]).0))
                        && writable(cbor_tree(entries@[i].1))
                &&& keys_differ(entries@)
            },
            Node::Other(other) => other == value && cbor_tree(value) is Other,
            _ => true,
        },
{
    match value {
        serde_cbor::Value::Null => Node::Null,
        serde_cbor::Value::Bool(value) => Node::Bool(value),
        serde_cbor::Value::Integer(value) => Node::Integer(value),
        serde_cbor::Value::Bytes(bytes) => Node::Bytes(bytes),
        serde_cbor::Value::Text(text) => Node::Text(text),
        serde_cbor::Value::Array(items) => Node::Array(items),
        serde_cbor::Value::Map(entries) => Node::Fields(entries.into_iter().collect()),
        other => Node::Other(other),
    }
}

/// Puts a `serde_cbor::Value` together from its parts. The entries of a map are collected into its
/// `BTreeMap`; that compares keys, which needs keys that can be written, and keeps every entry
/// where no two keys are the same.
#[verifier::external_body]
fn close(node: Node) -> (result: serde_cbor::Value)
    requires
        node.untagged(),
        match node {
            Node::Fields(entries) => {
                &&& forall|i: int|
                    0 <= i < entries@.len() ==> writable(cbor_tree((#[trigger] entries@[i]).0))
                &&& keys_differ(entries@)
            },
            _ => true,
        },
    ensures
        cbor_tree(result) == node.tree(),
        cbor_untagged(result),
{
    match node {
        Node::Null => serde_cbor::Value::Null,
        Node::Bool(value) => serde_cbor::Value::Bool(value),
        Node::Integer(value) => serde_cbor::Value::Integer(value),
        Node::Bytes(bytes) => serde_cbor::Value::Bytes(bytes),
        Node::Text(text) => serde_cbor::Value::Text(text),
        Node::Array(items) => serde_cbor::Value::Array(items),
        Node::Fields(entries) => serde_cbor::Value::Map(entries.into_iter().collect()),
        Node::Other(value) => value,
    }
}

/// `serde_cbor::Value::clone`: a copy that holds the same tree, with a tag where there was one.
pub assume_specification[ <serde_cbor::Value as std::clone::Clone>::clone ](
    value: &serde_cbor::Value,
) -> (result: serde_cbor::Value)
    ensures
        cbor_tree(result) == cbor_tree(*value),
        cbor_untagged(result) == cbor_untagged(*value),
;

/// A key that the protocol carries along without looking into it.
#[derive(Debug, PartialEq)]
pub struct Foreign {
    value: serde_cbor::Value,
}

impl Foreign {
    #[verifier::type_invariant]
    spec fn sound(self) -> bool {
        cbor_untagged(self.value) && writable(cbor_tree(self.value))
    }

    /// The tree that is carried along.
    pub closed spec fn tree(self) -> Cbor {
        cbor_tree(self.value)
    }
}

/// A value of another kind, which the protocol carries along without looking into it.
#[derive(Debug, PartialEq)]
pub struct Opaque {
    value: serde_cbor::Value,
}

impl Opaque {
    #[verifier::type_invariant]
    spec fn sound(self) -> bool {
        cbor_untagged(self.value) && cbor_tree(self.value) is Other && writable(
            cbor_tree(self.value),
        )
    }

    /// The bytes that the value is written as.
    pub closed spec fn written(self) -> Option<Seq<u8>> {
        cbor_tree(self.value)->Other_0
    }
}

/// The key of a map entry.
#[derive(Debug, PartialEq)]
pub enum FieldKey {
    Integer(i128),
    Text(String),
    Other(Foreign),
}

impl FieldKey {
    pub open spec fn key(self) -> CborKey {
        match self {
            FieldKey::Integer(value) => CborKey::Integer(value as int),
            FieldKey::Text(text) => CborKey::Text(text@),
            FieldKey::Other(foreign) => key_of(foreign.tree()),
        }
    }
}

/// A CBOR value.
#[derive(Debug, PartialEq)]
pub enum Datum {
    Null,
    Bool(bool),
    Integer(i128),
    Bytes(Vec<u8>),
    Text(String),
    Array(Vec<Datum>),
    Fields(Fields),
    Other(Opaque),
}

/// The entries of a CBOR map.
#[derive(Debug, PartialEq)]
pub struct Fields {
    pub(crate) entries: Vec<(FieldKey, Datum)>,
}

impl Datum {
    /// The tree that the value is.
    pub open spec fn tree(self) -> Cbor
        decreases self,
    {
        match self {
            Datum::Null => Cbor::Null,
            Datum::Bool(value) => Cbor::Bool(value),
            Datum::Integer(value) => Cbor::Integer(value as int),
            Datum::Bytes(bytes) => Cbor::Bytes(bytes@),
            Datum::Text(text) => Cbor::Text(text@),
            Datum::Array(items) => Cbor::Array(
                Seq::new(
                    items@.len(),
                    |i: int|
                        if 0 <= i < items@.len() {
                            items@[i].tree()
                        } else {
                            Cbor::Null
                        },
                ),
            ),
            Datum::Fields(fields) => Cbor::Fields(fields.map()),
            Datum::Other(opaque) => Cbor::Other(opaque.written()),
        }
    }
}

/// The trees of the items of an array.
pub open spec fn trees(items: Seq<Datum>) -> Seq<Cbor> {
    Seq::new(items.len(), |i: int| items[i].tree())
}

/// The tree of an array is made of the trees of its items.
pub proof fn lemma_array_tree(items: Vec<Datum>)
    ensures
        Datum::Array(items).tree() == Cbor::Array(trees(items@)),
{
    assert(Datum::Array(items).tree()->Array_0 =~= trees(items@));
}

impl Fields {
    /// The keys and trees of the entries, in order.
    pub open(crate) spec fn pairs(self) -> Seq<(CborKey, Cbor)>
        decreases self, 0int,
    {
        Seq::new(
            self.entries@.len(),
            |i: int|
                if 0 <= i < self.entries@.len() {
                    (self.entries@[i].0.key(), self.entries@[i].1.tree())
                } else {
                    arbitrary()
                },
        )
    }

    /// The map that the entries make up.
    pub open(crate) spec fn map(self) -> Map<CborKey, Cbor>
        decreases self, 1int,
    {
        map_of(self.pairs())
    }
}

broadcast use group_collections;

pub proof fn lemma_map_push<K, V>(pairs: Seq<(K, V)>, key: K, value: V)
    ensures
        map_of(pairs.push((key, value))) == map_of(pairs).insert(key, value),
{
    let after = pairs.push((key, value));
    assert(after.drop_last() =~= pairs);
    assert(after[pairs.len() as int].0 == key);
    assert forall|other: K| holds(after, other) == (other == key || holds(pairs, other)) by {
        if holds(pairs, other) {
            let i = choose|i: int| 0 <= i < pairs.len() && (#[trigger] pairs[i]).0 == other;
            assert(after[i].0 == other);
        }
        if holds(after, other) && other != key {
            let i = choose|i: int| 0 <= i < after.len() && (#[trigger] after[i]).0 == other;
            assert(pairs[i].0 == other);
        }
    }
    assert(map_of(after) =~= map_of(pairs).insert(key, value));
}

proof fn lemma_at_last<K, V>(pairs: Seq<(K, V)>, key: K, i: int)
    requires
        0 <= i < pairs.len(),
        pairs[i].0 == key,
        forall|j: int| i < j < pairs.len() ==> (#[trigger] pairs[j]).0 != key,
    ensures
        map_of(pairs).dom().contains(key),
        map_of(pairs)[key] == pairs[i].1,
    decreases pairs.len(),
{
    if i < pairs.len() - 1 {
        assert(pairs[pairs.len() - 1].0 != key);
        lemma_at_last(pairs.drop_last(), key, i);
    }
}

/// An entry does not matter to the map without its key.
proof fn lemma_map_without<K, V>(pairs: Seq<(K, V)>, key: K, i: int)
    requires
        0 <= i < pairs.len(),
        pairs[i].0 == key,
    ensures
        map_of(pairs.remove(i)).remove(key) == map_of(pairs).remove(key),
    decreases pairs.len(),
{
    let last = pairs.last();
    assert(pairs.drop_last().push(last) =~= pairs);
    lemma_map_push(pairs.drop_last(), last.0, last.1);
    if i == pairs.len() - 1 {
        assert(pairs.remove(i) =~= pairs.drop_last());
        assert(map_of(pairs.remove(i)).remove(key) =~= map_of(pairs).remove(key));
    } else {
        lemma_map_without(pairs.drop_last(), key, i);
        assert(pairs.remove(i) =~= pairs.drop_last().remove(i).push(last));
        lemma_map_push(pairs.drop_last().remove(i), last.0, last.1);
        let left = map_of(pairs.remove(i)).remove(key);
        let right = map_of(pairs).remove(key);
        let a = map_of(pairs.drop_last().remove(i));
        let b = map_of(pairs.drop_last());
        if last.0 == key {
            assert(left =~= a.remove(key));
            assert(right =~= b.remove(key));
        } else {
            assert(left =~= a.remove(key).insert(last.0, last.1));
            assert(right =~= b.remove(key).insert(last.0, last.1));
        }
    }
}

proof fn lemma_map_finite<K, V>(pairs: Seq<(K, V)>)
    ensures
        map_of(pairs).dom().finite(),
    decreases pairs.len(),
{
    if pairs.len() == 0 {
        assert(map_of(pairs).dom() =~= Set::empty());
    } else {
        lemma_map_finite(pairs.drop_last());
        lemma_map_push(pairs.drop_last(), pairs.last().0, pairs.last().1);
        assert(pairs.drop_last().push(pairs.last()) =~= pairs);
    }
}

impl Fields {
    pub fn new() -> (result: Self)
        ensures
            result.map() == Map::<CborKey, Cbor>::empty(),
    {
        let result = Fields { entries: Vec::new() };
        assert(result.map() =~= Map::<CborKey, Cbor>::empty());
        result
    }

    /// Adds an entry; it counts instead of any earlier one for the same key.
    pub fn insert(&mut self, key: FieldKey, value: Datum)
        ensures
            final(self).map() == old(self).map().insert(key.key(), value.tree()),
    {
        let ghost before = self.pairs();
        self.entries.push((key, value));
        assert(self.pairs() =~= before.push((key.key(), value.tree())));
        proof {
            lemma_map_push(before, key.key(), value.tree());
        }
    }

    fn find(&self, key: i128) -> (result: Option<usize>)
        ensures
            match result {
                Some(i) => {
                    &&& i < self.entries@.len()
                    &&& self.pairs()[i as int].0 == CborKey::Integer(key as int)
                    &&& forall|j: int|
                        i < j < self.pairs().len() ==> (#[trigger] self.pairs()[j]).0
                            != CborKey::Integer(key as int)
                },
                None => !holds(self.pairs(), CborKey::Integer(key as int)),
            },
    {
        let mut i: usize = self.entries.len();
        while i > 0
            invariant
                i <= self.entries@.len(),
                forall|j: int|
                    i <= j < self.pairs().len() ==> (#[trigger] self.pairs()[j]).0
                        != CborKey::Integer(key as int),
            decreases i,
        {
            i -= 1;
            if self.entries[i].0.is_integer(key) {
                return Some(i);
            }
        }
        None
    }

    /// The value for an integer key.
    pub fn get(&self, key: i128) -> (result: Option<&Datum>)
        ensures
            match result {
                Some(value) => {
                    &&& self.map().dom().contains(CborKey::Integer(key as int))
                    &&& self.map()[CborKey::Integer(key as int)] == value.tree()
                },
                None => !self.map().dom().contains(CborKey::Integer(key as int)),
            },
    {
        match self.find(key) {
            Some(i) => {
                proof {
                    lemma_at_last(self.pairs(), CborKey::Integer(key as int), i as int);
                }
                Some(&self.entries[i].1)
            },
            None => None,
        }
    }

    /// Sets the value for an integer key.
    pub fn set(&mut self, key: i128, value: Datum)
        ensures
            final(self).map() == old(self).map().insert(
                CborKey::Integer(key as int),
                value.tree(),
            ),
    {
        self.remove(key);
        self.insert(FieldKey::Integer(key), value);
        assert(final(self).map() =~= old(self).map().insert(
            CborKey::Integer(key as int),
            value.tree(),
        ));
    }

    /// Takes out the value for an integer key and hands it back.
    pub fn take(&mut self, key: i128) -> (result: Option<Datum>)
        ensures
            match result {
                Some(value) => {
                    &&& old(self).map().dom().contains(CborKey::Integer(key as int))
                    &&& old(self).map()[CborKey::Integer(key as int)] == value.tree()
                },
                None => !old(self).map().dom().contains(CborKey::Integer(key as int)),
            },
            final(self).map() == old(self).map().remove(CborKey::Integer(key as int)),
    {
        let ghost before = self.pairs();
        let ghost gone = CborKey::Integer(key as int);
        match self.find(key) {
            Some(i) => {
                proof {
                    lemma_at_last(before, gone, i as int);
                    lemma_map_without(before, gone, i as int);
                }
                let (_, value) = self.entries.remove(i);
                assert(self.pairs() =~= before.remove(i as int));
                self.remove(key);
                Some(value)
            },
            None => {
                assert(self.map() =~= self.map().remove(gone));
                None
            },
        }
    }

    /// Takes out the value for an integer key.
    pub fn remove(&mut self, key: i128)
        ensures
            final(self).map() == old(self).map().remove(CborKey::Integer(key as int)),
    {
        let ghost before = self.pairs();
        let ghost gone = CborKey::Integer(key as int);
        let ghost mut done: int = 0;
        let mut i: usize = 0;
        assert(before.take(0) =~= Seq::<(CborKey, Cbor)>::empty());
        assert(self.pairs() =~= dropped(before.take(0), gone) + before.skip(0));
        while i < self.entries.len()
            invariant
                gone == CborKey::Integer(key as int),
                0 <= done <= before.len(),
                i <= self.entries.len(),
                self.pairs() == dropped(before.take(done), gone) + before.skip(done),
                dropped(before.take(done), gone).len() == i,
            decreases self.entries.len() - i,
        {
            proof {
                assert(self.pairs()[i as int] == before.skip(done)[0]);
                assert(before.take(done + 1).drop_last() =~= before.take(done));
                assert(before.take(done + 1).last() == before[done]);
            }
            let ghost current = self.pairs();
            if self.entries[i].0.is_integer(key) {
                self.entries.remove(i);
                assert(self.pairs() =~= current.remove(i as int));
                assert(self.pairs() =~= dropped(before.take(done + 1), gone) + before.skip(
                    done + 1,
                ));
            } else {
                assert(self.pairs() =~= dropped(before.take(done + 1), gone) + before.skip(
                    done + 1,
                ));
                i += 1;
            }
            proof {
                done = done + 1;
            }
        }
        assert(before.skip(done).len() == 0);
        assert(before.take(done) =~= before);
        assert(self.pairs() =~= dropped(before, gone));
        assert(self.map() =~= map_of(before).remove(gone));
    }
}

impl FieldKey {
    fn is_integer(&self, value: i128) -> (result: bool)
        ensures
            result == (self.key() == CborKey::Integer(value as int)),
    {
        match self {
            FieldKey::Integer(own) => *own == value,
            FieldKey::Text(_) => false,
            FieldKey::Other(foreign) => {
                proof {
                    use_type_invariant(foreign);
                }
                match open(foreign.value.clone()) {
                    Node::Integer(own) => own == value,
                    _ => false,
                }
            },
        }
    }
}

/// Reads a key.
fn key_from(value: serde_cbor::Value) -> (result: FieldKey)
    requires
        cbor_untagged(value),
        writable(cbor_tree(value)),
    ensures
        result.key() == key_of(cbor_tree(value)),
{
    let kept = value.clone();
    match open(value) {
        Node::Integer(number) => FieldKey::Integer(number),
        Node::Text(text) => FieldKey::Text(text),
        _ => FieldKey::Other(Foreign { value: kept }),
    }
}

/// Reads a value: all of it, level by level.
fn datum_from(value: serde_cbor::Value) -> (result: Datum)
    requires
        cbor_untagged(value),
        writable(cbor_tree(value)),
    ensures
        result.tree() == cbor_tree(value),
    decreases cbor_tree(value),
{
    let ghost tree = cbor_tree(value);
    match open(value) {
        Node::Null => Datum::Null,
        Node::Bool(flag) => Datum::Bool(flag),
        Node::Integer(number) => Datum::Integer(number),
        Node::Bytes(bytes) => Datum::Bytes(bytes),
        Node::Text(text) => Datum::Text(text),
        Node::Array(items) => {
            let ghost all = items@;
            let mut rest = items;
            let mut read: Vec<Datum> = Vec::new();
            while rest.len() > 0
                invariant
                    tree == cbor_tree(value),
                    tree == Cbor::Array(item_trees(all)),
                    writable(tree),
                    forall|i: int|
                        0 <= i < all.len() ==> writable(cbor_tree(#[trigger] all[i]))
                            && cbor_untagged(all[i]),
                    rest@ == all.skip(read@.len() as int),
                    read@.len() <= all.len(),
                    forall|i: int|
                        0 <= i < read@.len() ==> (#[trigger] read@[i]).tree() == cbor_tree(all[i]),
                decreases rest@.len(),
            {
                let ghost at = read@.len() as int;
                let item = rest.remove(0);
                proof {
                    assert(item == all[at]);
                    assert(item_trees(all)[at] == cbor_tree(item));
                    assert(decreases_to!(tree => tree->Array_0[at]));
                    assert(rest@ =~= all.skip(at + 1));
                }
                read.push(datum_from(item));
            }
            let result = Datum::Array(read);
            assert(result.tree()->Array_0 =~= item_trees(all));
            result
        },
        Node::Fields(entries) => {
            let ghost all = entries@;
            let mut rest = entries;
            let mut read = Fields { entries: Vec::new() };
            while rest.len() > 0
                invariant
                    tree == cbor_tree(value),
                    tree == Cbor::Fields(map_of(entry_trees(all))),
                    keys_differ(all),
                    writable(tree),
                    forall|i: int|
                        0 <= i < all.len() ==> writable(cbor_tree((#[trigger] all[i]).0))
                            && writable(cbor_tree(all[i].1)) && cbor_untagged(all[i].0)
                            && cbor_untagged(all[i].1),
                    rest@ == all.skip(read.entries@.len() as int),
                    read.entries@.len() <= all.len(),
                    read.pairs() == entry_trees(all).take(read.entries@.len() as int),
                decreases rest@.len(),
            {
                let ghost at = read.entries@.len() as int;
                let (key, item) = rest.remove(0);
                proof {
                    assert((key, item) == all[at]);
                    assert(rest@ =~= all.skip(at + 1));
                }
                proof {
                    let pairs = entry_trees(all);
                    lemma_at_last(pairs, pairs[at].0, at);
                    lemma_map_finite(pairs);
                    assert(tree->Fields_0[pairs[at].0] == cbor_tree(item));
                    assert(decreases_to!(tree->Fields_0 => tree->Fields_0[pairs[at].0]));
                    assert(decreases_to!(tree => tree->Fields_0));
                }
                let ghost before = read.pairs();
                let field = key_from(key);
                let datum = datum_from(item);
                read.entries.push((field, datum));
                assert(read.pairs() =~= before.push((field.key(), datum.tree())));
                assert(read.pairs() =~= entry_trees(all).take(at + 1));
            }
            assert(read.pairs() =~= entry_trees(all));
            let result = Datum::Fields(read);
            assert(result.tree() == Cbor::Fields(read.map()));
            result
        },
        Node::Other(other) => Datum::Other(Opaque { value: other }),
    }
}

/// Reads one value that takes up all of `bytes`.
pub fn decode(bytes: &[u8]) -> (result: Option<Datum>)
    ensures
        match result {
            Some(value) => {
                &&& cbor_decoded(bytes@) == Some(value.tree())
                &&& writable(value.tree())
            },
            None => cbor_decoded(bytes@) is None,
        },
{
    match parse(bytes) {
        Ok(value) => Some(datum_from(value)),
        Err(_) => None,
    }
}

/// A key in comparable form.
enum PlainKey {
    Integer(i128),
    Text(String),
    Other(Vec<u8>),
}

impl PlainKey {
    spec fn key(self) -> CborKey {
        match self {
            PlainKey::Integer(value) => CborKey::Integer(value as int),
            PlainKey::Text(text) => CborKey::Text(text@),
            PlainKey::Other(bytes) => CborKey::Other(Some(bytes@)),
        }
    }
}

/// Whether two byte strings are the same.
pub fn same_bytes(left: &[u8], right: &[u8]) -> (result: bool)
    ensures
        result == (left@ == right@),
{
    if left.len() != right.len() {
        return false;
    }
    let mut i: usize = 0;
    while i < left.len()
        invariant
            i <= left@.len(),
            left@.len() == right@.len(),
            forall|j: int| 0 <= j < i ==> left@[j] == right@[j],
        decreases left@.len() - i,
    {
        if left[i] != right[i] {
            return false;
        }
        i += 1;
    }
    assert(left@ =~= right@);
    true
}

impl FieldKey {
    fn to_plain(&self) -> (result: PlainKey)
        ensures
            result.key() == self.key(),
    {
        match self {
            FieldKey::Integer(value) => PlainKey::Integer(*value),
            FieldKey::Text(text) => PlainKey::Text(text.clone()),
            FieldKey::Other(foreign) => {
                proof {
                    use_type_invariant(foreign);
                }
                match open(foreign.value.clone()) {
                    Node::Integer(value) => PlainKey::Integer(value),
                    Node::Text(text) => PlainKey::Text(text),
                    _ => match write(&foreign.value) {
                        Ok(bytes) => PlainKey::Other(bytes),
                        Err(_) => PlainKey::Integer(0),
                    },
                }
            },
        }
    }

    fn same(&self, other: &Self) -> (result: bool)
        ensures
            result == (self.key() == other.key()),
    {
        match (self.to_plain(), other.to_plain()) {
            (PlainKey::Integer(left), PlainKey::Integer(right)) => left == right,
            (PlainKey::Text(left), PlainKey::Text(right)) => left == right,
            (PlainKey::Other(left), PlainKey::Other(right)) => same_bytes(&left, &right),
            _ => false,
        }
    }

    /// The key as the outside crate has it, if it can be written.
    fn to_value(&self) -> (result: Option<serde_cbor::Value>)
        ensures
            match result {
                Some(value) => {
                    &&& key_of(cbor_tree(value)) == self.key()
                    &&& writable(cbor_tree(value))
                    &&& cbor_untagged(value)
                },
                None => !key_writable(self.key()),
            },
    {
        match self {
            FieldKey::Integer(value) => if -0x1_0000_0000_0000_0000i128 <= *value && *value
                <= 0xffff_ffff_ffff_ffffi128 {
                Some(close(Node::Integer(*value)))
            } else {
                None
            },
            FieldKey::Text(text) => Some(close(Node::Text(text.clone()))),
            FieldKey::Other(foreign) => {
                proof {
                    use_type_invariant(foreign);
                }
                Some(foreign.value.clone())
            },
        }
    }
}

/// An entry put in front of others counts only where they have none for its key.
proof fn lemma_map_front<K, V>(key: K, value: V, rest: Seq<(K, V)>)
    ensures
        map_of(seq![(key, value)] + rest) == if holds(rest, key) {
            map_of(rest)
        } else {
            map_of(rest).insert(key, value)
        },
    decreases rest.len(),
{
    let all = seq![(key, value)] + rest;
    let none = Seq::<(K, V)>::empty();
    if rest.len() == 0 {
        assert(all =~= none.push((key, value)));
        assert(rest =~= none);
        lemma_map_push(none, key, value);
    } else {
        let last = rest.last();
        lemma_map_front(key, value, rest.drop_last());
        assert(all =~= (seq![(key, value)] + rest.drop_last()).push(last));
        lemma_map_push(seq![(key, value)] + rest.drop_last(), last.0, last.1);
        lemma_map_push(rest.drop_last(), last.0, last.1);
        assert(rest.drop_last().push(last) =~= rest);
        assert(holds(rest, key) == (last.0 == key || holds(rest.drop_last(), key))) by {
            assert(map_of(rest).dom().contains(key) == holds(rest, key));
            assert(map_of(rest.drop_last()).dom().contains(key) == holds(rest.drop_last(), key));
        }
        assert(map_of(all) =~= if holds(rest, key) {
            map_of(rest)
        } else {
            map_of(rest).insert(key, value)
        });
    }
}

impl Fields {
    /// Whether an entry behind `index` has the same key.
    fn is_shadowed(&self, index: usize) -> (result: bool)
        requires
            index < self.entries@.len(),
        ensures
            result == holds(self.pairs().skip(index + 1), self.pairs()[index as int].0),
    {
        let ghost rest = self.pairs().skip(index + 1);
        let len: usize = self.entries.len();
        let mut i: usize = index + 1;
        while i < len
            invariant
                index < i <= len,
                len == self.entries@.len(),
                rest == self.pairs().skip(index + 1),
                forall|j: int|
                    0 <= j < i - index - 1 ==> (#[trigger] rest[j]).0
                        != self.pairs()[index as int].0,
            decreases len - i,
        {
            if self.entries[index].0.same(&self.entries[i].0) {
                assert(rest[i - index - 1].0 == self.pairs()[i as int].0);
                return true;
            }
            assert(rest[i - index - 1].0 == self.pairs()[i as int].0);
            i += 1;
        }
        false
    }
}

/// The value as the outside crate has it. There is none for a map with a key that cannot be
/// written.
fn datum_to(datum: &Datum) -> (result: Option<serde_cbor::Value>)
    ensures
        match result {
            Some(value) => cbor_tree(value) == datum.tree() && cbor_untagged(value),
            None => !writable(datum.tree()),
        },
    decreases datum,
{
    match datum {
        Datum::Null => Some(close(Node::Null)),
        Datum::Bool(flag) => Some(close(Node::Bool(*flag))),
        Datum::Integer(number) => Some(close(Node::Integer(*number))),
        Datum::Bytes(bytes) => Some(close(Node::Bytes(copy_bytes(bytes)))),
        Datum::Text(text) => Some(close(Node::Text(text.clone()))),
        Datum::Array(items) => {
            let mut made: Vec<serde_cbor::Value> = Vec::new();
            let mut i: usize = 0;
            while i < items.len()
                invariant
                    i <= items@.len(),
                    *datum == Datum::Array(*items),
                    made@.len() == i,
                    forall|j: int|
                        0 <= j < i ==> cbor_tree(#[trigger] made@[j]) == items@[j].tree()
                            && cbor_untagged(made@[j]),
                decreases items@.len() - i,
            {
                let ghost trees = datum.tree()->Array_0;
                assert(trees[i as int] == items@[i as int].tree());
                assert(decreases_to!(datum => items@[i as int]));
                match datum_to(&items[i]) {
                    Some(value) => made.push(value),
                    None => {
                        assert(!writable(trees[i as int]));
                        return None;
                    },
                }
                i += 1;
            }
            let result = close(Node::Array(made));
            assert(item_trees(made@) =~= datum.tree()->Array_0);
            Some(result)
        },
        Datum::Fields(fields) => fields_to(fields),
        Datum::Other(opaque) => {
            proof {
                use_type_invariant(opaque);
            }
            Some(opaque.value.clone())
        },
    }
}

/// The map as the outside crate has it. There is none where a key cannot be written.
fn fields_to(fields: &Fields) -> (result: Option<serde_cbor::Value>)
    ensures
        match result {
            Some(value) => cbor_tree(value) == Cbor::Fields(fields.map()) && cbor_untagged(value),
            None => !writable(Cbor::Fields(fields.map())),
        },
    decreases fields,
{
    let mut made: Vec<(serde_cbor::Value, serde_cbor::Value)> = Vec::new();
    let mut i: usize = fields.entries.len();
    let ghost pairs = fields.pairs();
    let ghost tree = Cbor::Fields(fields.map());
    assert(fields.map() == map_of(pairs));
    assert(map_of(entry_trees(made@)) =~= map_of(pairs.skip(i as int)));
    while i > 0
        invariant
            i <= fields.entries@.len(),
            pairs == fields.pairs(),
            tree == Cbor::Fields(map_of(pairs)),
            forall|j: int|
                0 <= j < made@.len() ==> writable(cbor_tree((#[trigger] made@[j]).0))
                    && cbor_untagged(made@[j].0) && cbor_untagged(made@[j].1),
            keys_differ(made@),
            map_of(entry_trees(made@)) == map_of(pairs.skip(i as int)),
        decreases i,
    {
        let ghost rest = pairs.skip(i as int);
        i -= 1;
        let ghost pair = pairs[i as int];
        proof {
            assert(pairs.skip(i as int) =~= seq![pair] + rest);
            lemma_map_front(pair.0, pair.1, rest);
            assert(holds(pairs, pair.0));
        }
        if !fields.is_shadowed(i) {
            proof {
                assert forall|j: int| i < j < pairs.len() implies (
                #[trigger] pairs[j]).0 != pair.0 by {
                    assert(rest[j - i - 1] == pairs[j]);
                }
                lemma_at_last(pairs, pair.0, i as int);
            }
            assert(map_of(pairs).dom().contains(pair.0));
            assert(map_of(pairs)[pair.0] == fields.entries@[i as int].1.tree());
            assert(decreases_to!(fields => fields.entries@[i as int].1));
            let ghost before = entry_trees(made@);
            match (fields.entries[i].0.to_value(), datum_to(&fields.entries[i].1)) {
                (Some(key), Some(value)) => {
                    made.push((key, value));
                    assert(entry_trees(made@) =~= before.push(pair));
                    proof {
                        assert(!map_of(before).dom().contains(pair.0)) by {
                            assert(map_of(before) == map_of(rest));
                        }
                        assert forall|j: int| 0 <= j < before.len() implies (
                        #[trigger] before[j]).0 != pair.0 by {
                            assert(before[j].0 == pair.0 ==> holds(before, pair.0));
                        }
                        lemma_map_push(before, pair.0, pair.1);
                    }
                },
                _ => {
                    assert(tree->Fields_0.dom().contains(pair.0));
                    assert(!key_writable(pair.0) || !writable(
                        tree->Fields_0[pair.0],
                    ));
                    return None;
                },
            }
        }
    }
    assert(pairs.skip(0) =~= pairs);
    Some(close(Node::Fields(made)))
}

/// A copy of a byte string.
pub fn copy_bytes(bytes: &[u8]) -> (result: Vec<u8>)
    ensures
        result@ == bytes@,
{
    let mut result: Vec<u8> = Vec::new();
    result.extend_from_slice(bytes);
    assert(result@ =~= bytes@);
    result
}

impl FieldKey {
    /// The key that a value is, where it can be written.
    pub fn new(value: &Datum) -> (result: Option<Self>)
        ensures
            match result {
                Some(key) => writable(value.tree()) && key.key() == key_of(value.tree()),
                None => !writable(value.tree()),
            },
    {
        match datum_to(value) {
            Some(made) => match write(&made) {
                Ok(_) => Some(key_from(made)),
                Err(_) => None,
            },
            None => None,
        }
    }
}

/// Writes a value. It fails exactly on a value that holds an integer outside the range of CBOR.
pub fn encode(value: &Datum) -> (result: Option<Vec<u8>>)
    ensures
        match result {
            Some(bytes) => {
                &&& writable(value.tree())
                &&& cbor_encoded(value.tree()) == Some(bytes@)
                &&& plain(value.tree(), max_depth()) ==> cbor_decoded(bytes@) == Some(value.tree())
            },
            None => !writable(value.tree()),
        },
{
    match datum_to(value) {
        Some(made) => match write(&made) {
            Ok(bytes) => Some(bytes),
            Err(_) => None,
        },
        None => None,
    }
}

impl Fields {
    /// Writes the map.
    pub fn encode(&self) -> (result: Option<Vec<u8>>)
        ensures
            match result {
                Some(bytes) => {
                    let tree = Cbor::Fields(self.map());
                    &&& writable(tree)
                    &&& cbor_encoded(tree) == Some(bytes@)
                    &&& plain(tree, max_depth()) ==> cbor_decoded(bytes@) == Some(tree)
                },
                None => !writable(Cbor::Fields(self.map())),
            },
    {
        match fields_to(self) {
            Some(made) => match write(&made) {
                Ok(bytes) => Some(bytes),
                Err(_) => None,
            },
            None => None,
        }
    }

    /// Whether every key is an integer that is not negative.
    pub fn has_unsigned_keys(&self) -> (result: bool)
        ensures
            result == forall|key: CborKey| #[trigger]
                self.map().dom().contains(key) ==> key is Integer && key->Integer_0 >= 0,
    {
        let mut i: usize = 0;
        while i < self.entries.len()
            invariant
                i <= self.entries@.len(),
                forall|j: int|
                    0 <= j < i ==> (#[trigger] self.pairs()[j]).0 is Integer
                        && self.pairs()[j].0->Integer_0 >= 0,
            decreases self.entries@.len() - i,
        {
            let ghost key = self.pairs()[i as int].0;
            assert(self.map().dom().contains(key));
            match self.entries[i].0.to_plain() {
                PlainKey::Integer(value) => if value < 0 {
                    return false;
                },
                _ => return false,
            }
            i += 1;
        }
        assert forall|key: CborKey| #[trigger] self.map().dom().contains(key) implies key is Integer
            && key->Integer_0 >= 0 by {
            let j = choose|j: int|
                0 <= j < self.pairs().len() && (#[trigger] self.pairs()[j]).0 == key;
            assert(self.pairs()[j].0 == key);
        }
        true
    }
}

/// The entries of a map that have an integer for a key and a truth value for a value.
pub open spec fn switches(map: Map<CborKey, Cbor>) -> Map<i128, bool> {
    Map::new(
        |key: i128|
            map.dom().contains(CborKey::Integer(key as int)) && map[CborKey::Integer(
                key as int,
            )] is Bool,
        |key: i128| map[CborKey::Integer(key as int)]->Bool_0,
    )
}

impl Fields {
    /// The entries that have an integer for a key and a truth value for a value.
    pub fn to_switches(&self) -> (result: Vec<(i128, bool)>)
        ensures
            map_of(result@) == switches(self.map()),
    {
        let mut result: Vec<(i128, bool)> = Vec::new();
        let mut i: usize = 0;
        while i < self.entries.len()
            invariant
                i <= self.entries@.len(),
                forall|j: int|
                    0 <= j < result@.len() ==> {
                        let key = CborKey::Integer((#[trigger] result@[j]).0 as int);
                        self.map().dom().contains(key) && self.map()[key] == Cbor::Bool(
                            result@[j].1,
                        )
                    },
                forall|j: int, key: i128|
                    0 <= j < i && (#[trigger] self.pairs()[j]).0 == CborKey::Integer(key as int)
                        && #[trigger] switches(self.map()).dom().contains(key) ==> holds(
                        result@,
                        key,
                    ),
            decreases self.entries@.len() - i,
        {
            let ghost before = result@;
            if let PlainKey::Integer(key) = self.entries[i].0.to_plain() {
                if let Some(Datum::Bool(flag)) = self.get(key) {
                    result.push((key, *flag));
                    assert(result@[before.len() as int].0 == key);
                    assert forall|other: i128| holds(before, other) implies holds(
                        result@,
                        other,
                    ) by {
                        let j = choose|j: int|
                            0 <= j < before.len() && (#[trigger] before[j]).0 == other;
                        assert(result@[j].0 == other);
                    }
                    assert(holds(result@, key));
                }
            }
            i += 1;
        }
        proof {
            let made = map_of(result@);
            let wanted = switches(self.map());
            assert forall|key: i128| #[trigger] made.dom().contains(key) implies wanted.dom().contains(
                key,
            ) && made[key] == wanted[key] by {
                lemma_at_some(result@, key);
            }
            assert forall|key: i128| #[trigger] wanted.dom().contains(key) implies made.dom().contains(
                key,
            ) by {
                let j = choose|j: int|
                    0 <= j < self.pairs().len() && (#[trigger] self.pairs()[j]).0
                        == CborKey::Integer(key as int);
                assert(self.pairs()[j].0 == CborKey::Integer(key as int));
            }
            assert(made =~= wanted);
        }
        result
    }
}

/// The value for a key is that of one of its entries.
proof fn lemma_at_some<K, V>(pairs: Seq<(K, V)>, key: K)
    requires
        holds(pairs, key),
    ensures
        exists|i: int|
            0 <= i < pairs.len() && (#[trigger] pairs[i]).0 == key && at(pairs, key) == pairs[i].1,
    decreases pairs.len(),
{
    if pairs.last().0 == key {
        assert(pairs[pairs.len() - 1].0 == key);
    } else {
        let i = choose|i: int| 0 <= i < pairs.len() && (#[trigger] pairs[i]).0 == key;
        assert(pairs.drop_last()[i].0 == key);
        lemma_at_some(pairs.drop_last(), key);
        let j = choose|j: int|
            0 <= j < pairs.drop_last().len() && (#[trigger] pairs.drop_last()[j]).0 == key && at(
                pairs.drop_last(),
                key,
            ) == pairs.drop_last()[j].1;
        assert(pairs[j].0 == key);
    }
}

/// Whether a value is a plain one that holds no others.
pub open spec fn scalar(tree: Cbor) -> bool {
    match tree {
        Cbor::Null => true,
        Cbor::Bool(_) => true,
        Cbor::Integer(value) => in_range(value),
        Cbor::Bytes(_) => true,
        Cbor::Text(_) => true,
        _ => false,
    }
}

/// Whether a key is a plain one that can be written.
pub open spec fn plain_key(key: CborKey) -> bool {
    match key {
        CborKey::Integer(value) => in_range(value),
        CborKey::Text(_) => true,
        CborKey::Other(_) => false,
    }
}

/// Whether every key of a map is plain and every value is plain and nests at most `depth` deep.
pub open spec fn plain_entries(map: Map<CborKey, Cbor>, depth: nat) -> bool {
    forall|key: CborKey| #[trigger]
        map.dom().contains(key) ==> plain_key(key) && writable(map[key]) && plain(map[key], depth)
}

/// A scalar can be written, and is plain.
pub broadcast proof fn lemma_scalar(tree: Cbor, depth: nat)
    requires
        scalar(tree),
    ensures
        #![trigger plain(tree, depth)]
        writable(tree),
        plain(tree, depth),
{
}

/// A map of plain entries can be written, and is plain.
pub proof fn lemma_plain_map(map: Map<CborKey, Cbor>, depth: nat)
    requires
        plain_entries(map, depth),
    ensures
        writable(Cbor::Fields(map)),
        plain(Cbor::Fields(map), depth + 1),
{
    let tree = Cbor::Fields(map);
    assert forall|key: CborKey| #[trigger] tree->Fields_0.dom().contains(key) implies key_writable(
        key,
    ) && writable(tree->Fields_0[key]) by {
        assert(map.dom().contains(key));
    }
    assert forall|key: CborKey| #[trigger] tree->Fields_0.dom().contains(key) implies plain(
        tree->Fields_0[key],
        depth,
    ) && !(key is Other) by {
        assert(map.dom().contains(key));
    }
}

/// A value that can be read no deeper than some depth can be read deeper.
pub proof fn lemma_plain_deeper(tree: Cbor, depth: nat, more: nat)
    requires
        plain(tree, depth),
        depth <= more,
    ensures
        plain(tree, more),
    decreases depth,
{
    if tree is Array {
        assert forall|i: int| 0 <= i < tree->Array_0.len() implies plain(
            #[trigger] tree->Array_0[i],
            (more - 1) as nat,
        ) by {
            lemma_plain_deeper(tree->Array_0[i], (depth - 1) as nat, (more - 1) as nat);
        }
    }
    if tree is Fields {
        assert forall|key: CborKey| #[trigger] tree->Fields_0.dom().contains(key) implies plain(
            tree->Fields_0[key],
            (more - 1) as nat,
        ) && (key is Other ==> exists|own: Cbor|
            #[trigger] key_of(own) == key && plain(own, (more - 1) as nat)) by {
            lemma_plain_deeper(tree->Fields_0[key], (depth - 1) as nat, (more - 1) as nat);
            if key is Other {
                let own = choose|own: Cbor|
                    #[trigger] key_of(own) == key && plain(own, (depth - 1) as nat);
                lemma_plain_deeper(own, (depth - 1) as nat, (more - 1) as nat);
            }
        }
    }
}

} // verus!
