//! What the hub has to say: drafts of envelopes, and the actions that they become once they are
//! stamped and written.

use crate::cbor::{copy_bytes, Cbor, Datum, Fields};
use crate::collections::{group_sequences, models, Key, Model};
use crate::constants::{
    B_RES_ENCODING, B_RES_ID, B_RES_KIND, B_RES_SHA256, B_RES_SIZE, K_BODY, K_ID, K_NICK, K_ROOM,
    K_SRC, K_T, K_TS, K_V, T_RESOURCE_ENVELOPE, VERSION,
};
use crate::protocol::{encoded, with_field, with_text, Envelope, FieldMap};
use crate::state::{count, counted, IdentityHash, LinkId};
use vstd::prelude::*;
use vstd::utf8::*;

verus! {

broadcast use group_sequences;

/// What a room is like, for clients that want it in parts.
#[derive(Debug, PartialEq)]
pub struct RoomState {
    pub registered: bool,
    pub modes: String,
    pub topic: Option<String>,
}

#[verifier::ext_equal]
pub struct RoomStateModel {
    pub registered: bool,
    pub modes: Seq<char>,
    pub topic: Option<Seq<char>>,
}

impl Model for RoomState {
    type M = RoomStateModel;

    open spec fn model(&self) -> RoomStateModel {
        RoomStateModel {
            registered: self.registered,
            modes: self.modes@,
            topic: self.topic.model(),
        }
    }
}

impl RoomState {
    /// A copy.
    pub fn duplicate(&self) -> (result: Self)
        ensures
            result.model() == self.model(),
    {
        RoomState {
            registered: self.registered,
            modes: self.modes.clone(),
            topic: self.topic.duplicate(),
        }
    }
}

/// A member of a room, for clients that want the list in parts.
#[derive(Debug, PartialEq)]
pub struct UserInfo {
    pub nick: Option<String>,
    pub identity: String,
    pub operator: bool,
    pub voiced: bool,
}

#[verifier::ext_equal]
pub struct UserModel {
    pub nick: Option<Seq<char>>,
    pub identity: Seq<char>,
    pub operator: bool,
    pub voiced: bool,
}

impl Model for UserInfo {
    type M = UserModel;

    open spec fn model(&self) -> UserModel {
        UserModel {
            nick: self.nick.model(),
            identity: self.identity@,
            operator: self.operator,
            voiced: self.voiced,
        }
    }
}

/// A structured part that only clients which know it get. How it is written into an envelope is
/// not the library's business.
#[derive(Debug, PartialEq)]
pub enum Extension {
    RoomState(RoomState),
    Users(Vec<UserInfo>),
}

#[verifier::ext_equal]
pub enum ExtensionModel {
    RoomState(RoomStateModel),
    Users(Seq<UserModel>),
}

impl Model for Extension {
    type M = ExtensionModel;

    open spec fn model(&self) -> ExtensionModel {
        match self {
            Extension::RoomState(state) => ExtensionModel::RoomState(state.model()),
            Extension::Users(users) => ExtensionModel::Users(models(users@)),
        }
    }
}

/// One draft and the links that it goes to.
pub struct Parcel {
    pub to: Vec<LinkId>,
    pub fields: Fields,
}

#[verifier::ext_equal]
pub struct ParcelModel {
    pub to: Seq<LinkId>,
    pub fields: FieldMap,
}

impl Model for Parcel {
    type M = ParcelModel;

    open spec fn model(&self) -> ParcelModel {
        ParcelModel { to: self.to@, fields: self.fields.map() }
    }
}

/// A text that is offered as a resource.
pub struct Offer {
    pub to: LinkId,
    pub source: IdentityHash,
    pub nick: Option<String>,
    pub room: Option<String>,
    pub kind: String,
    pub text: String,
}

#[verifier::ext_equal]
pub struct OfferModel {
    pub to: LinkId,
    pub source: IdentityHash,
    pub nick: Option<Seq<char>>,
    pub room: Option<Seq<char>>,
    pub kind: Seq<char>,
    pub text: Seq<char>,
}

impl Model for Offer {
    type M = OfferModel;

    open spec fn model(&self) -> OfferModel {
        OfferModel {
            to: self.to,
            source: self.source,
            nick: self.nick.model(),
            room: self.room.model(),
            kind: self.kind@,
            text: self.text@,
        }
    }
}

/// Something the hub has to say or do, before message identifiers are drawn.
pub enum Outgoing {
    /// Drafts that share one message identifier.
    Packets(Vec<Parcel>),
    /// An envelope of a client that is passed on under its own identifier.
    Forward(Parcel),
    /// A draft with a structured part.
    Extended(LinkId, Fields, Extension),
    /// A text that is too long for a packet.
    Offer(Offer),
    /// A link to be closed.
    Close(LinkId),
}

#[verifier::ext_equal]
pub enum Out {
    Packets(Seq<ParcelModel>),
    Forward(ParcelModel),
    Extended(LinkId, FieldMap, ExtensionModel),
    Offer(OfferModel),
    Close(LinkId),
}

impl Model for Outgoing {
    type M = Out;

    open spec fn model(&self) -> Out {
        match self {
            Outgoing::Packets(parcels) => Out::Packets(models(parcels@)),
            Outgoing::Forward(parcel) => Out::Forward(parcel.model()),
            Outgoing::Extended(to, fields, extension) => Out::Extended(
                *to,
                fields.map(),
                extension.model(),
            ),
            Outgoing::Offer(offer) => Out::Offer(offer.model()),
            Outgoing::Close(link) => Out::Close(*link),
        }
    }
}

/// A draft from `source`: what an envelope holds before it is stamped.
pub open spec fn draft(kind: u64, source: Seq<u8>) -> FieldMap {
    with_field(
        with_field(
            with_field(Map::empty(), K_V, Cbor::Integer(VERSION as int)),
            K_T,
            Cbor::Integer(kind as int),
        ),
        K_SRC,
        Cbor::Bytes(source),
    )
}

/// A draft with its message identifier and its time in milliseconds.
pub open spec fn stamped(fields: FieldMap, id: Seq<u8>, millis: int) -> FieldMap {
    with_field(with_field(fields, K_ID, Cbor::Bytes(id)), K_TS, Cbor::Integer(millis))
}

/// One draft to one link.
pub open spec fn single(to: LinkId, fields: FieldMap) -> Out {
    Out::Packets(seq![ParcelModel { to: seq![to], fields }])
}

/// A draft from `source`.
pub fn new_draft(kind: u64, source: &[u8]) -> (result: Fields)
    ensures
        result.map() == draft(kind, source@),
{
    let mut fields = Fields::new();
    fields.set(K_V, Datum::Integer(VERSION as i128));
    fields.set(K_T, Datum::Integer(kind as i128));
    fields.set(K_SRC, Datum::Bytes(copy_bytes(source)));
    fields
}

/// One draft to one link.
pub fn to_one(to: LinkId, fields: Fields) -> (result: Outgoing)
    ensures
        result.model() == single(to, fields.map()),
{
    let mut links: Vec<LinkId> = Vec::new();
    links.push(to);
    let mut parcels: Vec<Parcel> = Vec::new();
    parcels.push(Parcel { to: links, fields });
    let result = Outgoing::Packets(parcels);
    assert(links@ =~= seq![to]);
    assert(models(parcels@) =~= seq![ParcelModel { to: seq![to], fields: fields.map() }]);
    result
}

/// Sets a text field where there is a text.
pub fn set_text(fields: &mut Fields, key: i128, text: Option<&str>)
    ensures
        final(fields).map() == with_text(old(fields).map(), key, text_view(text)),
{
    if let Some(text) = text {
        fields.set(key, Datum::Text(String::from_str(text)));
    }
}

/// The characters of an optional text.
pub open spec fn text_view(text: Option<&str>) -> Option<Seq<char>> {
    match text {
        Some(text) => Some(text@),
        None => None,
    }
}

/// An optional text, borrowed.
pub fn borrowed(text: &Option<String>) -> (result: Option<&str>)
    ensures
        text_view(result) == text.model(),
{
    match text {
        Some(text) => Some(text.as_str()),
        None => None,
    }
}

/// An optional text of its own.
pub fn owned(text: Option<&str>) -> (result: Option<String>)
    ensures
        result.model() == text_view(text),
{
    match text {
        Some(text) => Some(String::from_str(text)),
        None => None,
    }
}

/// The SHA-256 digest of `bytes`, as the `sha2` crate computes it.
pub uninterp spec fn sha256_of(bytes: Seq<u8>) -> Seq<u8>;

/// `sha2::Sha256::digest`: the SHA-256 digest, 32 bytes, a function of the bytes alone. Which
/// digest belongs to which bytes is left to the name [`sha256_of`].
#[verifier::external_body]
pub(crate) fn sha256(bytes: &[u8]) -> (result: Vec<u8>)
    ensures
        result@ == sha256_of(bytes@),
        result@.len() == 32,
{
    <sha2::Sha256 as sha2::Digest>::digest(bytes).to_vec()
}

/// `rand::thread_rng().fill_bytes`: eight random bytes. Nothing is said of which.
#[verifier::external_body]
pub(crate) fn random_id() -> (result: [u8; 8]) {
    let mut id = [0u8; 8];
    rand::RngCore::fill_bytes(&mut rand::thread_rng(), &mut id);
    id
}

/// The body of the envelope that announces a resource.
pub open spec fn offer_body(offer: OfferModel, id: Seq<u8>) -> FieldMap {
    let payload = encode_utf8(offer.text);
    with_field(
        with_field(
            with_field(
                with_field(
                    with_field(Map::empty(), B_RES_ID, Cbor::Bytes(id)),
                    B_RES_KIND,
                    Cbor::Text(offer.kind),
                ),
                B_RES_SIZE,
                Cbor::Integer(payload.len() as int),
            ),
            B_RES_SHA256,
            Cbor::Bytes(sha256_of(payload)),
        ),
        B_RES_ENCODING,
        Cbor::Text("utf-8"@),
    )
}

/// The draft that announces a resource.
pub open spec fn offer_draft(offer: OfferModel, id: Seq<u8>) -> FieldMap {
    with_field(
        with_text(
            with_text(draft(T_RESOURCE_ENVELOPE, offer.source@), K_ROOM, offer.room),
            K_NICK,
            offer.nick,
        ),
        K_BODY,
        Cbor::Fields(offer_body(offer, id)),
    )
}

/// What is to be done on the transport.
#[derive(Debug)]
pub enum Action {
    Send(LinkId, Vec<u8>),
    /// An envelope to be sent with a structured part written into it.
    SendExtended(LinkId, Envelope, Extension),
    SendResource(LinkId, Vec<u8>),
    Close(LinkId),
}

#[verifier::ext_equal]
pub enum ActionModel {
    Send(LinkId, Seq<u8>),
    SendExtended(LinkId, FieldMap, ExtensionModel),
    SendResource(LinkId, Seq<u8>),
    Close(LinkId),
}

impl Model for Action {
    type M = ActionModel;

    open spec fn model(&self) -> ActionModel {
        match self {
            Action::Send(to, payload) => ActionModel::Send(*to, payload@),
            Action::SendExtended(to, envelope, extension) => ActionModel::SendExtended(
                *to,
                envelope.fields.map(),
                extension.model(),
            ),
            Action::SendResource(to, payload) => ActionModel::SendResource(*to, payload@),
            Action::Close(to) => ActionModel::Close(*to),
        }
    }
}

/// One payload to each of the links.
pub open spec fn to_each(to: Seq<LinkId>, payload: Seq<u8>) -> Seq<ActionModel> {
    Seq::new(to.len(), |i: int| ActionModel::Send(to[i], payload))
}

/// An envelope to each of the links; nothing where it cannot be written.
pub open spec fn sends(to: Seq<LinkId>, fields: FieldMap) -> Seq<ActionModel> {
    match encoded(fields) {
        Ok(payload) => to_each(to, payload),
        Err(_) => Seq::empty(),
    }
}

/// Drafts that share one stamp.
pub open spec fn sends_all(parcels: Seq<ParcelModel>, id: Seq<u8>, millis: int) -> Seq<ActionModel>
    decreases parcels.len(),
{
    if parcels.len() == 0 {
        Seq::empty()
    } else {
        sends_all(parcels.drop_last(), id, millis) + sends(
            parcels.last().to,
            stamped(parcels.last().fields, id, millis),
        )
    }
}

/// The random bytes that are drawn for one outgoing item: its message identifier, and the
/// identifier of the resource that it offers.
pub struct Draw {
    pub id: [u8; 8],
    pub resource: [u8; 8],
}

impl Model for Draw {
    type M = Draw;

    open spec fn model(&self) -> Draw {
        *self
    }
}

/// What one outgoing item becomes.
pub open spec fn sealed_one(out: Out, draw: Draw, millis: int) -> Seq<ActionModel> {
    match out {
        Out::Packets(parcels) => sends_all(parcels, draw.id@, millis),
        Out::Forward(parcel) => sends(parcel.to, parcel.fields),
        Out::Extended(to, fields, extension) => seq![
            ActionModel::SendExtended(to, stamped(fields, draw.id@, millis), extension),
        ],
        Out::Offer(offer) => sends(
            seq![offer.to],
            stamped(offer_draft(offer, draw.resource@), draw.id@, millis),
        ).push(ActionModel::SendResource(offer.to, encode_utf8(offer.text))),
        Out::Close(link) => seq![ActionModel::Close(link)],
    }
}

/// What the outgoing items become, given the random bytes for each.
pub open spec fn sealed(outs: Seq<Out>, draws: Seq<Draw>, millis: int) -> Seq<ActionModel>
    decreases outs.len(),
{
    if outs.len() == 0 {
        Seq::empty()
    } else {
        sealed(outs.drop_last(), draws, millis) + sealed_one(
            outs.last(),
            draws[outs.len() - 1],
            millis,
        )
    }
}

/// How many bytes the actions send in packets.
pub open spec fn sent_bytes(actions: Seq<ActionModel>) -> int
    decreases actions.len(),
{
    if actions.len() == 0 {
        0
    } else {
        sent_bytes(actions.drop_last()) + match actions.last() {
            ActionModel::Send(_, payload) => payload.len() as int,
            _ => 0,
        }
    }
}

fn send_to(actions: &mut Vec<Action>, to: &Vec<LinkId>, envelope: &Envelope)
    ensures
        models(final(actions)@) == models(old(actions)@) + sends(to@, envelope.fields.map()),
{
    let ghost before = models(actions@);
    if let Ok(payload) = envelope.encode() {
        let mut i: usize = 0;
        assert(to_each(to@.take(0), payload@) =~= Seq::empty());
        while i < to.len()
            invariant
                i <= to@.len(),
                models(actions@) == before + to_each(to@.take(i as int), payload@),
            decreases to@.len() - i,
        {
            let ghost current = models(actions@);
            actions.push(Action::Send(to[i], copy_bytes(payload.as_slice())));
            assert(to_each(to@.take(i + 1), payload@) =~= to_each(to@.take(i as int), payload@).push(
                ActionModel::Send(to@[i as int], payload@),
            ));
            i += 1;
            assert(models(actions@) =~= before + to_each(to@.take(i as int), payload@));
        }
        assert(to@.take(i as int) =~= to@);
    } else {
        assert(models(actions@) =~= before + Seq::<ActionModel>::empty());
    }
}

/// A draft that gets its stamp.
pub fn stamp(fields: Fields, id: &[u8; 8], millis: u128) -> (result: Envelope)
    requires
        millis <= i128::MAX,
    ensures
        result.fields.map() == stamped(fields.map(), id@, millis as int),
{
    let mut fields = fields;
    fields.set(K_ID, Datum::Bytes(copy_bytes(id.as_slice())));
    fields.set(K_TS, Datum::Integer(millis as i128));
    Envelope { fields }
}

fn offer_fields(offer: &Offer, id: &[u8; 8]) -> (result: Fields)
    ensures
        result.map() == offer_draft(offer.model(), id@),
{
    let payload = offer.text.as_str().as_bytes();
    let mut body = Fields::new();
    body.set(B_RES_ID, Datum::Bytes(copy_bytes(id.as_slice())));
    body.set(B_RES_KIND, Datum::Text(offer.kind.clone()));
    body.set(B_RES_SIZE, Datum::Integer(payload.len() as i128));
    body.set(B_RES_SHA256, Datum::Bytes(sha256(payload)));
    body.set(B_RES_ENCODING, Datum::Text(String::from_str("utf-8")));
    let mut fields = new_draft(T_RESOURCE_ENVELOPE, offer.source.as_slice());
    set_text(&mut fields, K_ROOM, borrowed(&offer.room));
    set_text(&mut fields, K_NICK, borrowed(&offer.nick));
    fields.set(K_BODY, Datum::Fields(body));
    fields
}

fn seal_one(actions: &mut Vec<Action>, out: Outgoing, draw: &Draw, millis: u128)
    requires
        millis <= i128::MAX,
    ensures
        models(final(actions)@) == models(old(actions)@) + sealed_one(
            out.model(),
            *draw,
            millis as int,
        ),
{
    let ghost before = models(actions@);
    match out {
        Outgoing::Packets(parcels) => {
            let ghost all = models(parcels@);
            let mut rest = parcels;
            let ghost mut done: int = 0;
            assert(rest@ =~= parcels@.skip(0));
            assert(models(actions@) =~= before + sends_all(all.take(0), draw.id@, millis as int));
            while rest.len() > 0
                invariant
                    millis <= i128::MAX,
                    0 <= done,
                    done + rest@.len() == parcels@.len(),
                    all == models(parcels@),
                    rest@ == parcels@.skip(done),
                    models(actions@) == before + sends_all(
                        all.take(done),
                        draw.id@,
                        millis as int,
                    ),
                decreases rest@.len(),
            {
                let ghost current = models(actions@);
                let parcel = rest.remove(0);
                let envelope = stamp(parcel.fields, &draw.id, millis);
                send_to(actions, &parcel.to, &envelope);
                proof {
                    assert(parcel == parcels@[done]);
                    assert(all.take(done + 1).drop_last() == all.take(done));
                    assert(rest@ =~= parcels@.skip(done + 1));
                }
                proof {
                    done = done + 1;
                }
                assert(models(actions@) =~= before + sends_all(
                    all.take(done),
                    draw.id@,
                    millis as int,
                ));
            }
            assert(all.take(done) =~= all);
        },
        Outgoing::Forward(parcel) => {
            let envelope = Envelope { fields: parcel.fields };
            send_to(actions, &parcel.to, &envelope);
        },
        Outgoing::Extended(to, fields, extension) => {
            actions.push(Action::SendExtended(to, stamp(fields, &draw.id, millis), extension));
            assert(models(actions@) =~= before + sealed_one(out.model(), *draw, millis as int));
        },
        Outgoing::Offer(offer) => {
            let mut to: Vec<LinkId> = Vec::new();
            to.push(offer.to);
            assert(to@ =~= seq![offer.to]);
            let envelope = stamp(offer_fields(&offer, &draw.resource), &draw.id, millis);
            send_to(actions, &to, &envelope);
            actions.push(
                Action::SendResource(offer.to, copy_bytes(offer.text.as_str().as_bytes())),
            );
            assert(models(actions@) =~= before + sealed_one(out.model(), *draw, millis as int));
        },
        Outgoing::Close(link) => {
            actions.push(Action::Close(link));
            assert(models(actions@) =~= before + sealed_one(out.model(), *draw, millis as int));
        },
    }
}

/// Turns outgoing items into actions, given the random bytes for each.
pub fn seal_with(outs: Vec<Outgoing>, draws: &Vec<Draw>, millis: u128) -> (result: Vec<Action>)
    requires
        millis <= i128::MAX,
        draws@.len() == outs@.len(),
    ensures
        models(result@) == sealed(models(outs@), draws@, millis as int),
{
    let ghost all = models(outs@);
    let mut actions: Vec<Action> = Vec::new();
    let mut rest = outs;
    let total: usize = draws.len();
    let mut done: usize = 0;
    assert(rest@ =~= outs@.skip(0));
    while rest.len() > 0
        invariant
            millis <= i128::MAX,
            done + rest@.len() == outs@.len(),
            total == draws@.len() == outs@.len(),
            all == models(outs@),
            rest@ == outs@.skip(done as int),
            models(actions@) == sealed(all.take(done as int), draws@, millis as int),
        decreases rest@.len(),
    {
        let out = rest.remove(0);
        proof {
            assert(out == outs@[done as int]);
            assert(all.take(done + 1).drop_last() == all.take(done as int));
            assert(rest@ =~= outs@.skip(done + 1));
        }
        seal_one(&mut actions, out, &draws[done], millis);
        done += 1;
    }
    assert(all.take(done as int) =~= all);
    actions
}

/// Draws the random bytes for `amount` outgoing items.
pub fn draw(amount: usize) -> (result: Vec<Draw>)
    ensures
        result@.len() == amount,
{
    let mut draws: Vec<Draw> = Vec::new();
    while draws.len() < amount
        invariant
            draws@.len() <= amount,
        decreases amount - draws@.len(),
    {
        draws.push(Draw { id: random_id(), resource: random_id() });
    }
    draws
}

/// Adds the bytes that the actions send to a counter.
pub fn count_sent(counter: u64, actions: &Vec<Action>) -> (result: u64)
    ensures
        result == counted(counter, sent_bytes(models(actions@))),
{
    let ghost all = models(actions@);
    let mut total: u64 = counter;
    let mut i: usize = 0;
    while i < actions.len()
        invariant
            i <= actions@.len(),
            all == models(actions@),
            total == counted(counter, sent_bytes(all.take(i as int))),
        decreases actions@.len() - i,
    {
        assert(all.take(i + 1).drop_last() == all.take(i as int));
        if let Action::Send(_, payload) = &actions[i] {
            total = count(total, payload.len());
        }
        i += 1;
    }
    assert(all.take(i as int) =~= all);
    total
}

impl Envelope {
    /// A new envelope with a message identifier of its own.
    pub fn new(message_type: u64, source: &[u8]) -> (result: Self)
        ensures
            exists|id: [u8; 8], millis: u128| #[trigger]
                stamped(draft(message_type, source@), id@, millis as int) == result.fields.map(),
    {
        let id = random_id();
        let millis: u128 = crate::clock::wall_time() / 1_000_000;
        let result = stamp(new_draft(message_type, source), &id, millis);
        assert(stamped(draft(message_type, source@), id@, millis as int) == result.fields.map());
        result
    }
}

} // verus!
