//! The room registry: what is kept of registered rooms between two runs of the hub.

use crate::clock::{seconds, to_seconds, Nanos};
use crate::collections::{
    at, gathered, group_collections, group_sequences, models, put, ranking, sort, sorted, with, Key,
    KeySet, Model, Ranked, Table,
};
use crate::config::{
    filled, hash_of, list_setting, nonempty, parse_hash, set_list, set_to, text_setting, Setting,
    SettingModel,
};
use crate::router::admin::{list_registered, registered_names};
use crate::state::{IdentityHash, Room, RoomModel};
use crate::text::{hexadecimal, is_text_before, text_before, to_chars, from_chars, to_hexadecimal};
use vstd::prelude::*;

verus! {

broadcast use {group_collections, group_sequences};

/// An invitation as it is kept: an identity in hexadecimal and when the invitation expires.
pub struct Invitation {
    pub hash: String,
    pub expires: Nanos,
}

#[verifier::ext_equal]
pub struct InvitationModel {
    pub hash: Seq<char>,
    pub expires: Nanos,
}

impl Model for Invitation {
    type M = InvitationModel;

    open spec fn model(&self) -> InvitationModel {
        InvitationModel { hash: self.hash@, expires: self.expires }
    }
}

impl Ranked for Invitation {
    open spec fn ranks_before(left: InvitationModel, right: InvitationModel) -> bool {
        text_before(left.hash, right.hash)
    }

    fn is_before(&self, other: &Self) -> (result: bool) {
        is_text_before(self.hash.as_str(), other.hash.as_str())
    }
}

/// A registered room as it is kept. Identities are in hexadecimal.
pub struct RoomRecord {
    pub name: String,
    pub founder: Option<String>,
    pub topic: Option<String>,
    pub key: Option<String>,
    pub moderated: bool,
    pub invite_only: bool,
    pub private: bool,
    pub topic_ops_only: bool,
    pub no_outside_msgs: bool,
    pub operators: Vec<String>,
    pub voiced: Vec<String>,
    pub bans: Vec<String>,
    pub invited: Vec<Invitation>,
    pub last_used_ts: Option<Nanos>,
}

#[verifier::ext_equal]
pub struct RecordModel {
    pub name: Seq<char>,
    pub founder: Option<Seq<char>>,
    pub topic: Option<Seq<char>>,
    pub key: Option<Seq<char>>,
    pub moderated: bool,
    pub invite_only: bool,
    pub private: bool,
    pub topic_ops_only: bool,
    pub no_outside_msgs: bool,
    pub operators: Seq<Seq<char>>,
    pub voiced: Seq<Seq<char>>,
    pub bans: Seq<Seq<char>>,
    pub invited: Seq<InvitationModel>,
    pub last_used_ts: Option<Nanos>,
}

impl Model for RoomRecord {
    type M = RecordModel;

    open spec fn model(&self) -> RecordModel {
        RecordModel {
            name: self.name@,
            founder: self.founder.model(),
            topic: self.topic.model(),
            key: self.key.model(),
            moderated: self.moderated,
            invite_only: self.invite_only,
            private: self.private,
            topic_ops_only: self.topic_ops_only,
            no_outside_msgs: self.no_outside_msgs,
            operators: models(self.operators@),
            voiced: models(self.voiced@),
            bans: models(self.bans@),
            invited: models(self.invited@),
            last_used_ts: self.last_used_ts,
        }
    }
}

/// `yes` or `no`.
pub open spec fn answer(value: bool) -> Seq<char> {
    if value {
        "yes"@
    } else {
        "no"@
    }
}

/// `yes` or `no`.
pub fn yes_no(value: bool) -> (result: &'static str)
    ensures
        result@ == answer(value),
{
    if value {
        "yes"
    } else {
        "no"
    }
}

/// The identities in hexadecimal, in order.
pub open spec fn hex_sorted(identities: Seq<IdentityHash>) -> Seq<Seq<char>> {
    sorted(Seq::new(identities.len(), |i: int| hexadecimal(identities[i]@)), ranking::<String>())
}

/// The identities in hexadecimal, in order.
pub fn sorted_hashes(values: &KeySet<IdentityHash>) -> (result: Vec<String>)
    ensures
        models(result@) == hex_sorted(values.model()),
{
    let ghost all = Seq::new(values.model().len(), |i: int| hexadecimal(values.model()[i]@));
    let mut texts: Vec<String> = Vec::new();
    let mut i: usize = 0;
    while i < values.len()
        invariant
            i <= values.model().len(),
            all == Seq::new(values.model().len(), |i: int| hexadecimal(values.model()[i]@)),
            models(texts@) == all.take(i as int),
        decreases values.model().len() - i,
    {
        texts.push(to_hexadecimal(values.get(i).as_slice()));
        i += 1;
        assert(models(texts@) =~= all.take(i as int));
    }
    assert(models(texts@) =~= all);
    sort(texts)
}

/// An invitation that has not expired as it is kept, as a function.
pub open spec fn keeping(now: Nanos) -> spec_fn((IdentityHash, Nanos)) -> Option<InvitationModel> {
    |entry: (IdentityHash, Nanos)|
        if entry.1 > now {
            Some(InvitationModel { hash: hexadecimal(entry.0@), expires: entry.1 })
        } else {
            None
        }
}

/// The invitations that have not expired as they are kept, in order.
pub open spec fn kept_invitations(invited: Seq<(IdentityHash, Nanos)>, now: Nanos) -> Seq<
    InvitationModel,
> {
    sorted(gathered(invited, keeping(now)), ranking::<Invitation>())
}

/// A room as it is kept.
pub open spec fn record_of(name: Seq<char>, room: RoomModel, now: Nanos) -> RecordModel {
    RecordModel {
        name,
        founder: match room.founder {
            Some(founder) => Some(hexadecimal(founder@)),
            None => None,
        },
        topic: room.topic,
        key: room.key,
        moderated: room.moderated,
        invite_only: room.invite_only,
        private: room.private,
        topic_ops_only: room.topic_ops_only,
        no_outside_msgs: room.no_outside_messages,
        operators: hex_sorted(room.operators),
        voiced: hex_sorted(room.voiced),
        bans: hex_sorted(room.banned),
        invited: kept_invitations(room.invited, now),
        last_used_ts: Some(room.last_used_ts),
    }
}

/// The names of the registered rooms, in order.
pub open spec fn saved_names(rooms: Seq<(Seq<char>, RoomModel)>) -> Seq<Seq<char>> {
    sorted(registered_names(rooms), ranking::<String>())
}

/// What is kept of the rooms: the registered ones, in the order of their names.
pub open spec fn saved(rooms: Seq<(Seq<char>, RoomModel)>, now: Nanos) -> Seq<RecordModel> {
    let names = saved_names(rooms);
    Seq::new(names.len(), |i: int| record_of(names[i], at(rooms, names[i]), now))
}

/// The identities that texts spell, each once; texts that spell none are left out.
pub open spec fn read_hashes(texts: Seq<Seq<char>>) -> Seq<IdentityHash>
    decreases texts.len(),
{
    if texts.len() == 0 {
        Seq::empty()
    } else {
        match hash_of(texts.last()) {
            Some(hash) => with(read_hashes(texts.drop_last()), hash),
            None => read_hashes(texts.drop_last()),
        }
    }
}

/// The invitations that are kept and have not expired; of several for one identity the last one
/// counts.
pub open spec fn read_invitations(invitations: Seq<InvitationModel>, now: Nanos) -> Seq<
    (IdentityHash, Nanos),
>
    decreases invitations.len(),
{
    if invitations.len() == 0 {
        Seq::empty()
    } else {
        let before = read_invitations(invitations.drop_last(), now);
        match hash_of(invitations.last().hash) {
            Some(hash) => if invitations.last().expires > now {
                put(before, hash, invitations.last().expires)
            } else {
                before
            },
            None => before,
        }
    }
}

/// The room that a record describes. Nobody is in it.
pub open spec fn room_of(record: RecordModel, now: Nanos) -> RoomModel {
    RoomModel {
        members: Seq::empty(),
        founder: match record.founder {
            Some(text) => hash_of(text),
            None => None,
        },
        operators: read_hashes(record.operators),
        voiced: read_hashes(record.voiced),
        banned: read_hashes(record.bans),
        invited: read_invitations(record.invited, now),
        topic: filled(record.topic),
        key: filled(record.key),
        registered: true,
        moderated: record.moderated,
        invite_only: record.invite_only,
        private: record.private,
        topic_ops_only: record.topic_ops_only,
        no_outside_messages: record.no_outside_msgs,
        last_used_ts: match record.last_used_ts {
            Some(used) => used,
            None => now,
        },
    }
}

/// The rooms that records describe; of several with one name the last one counts.
pub open spec fn loaded(records: Seq<RecordModel>, now: Nanos) -> Seq<(Seq<char>, RoomModel)>
    decreases records.len(),
{
    if records.len() == 0 {
        Seq::empty()
    } else {
        put(
            loaded(records.drop_last(), now),
            records.last().name,
            room_of(records.last(), now),
        )
    }
}

/// The room registry.
pub struct RoomRegistry;

fn save_invitations(invited: &Table<IdentityHash, Nanos>, now: Nanos) -> (result: Vec<Invitation>)
    ensures
        models(result@) == kept_invitations(invited.model(), now),
{
    let ghost all = invited.model();
    let mut kept: Vec<Invitation> = Vec::new();
    let mut i: usize = 0;
    while i < invited.len()
        invariant
            i <= all.len(),
            all == invited.model(),
            models(kept@) == gathered(all.take(i as int), keeping(now)),
        decreases all.len() - i,
    {
        assert(all.take(i + 1).drop_last() == all.take(i as int));
        let expires: Nanos = *invited.value(i);
        if expires > now {
            kept.push(Invitation { hash: to_hexadecimal(invited.key(i).as_slice()), expires });
        }
        i += 1;
    }
    sort(kept)
}

fn save_room(name: String, room: &Room, now: Nanos) -> (result: RoomRecord)
    ensures
        result.model() == record_of(name@, room.model(), now),
{
    RoomRecord {
        name,
        founder: match room.founder {
            Some(founder) => Some(to_hexadecimal(founder.as_slice())),
            None => None,
        },
        topic: room.topic.duplicate(),
        key: room.key.duplicate(),
        moderated: room.moderated,
        invite_only: room.invite_only,
        private: room.private,
        topic_ops_only: room.topic_ops_only,
        no_outside_msgs: room.no_outside_messages,
        operators: sorted_hashes(&room.operators),
        voiced: sorted_hashes(&room.voiced),
        bans: sorted_hashes(&room.banned),
        invited: save_invitations(&room.invited, now),
        last_used_ts: Some(room.last_used_ts),
    }
}

fn load_hashes(texts: &Vec<String>) -> (result: KeySet<IdentityHash>)
    ensures
        result.model() == read_hashes(models(texts@)),
{
    let ghost all = models(texts@);
    let mut hashes: KeySet<IdentityHash> = KeySet::new();
    let mut i: usize = 0;
    while i < texts.len()
        invariant
            i <= texts@.len(),
            all == models(texts@),
            hashes.model() == read_hashes(all.take(i as int)),
        decreases texts@.len() - i,
    {
        assert(all.take(i + 1).drop_last() == all.take(i as int));
        if let Some(hash) = parse_hash(texts[i].as_str()) {
            hashes.insert(hash);
        }
        i += 1;
    }
    hashes
}

fn load_invitations(invitations: &Vec<Invitation>, now: Nanos) -> (result: Table<
    IdentityHash,
    Nanos,
>)
    ensures
        result.model() == read_invitations(models(invitations@), now),
{
    let ghost all = models(invitations@);
    let mut invited: Table<IdentityHash, Nanos> = Table::new();
    let mut i: usize = 0;
    while i < invitations.len()
        invariant
            i <= invitations@.len(),
            all == models(invitations@),
            invited.model() == read_invitations(all.take(i as int), now),
        decreases invitations@.len() - i,
    {
        assert(all.take(i + 1).drop_last() == all.take(i as int));
        if let Some(hash) = parse_hash(invitations[i].hash.as_str()) {
            if invitations[i].expires > now {
                invited.insert(hash, invitations[i].expires);
            }
        }
        i += 1;
    }
    invited
}

fn load_room(record: &RoomRecord, now: Nanos) -> (result: Room)
    ensures
        result.model() == room_of(record.model(), now),
{
    Room {
        members: KeySet::new(),
        founder: match &record.founder {
            Some(text) => parse_hash(text.as_str()),
            None => None,
        },
        operators: load_hashes(&record.operators),
        voiced: load_hashes(&record.voiced),
        banned: load_hashes(&record.bans),
        invited: load_invitations(&record.invited, now),
        topic: nonempty(record.topic.duplicate()),
        key: nonempty(record.key.duplicate()),
        registered: true,
        moderated: record.moderated,
        invite_only: record.invite_only,
        private: record.private,
        topic_ops_only: record.topic_ops_only,
        no_outside_messages: record.no_outside_msgs,
        last_used_ts: match record.last_used_ts {
            Some(used) => used,
            None => now,
        },
    }
}

impl RoomRegistry {
    /// The rooms that records describe.
    pub fn load(records: &Vec<RoomRecord>, now: Nanos) -> (result: Table<String, Room>)
        ensures
            result.model() == loaded(models(records@), now),
    {
        let ghost all = models(records@);
        let mut rooms: Table<String, Room> = Table::new();
        let mut i: usize = 0;
        while i < records.len()
            invariant
                i <= records@.len(),
                all == models(records@),
                rooms.model() == loaded(all.take(i as int), now),
            decreases records@.len() - i,
        {
            assert(all.take(i + 1).drop_last() == all.take(i as int));
            rooms.insert(records[i].name.clone(), load_room(&records[i], now));
            i += 1;
        }
        rooms
    }

    /// What is kept of the rooms: the registered ones, in the order of their names.
    pub fn save(rooms: &Table<String, Room>, now: Nanos) -> (result: Vec<RoomRecord>)
        ensures
            models(result@) == saved(rooms.model(), now),
    {
        let names = sort(list_registered(rooms));
        let ghost all = saved(rooms.model(), now);
        let mut records: Vec<RoomRecord> = Vec::new();
        let mut i: usize = 0;
        proof {
            lemma_saved_names(rooms.model());
        }
        while i < names.len()
            invariant
                i <= names@.len(),
                models(names@) == saved_names(rooms.model()),
                forall|j: int|
                    0 <= j < names@.len() ==> crate::collections::holds(
                        rooms.model(),
                        #[trigger] models(names@)[j],
                    ),
                all == saved(rooms.model(), now),
                models(records@) == all.take(i as int),
            decreases names@.len() - i,
        {
            assert(crate::collections::holds(rooms.model(), models(names@)[i as int]));
            if let Some(room) = rooms.get(&names[i]) {
                records.push(save_room(names[i].clone(), room, now));
            }
            i += 1;
            assert(models(records@) =~= all.take(i as int));
        }
        assert(models(records@) =~= all);
        records
    }
}

/// Whether every text is the name of a room.
spec fn all_held(rooms: Seq<(Seq<char>, RoomModel)>, names: Seq<Seq<char>>) -> bool {
    forall|i: int|
        0 <= i < names.len() ==> crate::collections::holds(rooms, #[trigger] names[i])
}

proof fn lemma_registered_held(
    rooms: Seq<(Seq<char>, RoomModel)>,
    count: int,
)
    requires
        0 <= count <= rooms.len(),
    ensures
        all_held(rooms, registered_names(rooms.take(count))),
    decreases count,
{
    if count > 0 {
        lemma_registered_held(rooms, count - 1);
        let prefix = rooms.take(count);
        assert(prefix.drop_last() == rooms.take(count - 1));
        assert(prefix.last() == rooms[count - 1]);
    }
}

proof fn lemma_placed_held(
    rooms: Seq<(Seq<char>, RoomModel)>,
    names: Seq<Seq<char>>,
    name: Seq<char>,
    before: spec_fn(Seq<char>, Seq<char>) -> bool,
)
    requires
        all_held(rooms, names),
        crate::collections::holds(rooms, name),
    ensures
        all_held(rooms, crate::collections::placed(names, name, before)),
    decreases names.len(),
{
    if names.len() > 0 && before(name, names.last()) {
        lemma_placed_held(rooms, names.drop_last(), name, before);
    }
}

proof fn lemma_sorted_held(
    rooms: Seq<(Seq<char>, RoomModel)>,
    names: Seq<Seq<char>>,
    before: spec_fn(Seq<char>, Seq<char>) -> bool,
)
    requires
        all_held(rooms, names),
    ensures
        all_held(rooms, sorted(names, before)),
    decreases names.len(),
{
    if names.len() > 0 {
        lemma_sorted_held(rooms, names.drop_last(), before);
        lemma_placed_held(rooms, sorted(names.drop_last(), before), names.last(), before);
    }
}

proof fn lemma_saved_names(rooms: Seq<(Seq<char>, RoomModel)>)
    ensures
        all_held(rooms, saved_names(rooms)),
{
    lemma_registered_held(rooms, rooms.len() as int);
    assert(rooms.take(rooms.len() as int) =~= rooms);
    lemma_sorted_held(rooms, registered_names(rooms), ranking::<String>());
}

/// How an invitation is written.
pub open spec fn invitation_entry(invitation: InvitationModel) -> Seq<char> {
    invitation.hash + ":"@ + seconds(invitation.expires as nat)
}

/// A setting with a text, where there is one.
pub open spec fn optional_setting(key: Seq<char>, text: Option<Seq<char>>) -> Seq<SettingModel> {
    match text {
        Some(text) => seq![text_setting(key, text)],
        None => Seq::empty(),
    }
}

/// The settings that a record is written as.
pub open spec fn record_settings(record: RecordModel) -> Seq<SettingModel> {
    optional_setting("founder"@, record.founder) + optional_setting("topic"@, record.topic)
        + optional_setting("key"@, record.key) + seq![
        text_setting("moderated"@, answer(record.moderated)),
        text_setting("invite_only"@, answer(record.invite_only)),
        text_setting("private"@, answer(record.private)),
        text_setting("topic_ops_only"@, answer(record.topic_ops_only)),
        text_setting("no_outside_msgs"@, answer(record.no_outside_msgs)),
        list_setting("operators"@, record.operators),
        list_setting("voiced"@, record.voiced),
        list_setting("bans"@, record.bans),
        list_setting(
            "invited"@,
            Seq::new(record.invited.len(), |i: int| invitation_entry(record.invited[i])),
        ),
    ] + optional_setting(
        "last_used_ts"@,
        match record.last_used_ts {
            Some(used) => Some(seconds(used as nat)),
            None => None,
        },
    )
}

fn push_optional(settings: &mut Vec<Setting>, key: &str, text: &Option<String>)
    ensures
        models(final(settings)@) == models(old(settings)@) + optional_setting(key@, text.model()),
{
    if let Some(text) = text {
        settings.push(set_to(key, text.as_str()));
        assert(models(settings@) =~= models(old(settings)@) + seq![text_setting(key@, text@)]);
    }
}

fn write_invitations(invitations: &Vec<Invitation>) -> (result: Vec<String>)
    ensures
        models(result@) == Seq::new(
            models(invitations@).len(),
            |i: int| invitation_entry(models(invitations@)[i]),
        ),
{
    let ghost all = Seq::new(
        models(invitations@).len(),
        |i: int| invitation_entry(models(invitations@)[i]),
    );
    let mut entries: Vec<String> = Vec::new();
    let mut i: usize = 0;
    while i < invitations.len()
        invariant
            i <= invitations@.len(),
            all == Seq::new(
                models(invitations@).len(),
                |i: int| invitation_entry(models(invitations@)[i]),
            ),
            models(entries@) == all.take(i as int),
        decreases invitations@.len() - i,
    {
        let mut entry = invitations[i].hash.clone();
        entry.append(":");
        entry.append(to_seconds(invitations[i].expires).as_str());
        entries.push(entry);
        i += 1;
        assert(models(entries@) =~= all.take(i as int));
    }
    assert(models(entries@) =~= all);
    entries
}

fn copy_texts(texts: &Vec<String>) -> (result: Vec<String>)
    ensures
        models(result@) == models(texts@),
{
    let mut result: Vec<String> = Vec::new();
    let mut i: usize = 0;
    while i < texts.len()
        invariant
            i <= texts@.len(),
            models(result@) == models(texts@).take(i as int),
        decreases texts@.len() - i,
    {
        result.push(texts[i].clone());
        i += 1;
        assert(models(result@) =~= models(texts@).take(i as int));
    }
    assert(models(result@) =~= models(texts@));
    result
}

impl RoomRecord {
    /// The settings that the record is written as.
    pub fn to_settings(&self) -> (result: Vec<Setting>)
        ensures
            models(result@) == record_settings(self.model()),
    {
        let mut settings: Vec<Setting> = Vec::new();
        push_optional(&mut settings, "founder", &self.founder);
        push_optional(&mut settings, "topic", &self.topic);
        push_optional(&mut settings, "key", &self.key);
        let ghost first = models(settings@);
        assert(first =~= optional_setting("founder"@, self.founder.model()) + optional_setting(
            "topic"@,
            self.topic.model(),
        ) + optional_setting("key"@, self.key.model()));
        let mut rest: Vec<Setting> = Vec::new();
        rest.push(set_to("moderated", yes_no(self.moderated)));
        rest.push(set_to("invite_only", yes_no(self.invite_only)));
        rest.push(set_to("private", yes_no(self.private)));
        rest.push(set_to("topic_ops_only", yes_no(self.topic_ops_only)));
        rest.push(set_to("no_outside_msgs", yes_no(self.no_outside_msgs)));
        rest.push(set_list("operators", copy_texts(&self.operators)));
        rest.push(set_list("voiced", copy_texts(&self.voiced)));
        rest.push(set_list("bans", copy_texts(&self.bans)));
        rest.push(set_list("invited", write_invitations(&self.invited)));
        settings.append(&mut rest);
        let used = match self.last_used_ts {
            Some(used) => Some(to_seconds(used)),
            None => None,
        };
        push_optional(&mut settings, "last_used_ts", &used);
        assert(models(settings@) =~= record_settings(self.model()));
        settings
    }
}

/// Where a character first stands in a text; the length of the text where it does not.
pub open spec fn first_of(text: Seq<char>, c: char) -> int
    decreases text.len(),
{
    if text.len() == 0 || text.first() == c {
        0
    } else {
        1 + first_of(text.drop_first(), c)
    }
}

/// What stands before and behind the first colon of an entry.
pub open spec fn entry_parts(entry: Seq<char>) -> Option<(Seq<char>, Seq<char>)> {
    let colon = first_of(entry, ':');
    if colon < entry.len() {
        Some((entry.take(colon), entry.skip(colon + 1)))
    } else {
        None
    }
}

/// Splits the entry of an invitation at its first colon: the identity, and when it expires.
pub fn split_entry(entry: &str) -> (result: Option<(String, String)>)
    ensures
        match result {
            Some((hash, expires)) => entry_parts(entry@) == Some((hash@, expires@)),
            None => entry_parts(entry@) is None,
        },
{
    let chars = to_chars(entry);
    let mut i: usize = 0;
    assert(chars@.skip(0) =~= chars@);
    while i < chars.len() && chars[i] != ':'
        invariant
            i <= chars@.len(),
            chars@ == entry@,
            first_of(entry@, ':') == i + first_of(chars@.skip(i as int), ':'),
        decreases chars@.len() - i,
    {
        assert(chars@.skip(i as int).drop_first() =~= chars@.skip(i + 1));
        i += 1;
    }
    assert(first_of(chars@.skip(i as int), ':') == 0);
    if i < chars.len() {
        let hash = from_chars(&chars, 0, i);
        let expires = from_chars(&chars, i + 1, chars.len());
        assert(hash@ =~= entry@.take(i as int));
        assert(expires@ =~= entry@.skip(i + 1));
        Some((hash, expires))
    } else {
        None
    }
}

} // verus!
