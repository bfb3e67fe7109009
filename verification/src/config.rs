//! The hub's configuration: how it is made of settings, checked, overridden and compared.

use crate::cbor::{cbor_decoded, cbor_encoded, Cbor, CborKey, Datum, FieldKey, Fields};
use crate::cbor::{lemma_plain_deeper, lemma_plain_map, max_depth, plain, plain_key, scalar};
use crate::cbor::writable;
use crate::clock::{seconds_pointed, to_seconds_pointed, Nanos, SECOND};
use crate::collections::{group_sequences, models, Key, Model};
use crate::text::{after_0x, decimal, from_chars, from_hexadecimal, hexadecimal, quoted, strip_0x};
use crate::text::{quoted_path, to_quoted_path};
use crate::text::{to_chars, to_decimal, to_hexadecimal};
use crate::text::{lowercase, to_lowercase, to_quoted, trim, trimmed, unhexed};
use vstd::prelude::*;

verus! {

broadcast use group_sequences;

/// An identity, known by its hash.
pub type IdentityHash = [u8; 16];

/// The configuration of a hub. Durations are in nanoseconds.
pub struct HubConfig {
    pub config_path: String,
    pub identity_path: String,
    pub room_registry_path: String,
    pub rns_config_dir: Option<String>,
    pub hub_name: String,
    pub greeting: Option<String>,
    pub announce_on_start: bool,
    pub announce_period: Nanos,
    pub include_joined_member_list: bool,
    pub room_invite_timeout: Nanos,
    pub room_registry_prune_after: Nanos,
    pub room_registry_prune_interval: Nanos,
    pub max_nick_bytes: usize,
    pub max_rooms_per_session: usize,
    pub max_room_name_bytes: usize,
    pub max_msg_body_bytes: usize,
    pub rate_limit_msgs_per_minute: u32,
    pub ping_interval: Nanos,
    pub ping_timeout: Nanos,
    pub enable_resource_transfer: bool,
    pub max_resource_bytes: usize,
    pub max_pending_resource_expectations: usize,
    pub resource_expectation_ttl: Nanos,
    pub trusted_identities: Vec<IdentityHash>,
    pub banned_identities: Vec<IdentityHash>,
    pub log_level: String,
    pub log_console: bool,
    pub log_file: Option<String>,
}

/// What a configuration holds.
#[verifier::ext_equal]
pub struct ConfigModel {
    pub config_path: Seq<char>,
    pub identity_path: Seq<char>,
    pub room_registry_path: Seq<char>,
    pub rns_config_dir: Option<Seq<char>>,
    pub hub_name: Seq<char>,
    pub greeting: Option<Seq<char>>,
    pub announce_on_start: bool,
    pub announce_period: Nanos,
    pub include_joined_member_list: bool,
    pub room_invite_timeout: Nanos,
    pub room_registry_prune_after: Nanos,
    pub room_registry_prune_interval: Nanos,
    pub max_nick_bytes: usize,
    pub max_rooms_per_session: usize,
    pub max_room_name_bytes: usize,
    pub max_msg_body_bytes: usize,
    pub rate_limit_msgs_per_minute: u32,
    pub ping_interval: Nanos,
    pub ping_timeout: Nanos,
    pub enable_resource_transfer: bool,
    pub max_resource_bytes: usize,
    pub max_pending_resource_expectations: usize,
    pub resource_expectation_ttl: Nanos,
    pub trusted_identities: Seq<IdentityHash>,
    pub banned_identities: Seq<IdentityHash>,
    pub log_level: Seq<char>,
    pub log_console: bool,
    pub log_file: Option<Seq<char>>,
}

impl Model for HubConfig {
    type M = ConfigModel;

    open spec fn model(&self) -> ConfigModel {
        ConfigModel {
            config_path: self.config_path@,
            identity_path: self.identity_path@,
            room_registry_path: self.room_registry_path@,
            rns_config_dir: self.rns_config_dir.model(),
            hub_name: self.hub_name@,
            greeting: self.greeting.model(),
            announce_on_start: self.announce_on_start,
            announce_period: self.announce_period,
            include_joined_member_list: self.include_joined_member_list,
            room_invite_timeout: self.room_invite_timeout,
            room_registry_prune_after: self.room_registry_prune_after,
            room_registry_prune_interval: self.room_registry_prune_interval,
            max_nick_bytes: self.max_nick_bytes,
            max_rooms_per_session: self.max_rooms_per_session,
            max_room_name_bytes: self.max_room_name_bytes,
            max_msg_body_bytes: self.max_msg_body_bytes,
            rate_limit_msgs_per_minute: self.rate_limit_msgs_per_minute,
            ping_interval: self.ping_interval,
            ping_timeout: self.ping_timeout,
            enable_resource_transfer: self.enable_resource_transfer,
            max_resource_bytes: self.max_resource_bytes,
            max_pending_resource_expectations: self.max_pending_resource_expectations,
            resource_expectation_ttl: self.resource_expectation_ttl,
            trusted_identities: self.trusted_identities@,
            banned_identities: self.banned_identities@,
            log_level: self.log_level@,
            log_console: self.log_console,
            log_file: self.log_file.model(),
        }
    }
}

/// The settings that a configuration file holds. What the file leaves out, or what cannot be
/// read as what it should be, is `None`.
pub struct Settings {
    pub configdir: Option<String>,
    pub identity_path: Option<String>,
    pub room_registry_path: Option<String>,
    pub hub_name: Option<String>,
    pub greeting: Option<String>,
    pub announce_on_start: Option<bool>,
    pub announce_period: Option<Nanos>,
    pub include_joined_member_list: Option<bool>,
    pub room_invite_timeout: Option<Nanos>,
    pub room_registry_prune_after: Option<Nanos>,
    pub room_registry_prune_interval: Option<Nanos>,
    pub max_nick_bytes: Option<u64>,
    pub max_rooms_per_session: Option<u64>,
    pub max_room_name_bytes: Option<u64>,
    pub max_msg_body_bytes: Option<u64>,
    pub rate_limit_msgs_per_minute: Option<u64>,
    pub ping_interval: Option<Nanos>,
    pub ping_timeout: Option<Nanos>,
    pub enable_resource_transfer: Option<bool>,
    pub max_resource_bytes: Option<u64>,
    pub max_pending_resource_expectations: Option<u64>,
    pub resource_expectation_ttl: Option<Nanos>,
    pub trusted_identities: Vec<String>,
    pub banned_identities: Vec<String>,
    pub log_level: Option<String>,
    pub log_console: Option<bool>,
    pub log_file: Option<String>,
}

/// The hash that sixteen bytes are.
pub open spec fn hash_from(bytes: Seq<u8>) -> Option<IdentityHash> {
    if bytes.len() == 16 {
        Some(choose|hash: IdentityHash| #[trigger] hash@ == bytes)
    } else {
        None
    }
}

/// The hash that sixteen bytes are.
pub fn to_hash(bytes: &[u8]) -> (result: Option<IdentityHash>)
    ensures
        result == hash_from(bytes@),
{
    if bytes.len() != 16 {
        return None;
    }
    let hash: [u8; 16] = [
        bytes[0],
        bytes[1],
        bytes[2],
        bytes[3],
        bytes[4],
        bytes[5],
        bytes[6],
        bytes[7],
        bytes[8],
        bytes[9],
        bytes[10],
        bytes[11],
        bytes[12],
        bytes[13],
        bytes[14],
        bytes[15],
    ];
    proof {
        assert(hash@ =~= bytes@);
        let chosen = choose|hash: IdentityHash| #[trigger] hash@ == bytes@;
        assert(chosen@ =~= hash@);
        assert(chosen =~= hash);
    }
    Some(hash)
}

/// The hash that a text spells in hexadecimal, with or without a leading `0x`.
pub open spec fn hash_of(text: Seq<char>) -> Option<IdentityHash> {
    match unhexed(after_0x(trimmed(text))) {
        Some(bytes) => hash_from(bytes),
        None => None,
    }
}

/// Reads a hash written in hexadecimal, with or without a leading `0x`.
pub fn parse_hash(value: &str) -> (result: Option<IdentityHash>)
    ensures
        result == hash_of(value@),
{
    let trimmed = trim(value);
    let digits = strip_0x(trimmed.as_str());
    match from_hexadecimal(digits.as_str()) {
        Some(bytes) => to_hash(bytes.as_slice()),
        None => None,
    }
}

/// Whether a list holds an identity.
pub fn contains_identity(list: &Vec<IdentityHash>, identity: &IdentityHash) -> (result: bool)
    ensures
        result == list@.contains(*identity),
{
    let mut i: usize = 0;
    while i < list.len()
        invariant
            i <= list@.len(),
            forall|j: int| 0 <= j < i ==> list@[j] != *identity,
        decreases list@.len() - i,
    {
        if list[i].same(identity) {
            return true;
        }
        i += 1;
    }
    false
}

/// What `positive_usize` makes of a setting.
pub open spec fn count_or(value: Option<u64>, default: usize) -> usize {
    match value {
        Some(count) => if 0 < count <= usize::MAX {
            count as usize
        } else {
            default
        },
        None => default,
    }
}

/// The setting, or the default where it is missing, zero or too large.
pub fn positive_usize(value: Option<u64>, default: usize) -> (result: usize)
    ensures
        result == count_or(value, default),
{
    match value {
        Some(count) => if 0 < count && count <= usize::MAX as u64 {
            count as usize
        } else {
            default
        },
        None => default,
    }
}

/// The rate limit of a setting: the setting, or 240 where it is missing, zero or too large.
pub open spec fn rate_or_default(value: Option<u64>) -> u32 {
    match value {
        Some(rate) => if 0 < rate <= u32::MAX {
            rate as u32
        } else {
            240
        },
        None => 240,
    }
}

fn positive_rate(value: Option<u64>) -> (result: u32)
    ensures
        result == rate_or_default(value),
{
    match value {
        Some(rate) => if 0 < rate && rate <= 0xffff_ffffu64 {
            rate as u32
        } else {
            240
        },
        None => 240,
    }
}

/// A setting, or its default.
pub open spec fn value_or<T>(value: Option<T>, default: T) -> T {
    match value {
        Some(value) => value,
        None => default,
    }
}

fn bool_or(value: Option<bool>, default: bool) -> (result: bool)
    ensures
        result == value_or(value, default),
{
    match value {
        Some(value) => value,
        None => default,
    }
}

fn time_or(value: Option<Nanos>, default: Nanos) -> (result: Nanos)
    ensures
        result == value_or(value, default),
{
    match value {
        Some(value) => value,
        None => default,
    }
}

fn text_or(value: Option<String>, default: &str) -> (result: String)
    ensures
        result@ == value_or(value.model(), default@),
{
    match value {
        Some(value) => value,
        None => String::from_str(default),
    }
}

/// The text, unless it is empty.
pub open spec fn filled(value: Option<Seq<char>>) -> Option<Seq<char>> {
    match value {
        Some(text) => if text.len() == 0 {
            None
        } else {
            Some(text)
        },
        None => None,
    }
}

/// The text, unless it is empty.
pub fn nonempty(value: Option<String>) -> (result: Option<String>)
    ensures
        result.model() == filled(value.model()),
{
    match value {
        Some(text) => if text.as_str().is_empty() {
            None
        } else {
            Some(text)
        },
        None => None,
    }
}

/// The text, unless it is empty or all white space.
pub open spec fn inked(value: Option<Seq<char>>) -> Option<Seq<char>> {
    match value {
        Some(text) => if trimmed(text).len() == 0 {
            None
        } else {
            Some(text)
        },
        None => None,
    }
}

fn nonblank(value: Option<String>) -> (result: Option<String>)
    ensures
        result.model() == inked(value.model()),
{
    match value {
        Some(text) => if trim(text.as_str()).as_str().is_empty() {
            None
        } else {
            Some(text)
        },
        None => None,
    }
}

/// Why settings make no configuration: an entry of an identity list is no identity hash.
pub struct ConfigError {
    pub list: String,
    pub entry: String,
}

#[verifier::ext_equal]
pub struct ConfigErrorModel {
    pub list: Seq<char>,
    pub entry: Seq<char>,
}

impl Model for ConfigError {
    type M = ConfigErrorModel;

    open spec fn model(&self) -> ConfigErrorModel {
        ConfigErrorModel { list: self.list@, entry: self.entry@ }
    }
}

impl ConfigError {
    /// The error in words.
    pub fn message(&self) -> (result: String)
        ensures
            result@ == "invalid "@ + self.list@ + " entry "@ + quoted(self.entry@),
    {
        let mut text = String::from_str("invalid ");
        text.append(self.list.as_str());
        text.append(" entry ");
        text.append(to_quoted(self.entry.as_str()).as_str());
        text
    }
}

/// The identities that the entries of a list spell, or the first entry that spells none.
pub open spec fn hashes_of(entries: Seq<Seq<char>>) -> Result<Seq<IdentityHash>, Seq<char>>
    decreases entries.len(),
{
    if entries.len() == 0 {
        Ok(Seq::empty())
    } else {
        match hashes_of(entries.drop_last()) {
            Err(entry) => Err(entry),
            Ok(hashes) => match hash_of(entries.last()) {
                Some(hash) => Ok(hashes.push(hash)),
                None => Err(entries.last()),
            },
        }
    }
}

proof fn lemma_hashes_err(entries: Seq<Seq<char>>, count: int)
    requires
        0 <= count <= entries.len(),
        hashes_of(entries.take(count)) is Err,
    ensures
        hashes_of(entries) == hashes_of(entries.take(count)),
    decreases entries.len(),
{
    if count < entries.len() {
        assert(entries.drop_last().take(count) =~= entries.take(count));
        lemma_hashes_err(entries.drop_last(), count);
    }
}

fn parse_hashes(list: &str, entries: &Vec<String>) -> (result: Result<
    Vec<IdentityHash>,
    ConfigError,
>)
    ensures
        match result {
            Ok(hashes) => hashes_of(models(entries@)) == Ok::<Seq<IdentityHash>, Seq<char>>(
                hashes@,
            ),
            Err(error) => error.list@ == list@ && hashes_of(models(entries@)) == Err::<
                Seq<IdentityHash>,
                Seq<char>,
            >(error.entry@),
        },
{
    let ghost all = models(entries@);
    let mut hashes: Vec<IdentityHash> = Vec::new();
    let mut i: usize = 0;
    assert(hashes@ =~= Seq::empty());
    while i < entries.len()
        invariant
            i <= entries@.len(),
            all == models(entries@),
            hashes_of(all.take(i as int)) == Ok::<Seq<IdentityHash>, Seq<char>>(hashes@),
        decreases entries@.len() - i,
    {
        let ghost prefix = all.take(i + 1);
        assert(prefix.drop_last() == all.take(i as int));
        assert(prefix.last() == entries@[i as int]@);
        match parse_hash(entries[i].as_str()) {
            Some(hash) => hashes.push(hash),
            None => {
                proof {
                    lemma_hashes_err(all, i + 1);
                }
                return Err(
                    ConfigError { list: String::from_str(list), entry: entries[i].clone() },
                );
            },
        }
        i += 1;
    }
    Ok(hashes)
}

/// Where a path leads from the directory `base`: an absolute path stands for itself, any other is
/// looked up in the directory. Directories are parted by `/`.
pub open spec fn placed(base: Seq<char>, path: Seq<char>) -> Seq<char> {
    if path.len() > 0 && path[0] == '/' {
        path
    } else if base.len() == 0 || base.last() == '/' {
        base + path
    } else {
        base + "/"@ + path
    }
}

/// Where an optional path leads from the directory `base`.
pub open spec fn placed_any(base: Seq<char>, path: Option<Seq<char>>) -> Option<Seq<char>> {
    match path {
        Some(path) => Some(placed(base, path)),
        None => None,
    }
}

fn place(base: &str, path: String) -> (result: String)
    ensures
        result@ == placed(base@, path@),
{
    let steps = to_chars(path.as_str());
    if steps.len() > 0 && steps[0] == '/' {
        return path;
    }
    let folders = to_chars(base);
    let mut text = from_chars(&folders, 0, folders.len());
    assert(text@ =~= base@);
    if folders.len() > 0 && folders[folders.len() - 1] != '/' {
        text.append("/");
    }
    text.append(path.as_str());
    text
}

fn place_any(base: &str, path: Option<String>) -> (result: Option<String>)
    ensures
        result.model() == placed_any(base@, path.model()),
{
    match path {
        Some(path) => Some(place(base, path)),
        None => None,
    }
}

/// The configuration that settings make. The file that they stand in is in the directory `base`,
/// which relative paths start from.
pub open spec fn configured(path: Seq<char>, base: Seq<char>, settings: Settings) -> Result<
    ConfigModel,
    ConfigErrorModel,
> {
    match hashes_of(models(settings.trusted_identities@)) {
        Err(entry) => Err(ConfigErrorModel { list: "trusted_identities"@, entry }),
        Ok(trusted) => match hashes_of(models(settings.banned_identities@)) {
            Err(entry) => Err(ConfigErrorModel { list: "banned_identities"@, entry }),
            Ok(banned) => Ok(
                ConfigModel {
                    config_path: path,
                    identity_path: placed(
                        base,
                        value_or(settings.identity_path.model(), "hub_identity"@),
                    ),
                    room_registry_path: placed(
                        base,
                        value_or(settings.room_registry_path.model(), "rooms"@),
                    ),
                    rns_config_dir: inked(settings.configdir.model()),
                    hub_name: value_or(settings.hub_name.model(), "rrc"@),
                    greeting: filled(settings.greeting.model()),
                    announce_on_start: value_or(settings.announce_on_start, true),
                    announce_period: value_or(settings.announce_period, 0),
                    include_joined_member_list: value_or(
                        settings.include_joined_member_list,
                        false,
                    ),
                    room_invite_timeout: value_or(
                        settings.room_invite_timeout,
                        900_000_000_000,
                    ),
                    room_registry_prune_after: value_or(
                        settings.room_registry_prune_after,
                        2_592_000_000_000_000,
                    ),
                    room_registry_prune_interval: value_or(
                        settings.room_registry_prune_interval,
                        3_600_000_000_000,
                    ),
                    max_nick_bytes: count_or(settings.max_nick_bytes, 32),
                    max_rooms_per_session: count_or(settings.max_rooms_per_session, 32),
                    max_room_name_bytes: count_or(settings.max_room_name_bytes, 64),
                    max_msg_body_bytes: count_or(settings.max_msg_body_bytes, 350),
                    rate_limit_msgs_per_minute: rate_or_default(
                        settings.rate_limit_msgs_per_minute,
                    ),
                    ping_interval: value_or(settings.ping_interval, 0),
                    ping_timeout: value_or(settings.ping_timeout, 0),
                    enable_resource_transfer: value_or(settings.enable_resource_transfer, true),
                    max_resource_bytes: count_or(settings.max_resource_bytes, 262_144),
                    max_pending_resource_expectations: count_or(
                        settings.max_pending_resource_expectations,
                        8,
                    ),
                    resource_expectation_ttl: value_or(
                        settings.resource_expectation_ttl,
                        30_000_000_000,
                    ),
                    trusted_identities: trusted,
                    banned_identities: banned,
                    log_level: value_or(settings.log_level.model(), "INFO"@),
                    log_console: value_or(settings.log_console, true),
                    log_file: placed_any(base, inked(settings.log_file.model())),
                },
            ),
        },
    }
}

impl HubConfig {
    /// Makes a configuration of the settings in the file at `path`, which is in the directory
    /// `base`. Relative paths of the identity, the room registry and the log file start there.
    pub fn load(path: String, base: &str, settings: Settings) -> (result: Result<
        HubConfig,
        ConfigError,
    >)
        ensures
            match result {
                Ok(config) => configured(path@, base@, settings) == Ok::<
                    ConfigModel,
                    ConfigErrorModel,
                >(config.model()),
                Err(error) => configured(path@, base@, settings) == Err::<
                    ConfigModel,
                    ConfigErrorModel,
                >(error.model()),
            },
    {
        let trusted = match parse_hashes("trusted_identities", &settings.trusted_identities) {
            Ok(hashes) => hashes,
            Err(error) => return Err(error),
        };
        let banned = match parse_hashes("banned_identities", &settings.banned_identities) {
            Ok(hashes) => hashes,
            Err(error) => return Err(error),
        };
        Ok(
            HubConfig {
                config_path: path,
                identity_path: place(base, text_or(settings.identity_path, "hub_identity")),
                room_registry_path: place(base, text_or(settings.room_registry_path, "rooms")),
                rns_config_dir: nonblank(settings.configdir),
                hub_name: text_or(settings.hub_name, "rrc"),
                greeting: nonempty(settings.greeting),
                announce_on_start: bool_or(settings.announce_on_start, true),
                announce_period: time_or(settings.announce_period, 0),
                include_joined_member_list: bool_or(settings.include_joined_member_list, false),
                room_invite_timeout: time_or(settings.room_invite_timeout, 900 * SECOND),
                room_registry_prune_after: time_or(
                    settings.room_registry_prune_after,
                    2_592_000 * SECOND,
                ),
                room_registry_prune_interval: time_or(
                    settings.room_registry_prune_interval,
                    3_600 * SECOND,
                ),
                max_nick_bytes: positive_usize(settings.max_nick_bytes, 32),
                max_rooms_per_session: positive_usize(settings.max_rooms_per_session, 32),
                max_room_name_bytes: positive_usize(settings.max_room_name_bytes, 64),
                max_msg_body_bytes: positive_usize(settings.max_msg_body_bytes, 350),
                rate_limit_msgs_per_minute: positive_rate(settings.rate_limit_msgs_per_minute),
                ping_interval: time_or(settings.ping_interval, 0),
                ping_timeout: time_or(settings.ping_timeout, 0),
                enable_resource_transfer: bool_or(settings.enable_resource_transfer, true),
                max_resource_bytes: positive_usize(settings.max_resource_bytes, 262_144),
                max_pending_resource_expectations: positive_usize(
                    settings.max_pending_resource_expectations,
                    8,
                ),
                resource_expectation_ttl: time_or(settings.resource_expectation_ttl, 30 * SECOND),
                trusted_identities: trusted,
                banned_identities: banned,
                log_level: text_or(settings.log_level, "INFO"),
                log_console: bool_or(settings.log_console, true),
                log_file: place_any(base, nonblank(settings.log_file)),
            },
        )
    }
}

/// A truth value in words.
pub open spec fn bool_text(value: bool) -> Seq<char> {
    if value {
        "true"@
    } else {
        "false"@
    }
}

/// An optional text in words, with the text in quotes.
pub open spec fn option_text(value: Option<Seq<char>>) -> Seq<char> {
    match value {
        Some(text) => "Some("@ + quoted(text) + ")"@,
        None => "None"@,
    }
}

/// An optional path in words, with the path in quotes.
pub open spec fn option_path(value: Option<Seq<char>>) -> Seq<char> {
    match value {
        Some(path) => "Some("@ + quoted_path(path) + ")"@,
        None => "None"@,
    }
}

/// One more change, where there is one.
pub open spec fn noted(
    changes: Seq<Seq<char>>,
    changed: bool,
    name: Seq<char>,
    before: Seq<char>,
    after: Seq<char>,
) -> Seq<Seq<char>> {
    if changed {
        changes.push(name + ": "@ + before + " -> "@ + after)
    } else {
        changes
    }
}

/// The changes to names, paths and rooms.
pub open spec fn first_changes(changes: Seq<Seq<char>>, former: ConfigModel, latter: ConfigModel) -> Seq<
    Seq<char>,
> {
    let changes = noted(
        changes,
        former.room_registry_path != latter.room_registry_path,
        "room_registry_path"@,
        quoted_path(former.room_registry_path),
        quoted_path(latter.room_registry_path),
    );
    let changes = noted(
        changes,
        former.hub_name != latter.hub_name,
        "hub_name"@,
        quoted(former.hub_name),
        quoted(latter.hub_name),
    );
    let changes = noted(
        changes,
        former.greeting != latter.greeting,
        "greeting"@,
        option_text(former.greeting),
        option_text(latter.greeting),
    );
    let changes = noted(
        changes,
        former.announce_on_start != latter.announce_on_start,
        "announce_on_start"@,
        bool_text(former.announce_on_start),
        bool_text(latter.announce_on_start),
    );
    let changes = noted(
        changes,
        former.announce_period != latter.announce_period,
        "announce_period_s"@,
        seconds_pointed(former.announce_period as nat),
        seconds_pointed(latter.announce_period as nat),
    );
    let changes = noted(
        changes,
        former.include_joined_member_list != latter.include_joined_member_list,
        "include_joined_member_list"@,
        bool_text(former.include_joined_member_list),
        bool_text(latter.include_joined_member_list),
    );
    let changes = noted(
        changes,
        former.room_invite_timeout != latter.room_invite_timeout,
        "room_invite_timeout_s"@,
        seconds_pointed(former.room_invite_timeout as nat),
        seconds_pointed(latter.room_invite_timeout as nat),
    );
    let changes = noted(
        changes,
        former.room_registry_prune_after != latter.room_registry_prune_after,
        "room_registry_prune_after_s"@,
        seconds_pointed(former.room_registry_prune_after as nat),
        seconds_pointed(latter.room_registry_prune_after as nat),
    );
    changes
}

/// The changes to limits and intervals.
pub open spec fn limit_changes(changes: Seq<Seq<char>>, former: ConfigModel, latter: ConfigModel) -> Seq<
    Seq<char>,
> {
    let changes = noted(
        changes,
        former.room_registry_prune_interval != latter.room_registry_prune_interval,
        "room_registry_prune_interval_s"@,
        seconds_pointed(former.room_registry_prune_interval as nat),
        seconds_pointed(latter.room_registry_prune_interval as nat),
    );
    let changes = noted(
        changes,
        former.max_nick_bytes != latter.max_nick_bytes,
        "max_nick_bytes"@,
        decimal(former.max_nick_bytes as nat),
        decimal(latter.max_nick_bytes as nat),
    );
    let changes = noted(
        changes,
        former.max_rooms_per_session != latter.max_rooms_per_session,
        "max_rooms_per_session"@,
        decimal(former.max_rooms_per_session as nat),
        decimal(latter.max_rooms_per_session as nat),
    );
    let changes = noted(
        changes,
        former.max_room_name_bytes != latter.max_room_name_bytes,
        "max_room_name_bytes"@,
        decimal(former.max_room_name_bytes as nat),
        decimal(latter.max_room_name_bytes as nat),
    );
    let changes = noted(
        changes,
        former.max_msg_body_bytes != latter.max_msg_body_bytes,
        "max_msg_body_bytes"@,
        decimal(former.max_msg_body_bytes as nat),
        decimal(latter.max_msg_body_bytes as nat),
    );
    let changes = noted(
        changes,
        former.rate_limit_msgs_per_minute != latter.rate_limit_msgs_per_minute,
        "rate_limit_msgs_per_minute"@,
        decimal(former.rate_limit_msgs_per_minute as nat),
        decimal(latter.rate_limit_msgs_per_minute as nat),
    );
    let changes = noted(
        changes,
        former.ping_interval != latter.ping_interval,
        "ping_interval_s"@,
        seconds_pointed(former.ping_interval as nat),
        seconds_pointed(latter.ping_interval as nat),
    );
    let changes = noted(
        changes,
        former.ping_timeout != latter.ping_timeout,
        "ping_timeout_s"@,
        seconds_pointed(former.ping_timeout as nat),
        seconds_pointed(latter.ping_timeout as nat),
    );
    changes
}

/// The changes to resources, logging and identities.
pub open spec fn feature_changes(changes: Seq<Seq<char>>, former: ConfigModel, latter: ConfigModel) -> Seq<
    Seq<char>,
> {
    let changes = noted(
        changes,
        former.enable_resource_transfer != latter.enable_resource_transfer,
        "enable_resource_transfer"@,
        bool_text(former.enable_resource_transfer),
        bool_text(latter.enable_resource_transfer),
    );
    let changes = noted(
        changes,
        former.max_resource_bytes != latter.max_resource_bytes,
        "max_resource_bytes"@,
        decimal(former.max_resource_bytes as nat),
        decimal(latter.max_resource_bytes as nat),
    );
    let changes = noted(
        changes,
        former.max_pending_resource_expectations != latter.max_pending_resource_expectations,
        "max_pending_resource_expectations"@,
        decimal(former.max_pending_resource_expectations as nat),
        decimal(latter.max_pending_resource_expectations as nat),
    );
    let changes = noted(
        changes,
        former.resource_expectation_ttl != latter.resource_expectation_ttl,
        "resource_expectation_ttl_s"@,
        seconds_pointed(former.resource_expectation_ttl as nat),
        seconds_pointed(latter.resource_expectation_ttl as nat),
    );
    let changes = noted(
        changes,
        former.log_level != latter.log_level,
        "log_level"@,
        quoted(former.log_level),
        quoted(latter.log_level),
    );
    let changes = noted(
        changes,
        former.log_console != latter.log_console,
        "log_console"@,
        bool_text(former.log_console),
        bool_text(latter.log_console),
    );
    let changes = noted(
        changes,
        former.log_file != latter.log_file,
        "log_file"@,
        option_path(former.log_file),
        option_path(latter.log_file),
    );
    let changes = noted(
        changes,
        former.trusted_identities != latter.trusted_identities,
        "trusted_identities"@,
        "len="@ + decimal(former.trusted_identities.len()),
        "len="@ + decimal(latter.trusted_identities.len()),
    );
    let changes = noted(
        changes,
        former.banned_identities != latter.banned_identities,
        "banned_identities"@,
        "len="@ + decimal(former.banned_identities.len()),
        "len="@ + decimal(latter.banned_identities.len()),
    );
    changes
}

/// What has changed from one configuration to another, setting by setting.
pub open spec fn config_changes(before: ConfigModel, after: ConfigModel) -> Seq<Seq<char>> {
    feature_changes(
        limit_changes(first_changes(Seq::empty(), before, after), before, after),
        before,
        after,
    )
}

/// A truth value in words.
pub fn format_bool(value: bool) -> (result: String)
    ensures
        result@ == bool_text(value),
{
    if value {
        String::from_str("true")
    } else {
        String::from_str("false")
    }
}

fn format_option(value: &Option<String>) -> (result: String)
    ensures
        result@ == option_text(value.model()),
{
    match value {
        Some(value) => {
            let mut text = String::from_str("Some(");
            text.append(to_quoted(value.as_str()).as_str());
            text.append(")");
            text
        },
        None => String::from_str("None"),
    }
}

fn format_option_path(value: &Option<String>) -> (result: String)
    ensures
        result@ == option_path(value.model()),
{
    match value {
        Some(value) => {
            let mut text = String::from_str("Some(");
            text.append(to_quoted_path(value.as_str()).as_str());
            text.append(")");
            text
        },
        None => String::from_str("None"),
    }
}

fn note(changes: &mut Vec<String>, changed: bool, name: &str, before: String, after: String)
    ensures
        models(final(changes)@) == noted(
            models(old(changes)@),
            changed,
            name@,
            before@,
            after@,
        ),
{
    if changed {
        let mut text = String::from_str(name);
        text.append(": ");
        text.append(before.as_str());
        text.append(" -> ");
        text.append(after.as_str());
        changes.push(text);
    }
}

fn format_len(list: &Vec<IdentityHash>) -> (result: String)
    ensures
        result@ == "len="@ + decimal(list@.len()),
{
    let mut text = String::from_str("len=");
    text.append(to_decimal(list.len() as u128).as_str());
    text
}

fn same_identities(left: &Vec<IdentityHash>, right: &Vec<IdentityHash>) -> (result: bool)
    ensures
        result == (left@ == right@),
{
    if left.len() != right.len() {
        return false;
    }
    let mut i: usize = 0;
    while i < left.len()
        invariant
            i <= left@.len(),
            left@.len() == right@.len(),
            forall|j: int| 0 <= j < i ==> left@[j] == right@[j],
        decreases left@.len() - i,
    {
        if !left[i].same(&right[i]) {
            return false;
        }
        i += 1;
    }
    assert(left@ =~= right@);
    true
}

fn note_first(changes: &mut Vec<String>, former: &HubConfig, latter: &HubConfig)
    ensures
        models(final(changes)@) == first_changes(models(old(changes)@), former.model(), latter.model()),
{
    note(
        changes,
        !former.room_registry_path.same(&latter.room_registry_path),
        "room_registry_path",
        to_quoted_path(former.room_registry_path.as_str()),
        to_quoted_path(latter.room_registry_path.as_str()),
    );
    note(
        changes,
        !former.hub_name.same(&latter.hub_name),
        "hub_name",
        to_quoted(former.hub_name.as_str()),
        to_quoted(latter.hub_name.as_str()),
    );
    note(
        changes,
        !former.greeting.same(&latter.greeting),
        "greeting",
        format_option(&former.greeting),
        format_option(&latter.greeting),
    );
    note(
        changes,
        former.announce_on_start != latter.announce_on_start,
        "announce_on_start",
        format_bool(former.announce_on_start),
        format_bool(latter.announce_on_start),
    );
    note(
        changes,
        former.announce_period != latter.announce_period,
        "announce_period_s",
        to_seconds_pointed(former.announce_period),
        to_seconds_pointed(latter.announce_period),
    );
    note(
        changes,
        former.include_joined_member_list != latter.include_joined_member_list,
        "include_joined_member_list",
        format_bool(former.include_joined_member_list),
        format_bool(latter.include_joined_member_list),
    );
    note(
        changes,
        former.room_invite_timeout != latter.room_invite_timeout,
        "room_invite_timeout_s",
        to_seconds_pointed(former.room_invite_timeout),
        to_seconds_pointed(latter.room_invite_timeout),
    );
    note(
        changes,
        former.room_registry_prune_after != latter.room_registry_prune_after,
        "room_registry_prune_after_s",
        to_seconds_pointed(former.room_registry_prune_after),
        to_seconds_pointed(latter.room_registry_prune_after),
    );
}

fn note_limits(changes: &mut Vec<String>, former: &HubConfig, latter: &HubConfig)
    ensures
        models(final(changes)@) == limit_changes(models(old(changes)@), former.model(), latter.model()),
{
    note(
        changes,
        former.room_registry_prune_interval != latter.room_registry_prune_interval,
        "room_registry_prune_interval_s",
        to_seconds_pointed(former.room_registry_prune_interval),
        to_seconds_pointed(latter.room_registry_prune_interval),
    );
    note(
        changes,
        former.max_nick_bytes != latter.max_nick_bytes,
        "max_nick_bytes",
        to_decimal(former.max_nick_bytes as u128),
        to_decimal(latter.max_nick_bytes as u128),
    );
    note(
        changes,
        former.max_rooms_per_session != latter.max_rooms_per_session,
        "max_rooms_per_session",
        to_decimal(former.max_rooms_per_session as u128),
        to_decimal(latter.max_rooms_per_session as u128),
    );
    note(
        changes,
        former.max_room_name_bytes != latter.max_room_name_bytes,
        "max_room_name_bytes",
        to_decimal(former.max_room_name_bytes as u128),
        to_decimal(latter.max_room_name_bytes as u128),
    );
    note(
        changes,
        former.max_msg_body_bytes != latter.max_msg_body_bytes,
        "max_msg_body_bytes",
        to_decimal(former.max_msg_body_bytes as u128),
        to_decimal(latter.max_msg_body_bytes as u128),
    );
    note(
        changes,
        former.rate_limit_msgs_per_minute != latter.rate_limit_msgs_per_minute,
        "rate_limit_msgs_per_minute",
        to_decimal(former.rate_limit_msgs_per_minute as u128),
        to_decimal(latter.rate_limit_msgs_per_minute as u128),
    );
    note(
        changes,
        former.ping_interval != latter.ping_interval,
        "ping_interval_s",
        to_seconds_pointed(former.ping_interval),
        to_seconds_pointed(latter.ping_interval),
    );
    note(
        changes,
        former.ping_timeout != latter.ping_timeout,
        "ping_timeout_s",
        to_seconds_pointed(former.ping_timeout),
        to_seconds_pointed(latter.ping_timeout),
    );
}

fn note_features(changes: &mut Vec<String>, former: &HubConfig, latter: &HubConfig)
    ensures
        models(final(changes)@) == feature_changes(models(old(changes)@), former.model(), latter.model()),
{
    note(
        changes,
        former.enable_resource_transfer != latter.enable_resource_transfer,
        "enable_resource_transfer",
        format_bool(former.enable_resource_transfer),
        format_bool(latter.enable_resource_transfer),
    );
    note(
        changes,
        former.max_resource_bytes != latter.max_resource_bytes,
        "max_resource_bytes",
        to_decimal(former.max_resource_bytes as u128),
        to_decimal(latter.max_resource_bytes as u128),
    );
    note(
        changes,
        former.max_pending_resource_expectations != latter.max_pending_resource_expectations,
        "max_pending_resource_expectations",
        to_decimal(former.max_pending_resource_expectations as u128),
        to_decimal(latter.max_pending_resource_expectations as u128),
    );
    note(
        changes,
        former.resource_expectation_ttl != latter.resource_expectation_ttl,
        "resource_expectation_ttl_s",
        to_seconds_pointed(former.resource_expectation_ttl),
        to_seconds_pointed(latter.resource_expectation_ttl),
    );
    note(
        changes,
        !former.log_level.same(&latter.log_level),
        "log_level",
        to_quoted(former.log_level.as_str()),
        to_quoted(latter.log_level.as_str()),
    );
    note(
        changes,
        former.log_console != latter.log_console,
        "log_console",
        format_bool(former.log_console),
        format_bool(latter.log_console),
    );
    note(
        changes,
        !former.log_file.same(&latter.log_file),
        "log_file",
        format_option_path(&former.log_file),
        format_option_path(&latter.log_file),
    );
    note(
        changes,
        !same_identities(&former.trusted_identities, &latter.trusted_identities),
        "trusted_identities",
        format_len(&former.trusted_identities),
        format_len(&latter.trusted_identities),
    );
    note(
        changes,
        !same_identities(&former.banned_identities, &latter.banned_identities),
        "banned_identities",
        format_len(&former.banned_identities),
        format_len(&latter.banned_identities),
    );
}

/// What has changed from one configuration to another, setting by setting.
pub fn config_diff(before: &HubConfig, after: &HubConfig) -> (result: Vec<String>)
    ensures
        models(result@) == config_changes(before.model(), after.model()),
{
    let mut changes: Vec<String> = Vec::new();
    note_first(&mut changes, before, after);
    note_limits(&mut changes, before, after);
    note_features(&mut changes, before, after);
    changes
}

/// One setting of a file: its key, and a text or a list.
pub struct Setting {
    pub key: String,
    pub value: SettingValue,
}

pub enum SettingValue {
    Text(String),
    List(Vec<String>),
}

#[verifier::ext_equal]
pub struct SettingModel {
    pub key: Seq<char>,
    pub value: SettingValueModel,
}

#[verifier::ext_equal]
pub enum SettingValueModel {
    Text(Seq<char>),
    List(Seq<Seq<char>>),
}

impl Model for Setting {
    type M = SettingModel;

    open spec fn model(&self) -> SettingModel {
        SettingModel {
            key: self.key@,
            value: match self.value {
                SettingValue::Text(text) => SettingValueModel::Text(text@),
                SettingValue::List(items) => SettingValueModel::List(models(items@)),
            },
        }
    }
}

/// A setting with a text.
pub open spec fn text_setting(key: Seq<char>, text: Seq<char>) -> SettingModel {
    SettingModel { key, value: SettingValueModel::Text(text) }
}

/// A setting with a list.
pub open spec fn list_setting(key: Seq<char>, items: Seq<Seq<char>>) -> SettingModel {
    SettingModel { key, value: SettingValueModel::List(items) }
}

/// A setting with a text.
pub fn set_to(key: &str, text: &str) -> (result: Setting)
    ensures
        result.model() == text_setting(key@, text@),
{
    Setting { key: String::from_str(key), value: SettingValue::Text(String::from_str(text)) }
}

/// A setting with a list.
pub fn set_list(key: &str, items: Vec<String>) -> (result: Setting)
    ensures
        result.model() == list_setting(key@, models(items@)),
{
    Setting { key: String::from_str(key), value: SettingValue::List(items) }
}

/// The settings of the hub that a new configuration file holds.
pub open spec fn default_hub_settings() -> Seq<SettingModel> {
    seq![
        text_setting("configdir"@, ""@),
        text_setting("identity_path"@, "hub_identity"@),
        text_setting("room_registry_path"@, "rooms"@),
        text_setting("announce_on_start"@, "yes"@),
        text_setting("announce_period_s"@, "0"@),
        text_setting("hub_name"@, "rrc"@),
        text_setting("greeting"@, ""@),
        list_setting("trusted_identities"@, Seq::empty()),
        list_setting("banned_identities"@, Seq::empty()),
        text_setting("include_joined_member_list"@, "no"@),
        text_setting("room_invite_timeout_s"@, "900"@),
        text_setting("room_registry_prune_after_s"@, "2592000"@),
        text_setting("room_registry_prune_interval_s"@, "3600"@),
        text_setting("max_nick_bytes"@, "32"@),
        text_setting("max_room_name_bytes"@, "64"@),
        text_setting("max_msg_body_bytes"@, "350"@),
        text_setting("max_rooms_per_session"@, "32"@),
        text_setting("rate_limit_msgs_per_minute"@, "240"@),
        text_setting("ping_interval_s"@, "0"@),
        text_setting("ping_timeout_s"@, "0"@),
        text_setting("enable_resource_transfer"@, "yes"@),
        text_setting("max_resource_bytes"@, "262144"@),
        text_setting("max_pending_resource_expectations"@, "8"@),
        text_setting("resource_expectation_ttl_s"@, "30"@),
    ]
}

/// The settings of logging that a new configuration file holds.
pub open spec fn default_logging_settings() -> Seq<SettingModel> {
    seq![
        text_setting("level"@, "INFO"@),
        text_setting("console"@, "yes"@),
        text_setting("file"@, ""@),
    ]
}

/// The identities of a list in hexadecimal.
pub open spec fn hex_list(identities: Seq<IdentityHash>) -> Seq<Seq<char>> {
    Seq::new(identities.len(), |i: int| hexadecimal(identities[i]@))
}

impl HubConfig {
    /// What a new configuration file holds: the settings of the hub, and those of logging.
    pub fn write_default() -> (result: (Vec<Setting>, Vec<Setting>))
        ensures
            models(result.0@) == default_hub_settings(),
            models(result.1@) == default_logging_settings(),
    {
        let mut hub: Vec<Setting> = Vec::new();
        hub.push(set_to("configdir", ""));
        hub.push(set_to("identity_path", "hub_identity"));
        hub.push(set_to("room_registry_path", "rooms"));
        hub.push(set_to("announce_on_start", "yes"));
        hub.push(set_to("announce_period_s", "0"));
        hub.push(set_to("hub_name", "rrc"));
        hub.push(set_to("greeting", ""));
        hub.push(set_list("trusted_identities", Vec::new()));
        hub.push(set_list("banned_identities", Vec::new()));
        hub.push(set_to("include_joined_member_list", "no"));
        hub.push(set_to("room_invite_timeout_s", "900"));
        hub.push(set_to("room_registry_prune_after_s", "2592000"));
        hub.push(set_to("room_registry_prune_interval_s", "3600"));
        hub.push(set_to("max_nick_bytes", "32"));
        hub.push(set_to("max_room_name_bytes", "64"));
        hub.push(set_to("max_msg_body_bytes", "350"));
        hub.push(set_to("max_rooms_per_session", "32"));
        hub.push(set_to("rate_limit_msgs_per_minute", "240"));
        hub.push(set_to("ping_interval_s", "0"));
        hub.push(set_to("ping_timeout_s", "0"));
        hub.push(set_to("enable_resource_transfer", "yes"));
        hub.push(set_to("max_resource_bytes", "262144"));
        hub.push(set_to("max_pending_resource_expectations", "8"));
        hub.push(set_to("resource_expectation_ttl_s", "30"));
        assert(models(hub@) =~= default_hub_settings());
        let mut logging: Vec<Setting> = Vec::new();
        logging.push(set_to("level", "INFO"));
        logging.push(set_to("console", "yes"));
        logging.push(set_to("file", ""));
        assert(models(logging@) =~= default_logging_settings());
        (hub, logging)
    }

    /// The setting that the banned identities are saved in.
    pub fn save_banned_identities(&self) -> (result: Setting)
        ensures
            result.model() == list_setting(
                "banned_identities"@,
                hex_list(self.model().banned_identities),
            ),
    {
        let ghost all = hex_list(self.banned_identities@);
        let mut items: Vec<String> = Vec::new();
        let mut i: usize = 0;
        while i < self.banned_identities.len()
            invariant
                i <= self.banned_identities@.len(),
                all == hex_list(self.banned_identities@),
                models(items@) == all.take(i as int),
            decreases self.banned_identities@.len() - i,
        {
            items.push(to_hexadecimal(self.banned_identities[i].as_slice()));
            i += 1;
            assert(models(items@) =~= all.take(i as int));
        }
        assert(models(items@) =~= all);
        set_list("banned_identities", items)
    }
}

/// A number of seconds on the command line: a span of time, or a number that is negative or not
/// finite.
#[derive(Clone, Copy, Debug)]
pub enum Span {
    Time(Nanos),
    Invalid,
}

/// What the command line sets instead of the configuration file.
pub struct Overrides {
    pub rns_config_dir: Option<String>,
    pub default_rns_config_dir: String,
    pub identity_path: Option<String>,
    pub room_registry_path: Option<String>,
    pub no_announce: bool,
    pub announce_period: Option<Span>,
    pub hub_name: Option<String>,
    pub greeting: Option<String>,
    pub include_joined_member_list: bool,
    pub max_rooms_per_session: Option<usize>,
    pub max_nick_bytes: Option<usize>,
    pub max_room_name_bytes: Option<usize>,
    pub max_msg_body_bytes: Option<usize>,
    pub rate_limit_msgs_per_minute: Option<u32>,
    pub ping_interval: Option<Span>,
    pub ping_timeout: Option<Span>,
    pub log_level: Option<String>,
    pub log_file: Option<String>,
}

/// A span of time on the command line that is none, or a limit that is zero.
#[derive(Debug, PartialEq)]
pub enum OverrideError {
    AnnouncePeriod,
    MaxRooms,
    MaxNickBytes,
    MaxRoomNameBytes,
    MaxMsgBodyBytes,
    RateLimit,
    PingInterval,
    PingTimeout,
}

impl OverrideError {
    /// The error in words.
    pub fn message(&self) -> (result: String)
        ensures
            result@ == override_error_text(*self),
    {
        match self {
            OverrideError::AnnouncePeriod => String::from_str("invalid announce period"),
            OverrideError::MaxRooms => String::from_str("max rooms must be positive"),
            OverrideError::MaxNickBytes => String::from_str("max nick bytes must be positive"),
            OverrideError::MaxRoomNameBytes => {
                String::from_str("max room name bytes must be positive")
            },
            OverrideError::MaxMsgBodyBytes => {
                String::from_str("max message body bytes must be positive")
            },
            OverrideError::RateLimit => String::from_str("rate limit must be positive"),
            OverrideError::PingInterval => String::from_str("invalid ping interval"),
            OverrideError::PingTimeout => String::from_str("invalid ping timeout"),
        }
    }
}

/// The error in words.
pub open spec fn override_error_text(error: OverrideError) -> Seq<char> {
    match error {
        OverrideError::AnnouncePeriod => "invalid announce period"@,
        OverrideError::MaxRooms => "max rooms must be positive"@,
        OverrideError::MaxNickBytes => "max nick bytes must be positive"@,
        OverrideError::MaxRoomNameBytes => "max room name bytes must be positive"@,
        OverrideError::MaxMsgBodyBytes => "max message body bytes must be positive"@,
        OverrideError::RateLimit => "rate limit must be positive"@,
        OverrideError::PingInterval => "invalid ping interval"@,
        OverrideError::PingTimeout => "invalid ping timeout"@,
    }
}

/// The first thing on the command line that is refused.
pub open spec fn override_flaw(overrides: Overrides) -> Option<OverrideError> {
    if overrides.announce_period == Some(Span::Invalid) {
        Some(OverrideError::AnnouncePeriod)
    } else if overrides.max_rooms_per_session == Some(0usize) {
        Some(OverrideError::MaxRooms)
    } else if overrides.max_nick_bytes == Some(0usize) {
        Some(OverrideError::MaxNickBytes)
    } else if overrides.max_room_name_bytes == Some(0usize) {
        Some(OverrideError::MaxRoomNameBytes)
    } else if overrides.max_msg_body_bytes == Some(0usize) {
        Some(OverrideError::MaxMsgBodyBytes)
    } else if overrides.rate_limit_msgs_per_minute == Some(0u32) {
        Some(OverrideError::RateLimit)
    } else if overrides.ping_interval == Some(Span::Invalid) {
        Some(OverrideError::PingInterval)
    } else if overrides.ping_timeout == Some(Span::Invalid) {
        Some(OverrideError::PingTimeout)
    } else {
        None
    }
}

/// The span of time on the command line, where there is one, or else that of the configuration.
pub open spec fn span_or(value: Option<Span>, own: Nanos) -> Nanos {
    match value {
        Some(Span::Time(time)) => time,
        _ => own,
    }
}

/// A configuration with what the command line sets.
pub open spec fn overridden(config: ConfigModel, overrides: Overrides) -> ConfigModel {
    ConfigModel {
        rns_config_dir: Some(
            value_or(
                overrides.rns_config_dir.model(),
                value_or(config.rns_config_dir, overrides.default_rns_config_dir@),
            ),
        ),
        identity_path: value_or(overrides.identity_path.model(), config.identity_path),
        room_registry_path: value_or(
            overrides.room_registry_path.model(),
            config.room_registry_path,
        ),
        announce_on_start: config.announce_on_start && !overrides.no_announce,
        announce_period: span_or(overrides.announce_period, config.announce_period),
        hub_name: value_or(overrides.hub_name.model(), config.hub_name),
        greeting: match overrides.greeting.model() {
            Some(text) => filled(Some(text)),
            None => config.greeting,
        },
        include_joined_member_list: config.include_joined_member_list
            || overrides.include_joined_member_list,
        max_rooms_per_session: value_or(
            overrides.max_rooms_per_session,
            config.max_rooms_per_session,
        ),
        max_nick_bytes: value_or(overrides.max_nick_bytes, config.max_nick_bytes),
        max_room_name_bytes: value_or(overrides.max_room_name_bytes, config.max_room_name_bytes),
        max_msg_body_bytes: value_or(overrides.max_msg_body_bytes, config.max_msg_body_bytes),
        rate_limit_msgs_per_minute: value_or(
            overrides.rate_limit_msgs_per_minute,
            config.rate_limit_msgs_per_minute,
        ),
        ping_interval: span_or(overrides.ping_interval, config.ping_interval),
        ping_timeout: span_or(overrides.ping_timeout, config.ping_timeout),
        log_level: value_or(overrides.log_level.model(), config.log_level),
        log_file: match overrides.log_file.model() {
            Some(text) => filled(Some(text)),
            None => config.log_file,
        },
        ..config
    }
}

fn text_or_own(value: Option<String>, own: String) -> (result: String)
    ensures
        result@ == value_or(value.model(), own@),
{
    match value {
        Some(value) => value,
        None => own,
    }
}

fn count_or_own(value: Option<usize>, own: usize) -> (result: usize)
    ensures
        result == value_or(value, own),
{
    match value {
        Some(value) => value,
        None => own,
    }
}

fn is_invalid(value: Option<Span>) -> (result: bool)
    ensures
        result == (value == Some(Span::Invalid)),
{
    match value {
        Some(Span::Invalid) => true,
        _ => false,
    }
}

fn span_or_own(value: Option<Span>, own: Nanos) -> (result: Nanos)
    ensures
        result == span_or(value, own),
{
    match value {
        Some(Span::Time(time)) => time,
        _ => own,
    }
}

fn is_zero(value: Option<usize>) -> (result: bool)
    ensures
        result == (value == Some(0usize)),
{
    match value {
        Some(value) => value == 0,
        None => false,
    }
}

impl HubConfig {
    /// The configuration with what the command line sets. A limit of zero is refused, and a span of
    /// time that is negative or not finite.
    pub fn with_overrides(self, overrides: Overrides) -> (result: Result<HubConfig, OverrideError>)
        ensures
            match result {
                Ok(config) => override_flaw(overrides) is None && config.model() == overridden(
                    self.model(),
                    overrides,
                ),
                Err(error) => override_flaw(overrides) == Some(error),
            },
    {
        if is_invalid(overrides.announce_period) {
            return Err(OverrideError::AnnouncePeriod);
        }
        if is_zero(overrides.max_rooms_per_session) {
            return Err(OverrideError::MaxRooms);
        }
        if is_zero(overrides.max_nick_bytes) {
            return Err(OverrideError::MaxNickBytes);
        }
        if is_zero(overrides.max_room_name_bytes) {
            return Err(OverrideError::MaxRoomNameBytes);
        }
        if is_zero(overrides.max_msg_body_bytes) {
            return Err(OverrideError::MaxMsgBodyBytes);
        }
        let rate_limit_msgs_per_minute: u32 = match overrides.rate_limit_msgs_per_minute {
            Some(rate) => if rate == 0 {
                return Err(OverrideError::RateLimit);
            } else {
                rate
            },
            None => self.rate_limit_msgs_per_minute,
        };
        if is_invalid(overrides.ping_interval) {
            return Err(OverrideError::PingInterval);
        }
        if is_invalid(overrides.ping_timeout) {
            return Err(OverrideError::PingTimeout);
        }
        let fallback = match self.rns_config_dir {
            Some(dir) => dir,
            None => overrides.default_rns_config_dir,
        };
        Ok(
            HubConfig {
                config_path: self.config_path,
                identity_path: text_or_own(overrides.identity_path, self.identity_path),
                room_registry_path: text_or_own(
                    overrides.room_registry_path,
                    self.room_registry_path,
                ),
                rns_config_dir: Some(text_or_own(overrides.rns_config_dir, fallback)),
                hub_name: text_or_own(overrides.hub_name, self.hub_name),
                greeting: match overrides.greeting {
                    Some(text) => nonempty(Some(text)),
                    None => self.greeting,
                },
                announce_on_start: self.announce_on_start && !overrides.no_announce,
                announce_period: span_or_own(overrides.announce_period, self.announce_period),
                include_joined_member_list: self.include_joined_member_list
                    || overrides.include_joined_member_list,
                room_invite_timeout: self.room_invite_timeout,
                room_registry_prune_after: self.room_registry_prune_after,
                room_registry_prune_interval: self.room_registry_prune_interval,
                max_nick_bytes: count_or_own(overrides.max_nick_bytes, self.max_nick_bytes),
                max_rooms_per_session: count_or_own(
                    overrides.max_rooms_per_session,
                    self.max_rooms_per_session,
                ),
                max_room_name_bytes: count_or_own(
                    overrides.max_room_name_bytes,
                    self.max_room_name_bytes,
                ),
                max_msg_body_bytes: count_or_own(
                    overrides.max_msg_body_bytes,
                    self.max_msg_body_bytes,
                ),
                rate_limit_msgs_per_minute,
                ping_interval: span_or_own(overrides.ping_interval, self.ping_interval),
                ping_timeout: span_or_own(overrides.ping_timeout, self.ping_timeout),
                enable_resource_transfer: self.enable_resource_transfer,
                max_resource_bytes: self.max_resource_bytes,
                max_pending_resource_expectations: self.max_pending_resource_expectations,
                resource_expectation_ttl: self.resource_expectation_ttl,
                trusted_identities: self.trusted_identities,
                banned_identities: self.banned_identities,
                log_level: text_or_own(overrides.log_level, self.log_level),
                log_console: self.log_console,
                log_file: match overrides.log_file {
                    Some(text) => nonempty(Some(text)),
                    None => self.log_file,
                },
            },
        )
    }

    /// The logging level to start with: what the configuration says, or more where the command
    /// line asks for it.
    pub fn logging_level(&self, verbose: u8) -> (result: String)
        ensures
            result@ == if verbose == 0 {
                lowercase(self.model().log_level)
            } else if verbose == 1 {
                "debug"@
            } else {
                "trace"@
            },
    {
        if verbose == 0 {
            to_lowercase(self.log_level.as_str())
        } else if verbose == 1 {
            String::from_str("debug")
        } else {
            String::from_str("trace")
        }
    }
}

/// What an announcement of the hub carries.
pub open spec fn announcement(hub_name: Seq<char>) -> Map<CborKey, Cbor> {
    Map::empty().insert(CborKey::Text("proto"@), Cbor::Text("rrc"@)).insert(
        CborKey::Text("v"@),
        Cbor::Integer(1),
    ).insert(CborKey::Text("hub"@), Cbor::Text(hub_name))
}

impl HubConfig {
    /// The data that an announcement of the hub carries.
    pub fn announce_data(&self) -> (result: Vec<u8>)
        ensures
            cbor_encoded(Cbor::Fields(announcement(self.model().hub_name))) == Some(result@),
            cbor_decoded(result@) == Some(Cbor::Fields(announcement(self.model().hub_name))),
    {
        let mut fields = Fields::new();
        fields.insert(
            FieldKey::Text(String::from_str("proto")),
            Datum::Text(String::from_str("rrc")),
        );
        fields.insert(FieldKey::Text(String::from_str("v")), Datum::Integer(1));
        fields.insert(
            FieldKey::Text(String::from_str("hub")),
            Datum::Text(self.hub_name.clone()),
        );
        proof {
            broadcast use crate::cbor::lemma_scalar;

            let map = announcement(self.hub_name@);
            assert forall|key: CborKey| #[trigger] map.dom().contains(key) implies plain_key(key)
                && writable(map[key]) && plain(map[key], 0) by {
                assert(scalar(map[key]));
            }
            lemma_plain_map(map, 0);
            lemma_plain_deeper(Cbor::Fields(map), 1, max_depth());
        }
        match fields.encode() {
            Some(bytes) => bytes,
            None => Vec::new(),
        }
    }
}

} // verus!
