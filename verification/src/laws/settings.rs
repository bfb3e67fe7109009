//! The configuration: what is taken over from the settings, what stands in for the rest, and what
//! is told of changes.

use crate::collections::{group_collections, group_sequences, models, Model};
use crate::config::{
    bool_text, config_changes, configured, hash_of, hashes_of, option_path, option_text,
    overridden, override_flaw, placed, ConfigModel, OverrideError, Overrides, Settings, Span,
};
use crate::clock::seconds_pointed;
use crate::text::{decimal, quoted, quoted_path, trimmed};
use vstd::prelude::*;

verus! {

broadcast use {group_collections, group_sequences};

/// A path is placed under a directory, unless it begins at the root.
pub proof fn law_places(base: Seq<char>, path: Seq<char>)
    ensures
        path.len() > 0 && path[0] == '/' ==> placed(base, path) == path,
        !(path.len() > 0 && path[0] == '/') && base.len() > 0 && base.last() != '/' ==> placed(
            base,
            path,
        ) == base + seq!['/'] + path,
        !(path.len() > 0 && path[0] == '/') && (base.len() == 0 || base.last() == '/') ==> placed(
            base,
            path,
        ) == base + path,
{
    reveal_strlit("/");
    assert("/"@ =~= seq!['/']);
}

/// A list of identities is read one by one, in order; the first entry that is none is what is wrong
/// with it.
pub proof fn law_identity_lists(entries: Seq<Seq<char>>)
    ensures
        match hashes_of(entries) {
            Ok(hashes) => {
                &&& hashes.len() == entries.len()
                &&& forall|i: int|
                    0 <= i < entries.len() ==> hash_of(#[trigger] entries[i]) == Some(hashes[i])
            },
            Err(entry) => exists|i: int|
                {
                    &&& 0 <= i < entries.len()
                    &&& #[trigger] entries[i] == entry
                    &&& hash_of(entry) is None
                    &&& forall|j: int| 0 <= j < i ==> hash_of(#[trigger] entries[j]) is Some
                },
        },
    decreases entries.len(),
{
    if entries.len() > 0 {
        let rest = entries.drop_last();
        law_identity_lists(rest);
        match hashes_of(rest) {
            Ok(hashes) => {
                assert forall|i: int| 0 <= i < rest.len() implies hash_of(#[trigger] entries[i])
                    == Some(hashes[i]) by {
                    assert(rest[i] == entries[i]);
                }
                assert(entries[entries.len() - 1] == entries.last());
            },
            Err(entry) => {
                let i = choose|i: int|
                    {
                        &&& 0 <= i < rest.len()
                        &&& #[trigger] rest[i] == entry
                        &&& hash_of(entry) is None
                        &&& forall|j: int| 0 <= j < i ==> hash_of(#[trigger] rest[j]) is Some
                    };
                assert(entries[i] == entry);
                assert forall|j: int| 0 <= j < i implies hash_of(#[trigger] entries[j]) is Some by {
                    assert(rest[j] == entries[j]);
                }
            },
        }
    }
}

/// A configuration is refused for an entry of one of its lists that is no identity, those who are
/// trusted first, and for nothing else. One that is taken has the lists as they were given.
pub proof fn law_configuration_lists(path: Seq<char>, base: Seq<char>, settings: Settings)
    ensures
        ({
            let result = configured(path, base, settings);
            let trusted = hashes_of(models(settings.trusted_identities@));
            let banned = hashes_of(models(settings.banned_identities@));
            &&& (result is Ok) == (trusted is Ok && banned is Ok)
            &&& trusted is Err ==> result->Err_0.list == "trusted_identities"@
                && result->Err_0.entry == trusted->Err_0
            &&& trusted is Ok && banned is Err ==> result->Err_0.list == "banned_identities"@
                && result->Err_0.entry == banned->Err_0
            &&& result is Ok ==> result->Ok_0.trusted_identities == trusted->Ok_0
                && result->Ok_0.banned_identities == banned->Ok_0
        }),
{
}

/// What is set is what holds; numbers are to be positive and to fit. An empty greeting is none, and
/// neither is a directory or a file of white space.
pub proof fn law_settings_hold(path: Seq<char>, base: Seq<char>, settings: Settings)
    requires
        configured(path, base, settings) is Ok,
    ensures
        ({
            let config = configured(path, base, settings)->Ok_0;
            &&& config.config_path == path
            &&& settings.identity_path is Some ==> config.identity_path == placed(
                base,
                settings.identity_path->0@,
            )
            &&& settings.room_registry_path is Some ==> config.room_registry_path == placed(
                base,
                settings.room_registry_path->0@,
            )
            &&& settings.configdir is Some ==> config.rns_config_dir == if trimmed(
                settings.configdir->0@,
            ).len() == 0 {
                None
            } else {
                Some(settings.configdir->0@)
            }
            &&& settings.greeting is Some ==> config.greeting == if settings.greeting->0@.len()
                == 0 {
                None
            } else {
                Some(settings.greeting->0@)
            }
            &&& settings.log_file is Some ==> config.log_file == if trimmed(
                settings.log_file->0@,
            ).len() == 0 {
                None
            } else {
                Some(placed(base, settings.log_file->0@))
            }
            &&& settings.hub_name is Some ==> config.hub_name == settings.hub_name->0@
            &&& settings.log_level is Some ==> config.log_level == settings.log_level->0@
            &&& settings.announce_on_start is Some ==> config.announce_on_start
                == settings.announce_on_start->0
            &&& settings.announce_period is Some ==> config.announce_period
                == settings.announce_period->0
            &&& settings.include_joined_member_list is Some ==> config.include_joined_member_list
                == settings.include_joined_member_list->0
            &&& settings.room_invite_timeout is Some ==> config.room_invite_timeout
                == settings.room_invite_timeout->0
            &&& settings.room_registry_prune_after is Some ==> config.room_registry_prune_after
                == settings.room_registry_prune_after->0
            &&& settings.room_registry_prune_interval is Some ==> config.room_registry_prune_interval
                == settings.room_registry_prune_interval->0
            &&& settings.ping_interval is Some ==> config.ping_interval
                == settings.ping_interval->0
            &&& settings.ping_timeout is Some ==> config.ping_timeout
                == settings.ping_timeout->0
            &&& settings.enable_resource_transfer is Some ==> config.enable_resource_transfer
                == settings.enable_resource_transfer->0
            &&& settings.resource_expectation_ttl is Some ==> config.resource_expectation_ttl
                == settings.resource_expectation_ttl->0
            &&& settings.log_console is Some ==> config.log_console
                == settings.log_console->0
            &&& settings.max_nick_bytes is Some && 0 < settings.max_nick_bytes->0 <= usize::MAX
                ==> config.max_nick_bytes == settings.max_nick_bytes->0
            &&& settings.max_rooms_per_session is Some && 0 < settings.max_rooms_per_session->0 <= usize::MAX
                ==> config.max_rooms_per_session == settings.max_rooms_per_session->0
            &&& settings.max_room_name_bytes is Some && 0 < settings.max_room_name_bytes->0 <= usize::MAX
                ==> config.max_room_name_bytes == settings.max_room_name_bytes->0
            &&& settings.max_msg_body_bytes is Some && 0 < settings.max_msg_body_bytes->0 <= usize::MAX
                ==> config.max_msg_body_bytes == settings.max_msg_body_bytes->0
            &&& settings.max_resource_bytes is Some && 0 < settings.max_resource_bytes->0 <= usize::MAX
                ==> config.max_resource_bytes == settings.max_resource_bytes->0
            &&& settings.max_pending_resource_expectations is Some && 0 < settings.max_pending_resource_expectations->0 <= usize::MAX
                ==> config.max_pending_resource_expectations == settings.max_pending_resource_expectations->0
            &&& settings.rate_limit_msgs_per_minute is Some && 0
                < settings.rate_limit_msgs_per_minute->0 <= u32::MAX
                ==> config.rate_limit_msgs_per_minute == settings.rate_limit_msgs_per_minute->0
        }),
{
}

/// What stands where nothing is set: times in nanoseconds, sizes in bytes.
pub proof fn law_defaults_hold(path: Seq<char>, base: Seq<char>, settings: Settings)
    requires
        configured(path, base, settings) is Ok,
    ensures
        ({
            let config = configured(path, base, settings)->Ok_0;
            let second = 1_000_000_000int;
            &&& settings.identity_path is None ==> config.identity_path == placed(
                base,
                "hub_identity"@,
            )
            &&& settings.room_registry_path is None ==> config.room_registry_path == placed(
                base,
                "rooms"@,
            )
            &&& settings.configdir is None ==> config.rns_config_dir is None
            &&& settings.hub_name is None ==> config.hub_name == "rrc"@
            &&& settings.greeting is None ==> config.greeting is None
            &&& settings.log_level is None ==> config.log_level == "INFO"@
            &&& settings.log_file is None ==> config.log_file is None
            &&& settings.announce_on_start is None ==> config.announce_on_start
            &&& settings.log_console is None ==> config.log_console
            &&& settings.enable_resource_transfer is None ==> config.enable_resource_transfer
            &&& settings.include_joined_member_list is None
                ==> !config.include_joined_member_list
            &&& settings.announce_period is None ==> config.announce_period == 0
            &&& settings.ping_interval is None ==> config.ping_interval == 0
            &&& settings.ping_timeout is None ==> config.ping_timeout == 0
            &&& settings.room_invite_timeout is None ==> config.room_invite_timeout == 15 * 60
                * second
            &&& settings.room_registry_prune_after is None ==> config.room_registry_prune_after
                == 30 * 24 * 60 * 60 * second
            &&& settings.room_registry_prune_interval is None
                ==> config.room_registry_prune_interval == 60 * 60 * second
            &&& settings.resource_expectation_ttl is None ==> config.resource_expectation_ttl == 30
                * second
            &&& settings.max_nick_bytes is None ==> config.max_nick_bytes == 32
            &&& settings.max_rooms_per_session is None ==> config.max_rooms_per_session == 32
            &&& settings.max_room_name_bytes is None ==> config.max_room_name_bytes == 64
            &&& settings.max_msg_body_bytes is None ==> config.max_msg_body_bytes == 350
            &&& settings.max_resource_bytes is None ==> config.max_resource_bytes == 256 * 1024
            &&& settings.max_pending_resource_expectations is None
                ==> config.max_pending_resource_expectations == 8
            &&& settings.rate_limit_msgs_per_minute is None
                ==> config.rate_limit_msgs_per_minute == 240
        }),
{
}

/// A number that is zero is as good as none.
pub proof fn law_zero_is_none(
    path: Seq<char>,
    base: Seq<char>,
    settings: Settings,
    without: Settings,
)
    requires
        without == (Settings {
            max_nick_bytes: if settings.max_nick_bytes == Some(0u64) {
                None
            } else {
                settings.max_nick_bytes
            },
            max_rooms_per_session: if settings.max_rooms_per_session == Some(0u64) {
                None
            } else {
                settings.max_rooms_per_session
            },
            max_room_name_bytes: if settings.max_room_name_bytes == Some(0u64) {
                None
            } else {
                settings.max_room_name_bytes
            },
            max_msg_body_bytes: if settings.max_msg_body_bytes == Some(0u64) {
                None
            } else {
                settings.max_msg_body_bytes
            },
            max_resource_bytes: if settings.max_resource_bytes == Some(0u64) {
                None
            } else {
                settings.max_resource_bytes
            },
            max_pending_resource_expectations: if settings.max_pending_resource_expectations == Some(0u64) {
                None
            } else {
                settings.max_pending_resource_expectations
            },
            rate_limit_msgs_per_minute: if settings.rate_limit_msgs_per_minute == Some(0u64) {
                None
            } else {
                settings.rate_limit_msgs_per_minute
            },
            ..settings
        }),
    ensures
        configured(path, base, without) == configured(path, base, settings),
{
}

/// What the command line sets goes before what is configured, and what it leaves out stays as it
/// is. Announcing can be switched off there and member lists on, but not the other way.
pub proof fn law_overrides_hold(config: ConfigModel, overrides: Overrides)
    ensures
        ({
            let after = overridden(config, overrides);
            &&& after.identity_path == if overrides.identity_path is Some {
                overrides.identity_path->0@
            } else {
                config.identity_path
            }
            &&& after.room_registry_path == if overrides.room_registry_path is Some {
                overrides.room_registry_path->0@
            } else {
                config.room_registry_path
            }
            &&& after.hub_name == if overrides.hub_name is Some {
                overrides.hub_name->0@
            } else {
                config.hub_name
            }
            &&& after.log_level == if overrides.log_level is Some {
                overrides.log_level->0@
            } else {
                config.log_level
            }
            &&& after.max_rooms_per_session == if overrides.max_rooms_per_session is Some {
                overrides.max_rooms_per_session->0
            } else {
                config.max_rooms_per_session
            }
            &&& after.max_nick_bytes == if overrides.max_nick_bytes is Some {
                overrides.max_nick_bytes->0
            } else {
                config.max_nick_bytes
            }
            &&& after.max_room_name_bytes == if overrides.max_room_name_bytes is Some {
                overrides.max_room_name_bytes->0
            } else {
                config.max_room_name_bytes
            }
            &&& after.max_msg_body_bytes == if overrides.max_msg_body_bytes is Some {
                overrides.max_msg_body_bytes->0
            } else {
                config.max_msg_body_bytes
            }
            &&& after.rate_limit_msgs_per_minute == if overrides.rate_limit_msgs_per_minute is Some {
                overrides.rate_limit_msgs_per_minute->0
            } else {
                config.rate_limit_msgs_per_minute
            }
            &&& after.announce_period == match overrides.announce_period {
                Some(Span::Time(time)) => time,
                _ => config.announce_period,
            }
            &&& after.ping_interval == match overrides.ping_interval {
                Some(Span::Time(time)) => time,
                _ => config.ping_interval,
            }
            &&& after.ping_timeout == match overrides.ping_timeout {
                Some(Span::Time(time)) => time,
                _ => config.ping_timeout,
            }
            &&& after.greeting == if overrides.greeting is None {
                config.greeting
            } else if overrides.greeting->0@.len() == 0 {
                None
            } else {
                Some(overrides.greeting->0@)
            }
            &&& after.log_file == if overrides.log_file is None {
                config.log_file
            } else if overrides.log_file->0@.len() == 0 {
                None
            } else {
                Some(overrides.log_file->0@)
            }
            &&& after.rns_config_dir == Some(
                if overrides.rns_config_dir is Some {
                    overrides.rns_config_dir->0@
                } else if config.rns_config_dir is Some {
                    config.rns_config_dir->0
                } else {
                    overrides.default_rns_config_dir@
                },
            )
            &&& after.announce_on_start == (config.announce_on_start && !overrides.no_announce)
            &&& after.include_joined_member_list == (config.include_joined_member_list
                || overrides.include_joined_member_list)
            &&& after == ConfigModel {
                config_path: config.config_path,
                room_invite_timeout: config.room_invite_timeout,
                room_registry_prune_after: config.room_registry_prune_after,
                room_registry_prune_interval: config.room_registry_prune_interval,
                enable_resource_transfer: config.enable_resource_transfer,
                max_resource_bytes: config.max_resource_bytes,
                max_pending_resource_expectations: config.max_pending_resource_expectations,
                resource_expectation_ttl: config.resource_expectation_ttl,
                trusted_identities: config.trusted_identities,
                banned_identities: config.banned_identities,
                log_console: config.log_console,
                ..after
            }
        }),
{
}

/// The command line is refused for a limit of zero or a time that is none, and for nothing else.
pub proof fn law_override_flaws(overrides: Overrides)
    ensures
        override_flaw(overrides) is None == !(overrides.max_rooms_per_session == Some(0usize)
            || overrides.max_nick_bytes == Some(0usize) || overrides.max_room_name_bytes == Some(
            0usize,
        ) || overrides.max_msg_body_bytes == Some(0usize) || overrides.rate_limit_msgs_per_minute
            == Some(0u32) || overrides.announce_period == Some(Span::Invalid)
            || overrides.ping_interval == Some(Span::Invalid) || overrides.ping_timeout == Some(
            Span::Invalid,
        )),
        match override_flaw(overrides) {
            None => true,
            Some(OverrideError::AnnouncePeriod) => overrides.announce_period == Some(
                Span::Invalid,
            ),
            Some(OverrideError::MaxRooms) => overrides.max_rooms_per_session == Some(0usize),
            Some(OverrideError::MaxNickBytes) => overrides.max_nick_bytes == Some(0usize),
            Some(OverrideError::MaxRoomNameBytes) => overrides.max_room_name_bytes == Some(0usize),
            Some(OverrideError::MaxMsgBodyBytes) => overrides.max_msg_body_bytes == Some(0usize),
            Some(OverrideError::RateLimit) => overrides.rate_limit_msgs_per_minute == Some(0u32),
            Some(OverrideError::PingInterval) => overrides.ping_interval == Some(Span::Invalid),
            Some(OverrideError::PingTimeout) => overrides.ping_timeout == Some(Span::Invalid),
        },
{
}

/// Nothing is told where nothing has changed that is told of.
#[verifier::rlimit(40)]
pub proof fn law_no_change_is_told(former: ConfigModel, latter: ConfigModel)
    ensures
        (config_changes(former, latter).len() == 0) == ({
            &&& former.room_registry_path == latter.room_registry_path
            &&& former.hub_name == latter.hub_name
            &&& former.greeting == latter.greeting
            &&& former.announce_on_start == latter.announce_on_start
            &&& former.announce_period == latter.announce_period
            &&& former.include_joined_member_list == latter.include_joined_member_list
            &&& former.room_invite_timeout == latter.room_invite_timeout
            &&& former.room_registry_prune_after == latter.room_registry_prune_after
            &&& former.room_registry_prune_interval == latter.room_registry_prune_interval
            &&& former.max_nick_bytes == latter.max_nick_bytes
            &&& former.max_rooms_per_session == latter.max_rooms_per_session
            &&& former.max_room_name_bytes == latter.max_room_name_bytes
            &&& former.max_msg_body_bytes == latter.max_msg_body_bytes
            &&& former.rate_limit_msgs_per_minute == latter.rate_limit_msgs_per_minute
            &&& former.ping_interval == latter.ping_interval
            &&& former.ping_timeout == latter.ping_timeout
            &&& former.enable_resource_transfer == latter.enable_resource_transfer
            &&& former.max_resource_bytes == latter.max_resource_bytes
            &&& former.max_pending_resource_expectations == latter.max_pending_resource_expectations
            &&& former.resource_expectation_ttl == latter.resource_expectation_ttl
            &&& former.log_level == latter.log_level
            &&& former.log_console == latter.log_console
            &&& former.log_file == latter.log_file
            &&& former.trusted_identities == latter.trusted_identities
            &&& former.banned_identities == latter.banned_identities
        }),
{
}

/// A single change is told by its name, with what was and what is: rooms and announcements.
#[verifier::rlimit(40)]
pub proof fn law_changes_of_rooms_are_told(former: ConfigModel, latter: ConfigModel)
    ensures
        former.room_registry_path != latter.room_registry_path && latter == (ConfigModel {
            room_registry_path: latter.room_registry_path,
            ..former
        }) ==> config_changes(former, latter) == seq![
            "room_registry_path"@ + ": "@ + (quoted_path(former.room_registry_path)) + " -> "@ + (quoted_path(latter.room_registry_path)),
        ],
        former.hub_name != latter.hub_name && latter == (ConfigModel {
            hub_name: latter.hub_name,
            ..former
        }) ==> config_changes(former, latter) == seq![
            "hub_name"@ + ": "@ + (quoted(former.hub_name)) + " -> "@ + (quoted(latter.hub_name)),
        ],
        former.greeting != latter.greeting && latter == (ConfigModel {
            greeting: latter.greeting,
            ..former
        }) ==> config_changes(former, latter) == seq![
            "greeting"@ + ": "@ + (option_text(former.greeting)) + " -> "@ + (option_text(latter.greeting)),
        ],
        former.announce_on_start != latter.announce_on_start && latter == (ConfigModel {
            announce_on_start: latter.announce_on_start,
            ..former
        }) ==> config_changes(former, latter) == seq![
            "announce_on_start"@ + ": "@ + (bool_text(former.announce_on_start)) + " -> "@ + (bool_text(latter.announce_on_start)),
        ],
        former.announce_period != latter.announce_period && latter == (ConfigModel {
            announce_period: latter.announce_period,
            ..former
        }) ==> config_changes(former, latter) == seq![
            "announce_period_s"@ + ": "@ + (seconds_pointed(former.announce_period as nat)) + " -> "@ + (seconds_pointed(latter.announce_period as nat)),
        ],
        former.include_joined_member_list != latter.include_joined_member_list && latter == (ConfigModel {
            include_joined_member_list: latter.include_joined_member_list,
            ..former
        }) ==> config_changes(former, latter) == seq![
            "include_joined_member_list"@ + ": "@ + (bool_text(former.include_joined_member_list)) + " -> "@ + (bool_text(latter.include_joined_member_list)),
        ],
        former.room_invite_timeout != latter.room_invite_timeout && latter == (ConfigModel {
            room_invite_timeout: latter.room_invite_timeout,
            ..former
        }) ==> config_changes(former, latter) == seq![
            "room_invite_timeout_s"@ + ": "@ + (seconds_pointed(former.room_invite_timeout as nat)) + " -> "@ + (seconds_pointed(latter.room_invite_timeout as nat)),
        ],
        former.room_registry_prune_after != latter.room_registry_prune_after && latter == (ConfigModel {
            room_registry_prune_after: latter.room_registry_prune_after,
            ..former
        }) ==> config_changes(former, latter) == seq![
            "room_registry_prune_after_s"@ + ": "@ + (seconds_pointed(former.room_registry_prune_after as nat)) + " -> "@ + (seconds_pointed(latter.room_registry_prune_after as nat)),
        ],
{
    if former.room_registry_path != latter.room_registry_path {
        assert(Seq::<Seq<char>>::empty().push(
            "room_registry_path"@ + ": "@ + (quoted_path(former.room_registry_path)) + " -> "@ + (quoted_path(latter.room_registry_path)),
        ) =~= seq![
            "room_registry_path"@ + ": "@ + (quoted_path(former.room_registry_path)) + " -> "@ + (quoted_path(latter.room_registry_path)),
        ]);
    }
    if former.hub_name != latter.hub_name {
        assert(Seq::<Seq<char>>::empty().push(
            "hub_name"@ + ": "@ + (quoted(former.hub_name)) + " -> "@ + (quoted(latter.hub_name)),
        ) =~= seq![
            "hub_name"@ + ": "@ + (quoted(former.hub_name)) + " -> "@ + (quoted(latter.hub_name)),
        ]);
    }
    if former.greeting != latter.greeting {
        assert(Seq::<Seq<char>>::empty().push(
            "greeting"@ + ": "@ + (option_text(former.greeting)) + " -> "@ + (option_text(latter.greeting)),
        ) =~= seq![
            "greeting"@ + ": "@ + (option_text(former.greeting)) + " -> "@ + (option_text(latter.greeting)),
        ]);
    }
    if former.announce_on_start != latter.announce_on_start {
        assert(Seq::<Seq<char>>::empty().push(
            "announce_on_start"@ + ": "@ + (bool_text(former.announce_on_start)) + " -> "@ + (bool_text(latter.announce_on_start)),
        ) =~= seq![
            "announce_on_start"@ + ": "@ + (bool_text(former.announce_on_start)) + " -> "@ + (bool_text(latter.announce_on_start)),
        ]);
    }
    if former.announce_period != latter.announce_period {
        assert(Seq::<Seq<char>>::empty().push(
            "announce_period_s"@ + ": "@ + (seconds_pointed(former.announce_period as nat)) + " -> "@ + (seconds_pointed(latter.announce_period as nat)),
        ) =~= seq![
            "announce_period_s"@ + ": "@ + (seconds_pointed(former.announce_period as nat)) + " -> "@ + (seconds_pointed(latter.announce_period as nat)),
        ]);
    }
    if former.include_joined_member_list != latter.include_joined_member_list {
        assert(Seq::<Seq<char>>::empty().push(
            "include_joined_member_list"@ + ": "@ + (bool_text(former.include_joined_member_list)) + " -> "@ + (bool_text(latter.include_joined_member_list)),
        ) =~= seq![
            "include_joined_member_list"@ + ": "@ + (bool_text(former.include_joined_member_list)) + " -> "@ + (bool_text(latter.include_joined_member_list)),
        ]);
    }
    if former.room_invite_timeout != latter.room_invite_timeout {
        assert(Seq::<Seq<char>>::empty().push(
            "room_invite_timeout_s"@ + ": "@ + (seconds_pointed(former.room_invite_timeout as nat)) + " -> "@ + (seconds_pointed(latter.room_invite_timeout as nat)),
        ) =~= seq![
            "room_invite_timeout_s"@ + ": "@ + (seconds_pointed(former.room_invite_timeout as nat)) + " -> "@ + (seconds_pointed(latter.room_invite_timeout as nat)),
        ]);
    }
    if former.room_registry_prune_after != latter.room_registry_prune_after {
        assert(Seq::<Seq<char>>::empty().push(
            "room_registry_prune_after_s"@ + ": "@ + (seconds_pointed(former.room_registry_prune_after as nat)) + " -> "@ + (seconds_pointed(latter.room_registry_prune_after as nat)),
        ) =~= seq![
            "room_registry_prune_after_s"@ + ": "@ + (seconds_pointed(former.room_registry_prune_after as nat)) + " -> "@ + (seconds_pointed(latter.room_registry_prune_after as nat)),
        ]);
    }
}

/// A single change is told by its name, with what was and what is: limits and pings.
#[verifier::rlimit(40)]
pub proof fn law_changes_of_limits_are_told(former: ConfigModel, latter: ConfigModel)
    ensures
        former.room_registry_prune_interval != latter.room_registry_prune_interval && latter == (ConfigModel {
            room_registry_prune_interval: latter.room_registry_prune_interval,
            ..former
        }) ==> config_changes(former, latter) == seq![
            "room_registry_prune_interval_s"@ + ": "@ + (seconds_pointed(former.room_registry_prune_interval as nat)) + " -> "@ + (seconds_pointed(latter.room_registry_prune_interval as nat)),
        ],
        former.max_nick_bytes != latter.max_nick_bytes && latter == (ConfigModel {
            max_nick_bytes: latter.max_nick_bytes,
            ..former
        }) ==> config_changes(former, latter) == seq![
            "max_nick_bytes"@ + ": "@ + (decimal(former.max_nick_bytes as nat)) + " -> "@ + (decimal(latter.max_nick_bytes as nat)),
        ],
        former.max_rooms_per_session != latter.max_rooms_per_session && latter == (ConfigModel {
            max_rooms_per_session: latter.max_rooms_per_session,
            ..former
        }) ==> config_changes(former, latter) == seq![
            "max_rooms_per_session"@ + ": "@ + (decimal(former.max_rooms_per_session as nat)) + " -> "@ + (decimal(latter.max_rooms_per_session as nat)),
        ],
        former.max_room_name_bytes != latter.max_room_name_bytes && latter == (ConfigModel {
            max_room_name_bytes: latter.max_room_name_bytes,
            ..former
        }) ==> config_changes(former, latter) == seq![
            "max_room_name_bytes"@ + ": "@ + (decimal(former.max_room_name_bytes as nat)) + " -> "@ + (decimal(latter.max_room_name_bytes as nat)),
        ],
        former.max_msg_body_bytes != latter.max_msg_body_bytes && latter == (ConfigModel {
            max_msg_body_bytes: latter.max_msg_body_bytes,
            ..former
        }) ==> config_changes(former, latter) == seq![
            "max_msg_body_bytes"@ + ": "@ + (decimal(former.max_msg_body_bytes as nat)) + " -> "@ + (decimal(latter.max_msg_body_bytes as nat)),
        ],
        former.rate_limit_msgs_per_minute != latter.rate_limit_msgs_per_minute && latter == (ConfigModel {
            rate_limit_msgs_per_minute: latter.rate_limit_msgs_per_minute,
            ..former
        }) ==> config_changes(former, latter) == seq![
            "rate_limit_msgs_per_minute"@ + ": "@ + (decimal(former.rate_limit_msgs_per_minute as nat)) + " -> "@ + (decimal(latter.rate_limit_msgs_per_minute as nat)),
        ],
        former.ping_interval != latter.ping_interval && latter == (ConfigModel {
            ping_interval: latter.ping_interval,
            ..former
        }) ==> config_changes(former, latter) == seq![
            "ping_interval_s"@ + ": "@ + (seconds_pointed(former.ping_interval as nat)) + " -> "@ + (seconds_pointed(latter.ping_interval as nat)),
        ],
        former.ping_timeout != latter.ping_timeout && latter == (ConfigModel {
            ping_timeout: latter.ping_timeout,
            ..former
        }) ==> config_changes(former, latter) == seq![
            "ping_timeout_s"@ + ": "@ + (seconds_pointed(former.ping_timeout as nat)) + " -> "@ + (seconds_pointed(latter.ping_timeout as nat)),
        ],
{
    if former.room_registry_prune_interval != latter.room_registry_prune_interval {
        assert(Seq::<Seq<char>>::empty().push(
            "room_registry_prune_interval_s"@ + ": "@ + (seconds_pointed(former.room_registry_prune_interval as nat)) + " -> "@ + (seconds_pointed(latter.room_registry_prune_interval as nat)),
        ) =~= seq![
            "room_registry_prune_interval_s"@ + ": "@ + (seconds_pointed(former.room_registry_prune_interval as nat)) + " -> "@ + (seconds_pointed(latter.room_registry_prune_interval as nat)),
        ]);
    }
    if former.max_nick_bytes != latter.max_nick_bytes {
        assert(Seq::<Seq<char>>::empty().push(
            "max_nick_bytes"@ + ": "@ + (decimal(former.max_nick_bytes as nat)) + " -> "@ + (decimal(latter.max_nick_bytes as nat)),
        ) =~= seq![
            "max_nick_bytes"@ + ": "@ + (decimal(former.max_nick_bytes as nat)) + " -> "@ + (decimal(latter.max_nick_bytes as nat)),
        ]);
    }
    if former.max_rooms_per_session != latter.max_rooms_per_session {
        assert(Seq::<Seq<char>>::empty().push(
            "max_rooms_per_session"@ + ": "@ + (decimal(former.max_rooms_per_session as nat)) + " -> "@ + (decimal(latter.max_rooms_per_session as nat)),
        ) =~= seq![
            "max_rooms_per_session"@ + ": "@ + (decimal(former.max_rooms_per_session as nat)) + " -> "@ + (decimal(latter.max_rooms_per_session as nat)),
        ]);
    }
    if former.max_room_name_bytes != latter.max_room_name_bytes {
        assert(Seq::<Seq<char>>::empty().push(
            "max_room_name_bytes"@ + ": "@ + (decimal(former.max_room_name_bytes as nat)) + " -> "@ + (decimal(latter.max_room_name_bytes as nat)),
        ) =~= seq![
            "max_room_name_bytes"@ + ": "@ + (decimal(former.max_room_name_bytes as nat)) + " -> "@ + (decimal(latter.max_room_name_bytes as nat)),
        ]);
    }
    if former.max_msg_body_bytes != latter.max_msg_body_bytes {
        assert(Seq::<Seq<char>>::empty().push(
            "max_msg_body_bytes"@ + ": "@ + (decimal(former.max_msg_body_bytes as nat)) + " -> "@ + (decimal(latter.max_msg_body_bytes as nat)),
        ) =~= seq![
            "max_msg_body_bytes"@ + ": "@ + (decimal(former.max_msg_body_bytes as nat)) + " -> "@ + (decimal(latter.max_msg_body_bytes as nat)),
        ]);
    }
    if former.rate_limit_msgs_per_minute != latter.rate_limit_msgs_per_minute {
        assert(Seq::<Seq<char>>::empty().push(
            "rate_limit_msgs_per_minute"@ + ": "@ + (decimal(former.rate_limit_msgs_per_minute as nat)) + " -> "@ + (decimal(latter.rate_limit_msgs_per_minute as nat)),
        ) =~= seq![
            "rate_limit_msgs_per_minute"@ + ": "@ + (decimal(former.rate_limit_msgs_per_minute as nat)) + " -> "@ + (decimal(latter.rate_limit_msgs_per_minute as nat)),
        ]);
    }
    if former.ping_interval != latter.ping_interval {
        assert(Seq::<Seq<char>>::empty().push(
            "ping_interval_s"@ + ": "@ + (seconds_pointed(former.ping_interval as nat)) + " -> "@ + (seconds_pointed(latter.ping_interval as nat)),
        ) =~= seq![
            "ping_interval_s"@ + ": "@ + (seconds_pointed(former.ping_interval as nat)) + " -> "@ + (seconds_pointed(latter.ping_interval as nat)),
        ]);
    }
    if former.ping_timeout != latter.ping_timeout {
        assert(Seq::<Seq<char>>::empty().push(
            "ping_timeout_s"@ + ": "@ + (seconds_pointed(former.ping_timeout as nat)) + " -> "@ + (seconds_pointed(latter.ping_timeout as nat)),
        ) =~= seq![
            "ping_timeout_s"@ + ": "@ + (seconds_pointed(former.ping_timeout as nat)) + " -> "@ + (seconds_pointed(latter.ping_timeout as nat)),
        ]);
    }
}

/// A single change is told by its name, with what was and what is: resources, the log and
/// identities.
#[verifier::rlimit(40)]
pub proof fn law_changes_of_features_are_told(former: ConfigModel, latter: ConfigModel)
    ensures
        former.enable_resource_transfer != latter.enable_resource_transfer && latter == (ConfigModel {
            enable_resource_transfer: latter.enable_resource_transfer,
            ..former
        }) ==> config_changes(former, latter) == seq![
            "enable_resource_transfer"@ + ": "@ + (bool_text(former.enable_resource_transfer)) + " -> "@ + (bool_text(latter.enable_resource_transfer)),
        ],
        former.max_resource_bytes != latter.max_resource_bytes && latter == (ConfigModel {
            max_resource_bytes: latter.max_resource_bytes,
            ..former
        }) ==> config_changes(former, latter) == seq![
            "max_resource_bytes"@ + ": "@ + (decimal(former.max_resource_bytes as nat)) + " -> "@ + (decimal(latter.max_resource_bytes as nat)),
        ],
        former.max_pending_resource_expectations != latter.max_pending_resource_expectations && latter == (ConfigModel {
            max_pending_resource_expectations: latter.max_pending_resource_expectations,
            ..former
        }) ==> config_changes(former, latter) == seq![
            "max_pending_resource_expectations"@ + ": "@ + (decimal(former.max_pending_resource_expectations as nat)) + " -> "@ + (decimal(latter.max_pending_resource_expectations as nat)),
        ],
        former.resource_expectation_ttl != latter.resource_expectation_ttl && latter == (ConfigModel {
            resource_expectation_ttl: latter.resource_expectation_ttl,
            ..former
        }) ==> config_changes(former, latter) == seq![
            "resource_expectation_ttl_s"@ + ": "@ + (seconds_pointed(former.resource_expectation_ttl as nat)) + " -> "@ + (seconds_pointed(latter.resource_expectation_ttl as nat)),
        ],
        former.log_level != latter.log_level && latter == (ConfigModel {
            log_level: latter.log_level,
            ..former
        }) ==> config_changes(former, latter) == seq![
            "log_level"@ + ": "@ + (quoted(former.log_level)) + " -> "@ + (quoted(latter.log_level)),
        ],
        former.log_console != latter.log_console && latter == (ConfigModel {
            log_console: latter.log_console,
            ..former
        }) ==> config_changes(former, latter) == seq![
            "log_console"@ + ": "@ + (bool_text(former.log_console)) + " -> "@ + (bool_text(latter.log_console)),
        ],
        former.log_file != latter.log_file && latter == (ConfigModel {
            log_file: latter.log_file,
            ..former
        }) ==> config_changes(former, latter) == seq![
            "log_file"@ + ": "@ + (option_path(former.log_file)) + " -> "@ + (option_path(latter.log_file)),
        ],
        former.trusted_identities != latter.trusted_identities && latter == (ConfigModel {
            trusted_identities: latter.trusted_identities,
            ..former
        }) ==> config_changes(former, latter) == seq![
            "trusted_identities"@ + ": "@ + ("len="@ + decimal(former.trusted_identities.len())) + " -> "@ + ("len="@ + decimal(latter.trusted_identities.len())),
        ],
        former.banned_identities != latter.banned_identities && latter == (ConfigModel {
            banned_identities: latter.banned_identities,
            ..former
        }) ==> config_changes(former, latter) == seq![
            "banned_identities"@ + ": "@ + ("len="@ + decimal(former.banned_identities.len())) + " -> "@ + ("len="@ + decimal(latter.banned_identities.len())),
        ],
{
    if former.enable_resource_transfer != latter.enable_resource_transfer {
        assert(Seq::<Seq<char>>::empty().push(
            "enable_resource_transfer"@ + ": "@ + (bool_text(former.enable_resource_transfer)) + " -> "@ + (bool_text(latter.enable_resource_transfer)),
        ) =~= seq![
            "enable_resource_transfer"@ + ": "@ + (bool_text(former.enable_resource_transfer)) + " -> "@ + (bool_text(latter.enable_resource_transfer)),
        ]);
    }
    if former.max_resource_bytes != latter.max_resource_bytes {
        assert(Seq::<Seq<char>>::empty().push(
            "max_resource_bytes"@ + ": "@ + (decimal(former.max_resource_bytes as nat)) + " -> "@ + (decimal(latter.max_resource_bytes as nat)),
        ) =~= seq![
            "max_resource_bytes"@ + ": "@ + (decimal(former.max_resource_bytes as nat)) + " -> "@ + (decimal(latter.max_resource_bytes as nat)),
        ]);
    }
    if former.max_pending_resource_expectations != latter.max_pending_resource_expectations {
        assert(Seq::<Seq<char>>::empty().push(
            "max_pending_resource_expectations"@ + ": "@ + (decimal(former.max_pending_resource_expectations as nat)) + " -> "@ + (decimal(latter.max_pending_resource_expectations as nat)),
        ) =~= seq![
            "max_pending_resource_expectations"@ + ": "@ + (decimal(former.max_pending_resource_expectations as nat)) + " -> "@ + (decimal(latter.max_pending_resource_expectations as nat)),
        ]);
    }
    if former.resource_expectation_ttl != latter.resource_expectation_ttl {
        assert(Seq::<Seq<char>>::empty().push(
            "resource_expectation_ttl_s"@ + ": "@ + (seconds_pointed(former.resource_expectation_ttl as nat)) + " -> "@ + (seconds_pointed(latter.resource_expectation_ttl as nat)),
        ) =~= seq![
            "resource_expectation_ttl_s"@ + ": "@ + (seconds_pointed(former.resource_expectation_ttl as nat)) + " -> "@ + (seconds_pointed(latter.resource_expectation_ttl as nat)),
        ]);
    }
    if former.log_level != latter.log_level {
        assert(Seq::<Seq<char>>::empty().push(
            "log_level"@ + ": "@ + (quoted(former.log_level)) + " -> "@ + (quoted(latter.log_level)),
        ) =~= seq![
            "log_level"@ + ": "@ + (quoted(former.log_level)) + " -> "@ + (quoted(latter.log_level)),
        ]);
    }
    if former.log_console != latter.log_console {
        assert(Seq::<Seq<char>>::empty().push(
            "log_console"@ + ": "@ + (bool_text(former.log_console)) + " -> "@ + (bool_text(latter.log_console)),
        ) =~= seq![
            "log_console"@ + ": "@ + (bool_text(former.log_console)) + " -> "@ + (bool_text(latter.log_console)),
        ]);
    }
    if former.log_file != latter.log_file {
        assert(Seq::<Seq<char>>::empty().push(
            "log_file"@ + ": "@ + (option_path(former.log_file)) + " -> "@ + (option_path(latter.log_file)),
        ) =~= seq![
            "log_file"@ + ": "@ + (option_path(former.log_file)) + " -> "@ + (option_path(latter.log_file)),
        ]);
    }
    if former.trusted_identities != latter.trusted_identities {
        assert(Seq::<Seq<char>>::empty().push(
            "trusted_identities"@ + ": "@ + ("len="@ + decimal(former.trusted_identities.len())) + " -> "@ + ("len="@ + decimal(latter.trusted_identities.len())),
        ) =~= seq![
            "trusted_identities"@ + ": "@ + ("len="@ + decimal(former.trusted_identities.len())) + " -> "@ + ("len="@ + decimal(latter.trusted_identities.len())),
        ]);
    }
    if former.banned_identities != latter.banned_identities {
        assert(Seq::<Seq<char>>::empty().push(
            "banned_identities"@ + ": "@ + ("len="@ + decimal(former.banned_identities.len())) + " -> "@ + ("len="@ + decimal(latter.banned_identities.len())),
        ) =~= seq![
            "banned_identities"@ + ": "@ + ("len="@ + decimal(former.banned_identities.len())) + " -> "@ + ("len="@ + decimal(latter.banned_identities.len())),
        ]);
    }
}

} // verus!
