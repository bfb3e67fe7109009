//! The commands beside those that rule rooms: which there are, who may give them, and what they
//! answer.

use crate::cbor::Cbor;
use crate::clock::{tenths, Clock, Nanos};
use crate::collections::{
    at, gathered, group_collections, group_sequences, holds, tally, unique, with, without,
};
use crate::config::ConfigModel;
use crate::constants::T_NOTICE;
use crate::outgoing::{ExtensionModel, Out, UserModel};
use crate::router::access::accessing;
use crate::router::admin::{banning, merged, registered_names, Busy, BusyModel};
use crate::router::commands::{running, COMMAND_HELP};
use crate::router::directory::{
    listing, listing_line, listing_text, listing_users, users_in, user_on, user_finder,
};
use crate::router::moderation::{
    kicking, registering, setting_member, setting_mode, setting_topic,
};
use crate::router::targets::{resolved, spelled, target_report};
use crate::router::{noticing, resuming, Hub, OutcomeModel, PendingModel, ResumeModel, Work};
use crate::state::{
    room_error_text, room_name, IdentityHash, LinkId, RoomModel, SessionModel,
};
use crate::text::{after_0x, ascii_lower, decimal, hexadecimal, joined};
use super::authority::law_ban_closes_every_link;
use super::effects::{
    envelope, goes_to, informs, law_error, law_notice, reads, refuses, same_but_counters, utters,
};
use super::order::{in_order, law_rankings_are_orders, law_sorted};
use super::rooms::lemma_gathered;
use vstd::prelude::*;

verus! {

broadcast use {group_collections, group_sequences};

/// Which command does what. The name of a command is read without regard to case, and anything
/// that is no command is refused.
#[verifier::rlimit(60)]
pub proof fn law_commands(
    hub: Hub,
    clock: Clock,
    link: LinkId,
    peer: IdentityHash,
    context: Option<Seq<char>>,
    parts: Seq<Seq<char>>,
)
    requires
        parts.len() > 0,
    ensures
        ({
            let done = running(hub, clock, link, peer, context, parts);
            let now = clock.wall;
            let name = ascii_lower(parts[0]);
            let trusted = hub.config.trusted_identities.contains(peer);
            &&& name == "/help"@ ==> informs(hub, done, link, None, COMMAND_HELP@)
            &&& name == "/list"@ ==> informs(
                hub,
                done,
                link,
                None,
                listing_text(hub.state.rooms),
            )
            &&& (name == "/stats"@ || name == "/reload"@) && !trusted ==> refuses(
                hub,
                done,
                link,
                None,
                "not authorized"@,
            )
            &&& name == "/stats"@ && trusted ==> informs(
                hub,
                done,
                link,
                None,
                crate::router::admin::report(hub, clock.mono),
            )
            &&& name == "/reload"@ && trusted ==> {
                &&& done.hub == hub
                &&& done.outs.len() == 0
                &&& done.pending is Some
                &&& done.pending->0.work == Work::Reload
                &&& done.pending->0.resume == (ResumeModel::Reload { link })
                &&& done.pending->0.watch is None
            }
            &&& name == "/kline"@ ==> done == banning(hub, link, peer, parts)
            &&& name == "/who"@ || name == "/names"@ ==> done == listing_users(
                hub,
                link,
                peer,
                context,
                parts,
            )
            &&& name == "/register"@ ==> done == registering(
                hub,
                now,
                link,
                peer,
                context,
                parts,
                true,
            )
            &&& name == "/unregister"@ ==> done == registering(
                hub,
                now,
                link,
                peer,
                context,
                parts,
                false,
            )
            &&& name == "/topic"@ ==> done == setting_topic(hub, now, link, peer, context, parts)
            &&& name == "/mode"@ ==> done == setting_mode(hub, now, link, peer, context, parts)
            &&& name == "/op"@ || name == "/deop"@ || name == "/voice"@ || name == "/devoice"@
                ==> done == setting_member(hub, now, link, peer, context, parts)
            &&& name == "/invite"@ || name == "/ban"@ || name == "/unban"@ ==> done == accessing(
                hub,
                now,
                link,
                peer,
                context,
                parts,
            )
            &&& name == "/kick"@ ==> done == kicking(hub, link, peer, context, parts)
            &&& name != "/help"@ && name != "/list"@ && name != "/stats"@ && name != "/reload"@
                && name != "/kline"@ && name != "/who"@ && name != "/names"@ && name
                != "/register"@ && name != "/unregister"@ && name != "/topic"@ && name
                != "/mode"@ && name != "/op"@ && name != "/deop"@ && name != "/voice"@ && name
                != "/devoice"@ && name != "/invite"@ && name != "/ban"@ && name != "/unban"@
                && name != "/kick"@ ==> refuses(
                hub,
                done,
                link,
                context,
                "unrecognized command"@,
            )
        }),
{
    law_notice(hub, link, None, COMMAND_HELP@);
    law_notice(hub, link, None, listing_text(hub.state.rooms));
    law_notice(hub, link, None, crate::router::admin::report(hub, clock.mono));
    law_error(hub, link, None, "not authorized"@);
    law_error(hub, link, context, "unrecognized command"@);
    lemma_command_names();
}

/// The names of the commands differ in their lengths or in their second characters.
proof fn lemma_command_names()
    ensures
        "/help"@.len() == 5 && "/help"@[1] == 'h',
        "/stats"@.len() == 6 && "/stats"@[1] == 's',
        "/reload"@.len() == 7 && "/reload"@[1] == 'r',
        "/kline"@.len() == 6 && "/kline"@[1] == 'k',
        "/list"@.len() == 5 && "/list"@[1] == 'l',
        "/who"@.len() == 4 && "/who"@[1] == 'w',
        "/names"@.len() == 6 && "/names"@[1] == 'n',
        "/register"@.len() == 9 && "/register"@[1] == 'r',
        "/unregister"@.len() == 11 && "/unregister"@[1] == 'u',
        "/topic"@.len() == 6 && "/topic"@[1] == 't',
        "/mode"@.len() == 5 && "/mode"@[1] == 'm',
        "/op"@.len() == 3 && "/op"@[1] == 'o',
        "/deop"@.len() == 5 && "/deop"@[1] == 'd',
        "/voice"@.len() == 6 && "/voice"@[1] == 'v',
        "/devoice"@.len() == 8 && "/devoice"@[1] == 'd',
        "/invite"@.len() == 7 && "/invite"@[1] == 'i',
        "/ban"@.len() == 4 && "/ban"@[1] == 'b',
        "/unban"@.len() == 6 && "/unban"@[1] == 'u',
        "/kick"@.len() == 5 && "/kick"@[1] == 'k',
{
    reveal_strlit("/help");
    reveal_strlit("/stats");
    reveal_strlit("/reload");
    reveal_strlit("/kline");
    reveal_strlit("/list");
    reveal_strlit("/who");
    reveal_strlit("/names");
    reveal_strlit("/register");
    reveal_strlit("/unregister");
    reveal_strlit("/topic");
    reveal_strlit("/mode");
    reveal_strlit("/op");
    reveal_strlit("/deop");
    reveal_strlit("/voice");
    reveal_strlit("/devoice");
    reveal_strlit("/invite");
    reveal_strlit("/ban");
    reveal_strlit("/unban");
    reveal_strlit("/kick");
}

/// Whether a line is one of a report.
pub open spec fn reports(hub: Hub, uptime: Nanos, line: Seq<char>) -> bool {
    exists|lines: Seq<Seq<char>>|
        #[trigger] joined(lines, "\n"@) == crate::router::admin::report(hub, uptime)
            && lines.contains(line)
}

/// The report shows how many sessions there are, how many have somebody on them and how many are
/// welcomed, how many rooms there are and how many members they have; whom the hub trusts and bans;
/// its limits and features; and every counter, each under its name.
#[verifier::rlimit(40)]
pub proof fn law_stats(hub: Hub, uptime: Nanos)
    ensures
        ({
            let state = hub.state;
            let counters = state.counters;
            let config = hub.config;
            &&& reports(hub, uptime, "uptime_s="@ + tenths(uptime as nat))
            &&& reports(
                hub,
                uptime,
                "clients_total="@ + decimal(state.sessions.len()) + " clients_identified="@
                    + decimal(
                    tally(state.sessions, |entry: (LinkId, SessionModel)| entry.1.peer is Some),
                ) + " clients_welcomed="@ + decimal(
                    tally(state.sessions, |entry: (LinkId, SessionModel)| entry.1.welcomed),
                ),
            )
            &&& reports(
                hub,
                uptime,
                "rooms="@ + decimal(state.rooms.len()) + " memberships="@ + decimal(
                    crate::router::admin::memberships(state.rooms),
                ),
            )
            &&& reports(
                hub,
                uptime,
                "trust: trusted="@ + decimal(config.trusted_identities.len()) + " banned="@
                    + decimal(config.banned_identities.len()),
            )
            &&& reports(
                hub,
                uptime,
                "limits: rate_limit_msgs_per_minute="@ + decimal(
                    config.rate_limit_msgs_per_minute as nat,
                ) + " max_rooms_per_session="@ + decimal(config.max_rooms_per_session as nat)
                    + " max_room_name_bytes="@ + decimal(config.max_room_name_bytes as nat)
                    + " max_nick_bytes="@ + decimal(config.max_nick_bytes as nat),
            )
            &&& reports(
                hub,
                uptime,
                "io: pkts_in="@ + decimal(counters.packets_in as nat) + " pkts_bad="@ + decimal(
                    counters.packets_bad as nat,
                ) + " bytes_in="@ + decimal(counters.bytes_in as nat) + " bytes_out="@ + decimal(
                    counters.bytes_out as nat,
                ),
            )
            &&& reports(
                hub,
                uptime,
                "events: joins="@ + decimal(counters.joins as nat) + " parts="@ + decimal(
                    counters.parts as nat,
                ) + " msgs_fwd="@ + decimal(counters.messages_forwarded as nat)
                    + " notices_fwd="@ + decimal(counters.notices_forwarded as nat)
                    + " actions_fwd="@ + decimal(counters.actions_forwarded as nat)
                    + " errors_sent="@ + decimal(counters.errors as nat) + " rate_limited="@
                    + decimal(counters.rate_limited as nat),
            )
            &&& reports(
                hub,
                uptime,
                "pings: in="@ + decimal(counters.pings_in as nat) + " out="@ + decimal(
                    counters.pings_out as nat,
                ) + " pongs: in="@ + decimal(counters.pongs_in as nat) + " out="@ + decimal(
                    counters.pongs_out as nat,
                ),
            )
            &&& reports(hub, uptime, "announces="@ + decimal(counters.announces as nat))
            &&& reports(
                hub,
                uptime,
                "resources: sent="@ + decimal(counters.resources_sent as nat) + " received="@
                    + decimal(counters.resources_received as nat) + " rejected="@ + decimal(
                    counters.resources_rejected as nat,
                ) + " bytes_sent="@ + decimal(counters.resource_bytes_sent as nat)
                    + " bytes_received="@ + decimal(counters.resource_bytes_received as nat),
            )
        }),
{
    let state = hub.state;
    let counters = state.counters;
    let config = hub.config;
    let clients = crate::router::admin::client_lines(state, uptime);
    let busy = crate::router::admin::busy_lines(state.rooms);
    let policy = crate::router::admin::policy_lines(config);
    let counts = crate::router::admin::counter_lines(counters);
    let lines = clients + busy + policy + counts;
    assert(joined(lines, "\n"@) == crate::router::admin::report(hub, uptime));
    let first = clients.len() as int;
    let second = first + busy.len();
    let third = second + policy.len();
    assert forall|i: int| 0 <= i < clients.len() implies reports(
        hub,
        uptime,
        #[trigger] clients[i],
    ) by {
        assert(lines[i] == clients[i]);
    }
    assert forall|i: int| 0 <= i < policy.len() implies reports(
        hub,
        uptime,
        #[trigger] policy[i],
    ) by {
        assert(lines[second + i] == policy[i]);
    }
    assert forall|i: int| 0 <= i < counts.len() implies reports(
        hub,
        uptime,
        #[trigger] counts[i],
    ) by {
        assert(lines[third + i] == counts[i]);
    }
    assert(crate::router::admin::having_peer() =~= (|entry: (LinkId, SessionModel)|
        entry.1.peer is Some));
    assert(crate::router::admin::being_welcomed() =~= (|entry: (LinkId, SessionModel)|
        entry.1.welcomed));
    assert(clients[1] == "uptime_s="@ + tenths(uptime as nat));
    assert(reports(hub, uptime, clients[1]) && reports(hub, uptime, clients[2]) && reports(
        hub,
        uptime,
        clients[3],
    ));
    assert(reports(hub, uptime, policy[0]) && reports(hub, uptime, policy[1]));
    assert(reports(hub, uptime, counts[0]) && reports(hub, uptime, counts[1]) && reports(
        hub,
        uptime,
        counts[2],
    ) && reports(hub, uptime, counts[3]) && reports(hub, uptime, counts[4]));
}

/// A room with one more in it makes one more membership.
pub proof fn law_memberships(
    rooms: Seq<(Seq<char>, RoomModel)>,
    name: Seq<char>,
    room: RoomModel,
)
    ensures
        crate::router::admin::memberships(rooms.push((name, room)))
            == crate::router::admin::memberships(rooms) + room.members.len(),
        rooms.len() == 0 ==> crate::router::admin::memberships(rooms) == 0,
{
}

/// The rooms that are shown as the busiest are rooms with somebody in them, with how many, and no
/// room with more is left out for one with fewer; of equals, the first by name comes first.
pub proof fn law_busiest(rooms: Seq<(Seq<char>, RoomModel)>, busy: BusyModel)
    ensures
        crate::router::admin::busiest(rooms).contains(busy) == exists|i: int|
            0 <= i < rooms.len() && (#[trigger] rooms[i]).0 == busy.name
                && rooms[i].1.members.len() == busy.count && busy.count > 0,
        forall|i: int, j: int|
            0 <= i < j < crate::router::admin::busiest(rooms).len() ==> (
            #[trigger] crate::router::admin::busiest(rooms)[i]).count >= (
            #[trigger] crate::router::admin::busiest(rooms)[j]).count,
{
    let pick = crate::router::admin::being_busy();
    let found = gathered(rooms, pick);
    let all = crate::router::admin::busiest(rooms);
    law_rankings_are_orders();
    law_sorted(found, crate::collections::ranking::<Busy>());
    lemma_gathered(rooms, pick, busy);
    assert forall|i: int, j: int| 0 <= i < j < all.len() implies (#[trigger] all[i]).count >= (
    #[trigger] all[j]).count by {
        assert(!crate::collections::ranking::<Busy>()(all[j], all[i]));
    }
}

/// A reload tells how many identities were and are trusted and banned, and how many rooms were and
/// are registered; then the first twelve changes of the configuration, and then all of the rooms.
pub proof fn law_reload_lines(
    before: ConfigModel,
    after: ConfigModel,
    former: nat,
    latter: nat,
    changes: Seq<Seq<char>>,
)
    ensures
        ({
            let shown = if changes.len() <= 12 {
                changes
            } else {
                changes.take(12)
            };
            &&& crate::router::admin::reload_lines(before, after, former, latter) == seq![
                "reloaded: trusted="@ + decimal(before.trusted_identities.len()) + "->"@ + decimal(
                    after.trusted_identities.len(),
                ) + " banned="@ + decimal(before.banned_identities.len()) + "->"@ + decimal(
                    after.banned_identities.len(),
                ) + " registered_rooms="@ + decimal(former) + "->"@ + decimal(latter),
                "policy: max_nick_bytes="@ + decimal(after.max_nick_bytes as nat),
            ]
            &&& crate::router::admin::change_lines(changes) == if changes.len() == 0 {
                seq!["config_changes: (none)"@]
            } else {
                seq!["config_changes:"@] + Seq::new(shown.len(), |i: int| "- "@ + shown[i])
            }
            &&& crate::router::admin::registry_lines(changes) == seq!["rooms_changes:"@]
                + if changes.len() == 0 {
                seq!["- (none)"@]
            } else {
                Seq::new(changes.len(), |i: int| "- "@ + changes[i])
            }
        }),
{
}

/// What a reload tells is made of these lines, from the configuration and the registered rooms
/// before it and after it.
#[verifier::rlimit(40)]
pub proof fn law_reload_report(
    hub: Hub,
    config: ConfigModel,
    disk: Seq<(Seq<char>, RoomModel)>,
    changes: Seq<Seq<char>>,
)
    requires
        changes == crate::config::config_changes(hub.config, config),
    ensures
        ({
            let former = registered_names(hub.state.rooms);
            let latter = registered_names(merged(disk, hub.state.rooms));
            crate::router::admin::reload_summary(hub, config, disk) == joined(
                crate::router::admin::reload_lines(
                    hub.config,
                    config,
                    former.len(),
                    latter.len(),
                ) + crate::router::admin::change_lines(changes)
                    + crate::router::admin::registry_lines(
                    crate::router::admin::room_changes(former, latter),
                ),
                "\n"@,
            )
        }),
{
}

/// `/kline` is for the identities that the hub trusts. It adds the identity that a token means to
/// those that are banned from the hub, or takes it from them, changes nothing else, and has the
/// bans saved; a ban closes every link of the identity, and no other.
#[verifier::rlimit(40)]
pub proof fn law_hub_bans(
    hub: Hub,
    link: LinkId,
    peer: IdentityHash,
    parts: Seq<Seq<char>>,
    other: LinkId,
)
    requires
        parts.len() > 1,
        unique(hub.state.sessions),
    ensures
        ({
            let done = banning(hub, link, peer, parts);
            let operation = ascii_lower(parts[1]);
            let adding = operation == "add"@;
            let banned = hub.config.banned_identities;
            let matches = resolved(hub, parts[2], None);
            let target = if matches.len() == 1 {
                Some(matches[0].identity)
            } else {
                spelled(after_0x(parts[2]))
            };
            if !hub.config.trusted_identities.contains(peer) {
                refuses(hub, done, link, None, "not authorized"@)
            } else if operation == "list"@ {
                informs(
                    hub,
                    done,
                    link,
                    None,
                    if banned.len() == 0 {
                        "no klines"@
                    } else {
                        joined(Seq::new(banned.len(), |i: int| hexadecimal(banned[i]@)), " "@)
                    },
                )
            } else if parts.len() < 3 || (!adding && operation != "del"@) {
                informs(
                    hub,
                    done,
                    link,
                    None,
                    "usage: /kline add <nick|hash> | del <hash> | list"@,
                )
            } else if target is None {
                informs(hub, done, link, None, target_report(parts[2], matches))
            } else {
                let pending = done.pending->0;
                &&& done.hub == Hub {
                    config: ConfigModel {
                        banned_identities: if adding {
                            with(banned, target->0)
                        } else {
                            without(banned, target->0)
                        },
                        ..hub.config
                    },
                    ..hub
                }
                &&& done.outs.len() == 0
                &&& done.pending is Some
                &&& pending.work == Work::SaveBans
                &&& pending.watch is None
                &&& pending.resume is Bans
                &&& pending.resume->Bans_link == link
                &&& pending.resume->Bans_text == (if adding {
                    "kline added for "@
                } else {
                    "kline removed for "@
                }) + hexadecimal(target->0@)
                &&& pending.resume->Bans_close.contains(other) == (adding && holds(
                    hub.state.sessions,
                    other,
                ) && at(hub.state.sessions, other).peer == Some(target->0))
            }
        }),
{
    reveal_strlit("kline added for ");
    reveal_strlit("kline removed for ");
    reveal_strlit("kline ");
    reveal_strlit("added");
    reveal_strlit("removed");
    reveal_strlit(" for ");
    assert("kline "@ + "added"@ + " for "@ =~= "kline added for "@);
    assert("kline "@ + "removed"@ + " for "@ =~= "kline removed for "@);
    reveal_strlit("add");
    reveal_strlit("del");
    reveal_strlit("list");
    assert("add"@[0] == 'a');
    assert("del"@[0] == 'd');
    assert("list"@[0] == 'l');
    law_error(hub, link, None, "not authorized"@);
    law_notice(hub, link, None, crate::router::admin::ban_list(hub.config.banned_identities));
    law_notice(hub, link, None, "usage: /kline add <nick|hash> | del <hash> | list"@);
    let matches = resolved(hub, parts[2], None);
    law_notice(hub, link, None, target_report(parts[2], matches));
    let target = if matches.len() == 1 {
        Some(matches[0].identity)
    } else {
        spelled(after_0x(parts[2]))
    };
    if target is Some {
        law_ban_closes_every_link(hub, link, target->0, other);
    }
}

/// `/kline` alone is answered with how it is used, to those whom the hub trusts.
pub proof fn law_hub_bans_usage(
    hub: Hub,
    link: LinkId,
    peer: IdentityHash,
    parts: Seq<Seq<char>>,
)
    requires
        parts.len() <= 1,
    ensures
        ({
            let done = banning(hub, link, peer, parts);
            if hub.config.trusted_identities.contains(peer) {
                informs(
                    hub,
                    done,
                    link,
                    None,
                    "usage: /kline add <nick|hash> | del <hash> | list"@,
                )
            } else {
                refuses(hub, done, link, None, "not authorized"@)
            }
        }),
{
    reveal_strlit("add");
    reveal_strlit("del");
    reveal_strlit("list");
    reveal_strlit("");
    assert(""@.len() == 0);
    law_error(hub, link, None, "not authorized"@);
    law_notice(hub, link, None, "usage: /kline add <nick|hash> | del <hash> | list"@);
}

/// Once the bans are saved, whoever changed them is told, and each link of the list is closed; if
/// they could not be saved, no link is.
pub proof fn law_hub_bans_are_told(
    hub: Hub,
    link: LinkId,
    text: Seq<char>,
    close: Seq<LinkId>,
    error: Seq<char>,
)
    ensures
        ({
            let pending = PendingModel {
                work: Work::SaveBans,
                resume: ResumeModel::Bans { link, text, close },
                watch: None,
            };
            let done = resuming(hub, pending, OutcomeModel::Done);
            let first = done.outs.len() - close.len();
            &&& same_but_counters(hub, done.hub)
            &&& done.pending is None
            &&& first >= 0
            &&& utters(done.outs.take(first), link, T_NOTICE, hub.identity, None, None, text)
            &&& forall|i: int|
                0 <= i < close.len() ==> #[trigger] done.outs.skip(first)[i] == Out::Close(close[i])
            &&& refuses(
                hub,
                resuming(hub, pending, OutcomeModel::Failed(error)),
                link,
                None,
                "kline persist failed: "@ + error,
            )
        }),
{
    law_error(hub, link, None, "kline persist failed: "@ + error);
    law_notice(hub, link, None, text);
    let pending = PendingModel {
        work: Work::SaveBans,
        resume: ResumeModel::Bans { link, text, close },
        watch: None,
    };
    let done = resuming(hub, pending, OutcomeModel::Done);
    let told = noticing(hub, link, None, text);
    assert(done.outs.take(done.outs.len() - close.len()) =~= told.outs);
}

/// A reload that has been read takes over the configuration, and renews the rooms from the
/// registry; whoever asked for it is told. One that has failed changes nothing and is an error.
#[verifier::rlimit(40)]
pub proof fn law_reload_is_told(
    hub: Hub,
    link: LinkId,
    config: ConfigModel,
    rooms: Seq<(Seq<char>, RoomModel)>,
    error: Seq<char>,
)
    ensures
        ({
            let pending = PendingModel {
                work: Work::Reload,
                resume: ResumeModel::Reload { link },
                watch: None,
            };
            let done = resuming(hub, pending, OutcomeModel::Loaded(config, rooms));
            &&& done.hub.config == config
            &&& done.hub.state.rooms == merged(rooms, hub.state.rooms)
            &&& done.hub.state.sessions == hub.state.sessions
            &&& done.hub.state.links_by_identity == hub.state.links_by_identity
            &&& done.hub.state.links_by_nick == hub.state.links_by_nick
            &&& done.hub.expected == hub.expected
            &&& done.hub.identity == hub.identity
            &&& done.pending is None
            &&& utters(
                done.outs,
                link,
                T_NOTICE,
                hub.identity,
                None,
                None,
                crate::router::admin::reload_summary(hub, config, rooms),
            )
            &&& refuses(
                hub,
                resuming(hub, pending, OutcomeModel::Failed(error)),
                link,
                None,
                "reload failed: "@ + error,
            )
        }),
{
    law_error(hub, link, None, "reload failed: "@ + error);
    let after = crate::router::admin::reloaded(hub, config, rooms);
    law_notice(after, link, None, crate::router::admin::reload_summary(hub, config, rooms));
}

/// The rooms that a reload brings, and those that it takes away, are told each with its sign.
pub proof fn law_reload_tells_rooms(
    former: Seq<Seq<char>>,
    latter: Seq<Seq<char>>,
    line: Seq<char>,
)
    ensures
        crate::router::admin::room_changes(former, latter).contains(line) == ((exists|i: int|
            0 <= i < latter.len() && !former.contains(#[trigger] latter[i]) && line == "+ "@
                + latter[i]) || (exists|i: int|
            0 <= i < former.len() && !latter.contains(#[trigger] former[i]) && line == "- "@
                + former[i])),
{
    let come = gathered(latter, crate::router::admin::signing("+ "@, former));
    let gone = gathered(former, crate::router::admin::signing("- "@, latter));
    let all = come + gone;
    law_rankings_are_orders();
    law_sorted(all, crate::collections::ranking::<String>());
    lemma_gathered(latter, crate::router::admin::signing("+ "@, former), line);
    lemma_gathered(former, crate::router::admin::signing("- "@, latter), line);
    if come.contains(line) {
        let i = choose|i: int| 0 <= i < come.len() && come[i] == line;
        assert(all[i] == line);
    }
    if gone.contains(line) {
        let i = choose|i: int| 0 <= i < gone.len() && gone[i] == line;
        assert(all[come.len() + i] == line);
    }
    if all.contains(line) {
        let i = choose|i: int| 0 <= i < all.len() && all[i] == line;
        if i >= come.len() {
            assert(gone[i - come.len()] == line);
        } else {
            assert(come[i] == line);
        }
    }
}

/// The registered rooms are those that are registered.
pub proof fn law_registered_names(rooms: Seq<(Seq<char>, RoomModel)>, name: Seq<char>)
    ensures
        registered_names(rooms).contains(name) == exists|i: int|
            0 <= i < rooms.len() && (#[trigger] rooms[i]).1.registered && rooms[i].0 == name,
{
    lemma_gathered(rooms, crate::router::admin::being_registered(), name);
}

/// The list of rooms shows the registered rooms that are not private, each on a line with its
/// topic, where it has one.
pub proof fn law_room_list(rooms: Seq<(Seq<char>, RoomModel)>, line: Seq<char>)
    ensures
        listing(rooms).contains(line) == exists|i: int|
            0 <= i < rooms.len() && #[trigger] listed_as(rooms[i], line),
        listing_text(rooms) == if listing(rooms).len() == 0 {
            "No public rooms registered"@
        } else {
            joined(seq!["Registered public rooms:"@] + listing(rooms), "\n"@)
        },
{
    super::rooms::law_listing_shows_public_rooms(rooms, line);
    assert forall|i: int| 0 <= i < rooms.len() implies (#[trigger] listed_as(rooms[i], line)) == (
    rooms[i].1.registered && !rooms[i].1.private && listing_line(rooms[i]) == Some(line)) by {}
    if listing(rooms).contains(line) {
        let i = choose|i: int|
            0 <= i < rooms.len() && (#[trigger] rooms[i]).1.registered && !rooms[i].1.private
                && listing_line(rooms[i]) == Some(line);
        assert(listed_as(rooms[i], line));
    }
}

/// Whether a line is that of a room in the list of rooms.
pub open spec fn listed_as(entry: (Seq<char>, RoomModel), line: Seq<char>) -> bool {
    let (name, room) = entry;
    &&& room.registered
    &&& !room.private
    &&& line == match room.topic {
        Some(topic) => "  "@ + name + " - "@ + topic,
        None => "  "@ + name,
    }
}

/// Whether somebody in a room is shown as they are: under the nickname and the identity of the
/// link, with the marks of an operator and of a voice.
pub open spec fn portrays(hub: Hub, room: RoomModel, link: LinkId, user: UserModel) -> bool {
    &&& holds(hub.state.sessions, link)
    &&& at(hub.state.sessions, link).peer is Some
    &&& user.nick == at(hub.state.sessions, link).nick
    &&& user.identity == hexadecimal(at(hub.state.sessions, link).peer->0@)
    &&& user.operator == room.operators.contains(at(hub.state.sessions, link).peer->0)
    &&& user.voiced == room.voiced.contains(at(hub.state.sessions, link).peer->0)
}

/// The users of a room are those who are on the links of its members, and all of them, in the order
/// of the names that they are shown under.
pub proof fn law_users(hub: Hub, name: Seq<char>, user: UserModel)
    requires
        holds(hub.state.rooms, name),
    ensures
        ({
            let room = at(hub.state.rooms, name);
            users_in(hub.state, name).contains(user) == exists|i: int|
                0 <= i < room.members.len() && #[trigger] portrays(
                    hub,
                    room,
                    room.members[i],
                    user,
                )
        }),
        in_order(
            users_in(hub.state, name),
            crate::collections::ranking::<crate::outgoing::UserInfo>(),
        ),
{
    let room = at(hub.state.rooms, name);
    let finder = user_finder(hub.state.sessions, room);
    law_rankings_are_orders();
    law_sorted(
        gathered(room.members, finder),
        crate::collections::ranking::<crate::outgoing::UserInfo>(),
    );
    lemma_gathered(room.members, finder, user);
    assert forall|link: LinkId| #[trigger]
        portrays(hub, room, link, user) == (user_on(hub.state.sessions, room, link) == Some(
            user,
        )) by {}
    if users_in(hub.state, name).contains(user) {
        let i = choose|i: int|
            0 <= i < room.members.len() && finder(#[trigger] room.members[i]) == Some(user);
        assert(portrays(hub, room, room.members[i], user));
    }
    if exists|i: int|
        0 <= i < room.members.len() && #[trigger] portrays(hub, room, room.members[i], user) {
        let i = choose|i: int|
            0 <= i < room.members.len() && #[trigger] portrays(hub, room, room.members[i], user);
        assert(finder(room.members[i]) == Some(user));
    }
}

/// How somebody is written in the list of a room's users.
pub open spec fn written(user: UserModel) -> Seq<char> {
    match user.nick {
        Some(nick) => nick + " ("@ + user.identity.take(12) + ")"@,
        None => user.identity,
    }
}

/// `/who` and `/names` answer, for the room that they name or else the one that the message is in,
/// with the list of its users; a client that knows user lists gets it as one too. The users of a
/// private room are shown to those whom the hub trusts only.
#[verifier::rlimit(40)]
pub proof fn law_who(
    hub: Hub,
    link: LinkId,
    peer: IdentityHash,
    context: Option<Seq<char>>,
    parts: Seq<Seq<char>>,
)
    ensures
        ({
            let done = listing_users(hub, link, peer, context, parts);
            let requested = if parts.len() > 1 {
                Some(parts[1])
            } else {
                context
            };
            let name = room_name(requested->0, hub.config.max_room_name_bytes as nat);
            let users = users_in(hub.state, name->Ok_0);
            let session = at(hub.state.sessions, link);
            let structured = holds(hub.state.sessions, link) && session.peer_caps.dom().contains(
                hub.extensions.user_list,
            ) && session.peer_caps[hub.extensions.user_list];
            if requested is None {
                informs(hub, done, link, None, "usage: /who [room]"@)
            } else if name is Err {
                informs(hub, done, link, None, "bad room: "@ + room_error_text(name->Err_0))
            } else if holds(hub.state.rooms, name->Ok_0) && at(
                hub.state.rooms,
                name->Ok_0,
            ).private && !hub.config.trusted_identities.contains(peer) {
                informs(hub, done, link, None, "room "@ + name->Ok_0 + " is private"@)
            } else {
                &&& done.hub == hub
                &&& done.pending is None
                &&& done.outs.len() == 1
                &&& goes_to(done.outs[0], link)
                &&& reads(
                    envelope(done.outs[0]),
                    T_NOTICE,
                    hub.identity,
                    None,
                    None,
                    Some(
                        Cbor::Text(
                            "members in "@ + name->Ok_0 + ": "@ + if users.len() == 0 {
                                "(none)"@
                            } else {
                                joined(
                                    Seq::new(users.len(), |i: int| written(users[i])),
                                    ", "@,
                                )
                            },
                        ),
                    ),
                )
                &&& if structured {
                    done.outs[0] is Extended && done.outs[0]->Extended_2 == ExtensionModel::Users(
                        users,
                    )
                } else {
                    done.outs[0] is Packets
                }
            }
        }),
{
    let requested = if parts.len() > 1 {
        Some(parts[1])
    } else {
        context
    };
    let name = room_name(requested->0, hub.config.max_room_name_bytes as nat);
    law_notice(hub, link, None, "usage: /who [room]"@);
    law_notice(hub, link, None, "bad room: "@ + room_error_text(name->Err_0));
    law_notice(hub, link, None, "room "@ + name->Ok_0 + " is private"@);
    let users = users_in(hub.state, name->Ok_0);
    assert(Seq::new(users.len(), |i: int| written(users[i])) =~= Seq::new(
        users.len(),
        |i: int| crate::router::directory::user_text(users[i]),
    ));
}

} // verus!
