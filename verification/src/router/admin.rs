//! What server operators do: statistics, global bans and reloading.

use crate::clock::{seconds, tenths, to_seconds, to_tenths, Nanos};
use crate::collections::{
    gathered, group_collections, group_sequences, lookup, models, put, ranking, sort, sorted, tally,
    with, without, Key, Model, Ranked, Table,
};
use crate::config::{
    bool_text, config_changes, config_diff, contains_identity, format_bool, ConfigModel, HubConfig,
};
use crate::constants::SOFTWARE_VERSION;
use crate::state::{Counters, IdentityHash, LinkId, Room, RoomModel, SessionModel, StateModel};
use crate::text::{
    after_0x, ascii_lower, decimal, hexadecimal, is_text_before, join, joined, same_text, strip_0x,
    text_before, to_ascii_lower, to_decimal, to_hexadecimal,
};
use super::targets::{
    format_target_matches, read_hash, resolved, sole, sole_target, spelled, target_report,
};
use super::{
    ask, asking, failing, noticing, turn, Hub, Reply, Resume, ResumeModel, Router, Turn, Work,
};
use vstd::prelude::*;

verus! {

broadcast use {group_collections, group_sequences};

/// Whether a session has a peer, as a function.
pub open spec fn having_peer() -> spec_fn((LinkId, SessionModel)) -> bool {
    |entry: (LinkId, SessionModel)| entry.1.peer is Some
}

/// Whether a session has been welcomed, as a function.
pub open spec fn being_welcomed() -> spec_fn((LinkId, SessionModel)) -> bool {
    |entry: (LinkId, SessionModel)| entry.1.welcomed
}

/// How many members the rooms have, taken together.
pub open spec fn memberships(rooms: Seq<(Seq<char>, RoomModel)>) -> nat
    decreases rooms.len(),
{
    if rooms.len() == 0 {
        0
    } else {
        memberships(rooms.drop_last()) + rooms.last().1.members.len()
    }
}

/// A room and how many members it has.
pub struct Busy {
    pub name: String,
    pub count: usize,
}

#[verifier::ext_equal]
pub struct BusyModel {
    pub name: Seq<char>,
    pub count: nat,
}

impl Model for Busy {
    type M = BusyModel;

    open spec fn model(&self) -> BusyModel {
        BusyModel { name: self.name@, count: self.count as nat }
    }
}

impl Ranked for Busy {
    open spec fn ranks_before(left: BusyModel, right: BusyModel) -> bool {
        left.count > right.count || (left.count == right.count && text_before(
            left.name,
            right.name,
        ))
    }

    fn is_before(&self, other: &Self) -> (result: bool) {
        self.count > other.count || (self.count == other.count && is_text_before(
            self.name.as_str(),
            other.name.as_str(),
        ))
    }
}

/// A room with members, as a function.
pub open spec fn being_busy() -> spec_fn((Seq<char>, RoomModel)) -> Option<BusyModel> {
    |entry: (Seq<char>, RoomModel)|
        if entry.1.members.len() == 0 {
            None
        } else {
            Some(BusyModel { name: entry.0, count: entry.1.members.len() })
        }
}

/// The rooms with members, the busiest first.
pub open spec fn busiest(rooms: Seq<(Seq<char>, RoomModel)>) -> Seq<BusyModel> {
    sorted(gathered(rooms, being_busy()), ranking::<Busy>())
}

/// The first items, at most `count`.
pub open spec fn at_most<T>(items: Seq<T>, count: int) -> Seq<T> {
    if items.len() <= count {
        items
    } else {
        items.take(count)
    }
}

/// The line of the busiest rooms, where there are any.
pub open spec fn busy_lines(rooms: Seq<(Seq<char>, RoomModel)>) -> Seq<Seq<char>> {
    let shown = at_most(busiest(rooms), 5);
    if shown.len() == 0 {
        Seq::empty()
    } else {
        seq![
            "top_rooms="@ + joined(
                Seq::new(
                    shown.len(),
                    |i: int| shown[i].name + ":"@ + decimal(shown[i].count),
                ),
                ", "@,
            ),
        ]
    }
}

/// The lines on the hub and its clients.
pub open spec fn client_lines(state: StateModel, uptime: Nanos) -> Seq<Seq<char>> {
    seq![
        "rrcd-rs "@ + SOFTWARE_VERSION@ + " stats"@,
        "uptime_s="@ + tenths(uptime as nat),
        "clients_total="@ + decimal(state.sessions.len()) + " clients_identified="@ + decimal(
            tally(state.sessions, having_peer()),
        ) + " clients_welcomed="@ + decimal(tally(state.sessions, being_welcomed())),
        "rooms="@ + decimal(state.rooms.len()) + " memberships="@ + decimal(
            memberships(state.rooms),
        ),
    ]
}

/// The lines on the configuration.
pub open spec fn policy_lines(config: ConfigModel) -> Seq<Seq<char>> {
    seq![
        "trust: trusted="@ + decimal(config.trusted_identities.len()) + " banned="@ + decimal(
            config.banned_identities.len(),
        ),
        "limits: rate_limit_msgs_per_minute="@ + decimal(config.rate_limit_msgs_per_minute as nat)
            + " max_rooms_per_session="@ + decimal(config.max_rooms_per_session as nat)
            + " max_room_name_bytes="@ + decimal(config.max_room_name_bytes as nat)
            + " max_nick_bytes="@ + decimal(config.max_nick_bytes as nat),
        "features: ping_interval_s="@ + seconds(config.ping_interval as nat) + " ping_timeout_s="@
            + seconds(config.ping_timeout as nat) + " announce_on_start="@ + bool_text(
            config.announce_on_start,
        ) + " announce_period_s="@ + seconds(config.announce_period as nat),
    ]
}

/// The lines on what has been counted.
pub open spec fn counter_lines(counters: Counters) -> Seq<Seq<char>> {
    seq![
        "io: pkts_in="@ + decimal(counters.packets_in as nat) + " pkts_bad="@ + decimal(
            counters.packets_bad as nat,
        ) + " bytes_in="@ + decimal(counters.bytes_in as nat) + " bytes_out="@ + decimal(
            counters.bytes_out as nat,
        ),
        "events: joins="@ + decimal(counters.joins as nat) + " parts="@ + decimal(
            counters.parts as nat,
        ) + " msgs_fwd="@ + decimal(counters.messages_forwarded as nat) + " notices_fwd="@
            + decimal(counters.notices_forwarded as nat) + " actions_fwd="@ + decimal(
            counters.actions_forwarded as nat,
        ) + " errors_sent="@ + decimal(counters.errors as nat) + " rate_limited="@ + decimal(
            counters.rate_limited as nat,
        ),
        "pings: in="@ + decimal(counters.pings_in as nat) + " out="@ + decimal(
            counters.pings_out as nat,
        ) + " pongs: in="@ + decimal(counters.pongs_in as nat) + " out="@ + decimal(
            counters.pongs_out as nat,
        ),
        "announces="@ + decimal(counters.announces as nat),
        "resources: sent="@ + decimal(counters.resources_sent as nat) + " received="@ + decimal(
            counters.resources_received as nat,
        ) + " rejected="@ + decimal(counters.resources_rejected as nat) + " bytes_sent="@ + decimal(
            counters.resource_bytes_sent as nat,
        ) + " bytes_received="@ + decimal(counters.resource_bytes_received as nat),
    ]
}

/// The answer to `/stats`.
pub open spec fn report(hub: Hub, uptime: Nanos) -> Seq<char> {
    joined(
        client_lines(hub.state, uptime) + busy_lines(hub.state.rooms) + policy_lines(hub.config)
            + counter_lines(hub.state.counters),
        "\n"@,
    )
}

/// The links of `peer`.
pub open spec fn links_of(
    sessions: Seq<(LinkId, SessionModel)>,
    peer: IdentityHash,
) -> Seq<LinkId>
    decreases sessions.len(),
{
    if sessions.len() == 0 {
        Seq::empty()
    } else if sessions.last().1.peer == Some(peer) {
        links_of(sessions.drop_last(), peer).push(sessions.last().0)
    } else {
        links_of(sessions.drop_last(), peer)
    }
}

/// The answer to `/kline list`.
pub open spec fn ban_list(banned: Seq<IdentityHash>) -> Seq<char> {
    if banned.len() == 0 {
        "no klines"@
    } else {
        joined(Seq::new(banned.len(), |i: int| hexadecimal(banned[i]@)), " "@)
    }
}

/// What the hub does with `/kline add` and `/kline del` on one identity. All links of a newly
/// banned identity are closed.
pub open spec fn changing_ban(hub: Hub, link: LinkId, adding: bool, target: IdentityHash) -> Turn {
    let banned = hub.config.banned_identities;
    asking(
        Hub {
            config: ConfigModel {
                banned_identities: if adding {
                    with(banned, target)
                } else {
                    without(banned, target)
                },
                ..hub.config
            },
            ..hub
        },
        Seq::empty(),
        Work::SaveBans,
        ResumeModel::Bans {
            link,
            text: "kline "@ + (if adding {
                "added"@
            } else {
                "removed"@
            }) + " for "@ + hexadecimal(target@),
            close: if adding {
                links_of(hub.state.sessions, target)
            } else {
                Seq::empty()
            },
        },
    )
}

/// What the hub does with `/kline`.
pub open spec fn banning(
    hub: Hub,
    link: LinkId,
    peer: IdentityHash,
    parts: Seq<Seq<char>>,
) -> Turn {
    let operation = if parts.len() > 1 {
        ascii_lower(parts[1])
    } else {
        ""@
    };
    if !hub.config.trusted_identities.contains(peer) {
        failing(hub, link, None, "not authorized"@)
    } else if operation == "list"@ {
        noticing(hub, link, None, ban_list(hub.config.banned_identities))
    } else if (operation == "add"@ || operation == "del"@) && parts.len() >= 3 {
        let found = resolved(hub, parts[2], None);
        let target = match sole(found) {
            Some(target) => Some(target),
            None => spelled(after_0x(parts[2])),
        };
        match target {
            None => noticing(hub, link, None, target_report(parts[2], found)),
            Some(target) => changing_ban(hub, link, operation == "add"@, target),
        }
    } else {
        noticing(hub, link, None, "usage: /kline add <nick|hash> | del <hash> | list"@)
    }
}

/// The names of the registered rooms, as a function.
pub open spec fn being_registered() -> spec_fn((Seq<char>, RoomModel)) -> Option<Seq<char>> {
    |entry: (Seq<char>, RoomModel)|
        if entry.1.registered {
            Some(entry.0)
        } else {
            None
        }
}

/// The names of the registered rooms.
pub open spec fn registered_names(rooms: Seq<(Seq<char>, RoomModel)>) -> Seq<Seq<char>> {
    gathered(rooms, being_registered())
}

/// The rooms of the registry with one live room taken into account: its members stay, and it
/// stays without registration where the registry does not know it and somebody is in it.
pub open spec fn merged_one(
    disk: Seq<(Seq<char>, RoomModel)>,
    name: Seq<char>,
    live: RoomModel,
) -> Seq<(Seq<char>, RoomModel)> {
    match lookup(disk, name) {
        Some(room) => put(
            disk,
            name,
            RoomModel {
                members: live.members,
                founder: if room.founder is None {
                    live.founder
                } else {
                    room.founder
                },
                ..room
            },
        ),
        None => if live.members.len() == 0 {
            disk
        } else {
            put(disk, name, RoomModel { registered: false, ..live })
        },
    }
}

/// The rooms of the registry with the live rooms taken into account.
pub open spec fn merged(
    disk: Seq<(Seq<char>, RoomModel)>,
    live: Seq<(Seq<char>, RoomModel)>,
) -> Seq<(Seq<char>, RoomModel)>
    decreases live.len(),
{
    if live.len() == 0 {
        disk
    } else {
        merged_one(merged(disk, live.drop_last()), live.last().0, live.last().1)
    }
}

/// The names that are not among others, with a sign before them, as a function.
pub open spec fn signing(sign: Seq<char>, others: Seq<Seq<char>>) -> spec_fn(Seq<char>) -> Option<
    Seq<char>,
> {
    |name: Seq<char>|
        if others.contains(name) {
            None
        } else {
            Some(sign + name)
        }
}

/// Which registrations have come and gone.
pub open spec fn room_changes(former: Seq<Seq<char>>, latter: Seq<Seq<char>>) -> Seq<Seq<char>> {
    sorted(
        gathered(latter, signing("+ "@, former)) + gathered(former, signing("- "@, latter)),
        ranking::<String>(),
    )
}

/// Lines with a dash before them.
pub open spec fn dashed(lines: Seq<Seq<char>>) -> Seq<Seq<char>> {
    Seq::new(lines.len(), |i: int| "- "@ + lines[i])
}

/// The lines on what has changed in the configuration, at most twelve changes.
pub open spec fn change_lines(changes: Seq<Seq<char>>) -> Seq<Seq<char>> {
    if changes.len() == 0 {
        seq!["config_changes: (none)"@]
    } else {
        seq!["config_changes:"@] + dashed(at_most(changes, 12))
    }
}

/// The lines on what has changed in the registry.
pub open spec fn registry_lines(changes: Seq<Seq<char>>) -> Seq<Seq<char>> {
    seq!["rooms_changes:"@] + if changes.len() == 0 {
        seq!["- (none)"@]
    } else {
        dashed(changes)
    }
}

/// The first lines of the answer to `/reload`.
pub open spec fn reload_lines(
    before: ConfigModel,
    after: ConfigModel,
    former: nat,
    latter: nat,
) -> Seq<Seq<char>> {
    seq![
        "reloaded: trusted="@ + decimal(before.trusted_identities.len()) + "->"@ + decimal(
            after.trusted_identities.len(),
        ) + " banned="@ + decimal(before.banned_identities.len()) + "->"@ + decimal(
            after.banned_identities.len(),
        ) + " registered_rooms="@ + decimal(former) + "->"@ + decimal(latter),
        "policy: max_nick_bytes="@ + decimal(after.max_nick_bytes as nat),
    ]
}

/// The hub with a new configuration and the rooms of the registry. Who is in which room stays as
/// it is.
pub open spec fn reloaded(
    hub: Hub,
    config: ConfigModel,
    disk: Seq<(Seq<char>, RoomModel)>,
) -> Hub {
    Hub {
        config,
        state: StateModel { rooms: merged(disk, hub.state.rooms), ..hub.state },
        ..hub
    }
}

/// The answer to `/reload`.
pub open spec fn reload_summary(
    hub: Hub,
    config: ConfigModel,
    disk: Seq<(Seq<char>, RoomModel)>,
) -> Seq<char> {
    let former = registered_names(hub.state.rooms);
    let latter = registered_names(merged(disk, hub.state.rooms));
    joined(
        reload_lines(hub.config, config, former.len(), latter.len()) + change_lines(
            config_changes(hub.config, config),
        ) + registry_lines(room_changes(former, latter)),
        "\n"@,
    )
}

/// A label and a number.
fn labelled(label: &str, value: u128) -> (result: String)
    ensures
        result@ == label@ + decimal(value as nat),
{
    let mut text = String::from_str(label);
    text.append(to_decimal(value).as_str());
    text
}

/// Another label and a number.
fn label(text: &mut String, label: &str, value: u128)
    ensures
        final(text)@ == old(text)@ + label@ + decimal(value as nat),
{
    text.append(label);
    text.append(to_decimal(value).as_str());
}

fn counter_report(counters: &Counters) -> (result: Vec<String>)
    ensures
        models(result@) == counter_lines(*counters),
{
    let mut lines: Vec<String> = Vec::new();
    let mut line = labelled("io: pkts_in=", counters.packets_in as u128);
    label(&mut line, " pkts_bad=", counters.packets_bad as u128);
    label(&mut line, " bytes_in=", counters.bytes_in as u128);
    label(&mut line, " bytes_out=", counters.bytes_out as u128);
    lines.push(line);
    let mut line = labelled("events: joins=", counters.joins as u128);
    label(&mut line, " parts=", counters.parts as u128);
    label(&mut line, " msgs_fwd=", counters.messages_forwarded as u128);
    label(&mut line, " notices_fwd=", counters.notices_forwarded as u128);
    label(&mut line, " actions_fwd=", counters.actions_forwarded as u128);
    label(&mut line, " errors_sent=", counters.errors as u128);
    label(&mut line, " rate_limited=", counters.rate_limited as u128);
    lines.push(line);
    let mut line = labelled("pings: in=", counters.pings_in as u128);
    label(&mut line, " out=", counters.pings_out as u128);
    label(&mut line, " pongs: in=", counters.pongs_in as u128);
    label(&mut line, " out=", counters.pongs_out as u128);
    lines.push(line);
    lines.push(labelled("announces=", counters.announces as u128));
    let mut line = labelled("resources: sent=", counters.resources_sent as u128);
    label(&mut line, " received=", counters.resources_received as u128);
    label(&mut line, " rejected=", counters.resources_rejected as u128);
    label(&mut line, " bytes_sent=", counters.resource_bytes_sent as u128);
    label(&mut line, " bytes_received=", counters.resource_bytes_received as u128);
    lines.push(line);
    assert(models(lines@) =~= counter_lines(*counters));
    lines
}

fn policy_report(config: &HubConfig) -> (result: Vec<String>)
    ensures
        models(result@) == policy_lines(config.model()),
{
    let mut lines: Vec<String> = Vec::new();
    let mut line = labelled("trust: trusted=", config.trusted_identities.len() as u128);
    label(&mut line, " banned=", config.banned_identities.len() as u128);
    lines.push(line);
    let mut line = labelled(
        "limits: rate_limit_msgs_per_minute=",
        config.rate_limit_msgs_per_minute as u128,
    );
    label(&mut line, " max_rooms_per_session=", config.max_rooms_per_session as u128);
    label(&mut line, " max_room_name_bytes=", config.max_room_name_bytes as u128);
    label(&mut line, " max_nick_bytes=", config.max_nick_bytes as u128);
    lines.push(line);
    let mut line = String::from_str("features: ping_interval_s=");
    line.append(to_seconds(config.ping_interval).as_str());
    line.append(" ping_timeout_s=");
    line.append(to_seconds(config.ping_timeout).as_str());
    line.append(" announce_on_start=");
    line.append(format_bool(config.announce_on_start).as_str());
    line.append(" announce_period_s=");
    line.append(to_seconds(config.announce_period).as_str());
    lines.push(line);
    assert(models(lines@) =~= policy_lines(config.model()));
    lines
}

/// The first items, at most `count`.
fn shorten<T: Model>(items: &mut Vec<T>, count: usize)
    ensures
        models(final(items)@) == at_most(models(old(items)@), count as int),
{
    if items.len() > count {
        items.truncate(count);
        assert(models(items@) =~= models(old(items)@).take(count as int));
    }
}

impl Router {
    fn busy_report(&self) -> (result: Vec<String>)
        ensures
            models(result@) == busy_lines(self.model().state.rooms),
    {
        let ghost all = self.state.rooms.model();
        let mut rooms: Vec<Busy> = Vec::new();
        let mut i: usize = 0;
        while i < self.state.rooms.len()
            invariant
                i <= all.len(),
                all == self.state.rooms.model(),
                models(rooms@) == gathered(all.take(i as int), being_busy()),
            decreases all.len() - i,
        {
            assert(all.take(i + 1).drop_last() == all.take(i as int));
            let count: usize = self.state.rooms.value(i).members.len();
            if count > 0 {
                rooms.push(Busy { name: self.state.rooms.key(i).clone(), count });
            }
            i += 1;
        }
        let mut shown = sort(rooms);
        shorten(&mut shown, 5);
        let ghost top = models(shown@);
        let ghost texts = Seq::new(top.len(), |i: int| top[i].name + ":"@ + decimal(top[i].count));
        let mut result: Vec<String> = Vec::new();
        if shown.len() > 0 {
            let mut parts: Vec<String> = Vec::new();
            let mut j: usize = 0;
            while j < shown.len()
                invariant
                    j <= shown@.len(),
                    top == models(shown@),
                    texts == Seq::new(
                        top.len(),
                        |i: int| top[i].name + ":"@ + decimal(top[i].count),
                    ),
                    models(parts@) == texts.take(j as int),
                decreases shown@.len() - j,
            {
                let mut part = shown[j].name.clone();
                label(&mut part, ":", shown[j].count as u128);
                parts.push(part);
                j += 1;
                assert(models(parts@) =~= texts.take(j as int));
            }
            assert(models(parts@).skip(0) =~= texts);
            let mut line = String::from_str("top_rooms=");
            line.append(join(&parts, 0, ", ").as_str());
            result.push(line);
        }
        assert(models(result@) =~= busy_lines(all));
        result
    }

    fn client_report(&self, uptime: Nanos) -> (result: Vec<String>)
        ensures
            models(result@) == client_lines(self.model().state, uptime),
    {
        let ghost all = self.state.sessions.model();
        let mut identified: u128 = 0;
        let mut welcomed: u128 = 0;
        let mut i: usize = 0;
        while i < self.state.sessions.len()
            invariant
                i <= all.len(),
                identified <= i,
                welcomed <= i,
                all == self.state.sessions.model(),
                identified == tally(all.take(i as int), having_peer()),
                welcomed == tally(all.take(i as int), being_welcomed()),
            decreases all.len() - i,
        {
            assert(all.take(i + 1).drop_last() == all.take(i as int));
            let session = self.state.sessions.value(i);
            if session.peer.is_some() {
                identified += 1;
            }
            if session.welcomed {
                welcomed += 1;
            }
            i += 1;
        }
        let ghost rooms = self.state.rooms.model();
        let mut total: u128 = 0;
        let mut j: usize = 0;
        while j < self.state.rooms.len()
            invariant
                j <= rooms.len(),
                rooms == self.state.rooms.model(),
                total <= j * 0xffff_ffff_ffff_ffff,
                total == memberships(rooms.take(j as int)),
            decreases rooms.len() - j,
        {
            assert(rooms.take(j + 1).drop_last() == rooms.take(j as int));
            let count: usize = self.state.rooms.value(j).members.len();
            assert(total + count <= (j + 1) * 0xffff_ffff_ffff_ffff);
            assert((j + 1) * 0xffff_ffff_ffff_ffff <= u128::MAX) by (nonlinear_arith)
                requires
                    j <= 0xffff_ffff_ffff_ffff,
            ;
            total = total + count as u128;
            j += 1;
        }
        let mut lines: Vec<String> = Vec::new();
        let mut line = String::from_str("rrcd-rs ");
        line.append(SOFTWARE_VERSION);
        line.append(" stats");
        lines.push(line);
        let mut line = String::from_str("uptime_s=");
        line.append(to_tenths(uptime).as_str());
        lines.push(line);
        let mut line = labelled("clients_total=", self.state.sessions.len() as u128);
        label(&mut line, " clients_identified=", identified);
        label(&mut line, " clients_welcomed=", welcomed);
        lines.push(line);
        let mut line = labelled("rooms=", self.state.rooms.len() as u128);
        label(&mut line, " memberships=", total);
        lines.push(line);
        assert(models(lines@) =~= client_lines(self.model().state, uptime));
        lines
    }

    /// The answer to `/stats`.
    pub fn format_stats(&self, uptime: Nanos) -> (result: String)
        ensures
            result@ == report(self.model(), uptime),
    {
        let mut lines = self.client_report(uptime);
        let mut more = self.busy_report();
        lines.append(&mut more);
        let mut more = policy_report(&self.config);
        lines.append(&mut more);
        let mut more = counter_report(&self.state.counters);
        lines.append(&mut more);
        assert(models(lines@).skip(0) =~= models(lines@));
        join(&lines, 0, "\n")
    }

    fn peer_links(&self, peer: &IdentityHash) -> (result: Vec<LinkId>)
        ensures
            result@ == links_of(self.model().state.sessions, *peer),
    {
        let ghost all = self.state.sessions.model();
        let mut links: Vec<LinkId> = Vec::new();
        let mut i: usize = 0;
        while i < self.state.sessions.len()
            invariant
                i <= all.len(),
                all == self.state.sessions.model(),
                links@ == links_of(all.take(i as int), *peer),
            decreases all.len() - i,
        {
            assert(all.take(i + 1).drop_last() == all.take(i as int));
            if crate::state::is_identity(&self.state.sessions.value(i).peer, peer) {
                links.push(*self.state.sessions.key(i));
            }
            i += 1;
        }
        links
    }

    fn list_bans(&self) -> (result: String)
        ensures
            result@ == ban_list(self.model().config.banned_identities),
    {
        let banned = &self.config.banned_identities;
        if banned.len() == 0 {
            return String::from_str("no klines");
        }
        let ghost all = Seq::new(banned@.len(), |i: int| hexadecimal(banned@[i]@));
        let mut lines: Vec<String> = Vec::new();
        let mut i: usize = 0;
        while i < banned.len()
            invariant
                i <= banned@.len(),
                all == Seq::new(banned@.len(), |i: int| hexadecimal(banned@[i]@)),
                models(lines@) == all.take(i as int),
            decreases banned@.len() - i,
        {
            lines.push(to_hexadecimal(banned[i].as_slice()));
            i += 1;
            assert(models(lines@) =~= all.take(i as int));
        }
        assert(models(lines@).skip(0) =~= all);
        join(&lines, 0, " ")
    }

    fn unban(&mut self, target: &IdentityHash)
        ensures
            final(self).model() == (Hub {
                config: ConfigModel {
                    banned_identities: without(
                        old(self).model().config.banned_identities,
                        *target,
                    ),
                    ..old(self).model().config
                },
                ..old(self).model()
            }),
    {
        let ghost all = self.config.banned_identities@;
        let mut kept: Vec<IdentityHash> = Vec::new();
        let mut i: usize = 0;
        while i < self.config.banned_identities.len()
            invariant
                i <= all.len(),
                all == self.config.banned_identities@,
                kept@ == without(all.take(i as int), *target),
            decreases all.len() - i,
        {
            assert(all.take(i + 1).drop_last() == all.take(i as int));
            if !self.config.banned_identities[i].same(target) {
                kept.push(self.config.banned_identities[i]);
            }
            i += 1;
        }
        self.config.banned_identities = kept;
    }

    fn change_ban(&mut self, link: LinkId, adding: bool, target: IdentityHash) -> (result: Reply)
        ensures
            turn(final(self).model(), result) == changing_ban(
                old(self).model(),
                link,
                adding,
                target,
            ),
    {
        let mut text = String::from_str("kline ");
        text.append(
            if adding {
                "added"
            } else {
                "removed"
            },
        );
        text.append(" for ");
        text.append(to_hexadecimal(target.as_slice()).as_str());
        let mut close: Vec<LinkId> = Vec::new();
        if adding {
            close = self.peer_links(&target);
            if !contains_identity(&self.config.banned_identities, &target) {
                self.config.banned_identities.push(target);
            }
        } else {
            self.unban(&target);
        }
        ask(Vec::new(), Work::SaveBans, Resume::Bans { link, text, close })
    }

    /// Handles `/kline`.
    pub(crate) fn kline_command(
        &mut self,
        link: LinkId,
        peer: IdentityHash,
        parts: &Vec<String>,
    ) -> (result: Reply)
        ensures
            turn(final(self).model(), result) == banning(
                old(self).model(),
                link,
                peer,
                models(parts@),
            ),
    {
        if !contains_identity(&self.config.trusted_identities, &peer) {
            return self.refuse(link, None, "not authorized");
        }
        let operation = if parts.len() > 1 {
            to_ascii_lower(parts[1].as_str())
        } else {
            String::from_str("")
        };
        if same_text(operation.as_str(), "list") {
            let text = self.list_bans();
            return self.tell(link, None, text.as_str());
        }
        let adding = same_text(operation.as_str(), "add");
        if (adding || same_text(operation.as_str(), "del")) && parts.len() >= 3 {
            let found = self.resolve_identities(parts[2].as_str(), None);
            let target = match sole_target(&found) {
                Some(target) => Some(target),
                None => read_hash(strip_0x(parts[2].as_str()).as_str()),
            };
            match target {
                Some(target) => self.change_ban(link, adding, target),
                None => {
                    let text = format_target_matches(parts[2].as_str(), &found);
                    self.tell(link, None, text.as_str())
                },
            }
        } else {
            self.tell(link, None, "usage: /kline add <nick|hash> | del <hash> | list")
        }
    }
}

/// The names of the registered rooms.
pub(crate) fn list_registered(rooms: &Table<String, Room>) -> (result: Vec<String>)
    ensures
        models(result@) == registered_names(rooms.model()),
{
    let ghost all = rooms.model();
    let mut names: Vec<String> = Vec::new();
    let mut i: usize = 0;
    while i < rooms.len()
        invariant
            i <= all.len(),
            all == rooms.model(),
            models(names@) == registered_names(all.take(i as int)),
        decreases all.len() - i,
    {
        assert(all.take(i + 1).drop_last() == all.take(i as int));
        if rooms.value(i).registered {
            names.push(rooms.key(i).clone());
        }
        i += 1;
    }
    names
}

fn contains_name(names: &Vec<String>, name: &String) -> (result: bool)
    ensures
        result == models(names@).contains(name@),
{
    let mut i: usize = 0;
    while i < names.len()
        invariant
            i <= names@.len(),
            forall|j: int| 0 <= j < i ==> models(names@)[j] != name@,
        decreases names@.len() - i,
    {
        if names[i].same(name) {
            assert(models(names@)[i as int] == name@);
            return true;
        }
        i += 1;
    }
    false
}

fn sign_names(names: &Vec<String>, sign: &str, others: &Vec<String>) -> (result: Vec<String>)
    ensures
        models(result@) == gathered(models(names@), signing(sign@, models(others@))),
{
    let ghost all = models(names@);
    let mut result: Vec<String> = Vec::new();
    let mut i: usize = 0;
    while i < names.len()
        invariant
            i <= names@.len(),
            all == models(names@),
            models(result@) == gathered(all.take(i as int), signing(sign@, models(others@))),
        decreases names@.len() - i,
    {
        assert(all.take(i + 1).drop_last() == all.take(i as int));
        if !contains_name(others, &names[i]) {
            let mut text = String::from_str(sign);
            text.append(names[i].as_str());
            result.push(text);
        }
        i += 1;
    }
    result
}

fn dash_lines(lines: &Vec<String>) -> (result: Vec<String>)
    ensures
        models(result@) == dashed(models(lines@)),
{
    let ghost all = dashed(models(lines@));
    let mut result: Vec<String> = Vec::new();
    let mut i: usize = 0;
    while i < lines.len()
        invariant
            i <= lines@.len(),
            all == dashed(models(lines@)),
            models(result@) == all.take(i as int),
        decreases lines@.len() - i,
    {
        let mut text = String::from_str("- ");
        text.append(lines[i].as_str());
        result.push(text);
        i += 1;
        assert(models(result@) =~= all.take(i as int));
    }
    assert(all.take(i as int) =~= all);
    result
}

fn merge_room(disk: &mut Table<String, Room>, name: &String, live: &Room)
    ensures
        final(disk).model() == merged_one(old(disk).model(), name@, live.model()),
{
    if let Some(room) = disk.get_mut(name) {
        room.members = live.members.duplicate();
        if room.founder.is_none() {
            room.founder = live.founder;
        }
        return ;
    }
    if live.members.len() > 0 {
        let mut kept = live.duplicate();
        kept.registered = false;
        disk.insert(name.clone(), kept);
    }
}

impl Router {
    /// Takes over a new configuration and the rooms of the registry. Who is in which room stays as
    /// it is. Gives a summary of what has changed.
    pub fn reload(&mut self, config: HubConfig, rooms: Table<String, Room>) -> (result: String)
        ensures
            final(self).model() == reloaded(old(self).model(), config.model(), rooms.model()),
            result@ == reload_summary(old(self).model(), config.model(), rooms.model()),
    {
        let ghost start = self.model();
        let ghost live = self.state.rooms.model();
        let former = list_registered(&self.state.rooms);
        let ghost disk = rooms.model();
        let mut rooms = rooms;
        let mut i: usize = 0;
        while i < self.state.rooms.len()
            invariant
                i <= live.len(),
                live == self.state.rooms.model(),
                rooms.model() == merged(disk, live.take(i as int)),
            decreases live.len() - i,
        {
            assert(live.take(i + 1).drop_last() == live.take(i as int));
            merge_room(&mut rooms, self.state.rooms.key(i), self.state.rooms.value(i));
            i += 1;
        }
        let latter = list_registered(&rooms);
        let mut changed_rooms = sign_names(&latter, "+ ", &former);
        let mut gone = sign_names(&former, "- ", &latter);
        changed_rooms.append(&mut gone);
        let changed_rooms = sort(changed_rooms);
        let mut changes = config_diff(&self.config, &config);
        let mut lines: Vec<String> = Vec::new();
        let mut line = labelled(
            "reloaded: trusted=",
            self.config.trusted_identities.len() as u128,
        );
        label(&mut line, "->", config.trusted_identities.len() as u128);
        label(&mut line, " banned=", self.config.banned_identities.len() as u128);
        label(&mut line, "->", config.banned_identities.len() as u128);
        label(&mut line, " registered_rooms=", former.len() as u128);
        label(&mut line, "->", latter.len() as u128);
        lines.push(line);
        lines.push(labelled("policy: max_nick_bytes=", config.max_nick_bytes as u128));
        assert(models(lines@) =~= reload_lines(
            start.config,
            config.model(),
            former@.len(),
            latter@.len(),
        ));
        let mut more = self.change_report(changes);
        lines.append(&mut more);
        let mut more = self.registry_report(&changed_rooms);
        lines.append(&mut more);
        assert(models(lines@).skip(0) =~= models(lines@));
        let result = join(&lines, 0, "\n");
        self.config = config;
        self.state.rooms = rooms;
        result
    }

    fn change_report(&self, changes: Vec<String>) -> (result: Vec<String>)
        ensures
            models(result@) == change_lines(models(changes@)),
    {
        let mut lines: Vec<String> = Vec::new();
        let mut changes = changes;
        if changes.len() == 0 {
            lines.push(String::from_str("config_changes: (none)"));
            assert(models(lines@) =~= seq!["config_changes: (none)"@]);
        } else {
            lines.push(String::from_str("config_changes:"));
            assert(models(lines@) =~= seq!["config_changes:"@]);
            shorten(&mut changes, 12);
            let mut more = dash_lines(&changes);
            lines.append(&mut more);
        }
        lines
    }

    fn registry_report(&self, changes: &Vec<String>) -> (result: Vec<String>)
        ensures
            models(result@) == registry_lines(models(changes@)),
    {
        let mut lines: Vec<String> = Vec::new();
        lines.push(String::from_str("rooms_changes:"));
        assert(models(lines@) =~= seq!["rooms_changes:"@]);
        if changes.len() == 0 {
            lines.push(String::from_str("- (none)"));
            assert(models(lines@) =~= registry_lines(models(changes@)));
        } else {
            let mut more = dash_lines(changes);
            lines.append(&mut more);
        }
        lines
    }
}

} // verus!
