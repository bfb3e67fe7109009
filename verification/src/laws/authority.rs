//! Commands: how they are spelled, who may give them, and whom they are aimed at.

use crate::clock::{Clock, Nanos};
use crate::collections::{at, distinct, group_collections, group_sequences, holds, ranking, unique};
use crate::outgoing::ActionModel;
use crate::router::access::accessing;
use crate::router::admin::{banning, changing_ban, links_of};
use crate::router::commands::{asking_reload, command_name, running, showing_stats};
use crate::router::moderation::{
    kicking, mode_set, mode_setting, operates_in, registering, setting_member, setting_mode,
    setting_topic,
};
use crate::router::directory::listing_users;
use crate::router::targets::{
    candidates, listed, means, resolved, sole, spelled, within, Candidate, CandidateModel,
};
use crate::router::{failing, following, identifying, Hub, OutcomeModel, ResumeModel, Turn, Work};
use crate::state::{is_on, room_name, IdentityHash, LinkId, RoomModel, RoomNameError, SessionModel};
use crate::text::{after_0x, ascii_lower, lowercase, trimmed};
use super::order::{law_rankings_are_orders, law_sorted};
use super::speech::{lemma_failing, only_errors};
use super::turns::only_counts;
use vstd::prelude::*;

verus! {

broadcast use {group_collections, group_sequences};

/// A command means the same in whatever case its name is written.
pub proof fn law_command_names_ignore_case(
    hub: Hub,
    clock: Clock,
    link: LinkId,
    peer: IdentityHash,
    context: Option<Seq<char>>,
    parts: Seq<Seq<char>>,
    name: Seq<char>,
)
    requires
        parts.len() > 0,
        ascii_lower(name) == ascii_lower(parts[0]),
    ensures
        running(hub, clock, link, peer, context, parts.update(0, name)) == running(
            hub,
            clock,
            link,
            peer,
            context,
            parts,
        ),
{
    let other = parts.update(0, name);
    let now = clock.wall;
    lemma_alike(parts, name);
    lemma_same_users(hub, now, link, peer, context, parts, other);
    lemma_same_bans(hub, now, link, peer, context, parts, other);
    lemma_same_register(hub, now, link, peer, context, parts, other, true);
    lemma_same_register(hub, now, link, peer, context, parts, other, false);
    lemma_same_topic(hub, now, link, peer, context, parts, other);
    lemma_same_mode(hub, now, link, peer, context, parts, other);
    lemma_same_kick(hub, now, link, peer, context, parts, other);
    lemma_same_member(hub, now, link, peer, context, parts, other);
    lemma_same_access(hub, now, link, peer, context, parts, other);
    lemma_same_running(hub, clock, link, peer, context, parts, other);
}

proof fn lemma_same_running(
    hub: Hub,
    clock: Clock,
    link: LinkId,
    peer: IdentityHash,
    context: Option<Seq<char>>,
    parts: Seq<Seq<char>>,
    other: Seq<Seq<char>>,
)
    requires
        command_name(other) == command_name(parts),
        listing_users(hub, link, peer, context, other) == listing_users(
            hub,
            link,
            peer,
            context,
            parts,
        ),
        banning(hub, link, peer, other) == banning(hub, link, peer, parts),
        registering(hub, clock.wall, link, peer, context, other, true) == registering(
            hub,
            clock.wall,
            link,
            peer,
            context,
            parts,
            true,
        ),
        registering(hub, clock.wall, link, peer, context, other, false) == registering(
            hub,
            clock.wall,
            link,
            peer,
            context,
            parts,
            false,
        ),
        setting_topic(hub, clock.wall, link, peer, context, other) == setting_topic(
            hub,
            clock.wall,
            link,
            peer,
            context,
            parts,
        ),
        setting_mode(hub, clock.wall, link, peer, context, other) == setting_mode(
            hub,
            clock.wall,
            link,
            peer,
            context,
            parts,
        ),
        kicking(hub, link, peer, context, other) == kicking(hub, link, peer, context, parts),
        setting_member(hub, clock.wall, link, peer, context, other) == setting_member(
            hub,
            clock.wall,
            link,
            peer,
            context,
            parts,
        ),
        accessing(hub, clock.wall, link, peer, context, other) == accessing(
            hub,
            clock.wall,
            link,
            peer,
            context,
            parts,
        ),
    ensures
        running(hub, clock, link, peer, context, other) == running(
            hub,
            clock,
            link,
            peer,
            context,
            parts,
        ),
{
}

/// Whether two commands have the same words, but for the case of the first.
#[verifier::opaque]
spec fn alike(parts: Seq<Seq<char>>, other: Seq<Seq<char>>) -> bool {
    &&& parts.len() > 0
    &&& parts.len() == other.len()
    &&& ascii_lower(parts[0]) == ascii_lower(other[0])
    &&& parts.len() > 1 ==> parts[1] == other[1]
    &&& parts.len() > 2 ==> parts[2] == other[2]
    &&& parts.len() > 3 ==> parts[3] == other[3]
    &&& parts.len() > 2 ==> parts.skip(2) == other.skip(2)
    &&& parts.len() > 3 ==> parts.skip(3) == other.skip(3)
}

proof fn lemma_alike(parts: Seq<Seq<char>>, name: Seq<char>)
    requires
        parts.len() > 0,
        ascii_lower(name) == ascii_lower(parts[0]),
    ensures
        alike(parts, parts.update(0, name)),
        command_name(parts.update(0, name)) == command_name(parts),
{
    reveal(alike);
    let other = parts.update(0, name);
    assert(parts.len() > 2 ==> parts.skip(2) == other.skip(2));
    assert(parts.len() > 3 ==> parts.skip(3) == other.skip(3));
}

proof fn lemma_same_topic(
    hub: Hub,
    now: Nanos,
    link: LinkId,
    peer: IdentityHash,
    context: Option<Seq<char>>,
    parts: Seq<Seq<char>>,
    other: Seq<Seq<char>>,
)
    requires
        alike(parts, other),
    ensures
        setting_topic(hub, now, link, peer, context, other) == setting_topic(hub, now, link, peer, context, parts),
{
    reveal(alike);
}

proof fn lemma_same_member(
    hub: Hub,
    now: Nanos,
    link: LinkId,
    peer: IdentityHash,
    context: Option<Seq<char>>,
    parts: Seq<Seq<char>>,
    other: Seq<Seq<char>>,
)
    requires
        alike(parts, other),
    ensures
        setting_member(hub, now, link, peer, context, other) == setting_member(hub, now, link, peer, context, parts),
{
    reveal(alike);
}

proof fn lemma_same_access(
    hub: Hub,
    now: Nanos,
    link: LinkId,
    peer: IdentityHash,
    context: Option<Seq<char>>,
    parts: Seq<Seq<char>>,
    other: Seq<Seq<char>>,
)
    requires
        alike(parts, other),
    ensures
        accessing(hub, now, link, peer, context, other) == accessing(hub, now, link, peer, context, parts),
{
    reveal(alike);
}

proof fn lemma_same_kick(
    hub: Hub,
    now: Nanos,
    link: LinkId,
    peer: IdentityHash,
    context: Option<Seq<char>>,
    parts: Seq<Seq<char>>,
    other: Seq<Seq<char>>,
)
    requires
        alike(parts, other),
    ensures
        kicking(hub, link, peer, context, other) == kicking(hub, link, peer, context, parts),
{
    reveal(alike);
}

proof fn lemma_same_bans(
    hub: Hub,
    now: Nanos,
    link: LinkId,
    peer: IdentityHash,
    context: Option<Seq<char>>,
    parts: Seq<Seq<char>>,
    other: Seq<Seq<char>>,
)
    requires
        alike(parts, other),
    ensures
        banning(hub, link, peer, other) == banning(hub, link, peer, parts),
{
    reveal(alike);
}

proof fn lemma_same_users(
    hub: Hub,
    now: Nanos,
    link: LinkId,
    peer: IdentityHash,
    context: Option<Seq<char>>,
    parts: Seq<Seq<char>>,
    other: Seq<Seq<char>>,
)
    requires
        alike(parts, other),
    ensures
        listing_users(hub, link, peer, context, other) == listing_users(hub, link, peer, context, parts),
{
    reveal(alike);
}

proof fn lemma_same_register(
    hub: Hub,
    now: Nanos,
    link: LinkId,
    peer: IdentityHash,
    context: Option<Seq<char>>,
    parts: Seq<Seq<char>>,
    other: Seq<Seq<char>>,
    register: bool,
)
    requires
        alike(parts, other),
    ensures
        registering(hub, now, link, peer, context, other, register) == registering(hub, now, link, peer, context, parts, register),
{
    reveal(alike);
}

proof fn lemma_same_mode(
    hub: Hub,
    now: Nanos,
    link: LinkId,
    peer: IdentityHash,
    context: Option<Seq<char>>,
    parts: Seq<Seq<char>>,
    other: Seq<Seq<char>>,
)
    requires
        alike(parts, other),
    ensures
        setting_mode(hub, now, link, peer, context, other) == setting_mode(
            hub,
            now,
            link,
            peer,
            context,
            parts,
        ),
{
    reveal(alike);
    lemma_same_setting(hub, now, link, peer, context, parts, other);
}

/// Setting a mode depends on no word before the room, and on the flag but for its case.
proof fn lemma_same_setting(
    hub: Hub,
    now: Nanos,
    link: LinkId,
    peer: IdentityHash,
    context: Option<Seq<char>>,
    parts: Seq<Seq<char>>,
    other: Seq<Seq<char>>,
)
    requires
        parts.len() == other.len(),
        parts.len() > 1 ==> parts[1] == other[1],
        parts.len() > 2 ==> ascii_lower(parts[2]) == ascii_lower(other[2]),
        parts.len() > 3 ==> parts[3] == other[3],
        parts.len() > 3 ==> parts.skip(3) == other.skip(3),
    ensures
        setting_mode(hub, now, link, peer, context, other) == setting_mode(
            hub,
            now,
            link,
            peer,
            context,
            parts,
        ),
{
    if parts.len() > 2 {
        let flag = ascii_lower(parts[2]);
        assert forall|room: RoomModel| #[trigger] mode_set(room, flag, other) == mode_set(
            room,
            flag,
            parts,
        ) by {}
        assert forall|name: Seq<char>, room: RoomModel| #[trigger]
            mode_setting(hub, now, link, peer, context, other, name, room) == mode_setting(
                hub,
                now,
                link,
                peer,
                context,
                parts,
                name,
                room,
            ) by {
            assert(mode_set(room, flag, other) == mode_set(room, flag, parts));
        }
    }
}

/// A mode flag means the same in whatever case it is written.
pub proof fn law_mode_flags_ignore_case(
    hub: Hub,
    now: Nanos,
    link: LinkId,
    peer: IdentityHash,
    context: Option<Seq<char>>,
    parts: Seq<Seq<char>>,
    flag: Seq<char>,
)
    requires
        parts.len() > 2,
        ascii_lower(flag) == ascii_lower(parts[2]),
    ensures
        setting_mode(hub, now, link, peer, context, parts.update(2, flag)) == setting_mode(
            hub,
            now,
            link,
            peer,
            context,
            parts,
        ),
{
    let other = parts.update(2, flag);
    assert(parts.skip(3) == other.skip(3));
    lemma_same_setting(hub, now, link, peer, context, parts, other);
}

/// The commands of the hub's operators do nothing for anyone who is not trusted, but for an error.
pub proof fn law_untrusted_change_nothing(
    hub: Hub,
    clock: Clock,
    link: LinkId,
    peer: IdentityHash,
    parts: Seq<Seq<char>>,
)
    requires
        !hub.config.trusted_identities.contains(peer),
    ensures
        showing_stats(hub, clock, link, peer) == failing(hub, link, None, "not authorized"@),
        asking_reload(hub, link, peer) == failing(hub, link, None, "not authorized"@),
        banning(hub, link, peer, parts) == failing(hub, link, None, "not authorized"@),
{
}

/// Whether a command had no effect but on the counters, and asks for no work on files.
pub open spec fn in_vain(hub: Hub, done: Turn) -> bool {
    only_counts(hub, done.hub) && done.pending is None
}

/// Whether an access command is to add, to delete or to list.
pub open spec fn access_operation(parts: Seq<Seq<char>>) -> bool {
    let operation = ascii_lower(parts[2]);
    ascii_lower(parts[0]) == "/unban"@ || operation == "add"@ || operation == "del"@ || operation
        == "list"@
}

/// The commands of a room's operators have no effect for anyone else: modes, operators, voices,
/// invitations, bans and kicks, and the topic where it is restricted. Who asks for invitations or
/// bans to be changed or listed is answered with an error alone.
pub proof fn law_others_change_nothing(
    hub: Hub,
    now: Nanos,
    link: LinkId,
    peer: IdentityHash,
    context: Option<Seq<char>>,
    parts: Seq<Seq<char>>,
    name: Seq<char>,
)
    requires
        parts.len() > 1,
        room_name(parts[1], hub.config.max_room_name_bytes as nat) == Ok::<
            Seq<char>,
            RoomNameError,
        >(name),
        !operates_in(hub.state, name, peer),
    ensures
        in_vain(hub, setting_mode(hub, now, link, peer, context, parts)),
        in_vain(hub, setting_member(hub, now, link, peer, context, parts)),
        in_vain(hub, accessing(hub, now, link, peer, context, parts)),
        parts.len() > 2 && access_operation(parts) ==> {
            let done = accessing(hub, now, link, peer, context, parts);
            &&& done == failing(hub, link, Some(name), "not authorized"@)
            &&& only_errors(done.outs, link)
        },
        in_vain(hub, kicking(hub, link, peer, context, parts)),
        holds(hub.state.rooms, name) && at(hub.state.rooms, name).topic_ops_only ==> in_vain(
            hub,
            setting_topic(hub, now, link, peer, context, parts),
        ),
{
    let done = accessing(hub, now, link, peer, context, parts);
    if parts.len() > 2 && access_operation(parts) {
        assert(done == failing(hub, link, Some(name), "not authorized"@));
        lemma_failing(hub, link, Some(name), "not authorized"@);
    }
}

proof fn lemma_links_of(
    sessions: Seq<(LinkId, SessionModel)>,
    peer: IdentityHash,
    link: LinkId,
)
    requires
        unique(sessions),
    ensures
        links_of(sessions, peer).contains(link) == is_on(sessions, link, peer),
        distinct(links_of(sessions, peer)),
        forall|i: int|
            0 <= i < links_of(sessions, peer).len() ==> exists|j: int|
                0 <= j < sessions.len() && (#[trigger] sessions[j]).0 == #[trigger] links_of(
                    sessions,
                    peer,
                )[i],
    decreases sessions.len(),
{
    let links = links_of(sessions, peer);
    if sessions.len() > 0 {
        let rest = sessions.drop_last();
        let last = sessions.last();
        assert(unique(rest)) by {
            assert forall|i: int, j: int| 0 <= i < j < rest.len() implies (#[trigger] rest[i]).0 != (
            #[trigger] rest[j]).0 by {
                assert(sessions[i].0 != sessions[j].0);
            }
        }
        lemma_links_of(rest, peer, link);
        lemma_links_of(rest, peer, last.0);
        let less = links_of(rest, peer);
        assert(!holds(rest, last.0)) by {
            if holds(rest, last.0) {
                let i = choose|i: int| 0 <= i < rest.len() && (#[trigger] rest[i]).0 == last.0;
                assert(sessions[i].0 != sessions[sessions.len() - 1].0);
            }
        }
        assert(!less.contains(last.0));
        assert(holds(sessions, link) == (last.0 == link || holds(rest, link))) by {
            if holds(sessions, link) {
                let i = choose|i: int| 0 <= i < sessions.len() && (#[trigger] sessions[i]).0 == link;
                if i < rest.len() {
                    assert(rest[i].0 == link);
                }
            }
            if holds(rest, link) {
                let i = choose|i: int| 0 <= i < rest.len() && (#[trigger] rest[i]).0 == link;
                assert(sessions[i].0 == link);
            }
            assert(sessions[sessions.len() - 1].0 == last.0);
        }
        assert forall|i: int| 0 <= i < links.len() implies exists|j: int|
            0 <= j < sessions.len() && (#[trigger] sessions[j]).0 == #[trigger] links[i] by {
            if i < less.len() {
                assert(links[i] == less[i]);
                let j = choose|j: int| 0 <= j < rest.len() && (#[trigger] rest[j]).0 == less[i];
                assert(sessions[j].0 == links[i]);
            } else {
                assert(sessions[sessions.len() - 1].0 == links[i]);
            }
        }
        if last.1.peer == Some(peer) {
            assert(links[less.len() as int] == last.0);
            assert(links.contains(link) == (link == last.0 || less.contains(link))) by {
                if less.contains(link) {
                    let i = choose|i: int| 0 <= i < less.len() && less[i] == link;
                    assert(links[i] == link);
                }
                if links.contains(link) {
                    let i = choose|i: int| 0 <= i < links.len() && links[i] == link;
                    if i < less.len() {
                        assert(less[i] == link);
                    }
                }
            }
            assert forall|i: int, j: int| 0 <= i < j < links.len() implies #[trigger] links[i]
                != #[trigger] links[j] by {
                if j == less.len() {
                    assert(less.contains(less[i]));
                }
            }
        }
    }
}

/// Banning an identity from the hub closes every link on which it is connected, each once, and no
/// other, as soon as the ban is saved; and from then on no link of that identity is let in.
pub proof fn law_ban_closes_every_link(
    hub: Hub,
    link: LinkId,
    target: IdentityHash,
    other: LinkId,
)
    requires
        unique(hub.state.sessions),
    ensures
        ({
            let done = changing_ban(hub, link, true, target);
            let resume = done.pending->0.resume;
            &&& done.pending is Some
            &&& done.pending->0.work == Work::SaveBans
            &&& resume is Bans
            &&& distinct(resume->Bans_close)
            &&& resume->Bans_close.contains(other) == is_on(hub.state.sessions, other, target)
            &&& identifying(done.hub, other, target) == (
                done.hub,
                seq![ActionModel::Close(other)],
            )
        }),
{
    lemma_links_of(hub.state.sessions, target, other);
}

/// Lifting a ban lets the identity in again, and changes nothing for any other.
pub proof fn law_lifted_ban_lets_in(
    hub: Hub,
    link: LinkId,
    target: IdentityHash,
    other: IdentityHash,
)
    ensures
        !changing_ban(hub, link, false, target).hub.config.banned_identities.contains(target),
        other != target ==> changing_ban(
            hub,
            link,
            false,
            target,
        ).hub.config.banned_identities.contains(other) == hub.config.banned_identities.contains(
            other,
        ),
{
}

pub proof fn lemma_candidates(
    sessions: Seq<(LinkId, SessionModel)>,
    token: Seq<char>,
    room: Option<Seq<char>>,
    identity: IdentityHash,
)
    ensures
        listed(candidates(sessions, token, room), identity) == exists|i: int|
            0 <= i < sessions.len() && (#[trigger] sessions[i]).1.peer == Some(identity) && within(
                sessions[i].1,
                room,
            ) && means(token, sessions[i].1),
        forall|i: int, j: int|
            0 <= i < j < candidates(sessions, token, room).len() ==> (#[trigger] candidates(
                sessions,
                token,
                room,
            )[i]).identity != (#[trigger] candidates(sessions, token, room)[j]).identity,
    decreases sessions.len(),
{
    let all = candidates(sessions, token, room);
    if sessions.len() > 0 {
        let rest = sessions.drop_last();
        let session = sessions.last().1;
        lemma_candidates(rest, token, room, identity);
        let before = candidates(rest, token, room);
        let meant = within(session, room) && means(token, session);
        let found = exists|i: int|
            0 <= i < rest.len() && (#[trigger] rest[i]).1.peer == Some(identity) && within(
                rest[i].1,
                room,
            ) && means(token, rest[i].1);
        let now_found = exists|i: int|
            0 <= i < sessions.len() && (#[trigger] sessions[i]).1.peer == Some(identity) && within(
                sessions[i].1,
                room,
            ) && means(token, sessions[i].1);
        assert(now_found == (found || (meant && session.peer == Some(identity)))) by {
            if found {
                let i = choose|i: int|
                    0 <= i < rest.len() && (#[trigger] rest[i]).1.peer == Some(identity) && within(
                        rest[i].1,
                        room,
                    ) && means(token, rest[i].1);
                assert(sessions[i].1.peer == Some(identity));
            }
            if meant && session.peer == Some(identity) {
                assert(sessions[sessions.len() - 1].1.peer == Some(identity));
            }
            if now_found {
                let i = choose|i: int|
                    0 <= i < sessions.len() && (#[trigger] sessions[i]).1.peer == Some(identity)
                        && within(sessions[i].1, room) && means(token, sessions[i].1);
                if i < rest.len() {
                    assert(rest[i].1.peer == Some(identity));
                }
            }
        }
        if meant && !listed(before, session.peer->0) {
            let last = CandidateModel { identity: session.peer->0, nick: session.nick };
            assert(all == before.push(last));
            assert(listed(all, identity) == (listed(before, identity) || session.peer->0
                == identity)) by {
                if listed(before, identity) {
                    let i = choose|i: int|
                        0 <= i < before.len() && (#[trigger] before[i]).identity == identity;
                    assert(all[i].identity == identity);
                }
                if listed(all, identity) {
                    let i = choose|i: int|
                        0 <= i < all.len() && (#[trigger] all[i]).identity == identity;
                    if i < before.len() {
                        assert(before[i].identity == identity);
                    }
                }
                assert(all[before.len() as int].identity == session.peer->0);
            }
            assert forall|i: int, j: int| 0 <= i < j < all.len() implies (#[trigger] all[i]).identity
                != (#[trigger] all[j]).identity by {
                if j == before.len() {
                    assert(before[i].identity != session.peer->0);
                } else {
                    assert(before[i].identity != before[j].identity);
                }
            }
        }
    }
}

/// A target that a nickname or a prefix names is the only identity that it fits. Where several fit,
/// none is picked.
pub proof fn law_target_is_unambiguous(
    hub: Hub,
    token: Seq<char>,
    room: Option<Seq<char>>,
    i: int,
)
    requires
        0 <= i < hub.state.sessions.len(),
        sole(resolved(hub, token, room)) is Some,
        hub.state.sessions[i].1.peer is Some,
        within(hub.state.sessions[i].1, room),
        means(lowercase(trimmed(token)), hub.state.sessions[i].1),
    ensures
        hub.state.sessions[i].1.peer == sole(resolved(hub, token, room)),
{
    let plain = lowercase(trimmed(token));
    let peer = hub.state.sessions[i].1.peer->0;
    let found = candidates(hub.state.sessions, plain, room);
    lemma_candidates(hub.state.sessions, plain, room, peer);
    assert(listed(found, peer));
    let k = choose|k: int| 0 <= k < found.len() && (#[trigger] found[k]).identity == peer;
    law_rankings_are_orders();
    law_sorted(found, ranking::<Candidate>());
    let all = resolved(hub, token, room);
    assert(found.contains(found[k]));
    assert(all.contains(found[k]));
    let j = choose|j: int| 0 <= j < all.len() && all[j] == found[k];
    assert(all[0].identity == peer);
}

/// Where a nickname or a prefix fits no identity or several, a command that needs a target has no
/// effect but on the counters, unless the target is a full hash.
pub proof fn law_ambiguous_target_changes_nothing(
    hub: Hub,
    now: Nanos,
    link: LinkId,
    peer: IdentityHash,
    context: Option<Seq<char>>,
    parts: Seq<Seq<char>>,
    name: Seq<char>,
)
    requires
        parts.len() > 2,
        room_name(parts[1], hub.config.max_room_name_bytes as nat) == Ok::<
            Seq<char>,
            RoomNameError,
        >(name),
    ensures
        sole(resolved(hub, parts[2], Some(name))) is None ==> in_vain(
            hub,
            setting_member(hub, now, link, peer, context, parts),
        ) && in_vain(hub, kicking(hub, link, peer, context, parts)),
        sole(resolved(hub, parts[2], None)) is None && spelled(after_0x(parts[2])) is None
            ==> in_vain(hub, banning(hub, link, peer, parts)),
{
}

/// Work on files that fails changes nothing but the counters: what was changed stays changed, and
/// no configuration or room is taken over.
pub proof fn law_failed_work_only_counts(hub: Hub, resume: ResumeModel, error: Seq<char>)
    ensures
        in_vain(hub, following(hub, resume, OutcomeModel::Failed(error))),
{
}

} // verus!
