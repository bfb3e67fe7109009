//! Every event on a link, and every tick of the clock, keeps the hub's invariant and the bound on
//! announced resources.

use crate::clock::{later, Clock, Nanos};
use crate::collections::{
    at, group_collections, group_sequences, holds, kept, lemma_unique_dropped, lemma_unique_put,
    lookup, put, unique,
};
use crate::config::{hash_of, ConfigModel};
use crate::outgoing::ActionModel;
use crate::protocol::{decoded, FieldMap};
use crate::registry::{loaded, read_invitations, InvitationModel, RecordModel};
use crate::router::access::{access_set, accessing, changing_access, Access};
use crate::router::admin::{banning, reloaded};
use crate::router::commands::{command_name, commanding, running};
use crate::router::directory::listing_users;
use crate::router::liveness::{pruning, ticking, uninvited_all};
use crate::router::membership::{
    carried_nick, closing, greeting, hello_nick, joined_state, joining, nicked_if, parting,
    rooms_on, touched, welcomed,
};
use crate::router::messages::{is_command, passed_hub, passed_nick, passing};
use crate::router::moderation::{
    evicted, kicking, member_set, mode_set, registering, registered_as, setting_member,
    setting_mode, setting_topic, with_room,
};
use crate::router::resources::{
    announcing_resource, awaited, being_awaited, fitting_index, passing_text, receiving,
    telling_all,
};
use crate::router::rooms::{announcing, announcing_in, members_of, renaming};
use crate::router::{
    following, handling, identifying, new_hub, packet_counted, reading, recounted, resuming, sent,
    ExpectationModel, Extensions, Hub, OutcomeModel, PendingModel, ResumeModel,
};
use crate::state::{
    established, nick_on, token_taken, IdentityHash, LinkId, RoomModel, SessionModel, StateModel,
};
use super::sound::{lemma_sound_counters, lemma_sound_session, orderly, sound};
use super::steps::{
    deserted, law_closed_is_sound, law_established_is_sound, law_evicted_is_sound,
    law_identified_is_sound, law_joined_is_sound, law_nicked_is_sound, law_parted_is_sound,
    law_pinged_is_sound, law_pruned_is_sound, law_reloaded_is_sound, law_room_set_is_sound,
    law_touched_is_sound, law_uninvited_is_sound,
};
use vstd::prelude::*;

verus! {

broadcast use {group_collections, group_sequences};

/// Whether nothing but the counters has changed.
pub open spec fn only_counts(before: Hub, after: Hub) -> bool {
    after == recounted(before, after.state.counters)
}

/// Whether nothing outside the state has changed but the banned identities.
pub open spec fn steady(before: Hub, after: Hub) -> bool {
    &&& after.identity == before.identity
    &&& after.extensions == before.extensions
    &&& after.expected == before.expected
    &&& after.last_prune == before.last_prune
    &&& after.config == (ConfigModel {
        banned_identities: after.config.banned_identities,
        ..before.config
    })
}

/// Whether a step from a sound hub leads to a sound hub, and changes nothing outside the state but
/// the banned identities.
#[verifier::opaque]
pub open spec fn fine(before: Hub, after: Hub) -> bool {
    steady(before, after) && (sound(before.state) ==> sound(after.state))
}

proof fn lemma_only_counts(before: Hub, after: Hub)
    requires
        only_counts(before, after),
    ensures
        fine(before, after),
{
    reveal(fine);
    if sound(before.state) {
        lemma_sound_counters(before.state, after.state);
    }
}

/// Telling the links of a room something changes nothing but the counters.
pub proof fn law_announcing_only_counts(
    hub: Hub,
    name: Seq<char>,
    to: Seq<LinkId>,
    text: Seq<char>,
)
    ensures
        only_counts(hub, announcing(hub, name, to, text).hub),
    decreases to.len(),
{
    if to.len() > 0 {
        law_announcing_only_counts(hub, name, to.drop_last(), text);
    }
}

proof fn lemma_announcing_in(hub: Hub, names: Seq<Seq<char>>, text: Seq<char>)
    ensures
        only_counts(hub, announcing_in(hub, names, text).hub),
    decreases names.len(),
{
    if names.len() > 0 {
        lemma_announcing_in(hub, names.drop_last(), text);
        let before = announcing_in(hub, names.drop_last(), text);
        law_announcing_only_counts(
            before.hub,
            names.last(),
            members_of(before.hub.state, names.last()),
            text,
        );
    }
}

/// Saying that a nickname has changed changes nothing but the counters.
pub proof fn law_renaming_only_counts(
    hub: Hub,
    link: LinkId,
    peer: IdentityHash,
    previous: Option<Seq<char>>,
)
    ensures
        only_counts(hub, renaming(hub, link, peer, previous).hub),
{
    match lookup(hub.state.sessions, link) {
        None => {},
        Some(session) => {
            if session.nick != previous {
                lemma_announcing_in(
                    hub,
                    session.rooms,
                    "nick changed: "@ + crate::router::rooms::shown(previous, peer) + " -> "@
                        + crate::router::rooms::shown(session.nick, peer),
                );
            }
        },
    }
}

proof fn lemma_telling_all(
    hub: Hub,
    to: Seq<LinkId>,
    source: IdentityHash,
    nick: Option<Seq<char>>,
    room: Seq<char>,
    kind: Seq<char>,
    text: Seq<char>,
)
    ensures
        only_counts(hub, telling_all(hub, to, source, nick, room, kind, text).hub),
    decreases to.len(),
{
    if to.len() > 0 {
        lemma_telling_all(hub, to.drop_last(), source, nick, room, kind, text);
    }
}

proof fn lemma_with_room(hub: Hub, name: Seq<char>, room: RoomModel)
    requires
        holds(hub.state.rooms, name),
        room.members == at(hub.state.rooms, name).members,
        sound(hub.state) ==> unique(room.invited),
    ensures
        fine(hub, with_room(hub, name, room)),
{
    reveal(fine);
    if sound(hub.state) {
        law_room_set_is_sound(hub.state, with_room(hub, name, room).state, name, room);
    }
}

proof fn lemma_registering(
    hub: Hub,
    now: Nanos,
    link: LinkId,
    peer: IdentityHash,
    context: Option<Seq<char>>,
    parts: Seq<Seq<char>>,
    register: bool,
)
    ensures
        fine(hub, registering(hub, now, link, peer, context, parts, register).hub),
{
    reveal(fine);
    let done = registering(hub, now, link, peer, context, parts, register);
    if !only_counts(hub, done.hub) {
        let name = crate::state::room_name(parts[1], hub.config.max_room_name_bytes as nat)->Ok_0;
        let room = at(hub.state.rooms, name);
        lemma_with_room(hub, name, registered_as(room, peer, register, now));
    } else {
        lemma_only_counts(hub, done.hub);
    }
}

proof fn lemma_setting_topic(
    hub: Hub,
    now: Nanos,
    link: LinkId,
    peer: IdentityHash,
    context: Option<Seq<char>>,
    parts: Seq<Seq<char>>,
)
    ensures
        fine(hub, setting_topic(hub, now, link, peer, context, parts).hub),
{
    reveal(fine);
    let done = setting_topic(hub, now, link, peer, context, parts);
    if !only_counts(hub, done.hub) {
        let name = crate::state::room_name(parts[1], hub.config.max_room_name_bytes as nat)->Ok_0;
        let room = at(hub.state.rooms, name);
        let topic = crate::text::joined(parts.skip(2), " "@);
        lemma_with_room(
            hub,
            name,
            RoomModel {
                topic: if topic.len() == 0 {
                    None
                } else {
                    Some(topic)
                },
                last_used_ts: now,
                ..room
            },
        );
    } else {
        lemma_only_counts(hub, done.hub);
    }
}

proof fn lemma_setting_member(
    hub: Hub,
    now: Nanos,
    link: LinkId,
    peer: IdentityHash,
    context: Option<Seq<char>>,
    parts: Seq<Seq<char>>,
)
    ensures
        fine(hub, setting_member(hub, now, link, peer, context, parts).hub),
{
    reveal(fine);
    let done = setting_member(hub, now, link, peer, context, parts);
    if !only_counts(hub, done.hub) {
        let name = crate::state::room_name(parts[1], hub.config.max_room_name_bytes as nat)->Ok_0;
        let room = at(hub.state.rooms, name);
        let found = crate::router::targets::resolved(hub, parts[2], Some(name));
        let target = crate::router::targets::sole(found)->0;
        let command = crate::text::ascii_lower(parts[0]);
        lemma_with_room(
            hub,
            name,
            RoomModel { last_used_ts: now, ..member_set(room, command, target) },
        );
    } else {
        lemma_only_counts(hub, done.hub);
    }
}

proof fn lemma_setting_mode(
    hub: Hub,
    now: Nanos,
    link: LinkId,
    peer: IdentityHash,
    context: Option<Seq<char>>,
    parts: Seq<Seq<char>>,
)
    ensures
        fine(hub, setting_mode(hub, now, link, peer, context, parts).hub),
{
    reveal(fine);
    let done = setting_mode(hub, now, link, peer, context, parts);
    if !only_counts(hub, done.hub) {
        let name = crate::state::room_name(parts[1], hub.config.max_room_name_bytes as nat)->Ok_0;
        let room = at(hub.state.rooms, name);
        let flag = crate::text::ascii_lower(parts[2]);
        match crate::router::moderation::member_command(flag) {
            Some(command) => {
                lemma_setting_member(
                    hub,
                    now,
                    link,
                    peer,
                    context,
                    seq![
                        command,
                        parts[1],
                        if parts.len() > 3 {
                            parts[3]
                        } else {
                            ""@
                        },
                    ],
                );
            },
            None => {
                let set = mode_set(room, flag, parts)->0;
                lemma_with_room(hub, name, RoomModel { last_used_ts: now, ..set });
            },
        }
    } else {
        lemma_only_counts(hub, done.hub);
    }
}

proof fn lemma_kicking(
    hub: Hub,
    link: LinkId,
    peer: IdentityHash,
    context: Option<Seq<char>>,
    parts: Seq<Seq<char>>,
)
    ensures
        fine(hub, kicking(hub, link, peer, context, parts).hub),
{
    reveal(fine);
    let done = kicking(hub, link, peer, context, parts);
    if !only_counts(hub, done.hub) {
        let name = crate::state::room_name(parts[1], hub.config.max_room_name_bytes as nat)->Ok_0;
        let found = crate::router::targets::resolved(hub, parts[2], Some(name));
        let target = crate::router::targets::sole(found)->0;
        let target_link = at(hub.state.links_by_identity, target);
        let out = Hub { state: evicted(hub.state, target_link, name), ..hub };
        if sound(hub.state) {
            law_evicted_is_sound(hub.state, target_link, name);
        }
        lemma_only_counts(out, done.hub);
    } else {
        lemma_only_counts(hub, done.hub);
    }
}

proof fn lemma_changing_access(
    hub: Hub,
    now: Nanos,
    link: LinkId,
    context: Option<Seq<char>>,
    access: Access,
    name: Seq<char>,
    token: Seq<char>,
    target: IdentityHash,
)
    requires
        holds(hub.state.rooms, name),
    ensures
        fine(hub, changing_access(hub, now, link, context, access, name, token, target).hub),
{
    reveal(fine);
    let timeout = hub.config.room_invite_timeout;
    let former = at(hub.state.rooms, name);
    let room = access_set(former, access, target, now, timeout);
    if sound(hub.state) {
        lemma_unique_put(former.invited, target, later(now, timeout));
        lemma_unique_dropped(former.invited, target);
    }
    lemma_with_room(hub, name, room);
    let set = with_room(hub, name, room);
    if sound(hub.state) && access == Access::Ban {
        match lookup(hub.state.links_by_identity, target) {
            Some(target_link) => {
                law_evicted_is_sound(set.state, target_link, name);
            },
            None => {},
        }
    }
}

proof fn lemma_accessing(
    hub: Hub,
    now: Nanos,
    link: LinkId,
    peer: IdentityHash,
    context: Option<Seq<char>>,
    parts: Seq<Seq<char>>,
)
    ensures
        fine(hub, accessing(hub, now, link, peer, context, parts).hub),
{
    reveal(fine);
    let done = accessing(hub, now, link, peer, context, parts);
    if !only_counts(hub, done.hub) {
        let name = crate::state::room_name(parts[1], hub.config.max_room_name_bytes as nat)->Ok_0;
        let command = crate::text::ascii_lower(parts[0]);
        let invitations = command == "/invite"@;
        let operation = if command == "/unban"@ {
            "del"@
        } else {
            crate::text::ascii_lower(parts[2])
        };
        let token = if command == "/unban"@ {
            2int
        } else {
            3int
        };
        let access = crate::router::access::access_of(invitations, operation == "add"@);
        let place = if access == Access::Invite || access == Access::Uninvite {
            None
        } else {
            Some(name)
        };
        let found = crate::router::targets::resolved(hub, parts[token], place);
        let target = match crate::router::targets::sole(found) {
            Some(target) => Some(target),
            None => crate::router::targets::spelled(parts[token]),
        };
        lemma_changing_access(
            hub,
            now,
            link,
            context,
            access,
            name,
            parts[token],
            target->0,
        );
    } else {
        lemma_only_counts(hub, done.hub);
    }
}

proof fn lemma_banning(hub: Hub, link: LinkId, peer: IdentityHash, parts: Seq<Seq<char>>)
    ensures
        fine(hub, banning(hub, link, peer, parts).hub),
{
    reveal(fine);
    let done = banning(hub, link, peer, parts);
    if only_counts(hub, done.hub) {
        lemma_only_counts(hub, done.hub);
    }
}

/// Whether a command asks for something about the hub.
pub open spec fn asks(name: Seq<char>) -> bool {
    name == "/help"@ || name == "/stats"@ || name == "/reload"@ || name == "/kline"@ || name
        == "/list"@ || name == "/who"@ || name == "/names"@
}

/// Whether a command sets something of a room.
spec fn sets(name: Seq<char>) -> bool {
    name == "/register"@ || name == "/unregister"@ || name == "/topic"@ || name == "/mode"@
}

proof fn lemma_running_asks(
    hub: Hub,
    clock: Clock,
    link: LinkId,
    peer: IdentityHash,
    context: Option<Seq<char>>,
    parts: Seq<Seq<char>>,
)
    requires
        asks(command_name(parts)),
    ensures
        fine(hub, running(hub, clock, link, peer, context, parts).hub),
{
    let name = command_name(parts);
    let done = running(hub, clock, link, peer, context, parts);
    if name == "/help"@ {
        lemma_only_counts(hub, done.hub);
    } else if name == "/stats"@ {
        lemma_only_counts(hub, done.hub);
    } else if name == "/reload"@ {
        lemma_only_counts(hub, done.hub);
    } else if name == "/kline"@ {
        lemma_banning(hub, link, peer, parts);
    } else if name == "/list"@ {
        lemma_only_counts(hub, done.hub);
    } else {
        lemma_only_counts(hub, listing_users(hub, link, peer, context, parts).hub);
    }
}

proof fn lemma_running_sets(
    hub: Hub,
    clock: Clock,
    link: LinkId,
    peer: IdentityHash,
    context: Option<Seq<char>>,
    parts: Seq<Seq<char>>,
)
    requires
        !asks(command_name(parts)),
        sets(command_name(parts)),
    ensures
        fine(hub, running(hub, clock, link, peer, context, parts).hub),
{
    let now = clock.wall;
    if command_name(parts) == "/register"@ {
        lemma_registering(hub, now, link, peer, context, parts, true);
    } else if command_name(parts) == "/unregister"@ {
        lemma_registering(hub, now, link, peer, context, parts, false);
    } else if command_name(parts) == "/topic"@ {
        lemma_setting_topic(hub, now, link, peer, context, parts);
    } else {
        lemma_setting_mode(hub, now, link, peer, context, parts);
    }
}

proof fn lemma_running_members(
    hub: Hub,
    clock: Clock,
    link: LinkId,
    peer: IdentityHash,
    context: Option<Seq<char>>,
    parts: Seq<Seq<char>>,
)
    requires
        !asks(command_name(parts)),
        !sets(command_name(parts)),
    ensures
        fine(hub, running(hub, clock, link, peer, context, parts).hub),
{
    let name = command_name(parts);
    let now = clock.wall;
    if name == "/op"@ || name == "/deop"@ || name == "/voice"@ || name == "/devoice"@ {
        lemma_setting_member(hub, now, link, peer, context, parts);
    } else if name == "/invite"@ || name == "/ban"@ || name == "/unban"@ {
        lemma_accessing(hub, now, link, peer, context, parts);
    } else if name == "/kick"@ {
        lemma_kicking(hub, link, peer, context, parts);
    } else {
        lemma_only_counts(hub, running(hub, clock, link, peer, context, parts).hub);
    }
}

/// A command keeps the invariant, and changes nothing outside the state but the banned identities.
pub proof fn law_running_is_fine(
    hub: Hub,
    clock: Clock,
    link: LinkId,
    peer: IdentityHash,
    context: Option<Seq<char>>,
    parts: Seq<Seq<char>>,
)
    ensures
        fine(hub, running(hub, clock, link, peer, context, parts).hub),
{
    if asks(command_name(parts)) {
        lemma_running_asks(hub, clock, link, peer, context, parts);
    } else if sets(command_name(parts)) {
        lemma_running_sets(hub, clock, link, peer, context, parts);
    } else {
        lemma_running_members(hub, clock, link, peer, context, parts);
    }
}

proof fn lemma_nicked_if(hub: Hub, link: LinkId, nick: Option<Seq<char>>)
    requires
        holds(hub.state.sessions, link),
    ensures
        fine(hub, (Hub { state: nicked_if(hub.state, link, nick), ..hub })),
        holds(nicked_if(hub.state, link, nick).sessions, link),
{
    reveal(fine);
    if sound(hub.state) {
        law_nicked_is_sound(hub.state, link, nick);
    }
}

proof fn lemma_passed_hub(hub: Hub, link: LinkId, fields: FieldMap)
    requires
        holds(hub.state.sessions, link),
    ensures
        fine(hub, passed_hub(hub, link, fields)),
{
    reveal(fine);
    if sound(hub.state) {
        law_nicked_is_sound(hub.state, link, passed_nick(hub, link, fields));
    }
}

proof fn lemma_passing(
    hub: Hub,
    clock: Clock,
    link: LinkId,
    peer: IdentityHash,
    message_type: u64,
    fields: FieldMap,
)
    requires
        holds(hub.state.sessions, link),
    ensures
        fine(hub, passing(hub, clock, link, peer, message_type, fields).hub),
{
    reveal(fine);
    let done = passing(hub, clock, link, peer, message_type, fields);
    if is_command(message_type, fields) {
        let nick = carried_nick(fields, hub.config.max_nick_bytes as nat);
        let named = Hub { state: nicked_if(hub.state, link, nick), ..hub };
        lemma_nicked_if(hub, link, nick);
        let context = crate::protocol::text_field(fields, crate::constants::K_ROOM);
        let parts = crate::router::commands::command_words(fields);
        law_running_is_fine(named, clock, link, peer, context, parts);
        let ran = commanding(named, clock, link, peer, fields);
        law_renaming_only_counts(ran.hub, link, peer, nick_on(hub.state, link));
        if ran.pending is None {
            lemma_only_counts(ran.hub, done.hub);
        }
    } else if only_counts(hub, done.hub) {
        lemma_only_counts(hub, done.hub);
    } else {
        let passed = passed_hub(hub, link, fields);
        lemma_passed_hub(hub, link, fields);
        law_renaming_only_counts(passed, link, peer, nick_on(hub.state, link));
        lemma_only_counts(passed, done.hub);
    }
}

proof fn lemma_greeting(hub: Hub, link: LinkId, fields: FieldMap)
    requires
        holds(hub.state.sessions, link),
    ensures
        fine(hub, greeting(hub, link, fields).hub),
{
    reveal(fine);
    let done = greeting(hub, link, fields);
    if only_counts(hub, done.hub) {
        lemma_only_counts(hub, done.hub);
    } else {
        let nick = hello_nick(fields, hub.config.max_nick_bytes as nat);
        lemma_nicked_if(hub, link, nick);
        let named = nicked_if(hub.state, link, nick);
        let known = Hub { state: welcomed(named, link, fields), ..hub };
        if sound(hub.state) {
            lemma_sound_session(named, known.state, link, at(known.state.sessions, link));
        }
        lemma_only_counts(known, done.hub);
    }
}

proof fn lemma_joining(
    hub: Hub,
    now: Nanos,
    link: LinkId,
    peer: IdentityHash,
    fields: FieldMap,
)
    requires
        holds(hub.state.sessions, link),
    ensures
        fine(hub, joining(hub, now, link, peer, fields).hub),
{
    reveal(fine);
    let done = joining(hub, now, link, peer, fields);
    let counters = hub.state.counters;
    let tried = recounted(
        hub,
        crate::state::Counters {
            joins: crate::state::counted(counters.joins, 1),
            ..counters
        },
    );
    lemma_only_counts(hub, tried);
    let nick = carried_nick(fields, hub.config.max_nick_bytes as nat);
    lemma_nicked_if(tried, link, nick);
    let named = Hub { state: nicked_if(tried.state, link, nick), ..tried };
    if only_counts(tried, done.hub) {
        lemma_only_counts(tried, done.hub);
    } else if only_counts(named, done.hub) {
        lemma_only_counts(named, done.hub);
    } else {
        let text = crate::protocol::text_field(fields, crate::constants::K_ROOM)->0;
        let name = crate::state::room_name(text, hub.config.max_room_name_bytes as nat)->Ok_0;
        let entered = Hub { state: joined_state(named.state, link, peer, name, now), ..named };
        if sound(hub.state) {
            law_joined_is_sound(named.state, link, peer, name, now);
        }
        lemma_only_counts(entered, done.hub);
    }
}

proof fn lemma_parting(
    hub: Hub,
    now: Nanos,
    link: LinkId,
    peer: IdentityHash,
    fields: FieldMap,
)
    ensures
        fine(hub, parting(hub, now, link, peer, fields).hub),
{
    reveal(fine);
    let done = parting(hub, now, link, peer, fields);
    let counters = hub.state.counters;
    let tried = recounted(
        hub,
        crate::state::Counters {
            parts: crate::state::counted(counters.parts, 1),
            ..counters
        },
    );
    lemma_only_counts(hub, tried);
    if only_counts(tried, done.hub) {
        lemma_only_counts(tried, done.hub);
    } else if sound(hub.state) {
        let text = crate::protocol::text_field(fields, crate::constants::K_ROOM)->0;
        let name = crate::state::room_name(text, hub.config.max_room_name_bytes as nat)->Ok_0;
        law_parted_is_sound(tried.state, link, name, now);
    }
}

/// Whether no link has announced more resources than the hub waits for.
pub open spec fn bounded(hub: Hub) -> bool {
    forall|link: LinkId| #[trigger]
        holds(hub.expected, link) ==> at(hub.expected, link).len()
            <= hub.config.max_pending_resource_expectations
}

/// Whether the hub is well-formed: its state is sound, and no link has announced more resources
/// than the hub waits for.
pub open spec fn wf(hub: Hub) -> bool {
    sound(hub.state) && bounded(hub)
}

/// Whether a step leaves a sound state sound and a well-formed hub well-formed.
pub open spec fn preserves(before: Hub, after: Hub) -> bool {
    &&& sound(before.state) ==> sound(after.state)
    &&& bounded(before) ==> bounded(after)
    &&& wf(before) ==> wf(after)
}

proof fn lemma_steady_bounded(before: Hub, after: Hub)
    requires
        fine(before, after),
    ensures
        preserves(before, after),
{
    reveal(fine);
    lemma_same_bound(before, after);
}

proof fn lemma_same_bound(before: Hub, after: Hub)
    requires
        after.config.max_pending_resource_expectations
            >= before.config.max_pending_resource_expectations,
        forall|link: LinkId| #[trigger]
            holds(after.expected, link) ==> holds(before.expected, link) && at(
                after.expected,
                link,
            ).len() <= at(before.expected, link).len(),
    ensures
        bounded(before) ==> bounded(after),
{
    if bounded(before) {
        assert forall|link: LinkId| #[trigger] holds(after.expected, link) implies at(
            after.expected,
            link,
        ).len() <= after.config.max_pending_resource_expectations by {
            assert(holds(before.expected, link));
        }
    }
}

proof fn lemma_kept_len<A>(items: Seq<A>, keep: spec_fn(A) -> bool)
    ensures
        kept(items, keep).len() <= items.len(),
    decreases items.len(),
{
    if items.len() > 0 {
        lemma_kept_len(items.drop_last(), keep);
    }
}

proof fn lemma_expecting(hub: Hub, link: LinkId, expectations: Seq<ExpectationModel>)
    requires
        bounded(hub) ==> expectations.len() <= hub.config.max_pending_resource_expectations,
    ensures
        preserves(hub, crate::router::resources::expecting(hub, link, expectations)),
{
    let after = crate::router::resources::expecting(hub, link, expectations);
    if bounded(hub) {
        assert forall|other: LinkId| #[trigger] holds(after.expected, other) implies at(
            after.expected,
            other,
        ).len() <= after.config.max_pending_resource_expectations by {
            if other != link {
                assert(holds(hub.expected, other));
            }
        }
    }
}

proof fn lemma_awaited(hub: Hub, link: LinkId, now: Nanos)
    ensures
        bounded(hub) ==> awaited(hub, link, now).len()
            <= hub.config.max_pending_resource_expectations,
{
    if holds(hub.expected, link) {
        lemma_kept_len(at(hub.expected, link), being_awaited(now));
    }
}

proof fn lemma_announcing_resource(hub: Hub, now: Nanos, link: LinkId, fields: FieldMap)
    ensures
        preserves(hub, announcing_resource(hub, now, link, fields).hub),
{
    reveal(fine);
    let done = announcing_resource(hub, now, link, fields);
    if only_counts(hub, done.hub) {
        lemma_only_counts(hub, done.hub);
        lemma_steady_bounded(hub, done.hub);
    } else {
        lemma_awaited(hub, link, now);
        let held = at(done.hub.expected, link);
        let expecting = crate::router::resources::expecting(hub, link, held);
        lemma_expecting(hub, link, held);
        lemma_only_counts(expecting, done.hub);
        lemma_steady_bounded(expecting, done.hub);
    }
}

proof fn lemma_handling(
    hub: Hub,
    clock: Clock,
    link: LinkId,
    peer: IdentityHash,
    known: bool,
    fields: FieldMap,
)
    requires
        holds(hub.state.sessions, link),
    ensures
        preserves(hub, handling(hub, clock, link, peer, known, fields).hub),
{
    reveal(fine);
    let done = handling(hub, clock, link, peer, known, fields);
    let kind = crate::protocol::integer_field(fields, crate::constants::K_T)->0;
    if kind == crate::constants::T_PONG {
        let session = at(hub.state.sessions, link);
        if sound(hub.state) {
            lemma_sound_session(
                hub.state,
                done.hub.state,
                link,
                SessionModel { awaiting_pong: None, ..session },
            );
        }
        lemma_steady_bounded(hub, done.hub);
    } else if kind == crate::constants::T_RESOURCE_ENVELOPE {
        lemma_announcing_resource(hub, clock.mono, link, fields);
    } else {
        lemma_greeting(hub, link, fields);
        lemma_joining(hub, clock.wall, link, peer, fields);
        lemma_parting(hub, clock.wall, link, peer, fields);
        lemma_passing(hub, clock, link, peer, kind, fields);
        if only_counts(hub, done.hub) {
            lemma_only_counts(hub, done.hub);
        }
        lemma_steady_bounded(hub, done.hub);
    }
}

/// A packet, whatever it holds, leaves a sound state sound and a well-formed hub well-formed.
pub proof fn law_packet_keeps_wf(hub: Hub, clock: Clock, link: LinkId, data: Seq<u8>)
    ensures
        preserves(hub, reading(hub, clock, link, data).hub),
{
    reveal(fine);
    let got = packet_counted(hub, data.len() as int);
    lemma_only_counts(hub, got);
    lemma_steady_bounded(hub, got);
    match lookup(got.state.sessions, link) {
        None => {},
        Some(session) => match session.peer {
            None => {},
            Some(peer) => {
                let (taken, granted) = token_taken(
                    session,
                    hub.config.rate_limit_msgs_per_minute,
                    clock.mono,
                );
                let limited = Hub {
                    state: StateModel {
                        sessions: put(got.state.sessions, link, taken),
                        ..got.state
                    },
                    ..got
                };
                if sound(got.state) {
                    lemma_sound_session(got.state, limited.state, link, taken);
                }
                lemma_steady_bounded(got, limited);
                let done = reading(hub, clock, link, data);
                if only_counts(limited, done.hub) {
                    lemma_only_counts(limited, done.hub);
                    lemma_steady_bounded(limited, done.hub);
                } else {
                    lemma_handling(
                        limited,
                        clock,
                        link,
                        peer,
                        session.welcomed,
                        decoded(data)->Ok_0,
                    );
                }
            },
        },
    }
}

pub proof fn lemma_passing_text(
    hub: Hub,
    link: LinkId,
    name: Option<Seq<char>>,
    kind: Seq<char>,
    message_type: u64,
    text: Seq<char>,
)
    ensures
        only_counts(hub, passing_text(hub, link, name, kind, message_type, text).hub),
{
    if name is Some && holds(hub.state.sessions, link) && holds(hub.state.rooms, name->0) {
        let session = at(hub.state.sessions, link);
        let room = at(hub.state.rooms, name->0);
        if session.peer is Some {
            let to = if message_type == crate::constants::T_NOTICE {
                crate::collections::without(room.members, link)
            } else {
                room.members
            };
            lemma_telling_all(hub, to, session.peer->0, session.nick, name->0, kind, text);
        }
    }
}

/// A resource, whatever it holds, leaves a sound state sound and a well-formed hub well-formed, and
/// changes nothing in the state but the counters.
pub proof fn law_resource_keeps_wf(hub: Hub, now: Nanos, link: LinkId, payload: Seq<u8>)
    ensures
        preserves(hub, receiving(hub, now, link, payload).hub),
        receiving(hub, now, link, payload).hub.state == (StateModel {
            counters: receiving(hub, now, link, payload).hub.state.counters,
            ..hub.state
        }),
{
    reveal(fine);
    let done = receiving(hub, now, link, payload);
    match lookup(hub.expected, link) {
        None => {
            lemma_only_counts(hub, done.hub);
            lemma_steady_bounded(hub, done.hub);
        },
        Some(_) => {
            let live = awaited(hub, link, now);
            lemma_awaited(hub, link, now);
            lemma_fitting_index(live, payload);
            let held = match fitting_index(live, payload) {
                None => live,
                Some(index) => live.remove(index),
            };
            let expecting = crate::router::resources::expecting(hub, link, held);
            lemma_expecting(hub, link, held);
            match fitting_index(live, payload) {
                None => {},
                Some(index) => {
                    let taken = crate::router::resources::received(
                        expecting,
                        payload.len() as int,
                    );
                    match crate::router::resources::text_kind(live[index].kind) {
                        Some((kind, message_type)) => {
                            lemma_passing_text(
                                taken,
                                link,
                                live[index].room,
                                kind,
                                message_type,
                                vstd::utf8::decode_utf8(payload),
                            );
                        },
                        None => {},
                    }
                },
            }
            lemma_only_counts(expecting, done.hub);
            lemma_steady_bounded(expecting, done.hub);
        },
    }
}

/// The expectation that a resource meets is the first one that it fits.
pub proof fn lemma_fitting_index(expectations: Seq<ExpectationModel>, payload: Seq<u8>)
    ensures
        match fitting_index(expectations, payload) {
            Some(index) => 0 <= index < expectations.len() && crate::router::resources::fits(
                expectations[index],
                payload,
            ),
            None => true,
        },
        fitting_index(expectations, payload) is None ==> forall|i: int|
            0 <= i < expectations.len() ==> !crate::router::resources::fits(
                #[trigger] expectations[i],
                payload,
            ),
    decreases expectations.len(),
{
    if expectations.len() > 0 {
        lemma_fitting_index(expectations.drop_last(), payload);
        if fitting_index(expectations, payload) is None {
            assert forall|i: int| 0 <= i < expectations.len() implies !crate::router::resources::fits(
                #[trigger] expectations[i],
                payload,
            ) by {
                if i < expectations.len() - 1 {
                    assert(expectations.drop_last()[i] == expectations[i]);
                }
            }
        }
    }
}

/// A closed link leaves a sound state sound and a well-formed hub well-formed.
pub proof fn law_close_keeps_wf(hub: Hub, now: Nanos, link: LinkId)
    ensures
        preserves(hub, closing(hub, now, link).hub),
{
    let names = rooms_on(hub.state, link);
    let used = StateModel { rooms: touched(hub.state.rooms, names, now), ..hub.state };
    let done = closing(hub, now, link).hub;
    if sound(hub.state) {
        law_touched_is_sound(hub.state, names, now);
        law_closed_is_sound(used, link);
    }
    lemma_same_bound(hub, done);
}

/// A tick of the clock leaves a sound state sound and a well-formed hub well-formed.
pub proof fn law_tick_keeps_wf(hub: Hub, clock: Clock)
    ensures
        preserves(hub, ticking(hub, clock).hub),
{
    let uninvited = StateModel {
        rooms: uninvited_all(hub.state.rooms, clock.wall),
        ..hub.state
    };
    let pruned = pruning(hub, clock).hub;
    let done = ticking(hub, clock).hub;
    if sound(hub.state) {
        law_uninvited_is_sound(hub.state, clock.wall);
        law_pruned_is_sound(uninvited, clock.wall, hub.config.room_registry_prune_after);
        assert(sound(pruned.state));
        if hub.config.ping_interval != 0 {
            law_pinged_is_sound(pruned.state, done.state, clock.mono, hub.config.ping_interval);
        }
    }
    lemma_same_bound(hub, done);
}

/// A new link leaves a sound state sound and a well-formed hub well-formed.
pub proof fn law_establish_keeps_wf(hub: Hub, link: LinkId, now: Nanos)
    ensures
        preserves(
            hub,
            (Hub {
                state: established(hub.state, link, hub.config.rate_limit_msgs_per_minute, now),
                ..hub
            }),
        ),
{
    reveal(fine);
    let rate = hub.config.rate_limit_msgs_per_minute;
    if sound(hub.state) {
        law_established_is_sound(hub.state, link, rate, now);
    }
    lemma_steady_bounded(hub, Hub { state: established(hub.state, link, rate, now), ..hub });
}

/// A link that makes its identity known leaves a sound state sound and a well-formed hub
/// well-formed.
pub proof fn law_identify_keeps_wf(hub: Hub, link: LinkId, peer: IdentityHash)
    ensures
        preserves(hub, identifying(hub, link, peer).0),
{
    reveal(fine);
    if sound(hub.state) {
        law_identified_is_sound(hub.state, link, peer);
    }
    lemma_steady_bounded(hub, identifying(hub, link, peer).0);
}

/// Handing over what was said leaves a sound state sound and a well-formed hub well-formed.
pub proof fn law_sending_keeps_wf(hub: Hub, actions: Seq<ActionModel>)
    ensures
        preserves(hub, sent(hub, actions)),
{
    reveal(fine);
    lemma_only_counts(hub, sent(hub, actions));
    lemma_steady_bounded(hub, sent(hub, actions));
}

/// A room registry that was read has no room twice, nobody is invited to a room twice, and nobody
/// is in its rooms.
pub proof fn law_loaded_is_deserted(records: Seq<RecordModel>, now: Nanos)
    ensures
        unique(loaded(records, now)),
        orderly(loaded(records, now)),
        deserted(loaded(records, now)),
    decreases records.len(),
{
    if records.len() > 0 {
        law_loaded_is_deserted(records.drop_last(), now);
        let before = loaded(records.drop_last(), now);
        let room = crate::registry::room_of(records.last(), now);
        lemma_unique_put(before, records.last().name, room);
        lemma_unique_invitations(records.last().invited, now);
    }
}

proof fn lemma_unique_invitations(invitations: Seq<InvitationModel>, now: Nanos)
    ensures
        unique(read_invitations(invitations, now)),
    decreases invitations.len(),
{
    if invitations.len() > 0 {
        lemma_unique_invitations(invitations.drop_last(), now);
        match hash_of(invitations.last().hash) {
            Some(hash) => {
                lemma_unique_put(
                    read_invitations(invitations.drop_last(), now),
                    hash,
                    invitations.last().expires,
                );
            },
            None => {},
        }
    }
}

/// A hub that starts with a room registry that was read is well-formed.
pub proof fn law_new_hub_is_wf(
    config: ConfigModel,
    identity: IdentityHash,
    extensions: Extensions,
    records: Seq<RecordModel>,
    now: Nanos,
)
    ensures
        wf(new_hub(config, identity, extensions, loaded(records, now))),
        wf(new_hub(config, identity, extensions, Seq::empty())),
{
    law_loaded_is_deserted(records, now);
    lemma_new_hub(config, identity, extensions, loaded(records, now));
    lemma_new_hub(config, identity, extensions, Seq::empty());
}

proof fn lemma_new_hub(
    config: ConfigModel,
    identity: IdentityHash,
    extensions: Extensions,
    rooms: Seq<(Seq<char>, RoomModel)>,
)
    requires
        unique(rooms),
        orderly(rooms),
        deserted(rooms),
    ensures
        wf(new_hub(config, identity, extensions, rooms)),
{
    let state = new_hub(config, identity, extensions, rooms).state;
    assert forall|name: Seq<char>| (#[trigger] members_of(state, name)).len() == 0 by {}
    assert forall|link: LinkId| !#[trigger] holds(state.sessions, link) by {}
    assert forall|peer: IdentityHash| !#[trigger] holds(state.links_by_identity, peer) by {}
    assert forall|key: Seq<char>| !#[trigger] holds(state.links_by_nick, key) by {}
}

/// Whether what comes of pending work can be taken over: rooms as they are read from a registry.
pub open spec fn takes(outcome: OutcomeModel) -> bool {
    match outcome {
        OutcomeModel::Loaded(config, rooms) => unique(rooms) && orderly(rooms) && deserted(rooms),
        _ => true,
    }
}

/// Whether the hub waits for fewer resources after pending work than before.
pub open spec fn lowers_bound(hub: Hub, outcome: OutcomeModel) -> bool {
    match outcome {
        OutcomeModel::Loaded(config, rooms) => config.max_pending_resource_expectations
            < hub.config.max_pending_resource_expectations,
        _ => false,
    }
}

/// What follows pending work leaves a sound state sound and a well-formed hub well-formed, whatever
/// came of it. A reload that lowers the bound on announced resources keeps only the state sound:
/// the bound is not enforced on those that were announced before.
pub proof fn law_resume_keeps_wf(hub: Hub, pending: PendingModel, outcome: OutcomeModel)
    requires
        takes(outcome),
    ensures
        sound(hub.state) ==> sound(resuming(hub, pending, outcome).hub.state),
        !lowers_bound(hub, outcome) ==> preserves(hub, resuming(hub, pending, outcome).hub),
{
    let followed = following(hub, pending.resume, outcome);
    lemma_following(hub, pending.resume, outcome);
    match pending.watch {
        Some(watch) => {
            law_renaming_only_counts(followed.hub, watch.link, watch.peer, watch.previous);
            let done = resuming(hub, pending, outcome);
            lemma_only_counts(followed.hub, done.hub);
            lemma_steady_bounded(followed.hub, done.hub);
        },
        None => {},
    }
}

proof fn lemma_following(hub: Hub, resume: ResumeModel, outcome: OutcomeModel)
    requires
        takes(outcome),
    ensures
        sound(hub.state) ==> sound(following(hub, resume, outcome).hub.state),
        !lowers_bound(hub, outcome) ==> preserves(hub, following(hub, resume, outcome).hub),
{
    let done = following(hub, resume, outcome);
    match (outcome, resume) {
        (OutcomeModel::Loaded(config, rooms), ResumeModel::Reload { link }) => {
            let renewed = reloaded(hub, config, rooms);
            if sound(hub.state) {
                law_reloaded_is_sound(hub.state, rooms);
            }
            if !lowers_bound(hub, outcome) {
                lemma_same_bound(hub, renewed);
            }
            lemma_only_counts(renewed, done.hub);
            lemma_steady_bounded(renewed, done.hub);
        },
        _ => {
            match resume {
                ResumeModel::Members { link, room, to, text } => {
                    law_announcing_only_counts(hub, room, to, text);
                },
                _ => {},
            }
            lemma_only_counts(hub, done.hub);
            lemma_steady_bounded(hub, done.hub);
        },
    }
}

} // verus!
