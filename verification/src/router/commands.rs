//! Slash commands: which text is which command.

use crate::clock::Clock;
use crate::collections::{group_collections, group_sequences, Model};
use crate::config::contains_identity;
use crate::constants::{K_BODY, K_ROOM};
use crate::protocol::{text_field, Envelope, FieldMap};
use crate::state::{IdentityHash, LinkId};
use crate::text::{ascii_lower, same_text, split_words, to_ascii_lower, trim, trimmed, words};
use super::access::accessing;
use super::admin::{banning, report};
use super::directory::{listing_text, listing_users};
use super::moderation::{kicking, registering, setting_member, setting_mode, setting_topic};
use super::{
    ask, asking, failing, noticing, turn, Hub, Reply, Resume, ResumeModel, Router, Turn, Work,
};
use vstd::prelude::*;

verus! {

broadcast use {group_collections, group_sequences};

/// The answer to `/help`.
pub const COMMAND_HELP: &'static str = "RRC commands:\n /help\n /list\n /who [room] (/names)\n /topic <room> [topic]\n /register <room> | /unregister <room> (founder)\nRoom operator:\n /mode <room> <+m|-m|+i|-i|+t|-t|+n|-n|+p|-p>\n /mode <room> +k <key> | -k\n /op|/deop|/voice|/devoice <room> <nick|hash>\n /invite|/ban <room> add|del|list [nick|hash]\n /unban <room> <nick|hash>\n /kick <room> <nick|hash>\nServer operator:\n /stats\n /reload\n /kline add <nick|hash> | del <nick|hash> | list";

/// The words of a command.
pub open spec fn command_words(fields: FieldMap) -> Seq<Seq<char>> {
    match text_field(fields, K_BODY) {
        Some(text) => words(trimmed(text)),
        None => Seq::empty(),
    }
}

/// The command itself: its first word in lowercase.
pub open spec fn command_name(parts: Seq<Seq<char>>) -> Seq<char> {
    if parts.len() > 0 {
        ascii_lower(parts[0])
    } else {
        ""@
    }
}

/// What the hub does with `/stats`.
pub open spec fn showing_stats(hub: Hub, clock: Clock, link: LinkId, peer: IdentityHash) -> Turn {
    if hub.config.trusted_identities.contains(peer) {
        noticing(hub, link, None, report(hub, clock.mono))
    } else {
        failing(hub, link, None, "not authorized"@)
    }
}

/// What the hub does with `/reload`.
pub open spec fn asking_reload(hub: Hub, link: LinkId, peer: IdentityHash) -> Turn {
    if hub.config.trusted_identities.contains(peer) {
        asking(hub, Seq::empty(), Work::Reload, ResumeModel::Reload { link })
    } else {
        failing(hub, link, None, "not authorized"@)
    }
}

/// What the hub does with the words of a command, said in a room or in none.
pub open spec fn running(
    hub: Hub,
    clock: Clock,
    link: LinkId,
    peer: IdentityHash,
    context: Option<Seq<char>>,
    parts: Seq<Seq<char>>,
) -> Turn {
    let name = command_name(parts);
    let now = clock.wall;
    if name == "/help"@ {
        noticing(hub, link, None, COMMAND_HELP@)
    } else if name == "/stats"@ {
        showing_stats(hub, clock, link, peer)
    } else if name == "/reload"@ {
        asking_reload(hub, link, peer)
    } else if name == "/kline"@ {
        banning(hub, link, peer, parts)
    } else if name == "/list"@ {
        noticing(hub, link, None, listing_text(hub.state.rooms))
    } else if name == "/who"@ || name == "/names"@ {
        listing_users(hub, link, peer, context, parts)
    } else if name == "/register"@ {
        registering(hub, now, link, peer, context, parts, true)
    } else if name == "/unregister"@ {
        registering(hub, now, link, peer, context, parts, false)
    } else if name == "/topic"@ {
        setting_topic(hub, now, link, peer, context, parts)
    } else if name == "/mode"@ {
        setting_mode(hub, now, link, peer, context, parts)
    } else if name == "/op"@ || name == "/deop"@ || name == "/voice"@ || name == "/devoice"@ {
        setting_member(hub, now, link, peer, context, parts)
    } else if name == "/invite"@ || name == "/ban"@ || name == "/unban"@ {
        accessing(hub, now, link, peer, context, parts)
    } else if name == "/kick"@ {
        kicking(hub, link, peer, context, parts)
    } else {
        failing(hub, link, context, "unrecognized command"@)
    }
}

/// What the hub does with a command.
pub open spec fn commanding(
    hub: Hub,
    clock: Clock,
    link: LinkId,
    peer: IdentityHash,
    fields: FieldMap,
) -> Turn {
    running(hub, clock, link, peer, text_field(fields, K_ROOM), command_words(fields))
}

impl Router {
    /// Handles a command.
    pub(crate) fn command(
        &mut self,
        clock: Clock,
        link: LinkId,
        peer: IdentityHash,
        envelope: &Envelope,
    ) -> (result: Reply)
        ensures
            turn(final(self).model(), result) == commanding(
                old(self).model(),
                clock,
                link,
                peer,
                envelope.fields.map(),
            ),
    {
        let context = envelope.text(K_ROOM);
        let parts = match envelope.text(K_BODY) {
            Some(text) => split_words(trim(text).as_str()),
            None => Vec::new(),
        };
        let name = if parts.len() > 0 {
            to_ascii_lower(parts[0].as_str())
        } else {
            String::from_str("")
        };
        let name = name.as_str();
        if same_text(name, "/help") {
            self.tell(link, None, COMMAND_HELP)
        } else if same_text(name, "/stats") {
            if !contains_identity(&self.config.trusted_identities, &peer) {
                return self.refuse(link, None, "not authorized");
            }
            let text = self.format_stats(clock.mono);
            self.tell(link, None, text.as_str())
        } else if same_text(name, "/reload") {
            if !contains_identity(&self.config.trusted_identities, &peer) {
                return self.refuse(link, None, "not authorized");
            }
            ask(Vec::new(), Work::Reload, Resume::Reload { link })
        } else if same_text(name, "/kline") {
            self.kline_command(link, peer, &parts)
        } else if same_text(name, "/list") {
            let text = self.list_rooms();
            self.tell(link, None, text.as_str())
        } else if same_text(name, "/who") || same_text(name, "/names") {
            self.who_command(link, peer, context, &parts)
        } else if same_text(name, "/register") {
            self.register_command(clock.wall, link, peer, context, &parts, true)
        } else if same_text(name, "/unregister") {
            self.register_command(clock.wall, link, peer, context, &parts, false)
        } else if same_text(name, "/topic") {
            self.topic_command(clock.wall, link, peer, context, &parts)
        } else if same_text(name, "/mode") {
            self.mode_command(clock.wall, link, peer, context, &parts)
        } else if same_text(name, "/op") || same_text(name, "/deop") || same_text(name, "/voice")
            || same_text(name, "/devoice") {
            self.member_mode_command(clock.wall, link, peer, context, &parts)
        } else if same_text(name, "/invite") || same_text(name, "/ban") || same_text(
            name,
            "/unban",
        ) {
            self.access_command(clock.wall, link, peer, context, &parts)
        } else if same_text(name, "/kick") {
            self.kick_command(link, peer, context, &parts)
        } else {
            self.refuse(link, context, "unrecognized command")
        }
    }
}

} // verus!
