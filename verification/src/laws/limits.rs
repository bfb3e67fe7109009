//! The limits that the hub keeps: the rate of a link, the size of what it says, nicknames, and
//! resources.

use crate::clock::{gap, Nanos};
use crate::collections::{
    at, group_collections, group_sequences, holds, kept, lookup, put, tally,
};
use crate::protocol::{nick_of, FieldMap};
use crate::router::resources::{
    accepting, announced, awaited, being_awaited, expecting, fits, fitting_index, received,
    receiving, text_kind,
};
use crate::router::{ExpectationModel, Hub};
use crate::state::{
    capacity, new_session, refilled, token_taken, LinkId, SessionModel, StateModel, TOKEN,
};
use crate::text::{
    byte_len, chunk_len, chunks, fitting, has_control, is_white, lemma_fitting, lemma_trim_start,
    trim_end, trim_start, trimmed, width,
};
use super::sound::lemma_kept_from;
use super::speech::only_errors;
use super::turns::{lemma_fitting_index, lemma_passing_text};
use vstd::prelude::*;
use vstd::utf8::{decode_utf8, encode_scalar};

verus! {

broadcast use {group_collections, group_sequences};

/// How many tokens per minute a link earns.
pub open spec fn earnings(per_minute: u32) -> int {
    if per_minute == 0 {
        1
    } else {
        per_minute as int
    }
}

/// What is left of a session's tokens, and how many packets were let through, when packets come at
/// the given times.
pub open spec fn drained(session: SessionModel, per_minute: u32, times: Seq<Nanos>) -> (
    SessionModel,
    nat,
)
    decreases times.len(),
{
    if times.len() == 0 {
        (session, 0)
    } else {
        let (before, count) = drained(session, per_minute, times.drop_last());
        let (taken, granted) = token_taken(before, per_minute, times.last());
        (
            taken,
            if granted {
                count + 1
            } else {
                count
            },
        )
    }
}

/// Whether the times go forward from the start.
pub open spec fn forward(start: Nanos, times: Seq<Nanos>) -> bool {
    &&& forall|i: int| 0 <= i < times.len() ==> start <= #[trigger] times[i]
    &&& forall|i: int, j: int|
        0 <= i <= j < times.len() ==> #[trigger] times[i] <= #[trigger] times[j]
}

proof fn lemma_capacity(per_minute: u32)
    ensures
        capacity(per_minute) == earnings(per_minute) * TOKEN,
        capacity(per_minute) / TOKEN as int == earnings(per_minute),
        TOKEN <= capacity(per_minute) <= u128::MAX,
{
    let rate = earnings(per_minute);
    assert(rate * TOKEN >= TOKEN && rate * TOKEN <= u128::MAX && (rate * TOKEN) / TOKEN as int
        == rate) by (nonlinear_arith)
        requires
            1 <= rate <= u32::MAX,
            TOKEN == 60_000_000_000u128,
    ;
}

/// A link never has more tokens than fit into its bucket.
pub proof fn law_tokens_are_bounded(session: SessionModel, per_minute: u32, now: Nanos)
    ensures
        token_taken(session, per_minute, now).0.tokens <= capacity(per_minute),
{
    lemma_capacity(per_minute);
    lemma_refilled(session.tokens, gap(now, session.updated), per_minute);
}

proof fn lemma_refilled(tokens: u128, elapsed: Nanos, per_minute: u32)
    ensures
        refilled(tokens, elapsed, per_minute) <= capacity(per_minute),
        refilled(tokens, elapsed, per_minute) <= tokens + elapsed * earnings(per_minute),
        elapsed * earnings(per_minute) >= TOKEN ==> refilled(tokens, elapsed, per_minute) >= TOKEN,
        tokens >= TOKEN ==> refilled(tokens, elapsed, per_minute) >= TOKEN,
{
    lemma_capacity(per_minute);
    let rate = earnings(per_minute);
    assert(elapsed * rate >= 0) by (nonlinear_arith)
        requires
            rate >= 1,
            elapsed >= 0,
    ;
}

/// However fast packets come, no more are let through than the tokens that the link had at the
/// start and those that it has earned since pay for.
pub proof fn law_rate_is_limited(session: SessionModel, per_minute: u32, times: Seq<Nanos>)
    requires
        forward(session.updated, times),
    ensures
        ({
            let (left, count) = drained(session, per_minute, times);
            &&& left.updated >= session.updated
            &&& times.len() > 0 ==> left.updated == times.last()
            &&& left.tokens + count * TOKEN <= session.tokens + (left.updated - session.updated)
                * earnings(per_minute)
        }),
    decreases times.len(),
{
    if times.len() > 0 {
        let rest = times.drop_last();
        assert(forward(session.updated, rest)) by {
            assert forall|i: int, j: int| 0 <= i <= j < rest.len() implies #[trigger] rest[i]
                <= #[trigger] rest[j] by {
                assert(times[i] <= times[j]);
            }
            assert forall|i: int| 0 <= i < rest.len() implies session.updated <= #[trigger] rest[i] by {
                assert(session.updated <= times[i]);
            }
        }
        law_rate_is_limited(session, per_minute, rest);
        let (before, count) = drained(session, per_minute, rest);
        let (left, total) = drained(session, per_minute, times);
        let now = times.last();
        assert(before.updated <= now) by {
            assert(times[times.len() - 1] == now);
            if rest.len() > 0 {
                assert(times[rest.len() - 1] <= times[times.len() - 1]);
                assert(rest.last() == times[rest.len() - 1]);
            }
        }
        lemma_refilled(before.tokens, gap(now, before.updated), per_minute);
        let rate = earnings(per_minute);
        let earlier = before.updated - session.updated;
        let later = now - before.updated;
        assert((earlier + later) * rate == earlier * rate + later * rate) by (nonlinear_arith);
        assert((count + 1) * TOKEN == count * TOKEN + TOKEN) by (nonlinear_arith);
    } else {
        assert(0 * earnings(per_minute) == 0) by (nonlinear_arith);
    }
}

/// A link that has waited for as long as a token takes to earn is let through.
pub proof fn law_waiting_is_rewarded(session: SessionModel, per_minute: u32, now: Nanos)
    requires
        gap(now, session.updated) * earnings(per_minute) >= TOKEN,
    ensures
        token_taken(session, per_minute, now).1,
{
    lemma_refilled(session.tokens, gap(now, session.updated), per_minute);
}

/// A new link is let through at once, as often as it earns tokens in a minute, whenever its packets
/// come.
pub proof fn law_first_packets_are_let_through(per_minute: u32, start: Nanos, times: Seq<Nanos>)
    requires
        per_minute > 0,
        times.len() <= earnings(per_minute),
    ensures
        drained(new_session(per_minute, start), per_minute, times).1 == times.len(),
        drained(new_session(per_minute, start), per_minute, times).0.tokens >= (earnings(per_minute)
            - times.len()) * TOKEN,
    decreases times.len(),
{
    lemma_capacity(per_minute);
    let rate = earnings(per_minute);
    let session = new_session(per_minute, start);
    if times.len() > 0 {
        let rest = times.drop_last();
        law_first_packets_are_let_through(per_minute, start, rest);
        let before = drained(session, per_minute, rest).0;
        let left: int = rate - times.len();
        assert((left + 1) * TOKEN == left * TOKEN + TOKEN && left * TOKEN >= 0) by (
            nonlinear_arith)
            requires
                left >= 0,
        ;
        assert(before.tokens <= capacity(per_minute)) by {
            if rest.len() > 0 {
                law_tokens_are_bounded(
                    drained(session, per_minute, rest.drop_last()).0,
                    per_minute,
                    rest.last(),
                );
            }
        }
        let elapsed = gap(times.last(), before.updated);
        assert(elapsed * rate >= 0) by (nonlinear_arith)
            requires
                rate >= 1,
                elapsed >= 0,
        ;
        assert(refilled(before.tokens, elapsed, per_minute) >= before.tokens);
    }
}

proof fn lemma_trim_end(text: Seq<char>)
    ensures
        trim_end(trim_end(text)) == trim_end(text),
        trim_end(text).len() <= text.len(),
        trim_end(text) == text.take(trim_end(text).len() as int),
        trim_end(text).len() > 0 ==> !is_white(trim_end(text).last()),
    decreases text.len(),
{
    if text.len() > 0 && is_white(text.last()) {
        lemma_trim_end(text.drop_last());
        assert(text.drop_last().take(trim_end(text).len() as int) == text.take(
            trim_end(text).len() as int,
        ));
    } else {
        assert(text.take(text.len() as int) == text);
    }
}

/// Trimming a text twice is trimming it once.
pub proof fn law_trimmed_is_trimmed(text: Seq<char>)
    ensures
        trimmed(trimmed(text)) == trimmed(text),
{
    let front = trim_start(text);
    lemma_trim_start(text);
    lemma_trim_end(front);
    let both = trim_end(front);
    if both.len() > 0 {
        assert(both.first() == front.first());
    }
    assert(trim_start(both) == both);
}

/// A nickname that the hub accepts is not empty, fits the limit, holds no line break and no NUL,
/// has no white space around it, and is accepted again as it is.
pub proof fn law_accepted_nick(text: Seq<char>, max_bytes: nat)
    requires
        nick_of(text, max_bytes) is Some,
    ensures
        ({
            let nick = nick_of(text, max_bytes)->0;
            &&& nick.len() > 0
            &&& byte_len(nick) <= max_bytes
            &&& !has_control(nick)
            &&& trimmed(nick) == nick
            &&& nick_of(nick, max_bytes) == Some(nick)
        }),
{
    law_trimmed_is_trimmed(text);
}

/// A text put together from its pieces.
pub open spec fn flat(parts: Seq<Seq<char>>) -> Seq<char>
    decreases parts.len(),
{
    if parts.len() == 0 {
        Seq::empty()
    } else {
        parts[0] + flat(parts.drop_first())
    }
}

proof fn lemma_width(c: char)
    ensures
        encode_scalar(c as u32).len() == width(c),
{
}

proof fn lemma_fitting_bytes(text: Seq<char>, room: int)
    requires
        room >= 0,
    ensures
        byte_len(text.take(fitting(text, room))) <= room,
        fitting(text, room) < text.len() ==> byte_len(text.take(fitting(text, room))) + width(
            text[fitting(text, room)],
        ) > room,
    decreases text.len(),
{
    lemma_fitting(text, room);
    if text.len() == 0 || width(text.first()) > room {
        assert(text.take(0).len() == 0);
    } else {
        let rest = text.drop_first();
        let left = room - width(text.first());
        lemma_fitting_bytes(rest, left);
        lemma_fitting(rest, left);
        let part = text.take(fitting(text, room));
        assert(part.drop_first() == rest.take(fitting(rest, left)));
        lemma_width(part[0]);
    }
}

/// Splitting a text into chunks loses nothing: put together they are the text. No chunk is empty,
/// and none is longer than the limit but for a single character that is. Each is as long as it can
/// be: the first character of the next one does not fit.
pub proof fn law_chunks(text: Seq<char>, max_bytes: nat)
    requires
        max_bytes > 0,
    ensures
        flat(chunks(text, max_bytes)) == text,
        forall|i: int|
            0 <= i < chunks(text, max_bytes).len() ==> {
                let part = #[trigger] chunks(text, max_bytes)[i];
                &&& part.len() > 0
                &&& byte_len(part) <= max_bytes || part.len() == 1
                &&& i + 1 < chunks(text, max_bytes).len() ==> byte_len(part) + width(
                    chunks(text, max_bytes)[i + 1][0],
                ) > max_bytes
            },
    decreases text.len(),
{
    let parts = chunks(text, max_bytes);
    if text.len() > 0 {
        let size = chunk_len(text, max_bytes);
        lemma_fitting(text, max_bytes as int);
        law_chunks(text.skip(size), max_bytes);
        let rest = chunks(text.skip(size), max_bytes);
        assert(parts[0] == text.take(size));
        assert(parts.drop_first() == rest);
        assert(text.take(size) + text.skip(size) == text);
        lemma_fitting_bytes(text, max_bytes as int);
        assert(rest.len() > 0 ==> byte_len(parts[0]) + width(rest[0][0]) > max_bytes) by {
            if rest.len() > 0 {
                lemma_fitting(text.skip(size), max_bytes as int);
                assert(rest[0][0] == text[size]);
                if fitting(text, max_bytes as int) == 0 {
                    assert(parts[0].drop_first() =~= Seq::empty());
                    lemma_width(text[0]);
                }
            }
        }
        assert forall|i: int| 0 <= i < parts.len() implies {
            let part = #[trigger] parts[i];
            &&& part.len() > 0
            &&& byte_len(part) <= max_bytes || part.len() == 1
            &&& i + 1 < parts.len() ==> byte_len(part) + width(parts[i + 1][0]) > max_bytes
        } by {
            if i > 0 {
                assert(parts[i] == rest[i - 1]);
                if i + 1 < parts.len() {
                    assert(parts[i + 1] == rest[i]);
                }
            } else if parts.len() > 1 {
                assert(parts[1] == rest[0]);
            }
        }
    }
}

/// Whether the hub waits for a resource on a link that the payload fits: one that was announced,
/// has not expired, and has the announced size and digest.
pub open spec fn is_expected(hub: Hub, now: Nanos, link: LinkId, payload: Seq<u8>) -> bool {
    holds(hub.expected, link) && exists|i: int|
        0 <= i < at(hub.expected, link).len() && (#[trigger] at(hub.expected, link)[i]).expires
            > now && fits(at(hub.expected, link)[i], payload)
}

/// A resource that was not announced on its link, has expired, or has another size or digest than
/// was announced, is refused with an error and has no effect on the state but for the counters.
pub proof fn law_unexpected_resource_is_refused(
    hub: Hub,
    now: Nanos,
    link: LinkId,
    payload: Seq<u8>,
)
    requires
        !is_expected(hub, now, link, payload),
    ensures
        only_errors(receiving(hub, now, link, payload).outs, link),
        receiving(hub, now, link, payload).outs.len() == 1,
        receiving(hub, now, link, payload).hub.state == (StateModel {
            counters: receiving(hub, now, link, payload).hub.state.counters,
            ..hub.state
        }),
{
    let done = receiving(hub, now, link, payload);
    if holds(hub.expected, link) {
        let all = at(hub.expected, link);
        let live = awaited(hub, link, now);
        lemma_fitting_index(live, payload);
        match fitting_index(live, payload) {
            Some(index) => {
                lemma_kept_from(all, being_awaited(now), index);
                let j = choose|j: int|
                    0 <= j < all.len() && #[trigger] all[j] == live[index] && being_awaited(now)(
                        all[j],
                    );
                assert(all[j].expires > now && fits(all[j], payload));
            },
            None => {},
        }
    }
    let fields = crate::router::error_draft(
        crate::router::resources::rejected(hub),
        None,
        if holds(hub.expected, link) {
            "resource does not match expectation"@
        } else {
            "resource received without expectation"@
        },
    );
    assert(done.outs == seq![crate::outgoing::single(link, fields)]);
    assert(crate::protocol::integer_field(fields, crate::constants::K_T) == Some(
        crate::constants::T_ERROR,
    ));
}

/// Whether a payload fits an expectation, as a function.
pub open spec fn fitted(payload: Seq<u8>) -> spec_fn(ExpectationModel) -> bool {
    |expectation: ExpectationModel| fits(expectation, payload)
}

proof fn lemma_tally_remove<A>(items: Seq<A>, pick: spec_fn(A) -> bool, index: int)
    requires
        0 <= index < items.len(),
        pick(items[index]),
    ensures
        tally(items.remove(index), pick) + 1 == tally(items, pick),
    decreases items.len(),
{
    if index == items.len() - 1 {
        assert(items.remove(index) =~= items.drop_last());
    } else {
        lemma_tally_remove(items.drop_last(), pick, index);
        assert(items.remove(index).drop_last() =~= items.drop_last().remove(index));
        assert(items.remove(index).last() == items.last());
    }
}

proof fn lemma_tally_some<A>(items: Seq<A>, pick: spec_fn(A) -> bool, index: int)
    requires
        0 <= index < items.len(),
        pick(items[index]),
    ensures
        tally(items, pick) > 0,
{
    lemma_tally_remove(items, pick, index);
}

proof fn lemma_kept_twice<A>(items: Seq<A>, keep: spec_fn(A) -> bool)
    requires
        forall|i: int| 0 <= i < items.len() ==> keep(#[trigger] items[i]),
    ensures
        kept(items, keep) == items,
    decreases items.len(),
{
    if items.len() > 0 {
        let rest = items.drop_last();
        assert forall|i: int| 0 <= i < rest.len() implies keep(#[trigger] rest[i]) by {
            assert(rest[i] == items[i]);
        }
        lemma_kept_twice(rest, keep);
        assert(keep(items[items.len() - 1]));
        assert(rest.push(items.last()) =~= items);
    } else {
        assert(kept(items, keep) =~= items);
    }
}

proof fn lemma_accepting(
    hub: Hub,
    link: LinkId,
    expectation: ExpectationModel,
    payload: Seq<u8>,
)
    ensures
        accepting(hub, link, expectation, payload).hub.expected == hub.expected,
{
    match text_kind(expectation.kind) {
        Some((kind, message_type)) => {
            lemma_passing_text(
                hub,
                link,
                expectation.room,
                kind,
                message_type,
                decode_utf8(payload),
            );
        },
        None => {},
    }
}

/// One announcement admits one resource. A resource that was announced uses up the first
/// announcement that it fits: one fewer is waited for on its link, and one fewer that it fits,
/// while the other announcements stay, and those on other links. Where it was the only one, the
/// same resource is refused from then on.
pub proof fn law_announcement_admits_once(
    hub: Hub,
    now: Nanos,
    link: LinkId,
    payload: Seq<u8>,
    other: LinkId,
    afterwards: Nanos,
)
    requires
        is_expected(hub, now, link, payload),
        now <= afterwards,
    ensures
        ({
            let live = awaited(hub, link, now);
            let after = receiving(hub, now, link, payload).hub;
            let left = awaited(after, link, now);
            &&& left.len() + 1 == live.len()
            &&& tally(left, fitted(payload)) + 1 == tally(live, fitted(payload))
            &&& fitting_index(live, payload) is Some
            &&& left == live.remove(fitting_index(live, payload)->0)
            &&& other != link ==> awaited(after, other, now) == awaited(hub, other, now)
            &&& tally(live, fitted(payload)) == 1 ==> !is_expected(after, afterwards, link, payload)
        }),
{
    let all = at(hub.expected, link);
    let live = awaited(hub, link, now);
    let after = receiving(hub, now, link, payload).hub;
    lemma_fitting_index(live, payload);
    let wanted = choose|i: int|
        0 <= i < all.len() && (#[trigger] all[i]).expires > now && fits(all[i], payload);
    lemma_kept_has(all, being_awaited(now), wanted);
    let found = choose|i: int| 0 <= i < live.len() && #[trigger] live[i] == all[wanted];
    assert(fits(live[found], payload));
    let index = fitting_index(live, payload)->0;
    let left = live.remove(index);
    lemma_tally_remove(live, fitted(payload), index);
    let holding = received(expecting(hub, link, left), payload.len() as int);
    lemma_accepting(holding, link, live[index], payload);
    assert(after.expected == put(hub.expected, link, left));
    assert(lookup(after.expected, link) == Some(left));
    assert forall|i: int| 0 <= i < left.len() implies being_awaited(now)(#[trigger] left[i]) by {
        let j = if i < index {
            i
        } else {
            i + 1
        };
        assert(left[i] == live[j]);
        lemma_kept_from(all, being_awaited(now), j);
    }
    lemma_kept_twice(left, being_awaited(now));
    if tally(live, fitted(payload)) == 1 && is_expected(after, afterwards, link, payload) {
        let i = choose|i: int|
            0 <= i < at(after.expected, link).len() && (#[trigger] at(after.expected, link)[i]).expires
                > afterwards && fits(at(after.expected, link)[i], payload);
        lemma_tally_some(left, fitted(payload), i);
    }
}

proof fn lemma_kept_has<A>(items: Seq<A>, keep: spec_fn(A) -> bool, i: int)
    requires
        0 <= i < items.len(),
        keep(items[i]),
    ensures
        exists|j: int| 0 <= j < kept(items, keep).len() && #[trigger] kept(items, keep)[j] == items[i],
    decreases items.len(),
{
    let rest = kept(items.drop_last(), keep);
    if i == items.len() - 1 {
        assert(kept(items, keep)[rest.len() as int] == items[i]);
    } else {
        lemma_kept_has(items.drop_last(), keep, i);
        let j = choose|j: int| 0 <= j < rest.len() && #[trigger] rest[j] == items[i];
        assert(kept(items, keep)[j] == items[i]);
    }
}

/// What is announced is waited for only if it is no larger than the limit.
pub proof fn law_announced_is_bounded(
    body: FieldMap,
    max_bytes: usize,
    room: Option<Seq<char>>,
    expires: Nanos,
)
    ensures
        announced(body, max_bytes, room, expires) is Ok ==> announced(
            body,
            max_bytes,
            room,
            expires,
        )->Ok_0.size <= max_bytes,
{
}

} // verus!
