//! Sorting: what is sorted is the same items, in order.

use crate::collections::{group_sequences, placed, ranking, sorted};
use crate::outgoing::UserInfo;
use crate::registry::Invitation;
use crate::router::admin::{Busy, BusyModel};
use crate::router::targets::{bytes_before, Candidate};
use crate::text::text_before;
use vstd::prelude::*;

verus! {

broadcast use group_sequences;

/// Whether a relation puts items in order: of two items at most one comes before the other, and an
/// item that comes before another also comes before all that the other does not come after.
pub open spec fn orders<T>(before: spec_fn(T, T) -> bool) -> bool {
    &&& forall|a: T, b: T| #[trigger] before(a, b) ==> !before(b, a)
    &&& forall|a: T, b: T, c: T|
        #![trigger before(a, b), before(b, c)]
        !before(a, b) && !before(b, c) ==> !before(a, c)
}

/// Whether no item stands after one that it comes before.
pub open spec fn in_order<T>(items: Seq<T>, before: spec_fn(T, T) -> bool) -> bool {
    forall|i: int, j: int|
        0 <= i < j < items.len() ==> !before(#[trigger] items[j], #[trigger] items[i])
}

proof fn lemma_placed<T>(items: Seq<T>, item: T, before: spec_fn(T, T) -> bool)
    requires
        orders(before),
        in_order(items, before),
    ensures
        in_order(placed(items, item, before), before),
        placed(items, item, before).len() == items.len() + 1,
        forall|one: T| #[trigger]
            placed(items, item, before).contains(one) == (one == item || items.contains(one)),
    decreases items.len(),
{
    let result = placed(items, item, before);
    if items.len() == 0 || !before(item, items.last()) {
        assert forall|i: int, j: int| 0 <= i < j < result.len() implies !before(
            #[trigger] result[j],
            #[trigger] result[i],
        ) by {
            if j == items.len() && i < items.len() - 1 {
                assert(!before(items[items.len() - 1], items[i]));
                assert(!before(item, items.last()));
            }
        }
        assert forall|one: T| #[trigger] result.contains(one) == (one == item || items.contains(
            one,
        )) by {
            if items.contains(one) {
                let i = choose|i: int| 0 <= i < items.len() && items[i] == one;
                assert(result[i] == one);
            }
            assert(result[items.len() as int] == item);
        }
    } else {
        let rest = items.drop_last();
        assert(in_order(rest, before)) by {
            assert forall|i: int, j: int| 0 <= i < j < rest.len() implies !before(
                #[trigger] rest[j],
                #[trigger] rest[i],
            ) by {
                assert(!before(items[j], items[i]));
            }
        }
        lemma_placed(rest, item, before);
        let less = placed(rest, item, before);
        assert forall|i: int, j: int| 0 <= i < j < result.len() implies !before(
            #[trigger] result[j],
            #[trigger] result[i],
        ) by {
            if j == less.len() {
                assert(less.contains(less[i]));
                if less[i] != item {
                    let k = choose|k: int| 0 <= k < rest.len() && rest[k] == less[i];
                    assert(!before(items[items.len() - 1], items[k]));
                }
            } else {
                assert(!before(less[j], less[i]));
            }
        }
        assert forall|one: T| #[trigger] result.contains(one) == (one == item || items.contains(
            one,
        )) by {
            assert(less.contains(one) == (one == item || rest.contains(one)));
            if rest.contains(one) {
                let i = choose|i: int| 0 <= i < rest.len() && rest[i] == one;
                assert(items[i] == one);
            }
            if items.contains(one) {
                let i = choose|i: int| 0 <= i < items.len() && items[i] == one;
                if i < rest.len() {
                    assert(rest[i] == one);
                } else {
                    assert(result[less.len() as int] == one);
                }
            }
            if less.contains(one) {
                let i = choose|i: int| 0 <= i < less.len() && less[i] == one;
                assert(result[i] == one);
            }
            if result.contains(one) {
                let i = choose|i: int| 0 <= i < result.len() && result[i] == one;
                if i < less.len() {
                    assert(less[i] == one);
                } else {
                    assert(items[items.len() - 1] == one);
                }
            }
        }
    }
}

/// What is sorted is in order, and holds the same items, as many as before.
pub proof fn law_sorted<T>(items: Seq<T>, before: spec_fn(T, T) -> bool)
    requires
        orders(before),
    ensures
        in_order(sorted(items, before), before),
        sorted(items, before).len() == items.len(),
        forall|one: T| #[trigger]
            sorted(items, before).contains(one) == items.contains(one),
    decreases items.len(),
{
    if items.len() > 0 {
        let rest = items.drop_last();
        law_sorted(rest, before);
        lemma_placed(sorted(rest, before), items.last(), before);
        assert forall|one: T| #[trigger] sorted(items, before).contains(one) == items.contains(
            one,
        ) by {
            assert(sorted(rest, before).contains(one) == rest.contains(one));
            if rest.contains(one) {
                let i = choose|i: int| 0 <= i < rest.len() && rest[i] == one;
                assert(items[i] == one);
            }
            if items.contains(one) {
                let i = choose|i: int| 0 <= i < items.len() && items[i] == one;
                if i < rest.len() {
                    assert(rest[i] == one);
                }
            }
            assert(items[items.len() - 1] == items.last());
        }
    }
}

proof fn lemma_text_before(a: Seq<char>, b: Seq<char>, c: Seq<char>)
    ensures
        text_before(a, b) ==> !text_before(b, a),
        !text_before(a, b) && !text_before(b, c) ==> !text_before(a, c),
        a.len() == 0 && b.len() == 0 ==> !text_before(a, b),
    decreases a.len() + b.len() + c.len(),
{
    if a.len() > 0 && b.len() > 0 && c.len() > 0 {
        lemma_text_before(a.drop_first(), b.drop_first(), c.drop_first());
    } else if a.len() > 0 && b.len() > 0 {
        lemma_text_before(a.drop_first(), b.drop_first(), c);
    }
}

proof fn lemma_bytes_before(a: Seq<u8>, b: Seq<u8>, c: Seq<u8>)
    ensures
        bytes_before(a, b) ==> !bytes_before(b, a),
        !bytes_before(a, b) && !bytes_before(b, c) ==> !bytes_before(a, c),
        a.len() == 0 && b.len() == 0 ==> !bytes_before(a, b),
    decreases a.len() + b.len() + c.len(),
{
    if a.len() > 0 && b.len() > 0 && c.len() > 0 {
        lemma_bytes_before(a.drop_first(), b.drop_first(), c.drop_first());
    } else if a.len() > 0 && b.len() > 0 {
        lemma_bytes_before(a.drop_first(), b.drop_first(), c);
    }
}

/// Everything that the hub sorts is sorted by an order: texts by their characters, users by what
/// they are shown as, identities by their bytes, rooms by how many are in them and then by name,
/// invitations by their hash.
pub proof fn law_rankings_are_orders()
    ensures
        orders(ranking::<String>()),
        orders(ranking::<UserInfo>()),
        orders(ranking::<Candidate>()),
        orders(ranking::<Busy>()),
        orders(ranking::<Invitation>()),
{
    assert forall|a: Seq<char>, b: Seq<char>| #[trigger] text_before(a, b) implies !text_before(
        b,
        a,
    ) by {
        lemma_text_before(a, b, b);
    }
    assert forall|a: Seq<char>, b: Seq<char>, c: Seq<char>|
        #![trigger text_before(a, b), text_before(b, c)]
        !text_before(a, b) && !text_before(b, c) implies !text_before(a, c) by {
        lemma_text_before(a, b, c);
    }
    assert forall|a: Seq<u8>, b: Seq<u8>| #[trigger] bytes_before(a, b) implies !bytes_before(
        b,
        a,
    ) by {
        lemma_bytes_before(a, b, b);
    }
    assert forall|a: Seq<u8>, b: Seq<u8>, c: Seq<u8>|
        #![trigger bytes_before(a, b), bytes_before(b, c)]
        !bytes_before(a, b) && !bytes_before(b, c) implies !bytes_before(a, c) by {
        lemma_bytes_before(a, b, c);
    }
    let busy = ranking::<Busy>();
    assert forall|a: BusyModel, b: BusyModel, c: BusyModel|
        #![trigger busy(a, b), busy(b, c)]
        !busy(a, b) && !busy(b, c) implies !busy(a, c) by {
        lemma_text_before(a.name, b.name, c.name);
    }
}

} // verus!
