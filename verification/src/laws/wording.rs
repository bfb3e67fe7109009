//! Texts: words, letters, numbers and the order of texts.

use crate::clock::{fraction, gap, later, seconds, tenths, Nanos};
use crate::collections::{group_collections, group_sequences, ranking};
use crate::outgoing::{UserInfo, UserModel};
use crate::registry::{Invitation, InvitationModel};
use crate::router::admin::{Busy, BusyModel};
use crate::router::targets::{bytes_before, Candidate, CandidateModel};
use crate::text::{
    ascii_lower, decimal, digit, digit_value, hexadecimal, is_white, joined, text_before, trim_start, unhexed,
    word_len, words,
};
use super::ruling::law_joined_words;
use vstd::prelude::*;

verus! {

broadcast use {group_collections, group_sequences};

/// Whether a text is a word: not empty, and without white space.
pub open spec fn is_word(text: Seq<char>) -> bool {
    text.len() > 0 && forall|i: int| 0 <= i < text.len() ==> !is_white(#[trigger] text[i])
}

/// Among the characters of ASCII, white space is the space and the five characters from the tab to
/// the carriage return.
pub proof fn law_white_space(c: char)
    requires
        c as u32 <= 0x7f,
    ensures
        is_white(c) == (c == ' ' || '\t' <= c <= '\r'),
{
}

proof fn lemma_word_len(word: Seq<char>, rest: Seq<char>)
    requires
        forall|i: int| 0 <= i < word.len() ==> !is_white(#[trigger] word[i]),
        rest.len() == 0 || is_white(rest[0]),
    ensures
        word_len(word + rest) == word.len(),
    decreases word.len(),
{
    let text = word + rest;
    if word.len() > 0 {
        assert(text.first() == word[0]);
        assert(text.drop_first() =~= word.drop_first() + rest);
        assert forall|i: int| 0 <= i < word.drop_first().len() implies !is_white(
            #[trigger] word.drop_first()[i],
        ) by {
            assert(word.drop_first()[i] == word[i + 1]);
        }
        lemma_word_len(word.drop_first(), rest);
    } else {
        assert(text =~= rest);
    }
}

/// The words of a text that begins with a word and a space are that word and those of the rest.
pub proof fn law_first_word(word: Seq<char>, rest: Seq<char>)
    requires
        is_word(word),
    ensures
        words(word) == seq![word],
        words(word + seq![' '] + rest) == seq![word] + words(rest),
{
    let none = Seq::<char>::empty();
    assert(!is_white(word[0]));
    assert(word + none =~= word);
    lemma_word_len(word, none);
    assert(trim_start(word) == word) by {
        assert(word.first() == word[0]);
    }
    assert(word.take(word.len() as int) =~= word);
    assert(word.skip(word.len() as int) =~= none);
    assert(words(none) =~= Seq::<Seq<char>>::empty());
    assert(words(word) =~= seq![word]);
    let gap = seq![' '] + rest;
    let text = word + gap;
    assert(word + seq![' '] + rest =~= text);
    assert(gap[0] == ' ');
    lemma_word_len(word, gap);
    assert(text.first() == word[0]);
    assert(trim_start(text) == text);
    assert(text.take(word.len() as int) =~= word);
    assert(text.skip(word.len() as int) =~= gap);
    assert(words(text) == seq![word] + words(gap));
    assert(gap.drop_first() =~= rest);
    assert(gap.first() == ' ');
    assert(trim_start(gap) == trim_start(rest));
    assert(words(gap) == words(rest));
}

/// Words that are joined by spaces are read back.
pub proof fn law_words_are_read_back(parts: Seq<Seq<char>>)
    requires
        forall|i: int| 0 <= i < parts.len() ==> is_word(#[trigger] parts[i]),
    ensures
        words(joined(parts, " "@)) == parts,
    decreases parts.len(),
{
    reveal_strlit(" ");
    assert(" "@ =~= seq![' ']);
    law_joined_words(parts, " "@);
    if parts.len() == 0 {
        assert(joined(parts, " "@) =~= Seq::<char>::empty());
        assert(words(Seq::<char>::empty()) =~= Seq::<Seq<char>>::empty());
        assert(parts =~= Seq::<Seq<char>>::empty());
    } else if parts.len() == 1 {
        law_first_word(parts[0], Seq::empty());
        assert(parts =~= seq![parts[0]]);
    } else {
        let rest = parts.skip(1);
        assert forall|i: int| 0 <= i < rest.len() implies is_word(#[trigger] rest[i]) by {
            assert(rest[i] == parts[i + 1]);
        }
        law_words_are_read_back(rest);
        law_first_word(parts[0], joined(rest, " "@));
        assert(seq![parts[0]] + rest =~= parts);
    }
}

/// White space before a text makes no difference to its words, and white space alone has none.
pub proof fn law_white_space_is_no_word(text: Seq<char>, c: char)
    requires
        is_white(c),
    ensures
        words(seq![c] + text) == words(text),
        words(Seq::<char>::empty()).len() == 0,
{
    let longer = seq![c] + text;
    assert(longer.first() == c);
    assert(longer.drop_first() =~= text);
    assert(trim_start(longer) == trim_start(text));
}

/// The case of letters of ASCII is all that lowering changes: no capital is left, and a text
/// without capitals stays as it is.
pub proof fn law_lower(text: Seq<char>)
    ensures
        ascii_lower(text).len() == text.len(),
        forall|i: int| 0 <= i < text.len() ==> !('A' <= #[trigger] ascii_lower(text)[i] <= 'Z'),
        forall|i: int|
            0 <= i < text.len() ==> if 'A' <= #[trigger] text[i] <= 'Z' {
                ascii_lower(text)[i] as int == text[i] as int + 32
            } else {
                ascii_lower(text)[i] == text[i]
            },
{
}

/// Bytes are written in hexadecimal with two digits each, in small letters, the higher half first.
pub proof fn law_hexadecimal(bytes: Seq<u8>)
    ensures
        hexadecimal(bytes).len() == 2 * bytes.len(),
        forall|i: int|
            0 <= i < hexadecimal(bytes).len() ==> '0' <= #[trigger] hexadecimal(bytes)[i] <= '9'
                || 'a' <= hexadecimal(bytes)[i] <= 'f',
        forall|i: int|
            0 <= i < bytes.len() ==> #[trigger] bytes[i] == 16 * worth_of(
                hexadecimal(bytes)[2 * i],
            ) + worth_of(hexadecimal(bytes)[2 * i + 1]),
{
    let text = hexadecimal(bytes);
    assert forall|i: int| 0 <= i < text.len() implies '0' <= #[trigger] text[i] <= '9' || 'a'
        <= text[i] <= 'f' by {
        let byte = bytes[i / 2];
        assert(0 <= byte as int / 16 < 16 && 0 <= byte as int % 16 < 16);
    }
    assert forall|i: int| 0 <= i < bytes.len() implies #[trigger] bytes[i] == 16 * worth_of(
        text[2 * i],
    ) + worth_of(text[2 * i + 1]) by {
        let byte = bytes[i];
        assert((2 * i) / 2 == i && (2 * i + 1) / 2 == i);
        assert((2 * i) % 2 == 0 && (2 * i + 1) % 2 == 1);
        assert(0 <= byte as int / 16 < 16 && 0 <= byte as int % 16 < 16);
    }
}

/// What a digit of sixteen is worth.
pub open spec fn worth_of(c: char) -> int {
    if c <= '9' {
        c as int - '0' as int
    } else {
        10 + (c as int - 'a' as int)
    }
}

/// Hexadecimal is read without regard to case.
pub proof fn law_hexadecimal_ignores_case(text: Seq<char>)
    ensures
        unhexed(ascii_lower(text)) == unhexed(text),
{
    let lower = ascii_lower(text);
    assert forall|i: int| 0 <= i < text.len() implies digit_value(#[trigger] lower[i])
        == digit_value(text[i]) by {}
    if unhexed(text) is Some {
        assert forall|i: int| 0 <= i < lower.len() implies digit_value(
            #[trigger] lower[i],
        ) is Some by {
            assert(digit_value(text[i]) is Some);
        }
        assert(unhexed(lower)->0 =~= unhexed(text)->0);
    }
    if unhexed(lower) is Some {
        assert forall|i: int| 0 <= i < text.len() implies digit_value(
            #[trigger] text[i],
        ) is Some by {
            assert(digit_value(lower[i]) is Some);
        }
    }
}

/// The number that a numeral of ten stands for.
pub open spec fn stands_for(numeral: Seq<char>) -> int
    decreases numeral.len(),
{
    if numeral.len() == 0 {
        0
    } else {
        10 * stands_for(numeral.drop_last()) + (numeral.last() as int - '0' as int)
    }
}

/// A number is written in digits that stand for it, without a zero in front.
pub proof fn law_decimal(value: nat)
    ensures
        stands_for(decimal(value)) == value,
        decimal(value).len() > 0,
        forall|i: int| 0 <= i < decimal(value).len() ==> '0' <= #[trigger] decimal(value)[i] <= '9',
        value > 0 ==> decimal(value)[0] != '0',
    decreases value,
{
    if value < 10 {
        let numeral = decimal(value);
        assert(numeral.drop_last() =~= Seq::<char>::empty());
        assert(numeral.last() == digit(value as int));
        assert(stands_for(Seq::<char>::empty()) == 0);
    } else {
        law_decimal(value / 10);
        let numeral = decimal(value);
        assert(numeral.drop_last() == decimal(value / 10));
        assert(numeral.last() == digit((value % 10) as int));
        assert(numeral[0] == decimal(value / 10)[0]);
    }
}

/// Tenths of a second are the nearest, and the even one of two that are as near.
pub proof fn law_tenths(value: nat)
    ensures
        exists|count: nat|
            {
                &&& tenths(value) == #[trigger] decimal(count / 10) + "."@ + decimal(count % 10)
                &&& -50_000_000 <= count * 100_000_000 - value <= 50_000_000
                &&& count * 100_000_000 - value == 50_000_000 || value - count * 100_000_000
                    == 50_000_000 ==> count % 2 == 0
            },
{
    let whole = value / 100_000_000;
    let part = value % 100_000_000;
    let count: nat = if part < 50_000_000 || (part == 50_000_000 && whole % 2 == 0) {
        whole
    } else {
        whole + 1
    };
    assert(tenths(value) == decimal(count / 10) + "."@ + decimal(count % 10));
}

/// Whether a number is a power of ten.
pub open spec fn is_power_of_ten(scale: nat) -> bool
    decreases scale,
{
    scale == 1 || (scale >= 10 && scale % 10 == 0 && is_power_of_ten(scale / 10))
}

/// What digits behind a point are worth, the first of them at a scale.
pub open spec fn worth(digits: Seq<char>, scale: nat) -> int
    decreases digits.len(),
{
    if digits.len() == 0 {
        0
    } else {
        (digits.first() as int - '0' as int) * scale + worth(digits.drop_first(), scale / 10)
    }
}

/// The digits behind the point are worth what they stand for, and there is no zero at their end.
pub proof fn law_fraction(part: nat, scale: nat)
    requires
        is_power_of_ten(scale),
        part < 10 * scale,
    ensures
        worth(fraction(part, scale), scale) == part,
        (fraction(part, scale).len() == 0) == (part == 0),
        part > 0 ==> fraction(part, scale).last() != '0',
    decreases scale,
{
    if part > 0 {
        let rest = part % scale;
        let value = part / scale;
        let digits = fraction(part, scale);
        let behind = fraction(rest, scale / 10);
        assert(value < 10 && part == value * scale + rest && rest < scale) by (nonlinear_arith)
            requires
                0 < part < 10 * scale,
                scale > 0,
                rest == part % scale,
                value == part / scale,
        ;
        assert(digits == seq![digit(value as int)] + behind);
        assert(digits.first() == digit(value as int));
        assert(digits.drop_first() =~= behind);
        assert(digits.first() as int - '0' as int == value);
        if scale == 1 {
            assert(rest == 0);
            assert(behind.len() == 0);
            assert(worth(behind, 0) == 0);
            assert(scale / 10 == 0);
            assert(digits.last() == digits.first());
            assert(value > 0) by (nonlinear_arith)
                requires
                    part == value * scale + rest,
                    rest == 0,
                    part > 0,
            ;
        } else {
            assert(rest < 10 * (scale / 10));
            law_fraction(rest, scale / 10);
            if rest > 0 {
                assert(digits.last() == behind.last());
            } else {
                assert(behind.len() == 0);
                assert(digits.last() == digits.first());
                assert(value > 0) by (nonlinear_arith)
                    requires
                        part == value * scale + rest,
                        rest == 0,
                        part > 0,
                ;
            }
        }
        assert((digits.first() as int - '0' as int) * scale == value * scale);
    }
}

/// A time is written as its whole seconds, and behind a point what it has beyond them, where that
/// is something.
pub proof fn law_seconds(value: nat)
    ensures
        value % 1_000_000_000 == 0 ==> seconds(value) == decimal(value / 1_000_000_000),
        value % 1_000_000_000 != 0 ==> exists|behind: Seq<char>|
            {
                &&& seconds(value) == #[trigger] (decimal(value / 1_000_000_000) + "."@ + behind)
                &&& worth(behind, 100_000_000) == value % 1_000_000_000
                &&& behind.last() != '0'
            },
{
    reveal_with_fuel(is_power_of_ten, 10);
    assert(is_power_of_ten(100_000_000));
    law_fraction(value % 1_000_000_000, 100_000_000);
    let behind = fraction(value % 1_000_000_000, 100_000_000);
    if value % 1_000_000_000 != 0 {
        assert(seconds(value) == decimal(value / 1_000_000_000) + "."@ + behind);
    }
}

/// Times are added and compared without overflow: an end that cannot be told is the last, and what
/// lies ahead is no time ago.
pub proof fn law_times(now: Nanos, more: Nanos, since: Nanos)
    ensures
        now + more <= u128::MAX ==> later(now, more) == now + more,
        now + more > u128::MAX ==> later(now, more) == u128::MAX,
        since <= now ==> gap(now, since) == now - since,
        since > now ==> gap(now, since) == 0,
{
}

/// Of two texts that begin alike, the one with the lesser character where they part comes first; a
/// beginning comes before what it is the beginning of.
pub proof fn law_text_order(
    common: Seq<char>,
    first: char,
    one: Seq<char>,
    second: char,
    other: Seq<char>,
)
    ensures
        first < second ==> text_before(common + seq![first] + one, common + seq![second] + other),
        first > second ==> !text_before(common + seq![first] + one, common + seq![second] + other),
        text_before(common, common + seq![second] + other),
        !text_before(common + seq![first] + one, common),
    decreases common.len(),
{
    let left = common + seq![first] + one;
    let right = common + seq![second] + other;
    if common.len() > 0 {
        let rest = common.drop_first();
        law_text_order(rest, first, one, second, other);
        assert(left.drop_first() =~= rest + seq![first] + one);
        assert(right.drop_first() =~= rest + seq![second] + other);
        assert(left[0] == common[0] && right[0] == common[0]);
    } else {
        assert(left[0] == first && right[0] == second);
    }
}

/// The same holds of bytes.
pub proof fn law_byte_order(
    common: Seq<u8>,
    first: u8,
    one: Seq<u8>,
    second: u8,
    other: Seq<u8>,
)
    ensures
        first < second ==> bytes_before(common + seq![first] + one, common + seq![second] + other),
        first > second ==> !bytes_before(common + seq![first] + one, common + seq![second] + other),
        bytes_before(common, common + seq![second] + other),
        !bytes_before(common + seq![first] + one, common),
    decreases common.len(),
{
    let left = common + seq![first] + one;
    let right = common + seq![second] + other;
    if common.len() > 0 {
        let rest = common.drop_first();
        law_byte_order(rest, first, one, second, other);
        assert(left.drop_first() =~= rest + seq![first] + one);
        assert(right.drop_first() =~= rest + seq![second] + other);
        assert(left[0] == common[0] && right[0] == common[0]);
    } else {
        assert(left[0] == first && right[0] == second);
    }
}

/// What is sorted by what: texts as they are, users by the name that they are shown under, targets
/// by the bytes of their identities, rooms by how many are in them, the most first, and then by
/// name, and invitations by whom they are for.
pub proof fn law_rankings(
    left: Seq<char>,
    right: Seq<char>,
    user: UserModel,
    other: UserModel,
    one: CandidateModel,
    another: CandidateModel,
    busy: BusyModel,
    quiet: BusyModel,
    first: InvitationModel,
    second: InvitationModel,
)
    ensures
        ranking::<String>()(left, right) == text_before(left, right),
        ranking::<UserInfo>()(user, other) == text_before(
            if user.nick is Some {
                user.nick->0
            } else {
                user.identity
            },
            if other.nick is Some {
                other.nick->0
            } else {
                other.identity
            },
        ),
        ranking::<Candidate>()(one, another) == bytes_before(one.identity@, another.identity@),
        busy.count > quiet.count ==> ranking::<Busy>()(busy, quiet),
        busy.count < quiet.count ==> !ranking::<Busy>()(busy, quiet),
        busy.count == quiet.count ==> ranking::<Busy>()(busy, quiet) == text_before(
            busy.name,
            quiet.name,
        ),
        ranking::<Invitation>()(first, second) == text_before(first.hash, second.hash),
{
}

} // verus!
