//! Time: integer nanoseconds, the readings of the two clocks, and how durations are written.

use crate::text::{
    decimal, digit, from_chars, signed_decimal, to_chars, to_decimal, to_digit, to_signed_decimal,
    unpadded,
};
use vstd::prelude::*;

verus! {

/// A duration, or a point in time, in nanoseconds. Points in time are counted from the Unix epoch
/// on the wall clock, and from the start of the hub on the steady clock.
pub type Nanos = u128;

/// One second.
pub const SECOND: u128 = 1_000_000_000;

/// One reading of both clocks.
#[derive(Clone, Copy, Debug)]
pub struct Clock {
    pub wall: Nanos,
    pub mono: Nanos,
}

/// A point in time of the steady clock.
#[verifier::external_type_specification]
#[verifier::external_body]
pub struct ExInstant(std::time::Instant);

/// `std::time::SystemTime::now`: nanoseconds since the Unix epoch, and zero for a clock that is
/// set before it. Nothing is said of the reading.
#[verifier::external_body]
pub(crate) fn wall_time() -> (result: Nanos) {
    std::time::SystemTime::now().duration_since(std::time::UNIX_EPOCH).unwrap_or_default().as_nanos()
}

/// `std::time::Instant::now`. Nothing is said of the reading.
#[verifier::external_body]
pub(crate) fn steady_time() -> (result: std::time::Instant) {
    std::time::Instant::now()
}

/// `std::time::Instant::elapsed`, in nanoseconds. Nothing is said of the reading.
#[verifier::external_body]
pub(crate) fn elapsed(since: &std::time::Instant) -> (result: Nanos) {
    since.elapsed().as_nanos()
}

/// The current wall-clock time. Nothing is said of the reading.
pub fn now() -> (result: Nanos) {
    wall_time()
}

/// `value + more`, or the largest point in time where that is beyond it.
pub open spec fn later(value: Nanos, more: Nanos) -> Nanos {
    if value + more > u128::MAX {
        u128::MAX
    } else {
        (value + more) as u128
    }
}

/// How much later `value` is than `since`; zero where it is earlier.
pub open spec fn gap(value: Nanos, since: Nanos) -> Nanos {
    if value < since {
        0
    } else {
        (value - since) as u128
    }
}

/// `value + more`, or the largest point in time where that is beyond it.
pub fn add_time(value: Nanos, more: Nanos) -> (result: Nanos)
    ensures
        result == later(value, more),
{
    value.saturating_add(more)
}

/// How much later `value` is than `since`; zero where it is earlier.
pub fn time_gap(value: Nanos, since: Nanos) -> (result: Nanos)
    ensures
        result == gap(value, since),
{
    value.saturating_sub(since)
}

/// The decimal digits of `part / (10 * scale)`, up to the last one that is not zero.
pub open spec fn fraction(part: nat, scale: nat) -> Seq<char>
    decreases scale,
{
    if part == 0 || scale == 0 {
        Seq::empty()
    } else {
        seq![digit((part / scale) as int)] + fraction(part % scale, scale / 10)
    }
}

/// A duration in seconds, as short as it can be written exactly.
pub open spec fn seconds(value: nat) -> Seq<char> {
    let whole = decimal(value / 1_000_000_000);
    if value % 1_000_000_000 == 0 {
        whole
    } else {
        whole + "."@ + fraction(value % 1_000_000_000, 100_000_000)
    }
}

/// A duration in seconds that is not zero, as one digit, the digits behind the point, and a power
/// of ten.
pub open spec fn scientific(value: nat) -> Seq<char> {
    let digits = decimal(value);
    let behind = unpadded(digits.skip(1));
    digits.take(1) + (if behind.len() == 0 {
        behind
    } else {
        "."@ + behind
    }) + "e"@ + signed_decimal(digits.len() - 10)
}

/// A duration in seconds with at least one digit behind the point; a very short or very long one
/// has an exponent instead.
pub open spec fn seconds_pointed(value: nat) -> Seq<char> {
    if 0 < value < 100_000 || value >= 10_000_000_000_000_000_000_000_000 {
        scientific(value)
    } else if value % 1_000_000_000 == 0 {
        seconds(value) + ".0"@
    } else {
        seconds(value)
    }
}

/// A duration in seconds, rounded to tenths; halfway between two it is the even one.
pub open spec fn tenths(value: nat) -> Seq<char> {
    let whole = value / 100_000_000;
    let part = value % 100_000_000;
    let rounded = if part < 50_000_000 || (part == 50_000_000 && whole % 2 == 0) {
        whole
    } else {
        whole + 1
    };
    decimal(rounded / 10) + "."@ + decimal(rounded % 10)
}

/// Writes a duration in seconds, as short as it can be written exactly.
pub fn to_seconds(value: Nanos) -> (result: String)
    ensures
        result@ == seconds(value as nat),
{
    let mut text = to_decimal(value / SECOND);
    let mut part: u128 = value % SECOND;
    if part != 0 {
        text.append(".");
        let ghost start = text@;
        let mut scale: u128 = 100_000_000;
        assert(start + Seq::<char>::empty() =~= start);
        assert(start + fraction(part as nat, scale as nat) == text@ + fraction(
            part as nat,
            scale as nat,
        ));
        while part != 0
            invariant
                scale > 0 || part == 0,
                part < 10 * scale || part == 0,
                scale == 100_000_000 || scale == 10_000_000 || scale == 1_000_000 || scale
                    == 100_000 || scale == 10_000 || scale == 1_000 || scale == 100 || scale == 10
                    || scale == 1 || scale == 0,
                text@ + fraction(part as nat, scale as nat) == start + fraction(
                    (value % SECOND) as nat,
                    100_000_000,
                ),
            decreases scale,
        {
            let ghost before = text@;
            let lead: u128 = part / scale;
            assert(lead < 10 && part == scale * lead + part % scale && part % scale < scale) by (
                nonlinear_arith)
                requires
                    scale > 0,
                    part < 10 * scale,
                    lead == part / scale,
            ;
            text.push(to_digit(lead as u8));
            proof {
                assert(before + (seq![digit(lead as int)] + fraction(
                    part as nat % scale as nat,
                    scale as nat / 10,
                )) =~= text@ + fraction(part as nat % scale as nat, scale as nat / 10));
            }
            part = part % scale;
            scale = scale / 10;
        }
        assert(text@ + Seq::<char>::empty() =~= text@);
    }
    text
}

/// Writes a duration in seconds that is not zero with an exponent.
fn to_scientific(value: Nanos) -> (result: String)
    ensures
        result@ == scientific(value as nat),
{
    let digits = to_chars(to_decimal(value).as_str());
    let ghost all = digits@;
    assert(all.len() > 0);
    let mut end: usize = digits.len();
    assert(all.subrange(1, end as int) =~= all.skip(1));
    while end > 1 && digits[end - 1] == '0'
        invariant
            1 <= end <= digits@.len(),
            all == digits@,
            unpadded(all.subrange(1, end as int)) == unpadded(all.skip(1)),
        decreases end,
    {
        assert(all.subrange(1, end as int).drop_last() =~= all.subrange(1, end - 1));
        end -= 1;
    }
    let power: i128 = digits.len() as i128 - 10;
    let mut text = from_chars(&digits, 0, 1);
    assert(text@ =~= all.take(1));
    if end > 1 {
        text.append(".");
        text.append(from_chars(&digits, 1, end).as_str());
        assert(all.subrange(1, end as int).last() == digits@[end - 1]);
        assert(text@ =~= all.take(1) + ("."@ + all.subrange(1, end as int)));
    } else {
        assert(all.subrange(1, 1) =~= Seq::empty());
        assert(text@ =~= all.take(1) + Seq::empty());
    }
    text.append("e");
    text.append(to_signed_decimal(power).as_str());
    text
}

/// Writes a duration in seconds with at least one digit behind the point; a very short or very
/// long one has an exponent instead.
pub fn to_seconds_pointed(value: Nanos) -> (result: String)
    ensures
        result@ == seconds_pointed(value as nat),
{
    if (0 < value && value < 100_000) || value >= 10_000_000_000_000_000_000_000_000 {
        return to_scientific(value);
    }
    let mut text = to_seconds(value);
    if value % SECOND == 0 {
        text.append(".0");
    }
    text
}

/// Writes a duration in seconds, rounded to tenths; halfway between two it is the even one.
pub fn to_tenths(value: Nanos) -> (result: String)
    ensures
        result@ == tenths(value as nat),
{
    let whole: u128 = value / 100_000_000;
    let part: u128 = value % 100_000_000;
    let rounded: u128 = if part < 50_000_000 || (part == 50_000_000 && whole % 2 == 0) {
        whole
    } else {
        whole + 1
    };
    let mut text = to_decimal(rounded / 10);
    text.append(".");
    text.append(to_decimal(rounded % 10).as_str());
    text
}

} // verus!
