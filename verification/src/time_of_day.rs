//! Time of day at millisecond precision, and its wire quantization to
//! 1/300-second ticks.

use vstd::prelude::*;

verus! {

/// The number of milliseconds of one day.
pub const MS_PER_DAY: u32 = 24 * 60 * 60 * 1000;

/// The largest tick count a single day admits: one tick is 1/300 of a
/// second, so a day holds `24 * 60 * 60 * 300` ticks numbered from 0.
pub const MAX_WIRE_TICKS: u32 = 24 * 60 * 60 * 300 - 1;

/// A time of day.  Every field is bounded by its clock unit; see
/// [`time_valid`].
#[derive(Clone, Copy, Debug, PartialEq, Eq, Structural)]
pub struct TimeOfDay {
    pub hour: u8,
    pub minute: u8,
    pub second: u8,
    pub millisecond: u16,
}

/// Whether the fields of `t` name a real time of day.
pub open spec fn time_valid(t: TimeOfDay) -> bool {
    &&& t.hour < 24
    &&& t.minute < 60
    &&& t.second < 60
    &&& t.millisecond < 1000
}

/// Milliseconds since midnight.
pub open spec fn ms_of_day(t: TimeOfDay) -> int {
    (t.hour * 3600 + t.minute * 60 + t.second) * 1000 + t.millisecond
}

/// The wire tick count a time of day encodes to: milliseconds scaled to
/// 1/300-second units, truncated.
pub open spec fn wire_ticks_of(t: TimeOfDay) -> int {
    ms_of_day(t) * 3 / 10
}

/// The millisecond count a wire tick count decodes to: ticks scaled back
/// to milliseconds, truncating the division first.
pub open spec fn ms_of_ticks(ticks: int) -> int {
    ticks / 3 * 10
}

/// The time of day a millisecond count since midnight names.
pub open spec fn time_of_ms(ms: int) -> TimeOfDay {
    TimeOfDay {
        hour: (ms / 3600000) as u8,
        minute: (ms % 3600000 / 60000) as u8,
        second: (ms % 60000 / 1000) as u8,
        millisecond: (ms % 1000) as u16,
    }
}

/// Builds a time of day after checking the clock bounds, rejecting fields
/// that name no real time.
pub fn make_time(hour: u8, minute: u8, second: u8, millisecond: u16) -> (r: Option<TimeOfDay>)
    ensures
        match r {
            Some(t) => t == (TimeOfDay { hour, minute, second, millisecond }) && time_valid(t),
            None => !time_valid(TimeOfDay { hour, minute, second, millisecond }),
        },
{
    if hour < 24 && minute < 60 && second < 60 && millisecond < 1000 {
        Some(TimeOfDay { hour, minute, second, millisecond })
    } else {
        None
    }
}

/// A valid time of day holds fewer milliseconds than the day.
pub proof fn lemma_ms_of_day_bounds(t: TimeOfDay)
    requires
        time_valid(t),
    ensures
        0 <= ms_of_day(t) < MS_PER_DAY,
{
}

/// Tick ceiling: no valid time of day encodes to a tick count beyond
/// `MAX_WIRE_TICKS`; tick counts at or above `MAX_WIRE_TICKS + 1` stand
/// for a rolled-over day and never arise from encoding.
pub proof fn lemma_tick_ceiling(t: TimeOfDay)
    requires
        time_valid(t),
    ensures
        0 <= wire_ticks_of(t) <= MAX_WIRE_TICKS,
{
    lemma_ms_of_day_bounds(t);
    let ms = ms_of_day(t);
    vstd::arithmetic::div_mod::lemma_div_is_ordered(ms * 3, (MS_PER_DAY - 1) * 3, 10);
    vstd::arithmetic::div_mod::lemma_div_pos_is_pos(ms * 3, 10);
}

/// A tick count within the day's ceiling decodes to a millisecond count
/// within the day.
pub proof fn lemma_ms_of_ticks_bounds(ticks: int)
    requires
        0 <= ticks <= MAX_WIRE_TICKS,
    ensures
        0 <= ms_of_ticks(ticks) < MS_PER_DAY,
        ms_of_ticks(ticks) % 10 == 0,
{
    vstd::arithmetic::div_mod::lemma_div_is_ordered(ticks, MAX_WIRE_TICKS as int, 3);
    vstd::arithmetic::div_mod::lemma_div_pos_is_pos(ticks, 3);
    assert((ticks / 3 * 10) % 10 == 0) by {
        vstd::arithmetic::div_mod::lemma_mod_multiples_basic(ticks / 3, 10);
    }
}

/// Quantization: scaling a millisecond count that is a whole multiple of
/// 10/3 ms to ticks and back returns it unchanged.
pub proof fn lemma_tick_quantization(ms: int)
    requires
        0 <= ms,
        ms % 10 == 0,
    ensures
        ms_of_ticks(ms * 3 / 10) == ms,
{
    let a = ms / 10;
    vstd::arithmetic::div_mod::lemma_fundamental_div_mod(ms, 10);
    assert(ms == 10 * a);
    assert(ms * 3 == 10 * (3 * a)) by (nonlinear_arith)
        requires
            ms == 10 * a,
    ;
    vstd::arithmetic::div_mod::lemma_div_multiples_vanish(3 * a, 10);
    assert(ms * 3 / 10 == 3 * a);
    vstd::arithmetic::div_mod::lemma_div_multiples_vanish(a, 3);
    assert(ms * 3 / 10 / 3 == a);
}

/// Rebuilding a valid time of day from its own millisecond count returns
/// it unchanged: the clock fields are the canonical decomposition.
pub proof fn lemma_time_of_ms_of_day(t: TimeOfDay)
    requires
        time_valid(t),
    ensures
        time_of_ms(ms_of_day(t)) == t,
{
    let ms = ms_of_day(t);
    let sub_hour = (t.minute * 60 + t.second) * 1000 + t.millisecond;
    let sub_minute = t.second * 1000 + t.millisecond;
    assert(ms == 3600000 * (t.hour as int) + sub_hour);
    vstd::arithmetic::div_mod::lemma_fundamental_div_mod_converse(
        ms,
        3600000,
        t.hour as int,
        sub_hour,
    );
    assert(sub_hour == 60000 * (t.minute as int) + sub_minute);
    vstd::arithmetic::div_mod::lemma_fundamental_div_mod_converse(
        sub_hour,
        60000,
        t.minute as int,
        sub_minute,
    );
    assert(sub_minute == 1000 * (t.second as int) + t.millisecond);
    vstd::arithmetic::div_mod::lemma_fundamental_div_mod_converse(
        sub_minute,
        1000,
        t.second as int,
        t.millisecond as int,
    );
    assert(sub_hour == 60 * (60000 * (t.minute as int)) / 60 + sub_minute) by (nonlinear_arith)
        requires
            sub_hour == 60000 * (t.minute as int) + sub_minute,
    ;
    assert(ms % 60000 == sub_minute) by {
        assert(ms == 60000 * (60 * (t.hour as int) + t.minute as int) + sub_minute)
            by (nonlinear_arith)
            requires
                ms == 3600000 * (t.hour as int) + sub_hour,
                sub_hour == 60000 * (t.minute as int) + sub_minute,
        ;
        vstd::arithmetic::div_mod::lemma_fundamental_div_mod_converse(
            ms,
            60000,
            60 * (t.hour as int) + t.minute as int,
            sub_minute,
        );
    }
    assert(ms % 1000 == t.millisecond) by {
        assert(ms == 1000 * (3600 * (t.hour as int) + 60 * (t.minute as int) + t.second as int)
            + t.millisecond) by (nonlinear_arith)
            requires
                ms == (t.hour * 3600 + t.minute * 60 + t.second) * 1000 + t.millisecond,
        ;
        vstd::arithmetic::div_mod::lemma_fundamental_div_mod_converse(
            ms,
            1000,
            3600 * (t.hour as int) + 60 * (t.minute as int) + t.second as int,
            t.millisecond as int,
        );
    }
}

/// Milliseconds since midnight of a valid time of day.
pub fn time_to_ms(t: &TimeOfDay) -> (r: u32)
    requires
        time_valid(*t),
    ensures
        r == ms_of_day(*t),
{
    (t.hour as u32 * 3600 + t.minute as u32 * 60 + t.second as u32) * 1000 + t.millisecond as u32
}

/// The wire tick count of a valid time of day.
pub fn time_to_ticks(t: &TimeOfDay) -> (r: u32)
    requires
        time_valid(*t),
    ensures
        r == wire_ticks_of(*t),
        r <= MAX_WIRE_TICKS,
{
    proof {
        lemma_ms_of_day_bounds(*t);
        lemma_tick_ceiling(*t);
    }
    let ms = time_to_ms(t);
    ms * 3 / 10
}

/// The time of day a millisecond count since midnight names.
pub fn ms_to_time(ms: u32) -> (r: TimeOfDay)
    requires
        ms < MS_PER_DAY,
    ensures
        r == time_of_ms(ms as int),
        time_valid(r),
        ms_of_day(r) == ms,
{
    proof {
        let msi = ms as int;
        vstd::arithmetic::div_mod::lemma_fundamental_div_mod(msi, 3600000);
        vstd::arithmetic::div_mod::lemma_fundamental_div_mod(msi % 3600000, 60000);
        vstd::arithmetic::div_mod::lemma_fundamental_div_mod(msi % 60000, 1000);
        vstd::arithmetic::div_mod::lemma_mod_division_less_than_divisor(msi, 3600000);
        vstd::arithmetic::div_mod::lemma_mod_division_less_than_divisor(msi % 3600000, 60000);
        vstd::arithmetic::div_mod::lemma_mod_division_less_than_divisor(msi, 60000);
        vstd::arithmetic::div_mod::lemma_mod_division_less_than_divisor(msi % 60000, 1000);
        vstd::arithmetic::div_mod::lemma_mod_division_less_than_divisor(msi, 1000);
        assert(msi % 3600000 % 60000 == msi % 60000) by {
            vstd::arithmetic::div_mod::lemma_mod_mod(msi, 60000, 60);
            assert(60000 * 60 == 3600000);
        }
        assert(msi % 60000 % 1000 == msi % 1000) by {
            vstd::arithmetic::div_mod::lemma_mod_mod(msi, 1000, 60);
            assert(1000 * 60 == 60000);
        }
        assert(msi / 3600000 <= 23) by {
            vstd::arithmetic::div_mod::lemma_div_is_ordered(msi, 86399999, 3600000);
            vstd::arithmetic::div_mod::lemma_fundamental_div_mod_converse(
                86399999,
                3600000,
                23,
                3599999,
            );
        }
        assert(msi % 3600000 / 60000 <= 59) by {
            vstd::arithmetic::div_mod::lemma_div_is_ordered(msi % 3600000, 3599999, 60000);
            vstd::arithmetic::div_mod::lemma_fundamental_div_mod_converse(
                3599999,
                60000,
                59,
                59999,
            );
        }
        assert(msi % 60000 / 1000 <= 59) by {
            vstd::arithmetic::div_mod::lemma_div_is_ordered(msi % 60000, 59999, 1000);
            vstd::arithmetic::div_mod::lemma_fundamental_div_mod_converse(59999, 1000, 59, 999);
        }
        vstd::arithmetic::div_mod::lemma_div_pos_is_pos(msi, 3600000);
        vstd::arithmetic::div_mod::lemma_div_pos_is_pos(msi % 3600000, 60000);
        vstd::arithmetic::div_mod::lemma_div_pos_is_pos(msi % 60000, 1000);
    }
    let hour = (ms / 3600000) as u8;
    let minute = (ms % 3600000 / 60000) as u8;
    let second = (ms % 60000 / 1000) as u8;
    let millisecond = (ms % 1000) as u16;
    let r = TimeOfDay { hour, minute, second, millisecond };
    proof {
        let msi = ms as int;
        let q1 = msi / 3600000;
        let q2 = msi % 3600000 / 60000;
        let q3 = msi % 60000 / 1000;
        assert(ms_of_day(r) == (q1 * 3600 + q2 * 60 + q3) * 1000 + msi % 1000);
        assert((q1 * 3600 + q2 * 60 + q3) * 1000 == 3600000 * q1 + 60000 * q2 + 1000 * q3)
            by (nonlinear_arith);
        assert(ms_of_day(r) == msi);
    }
    r
}

} // verus!
