//! The codecs: each native calendar type declares its wire descriptor, a
//! compatibility predicate over a column's reported descriptor, an encode
//! into a caller-owned growable buffer, and a decode from a raw byte
//! slice.
//!
//! Every codec here shares one 8-byte layout: bytes 0-3 hold the signed
//! little-endian day count relative to 1900-01-01, bytes 4-7 the unsigned
//! little-endian count of 1/300-second ticks since midnight.  The
//! date-only codec carries its value in the day-count half and leaves the
//! tick half zero; the time-only codec does the opposite.

use vstd::prelude::*;

use crate::date::Date;
use crate::date::date_to_days;
use crate::date::date_valid;
use crate::date::day_number;
use crate::date::days_to_date;
use crate::date::lemma_day_number_injective;
use crate::time_of_day::MAX_WIRE_TICKS;
use crate::time_of_day::TimeOfDay;
use crate::time_of_day::lemma_ms_of_day_bounds;
use crate::time_of_day::lemma_ms_of_ticks_bounds;
use crate::time_of_day::lemma_tick_ceiling;
use crate::time_of_day::lemma_tick_quantization;
use crate::time_of_day::lemma_time_of_ms_of_day;
use crate::time_of_day::ms_of_day;
use crate::time_of_day::ms_of_ticks;
use crate::time_of_day::ms_to_time;
use crate::time_of_day::time_of_ms;
use crate::time_of_day::time_to_ticks;
use crate::time_of_day::time_valid;
use crate::time_of_day::wire_ticks_of;
use crate::wire::CodecError;
use crate::wire::IsNull;
use crate::wire::TypeDescriptor;
use crate::wire::WIRE_WIDTH;
use crate::wire::WireTypeTag;
use crate::wire::days_of_u32_rep;
use crate::wire::days_to_wire;
use crate::wire::le_bytes_4;
use crate::wire::le_value_4;
use crate::wire::lemma_days_u32_rep_round_trip;
use crate::wire::lemma_le_bytes_4_value;
use crate::wire::push_le_4;
use crate::wire::read_le_4;
use crate::wire::u32_rep_of_days;
use crate::wire::wire_to_days;

verus! {

/// A date with a time of day and no zone.
#[derive(Clone, Copy, Debug, PartialEq, Eq, Structural)]
pub struct DateTimeLocal {
    pub date: Date,
    pub time: TimeOfDay,
}

/// The two zone policies the zoned codec supports: the wall-clock reading
/// is taken either in the process's local zone or in UTC.
#[derive(Clone, Copy, Debug, PartialEq, Eq, Structural)]
pub enum ZonePolicy {
    ProcessLocal,
    Utc,
}

/// A date and time of day together with the zone policy under which the
/// wall-clock reading is to be interpreted.
#[derive(Clone, Copy, Debug, PartialEq, Eq, Structural)]
pub struct DateTimeZoned {
    pub datetime: DateTimeLocal,
    pub zone: ZonePolicy,
}

/// Whether both halves of a combined value name a real calendar instant.
pub open spec fn datetime_valid(v: DateTimeLocal) -> bool {
    date_valid(v.date) && time_valid(v.time)
}

/// Whether a date's signed day count fits the 32-bit wire field.
pub open spec fn days_in_range(d: Date) -> bool {
    -0x8000_0000 <= day_number(d) < 0x8000_0000
}

/// The valid date a day count names, where one exists.
pub open spec fn date_of_day_number(n: int) -> Date {
    choose|d: Date| date_valid(d) && day_number(d) == n
}

/// The 8 bytes a combined date and time encode to.
pub open spec fn spec_encode_datetime(v: DateTimeLocal) -> Seq<u8> {
    le_bytes_4(u32_rep_of_days(day_number(v.date))) + le_bytes_4(wire_ticks_of(v.time))
}

/// The 8 bytes a date alone encodes to: the tick half is zero.
pub open spec fn spec_encode_date(d: Date) -> Seq<u8> {
    le_bytes_4(u32_rep_of_days(day_number(d))) + le_bytes_4(0)
}

/// The 8 bytes a time of day alone encodes to: the day half is zero.
pub open spec fn spec_encode_time(t: TimeOfDay) -> Seq<u8> {
    le_bytes_4(0) + le_bytes_4(wire_ticks_of(t))
}

/// What decoding a combined date and time from a byte sequence yields:
/// too few bytes or a tick count beyond the day's ceiling fail, anything
/// else names exactly one calendar instant.
pub open spec fn spec_decode_datetime(b: Seq<u8>) -> Result<DateTimeLocal, CodecError> {
    if b.len() < WIRE_WIDTH {
        Err(CodecError::Format)
    } else {
        let ticks = le_value_4(b.subrange(4, 8));
        if ticks > MAX_WIRE_TICKS {
            Err(CodecError::Format)
        } else {
            Ok(
                DateTimeLocal {
                    date: date_of_day_number(days_of_u32_rep(le_value_4(b.subrange(0, 4)))),
                    time: time_of_ms(ms_of_ticks(ticks)),
                },
            )
        }
    }
}

/// What decoding a date alone yields: the day-count half carries the
/// value and the tick half is ignored.
pub open spec fn spec_decode_date(b: Seq<u8>) -> Result<Date, CodecError> {
    if b.len() < WIRE_WIDTH {
        Err(CodecError::Format)
    } else {
        Ok(date_of_day_number(days_of_u32_rep(le_value_4(b.subrange(0, 4)))))
    }
}

/// What decoding a time of day alone yields: the tick half carries the
/// value and the day half is ignored.
pub open spec fn spec_decode_time(b: Seq<u8>) -> Result<TimeOfDay, CodecError> {
    if b.len() < WIRE_WIDTH {
        Err(CodecError::Format)
    } else {
        let ticks = le_value_4(b.subrange(4, 8));
        if ticks > MAX_WIRE_TICKS {
            Err(CodecError::Format)
        } else {
            Ok(time_of_ms(ms_of_ticks(ticks)))
        }
    }
}

/// The descriptors a combined date and time accepts: its own tag or the
/// nullable-width counterpart, at the declared width.
pub open spec fn spec_datetime_compatible(ty: TypeDescriptor) -> bool {
    (ty.tag == WireTypeTag::DateTime || ty.tag == WireTypeTag::DateTimeN) && ty.byte_width
        == WIRE_WIDTH
}

/// The descriptors a date alone accepts: exactly its own tag and width.
pub open spec fn spec_date_compatible(ty: TypeDescriptor) -> bool {
    ty.tag == WireTypeTag::DateTime && ty.byte_width == WIRE_WIDTH
}

/// The descriptors a time of day alone accepts: exactly its own tag and
/// width.
pub open spec fn spec_time_compatible(ty: TypeDescriptor) -> bool {
    ty.tag == WireTypeTag::TimeN && ty.byte_width == WIRE_WIDTH
}

/// The descriptors a zoned value accepts: exactly its own tag and width.
pub open spec fn spec_zoned_compatible(ty: TypeDescriptor) -> bool {
    ty.tag == WireTypeTag::DateTimeOffsetN && ty.byte_width == WIRE_WIDTH
}

impl DateTimeLocal {
    /// The wire descriptor this type declares for outgoing values.
    pub fn type_info() -> (r: TypeDescriptor)
        ensures
            r == (TypeDescriptor { tag: WireTypeTag::DateTime, byte_width: WIRE_WIDTH }),
    {
        TypeDescriptor { tag: WireTypeTag::DateTime, byte_width: WIRE_WIDTH }
    }

    /// Whether a column's reported descriptor may be decoded as this
    /// type.  Collaborators call this before every decode.
    pub fn compatible(ty: &TypeDescriptor) -> (r: bool)
        ensures
            r == spec_datetime_compatible(*ty),
    {
        (ty.tag == WireTypeTag::DateTime || ty.tag == WireTypeTag::DateTimeN) && ty.byte_width
            == WIRE_WIDTH
    }

    /// Appends the 8-byte wire form of `self` to `buf`, or reports that
    /// the day count exceeds the signed 32-bit wire field and leaves
    /// `buf` unchanged.
    pub fn encode_by_ref(&self, buf: &mut Vec<u8>) -> (r: Result<IsNull, CodecError>)
        requires
            datetime_valid(*self),
        ensures
            match r {
                Ok(marker) => marker == IsNull::No && days_in_range(self.date) && final(buf)@
                    == old(buf)@ + spec_encode_datetime(*self),
                Err(e) => e == CodecError::Range && !days_in_range(self.date)
                    && final(buf)@ == old(buf)@,
            },
    {
        let days64 = date_to_days(&self.date);
        if days64 < -0x8000_0000i64 || days64 >= 0x8000_0000i64 {
            return Err(CodecError::Range);
        }
        let wire_days = days_to_wire(days64 as i32);
        let ticks = time_to_ticks(&self.time);
        push_le_4(buf, wire_days);
        push_le_4(buf, ticks);
        proof {
            assert(buf@ =~= old(buf)@ + spec_encode_datetime(*self));
        }
        Ok(IsNull::No)
    }

    /// Decodes the 8-byte wire form.  Fewer than 8 bytes, or a tick
    /// count beyond the day's ceiling, fail with a format error; nothing
    /// past the first 8 bytes is read.
    pub fn decode(bytes: &[u8]) -> (r: Result<Self, CodecError>)
        ensures
            r == spec_decode_datetime(bytes@),
            r matches Ok(v) ==> (datetime_valid(v) && days_in_range(v.date)),
    {
        if bytes.len() < 8 {
            return Err(CodecError::Format);
        }
        let wire_days = read_le_4(bytes, 0);
        let ticks = read_le_4(bytes, 4);
        if ticks > MAX_WIRE_TICKS {
            return Err(CodecError::Format);
        }
        let days = wire_to_days(wire_days);
        proof {
            lemma_ms_of_ticks_bounds(ticks as int);
        }
        let ms = ticks / 3 * 10;
        let time = ms_to_time(ms);
        let date = days_to_date(days as i64);
        proof {
            let n = days_of_u32_rep(le_value_4(bytes@.subrange(0, 4)));
            assert(date_valid(date) && day_number(date) == n);
            assert(date_valid(date_of_day_number(n)) && day_number(date_of_day_number(n)) == n);
            lemma_day_number_injective(date, date_of_day_number(n));
        }
        Ok(DateTimeLocal { date, time })
    }

    /// Decodes a described raw column value: a descriptor that fails the
    /// compatibility predicate is rejected before any byte is read.
    pub fn decode_column(ty: &TypeDescriptor, bytes: &[u8]) -> (r: Result<Self, CodecError>)
        ensures
            r == (if spec_datetime_compatible(*ty) {
                spec_decode_datetime(bytes@)
            } else {
                Err(CodecError::IncompatibleType)
            }),
    {
        if Self::compatible(ty) {
            Self::decode(bytes)
        } else {
            Err(CodecError::IncompatibleType)
        }
    }
}

impl Date {
    /// The wire descriptor this type declares: the legacy protocol
    /// carries a bare date as a full 8-byte datetime.
    pub fn type_info() -> (r: TypeDescriptor)
        ensures
            r == (TypeDescriptor { tag: WireTypeTag::DateTime, byte_width: WIRE_WIDTH }),
    {
        TypeDescriptor { tag: WireTypeTag::DateTime, byte_width: WIRE_WIDTH }
    }

    /// Whether a column's reported descriptor may be decoded as this
    /// type: exact tag and width only.
    pub fn compatible(ty: &TypeDescriptor) -> (r: bool)
        ensures
            r == spec_date_compatible(*ty),
    {
        ty.tag == WireTypeTag::DateTime && ty.byte_width == WIRE_WIDTH
    }

    /// Appends the 8-byte wire form of `self`, with a zero tick half, or
    /// reports that the day count exceeds the signed 32-bit wire field
    /// and leaves `buf` unchanged.
    pub fn encode_by_ref(&self, buf: &mut Vec<u8>) -> (r: Result<IsNull, CodecError>)
        requires
            date_valid(*self),
        ensures
            match r {
                Ok(marker) => marker == IsNull::No && days_in_range(*self)
                    && final(buf)@ == old(buf)@ + spec_encode_date(*self),
                Err(e) => e == CodecError::Range && !days_in_range(*self)
                    && final(buf)@ == old(buf)@,
            },
    {
        let days64 = date_to_days(self);
        if days64 < -0x8000_0000i64 || days64 >= 0x8000_0000i64 {
            return Err(CodecError::Range);
        }
        let wire_days = days_to_wire(days64 as i32);
        push_le_4(buf, wire_days);
        push_le_4(buf, 0);
        proof {
            assert(buf@ =~= old(buf)@ + spec_encode_date(*self));
        }
        Ok(IsNull::No)
    }

    /// Decodes the date from the day-count half of the 8-byte wire form;
    /// the tick half is ignored.  Fewer than 8 bytes fail with a format
    /// error.
    pub fn decode(bytes: &[u8]) -> (r: Result<Self, CodecError>)
        ensures
            r == spec_decode_date(bytes@),
            r matches Ok(d) ==> (date_valid(d) && days_in_range(d)),
    {
        if bytes.len() < 8 {
            return Err(CodecError::Format);
        }
        let wire_days = read_le_4(bytes, 0);
        let days = wire_to_days(wire_days);
        let date = days_to_date(days as i64);
        proof {
            let n = days_of_u32_rep(le_value_4(bytes@.subrange(0, 4)));
            assert(date_valid(date) && day_number(date) == n);
            assert(date_valid(date_of_day_number(n)) && day_number(date_of_day_number(n)) == n);
            lemma_day_number_injective(date, date_of_day_number(n));
        }
        Ok(date)
    }

    /// Decodes a described raw column value: a descriptor that fails the
    /// compatibility predicate is rejected before any byte is read.
    pub fn decode_column(ty: &TypeDescriptor, bytes: &[u8]) -> (r: Result<Self, CodecError>)
        ensures
            r == (if spec_date_compatible(*ty) {
                spec_decode_date(bytes@)
            } else {
                Err(CodecError::IncompatibleType)
            }),
    {
        if Self::compatible(ty) {
            Self::decode(bytes)
        } else {
            Err(CodecError::IncompatibleType)
        }
    }
}

impl TimeOfDay {
    /// The wire descriptor this type declares: the nullable time tag at
    /// the legacy 8-byte width.
    pub fn type_info() -> (r: TypeDescriptor)
        ensures
            r == (TypeDescriptor { tag: WireTypeTag::TimeN, byte_width: WIRE_WIDTH }),
    {
        TypeDescriptor { tag: WireTypeTag::TimeN, byte_width: WIRE_WIDTH }
    }

    /// Whether a column's reported descriptor may be decoded as this
    /// type: exact tag and width only.
    pub fn compatible(ty: &TypeDescriptor) -> (r: bool)
        ensures
            r == spec_time_compatible(*ty),
    {
        ty.tag == WireTypeTag::TimeN && ty.byte_width == WIRE_WIDTH
    }

    /// Appends the 8-byte wire form of `self`, with a zero day half.  A
    /// valid time of day always fits the tick field, so this cannot
    /// fail.
    pub fn encode_by_ref(&self, buf: &mut Vec<u8>) -> (r: IsNull)
        requires
            time_valid(*self),
        ensures
            r == IsNull::No,
            final(buf)@ == old(buf)@ + spec_encode_time(*self),
    {
        let ticks = time_to_ticks(self);
        push_le_4(buf, 0);
        push_le_4(buf, ticks);
        proof {
            assert(buf@ =~= old(buf)@ + spec_encode_time(*self));
        }
        IsNull::No
    }

    /// Decodes the time of day from the tick half of the 8-byte wire
    /// form; the day half is ignored.  Fewer than 8 bytes, or a tick
    /// count beyond the day's ceiling, fail with a format error.
    pub fn decode(bytes: &[u8]) -> (r: Result<Self, CodecError>)
        ensures
            r == spec_decode_time(bytes@),
            r matches Ok(t) ==> time_valid(t),
    {
        if bytes.len() < 8 {
            return Err(CodecError::Format);
        }
        let ticks = read_le_4(bytes, 4);
        if ticks > MAX_WIRE_TICKS {
            return Err(CodecError::Format);
        }
        proof {
            lemma_ms_of_ticks_bounds(ticks as int);
        }
        let ms = ticks / 3 * 10;
        Ok(ms_to_time(ms))
    }

    /// Decodes a described raw column value: a descriptor that fails the
    /// compatibility predicate is rejected before any byte is read.
    pub fn decode_column(ty: &TypeDescriptor, bytes: &[u8]) -> (r: Result<Self, CodecError>)
        ensures
            r == (if spec_time_compatible(*ty) {
                spec_decode_time(bytes@)
            } else {
                Err(CodecError::IncompatibleType)
            }),
    {
        if Self::compatible(ty) {
            Self::decode(bytes)
        } else {
            Err(CodecError::IncompatibleType)
        }
    }
}

impl DateTimeZoned {
    /// The wire descriptor this type declares: the nullable
    /// datetime-with-offset tag at the legacy 8-byte width.
    pub fn type_info() -> (r: TypeDescriptor)
        ensures
            r == (TypeDescriptor { tag: WireTypeTag::DateTimeOffsetN, byte_width: WIRE_WIDTH }),
    {
        TypeDescriptor { tag: WireTypeTag::DateTimeOffsetN, byte_width: WIRE_WIDTH }
    }

    /// Whether a column's reported descriptor may be decoded as this
    /// type: exact tag and width only.
    pub fn compatible(ty: &TypeDescriptor) -> (r: bool)
        ensures
            r == spec_zoned_compatible(*ty),
    {
        ty.tag == WireTypeTag::DateTimeOffsetN && ty.byte_width == WIRE_WIDTH
    }

    /// Appends the 8-byte wire form of the wall-clock reading.  The zone
    /// policy is a fixed interpretation rule shared by both peers, not a
    /// serialized field: both policies use the same layout.
    pub fn encode_by_ref(&self, buf: &mut Vec<u8>) -> (r: Result<IsNull, CodecError>)
        requires
            datetime_valid(self.datetime),
        ensures
            match r {
                Ok(marker) => marker == IsNull::No && days_in_range(self.datetime.date)
                    && final(buf)@ == old(buf)@ + spec_encode_datetime(self.datetime),
                Err(e) => e == CodecError::Range && !days_in_range(self.datetime.date)
                    && final(buf)@ == old(buf)@,
            },
    {
        self.datetime.encode_by_ref(buf)
    }

    /// Decodes the 8-byte wire form as a wall-clock reading to be
    /// interpreted under `zone`.
    pub fn decode(bytes: &[u8], zone: ZonePolicy) -> (r: Result<Self, CodecError>)
        ensures
            r == (match spec_decode_datetime(bytes@) {
                Ok(v) => Ok(DateTimeZoned { datetime: v, zone }),
                Err(e) => Err(e),
            }),
            r matches Ok(z) ==> (datetime_valid(z.datetime) && z.zone == zone),
    {
        match DateTimeLocal::decode(bytes) {
            Ok(v) => Ok(DateTimeZoned { datetime: v, zone }),
            Err(e) => Err(e),
        }
    }

    /// Decodes a described raw column value: a descriptor that fails the
    /// compatibility predicate is rejected before any byte is read.
    pub fn decode_column(ty: &TypeDescriptor, bytes: &[u8], zone: ZonePolicy) -> (r: Result<
        Self,
        CodecError,
    >)
        ensures
            r == (if spec_zoned_compatible(*ty) {
                match spec_decode_datetime(bytes@) {
                    Ok(v) => Ok(DateTimeZoned { datetime: v, zone }),
                    Err(e) => Err(e),
                }
            } else {
                Err(CodecError::IncompatibleType)
            }),
    {
        if Self::compatible(ty) {
            Self::decode(bytes, zone)
        } else {
            Err(CodecError::IncompatibleType)
        }
    }
}

/// Descriptor invariant: every codec in this crate produces exactly the
/// byte width its declared descriptor announces, so the width a
/// collaborator sees never drifts from the bytes the codec writes.
pub proof fn lemma_descriptor_width_matches_codec(v: DateTimeLocal, d: Date, t: TimeOfDay)
    ensures
        spec_encode_datetime(v).len() == WIRE_WIDTH,
        spec_encode_date(d).len() == WIRE_WIDTH,
        spec_encode_time(t).len() == WIRE_WIDTH,
{
}

/// Round trip: a combined date and time whose day count fits the wire
/// field and whose millisecond count is a whole multiple of 10/3 ms
/// (exactly representable in 1/300-second ticks) decodes from its own
/// encoding unchanged.
pub proof fn lemma_datetime_round_trip(v: DateTimeLocal)
    requires
        datetime_valid(v),
        days_in_range(v.date),
        ms_of_day(v.time) % 10 == 0,
    ensures
        spec_decode_datetime(spec_encode_datetime(v)) == Ok::<DateTimeLocal, CodecError>(v),
{
    let b = spec_encode_datetime(v);
    let n = day_number(v.date);
    let w = u32_rep_of_days(n);
    let ticks = wire_ticks_of(v.time);
    lemma_days_u32_rep_round_trip(n);
    lemma_tick_ceiling(v.time);
    assert(b.subrange(0, 4) =~= le_bytes_4(w));
    assert(b.subrange(4, 8) =~= le_bytes_4(ticks));
    lemma_le_bytes_4_value(w);
    lemma_le_bytes_4_value(ticks);
    assert(date_valid(v.date) && day_number(v.date) == n);
    assert(date_valid(date_of_day_number(n)) && day_number(date_of_day_number(n)) == n);
    lemma_day_number_injective(v.date, date_of_day_number(n));
    lemma_ms_of_day_bounds(v.time);
    lemma_tick_quantization(ms_of_day(v.time));
    lemma_time_of_ms_of_day(v.time);
}

/// Round trip for the date-only codec: a date whose day count fits the
/// wire field decodes from its own encoding unchanged.
pub proof fn lemma_date_round_trip(d: Date)
    requires
        date_valid(d),
        days_in_range(d),
    ensures
        spec_decode_date(spec_encode_date(d)) == Ok::<Date, CodecError>(d),
{
    let b = spec_encode_date(d);
    let n = day_number(d);
    let w = u32_rep_of_days(n);
    lemma_days_u32_rep_round_trip(n);
    assert(b.subrange(0, 4) =~= le_bytes_4(w));
    lemma_le_bytes_4_value(w);
    assert(date_valid(d) && day_number(d) == n);
    assert(date_valid(date_of_day_number(n)) && day_number(date_of_day_number(n)) == n);
    lemma_day_number_injective(d, date_of_day_number(n));
}

/// Round trip for the time-only codec: a time of day whose millisecond
/// count is a whole multiple of 10/3 ms decodes from its own encoding
/// unchanged.
pub proof fn lemma_time_round_trip(t: TimeOfDay)
    requires
        time_valid(t),
        ms_of_day(t) % 10 == 0,
    ensures
        spec_decode_time(spec_encode_time(t)) == Ok::<TimeOfDay, CodecError>(t),
{
    let b = spec_encode_time(t);
    let ticks = wire_ticks_of(t);
    lemma_tick_ceiling(t);
    assert(b.subrange(4, 8) =~= le_bytes_4(ticks));
    lemma_le_bytes_4_value(ticks);
    lemma_ms_of_day_bounds(t);
    lemma_tick_quantization(ms_of_day(t));
    lemma_time_of_ms_of_day(t);
}

} // verus!

