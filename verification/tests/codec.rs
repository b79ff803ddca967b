use tds_datetime::codec::{DateTimeLocal, DateTimeZoned, ZonePolicy};
use tds_datetime::date::{make_date, Date};
use tds_datetime::time_of_day::{make_time, TimeOfDay};
use tds_datetime::wire::{CodecError, IsNull, TypeDescriptor, WireTypeTag};

fn datetime(
    year: i32,
    month: u8,
    day: u8,
    hour: u8,
    minute: u8,
    second: u8,
    millisecond: u16,
) -> DateTimeLocal {
    DateTimeLocal {
        date: make_date(year, month, day).unwrap(),
        time: make_time(hour, minute, second, millisecond).unwrap(),
    }
}

#[test]
fn descriptors_of_the_native_types() {
    assert_eq!(
        DateTimeLocal::type_info(),
        TypeDescriptor { tag: WireTypeTag::DateTime, byte_width: 8 }
    );
    assert_eq!(
        Date::type_info(),
        TypeDescriptor { tag: WireTypeTag::DateTime, byte_width: 8 }
    );
    assert_eq!(
        TimeOfDay::type_info(),
        TypeDescriptor { tag: WireTypeTag::TimeN, byte_width: 8 }
    );
    assert_eq!(
        DateTimeZoned::type_info(),
        TypeDescriptor { tag: WireTypeTag::DateTimeOffsetN, byte_width: 8 }
    );
}

#[test]
fn datetime_compatibility_predicate() {
    let own = TypeDescriptor { tag: WireTypeTag::DateTime, byte_width: 8 };
    let nullable = TypeDescriptor { tag: WireTypeTag::DateTimeN, byte_width: 8 };
    let narrow = TypeDescriptor { tag: WireTypeTag::DateTime, byte_width: 4 };
    let wrong_tag = TypeDescriptor { tag: WireTypeTag::TimeN, byte_width: 8 };
    assert!(DateTimeLocal::compatible(&own));
    assert!(DateTimeLocal::compatible(&nullable));
    assert!(!DateTimeLocal::compatible(&narrow));
    assert!(!DateTimeLocal::compatible(&wrong_tag));
}

#[test]
fn sibling_compatibility_is_exact_tag_only() {
    let nullable = TypeDescriptor { tag: WireTypeTag::DateTimeN, byte_width: 8 };
    assert!(!Date::compatible(&nullable));
    assert!(Date::compatible(&TypeDescriptor { tag: WireTypeTag::DateTime, byte_width: 8 }));
    assert!(TimeOfDay::compatible(&TypeDescriptor { tag: WireTypeTag::TimeN, byte_width: 8 }));
    assert!(!TimeOfDay::compatible(&TypeDescriptor { tag: WireTypeTag::TimeN, byte_width: 4 }));
    assert!(DateTimeZoned::compatible(
        &TypeDescriptor { tag: WireTypeTag::DateTimeOffsetN, byte_width: 8 }
    ));
    assert!(!DateTimeZoned::compatible(
        &TypeDescriptor { tag: WireTypeTag::DateTime, byte_width: 8 }
    ));
}

#[test]
fn encoding_the_epoch_yields_all_zero_fields() {
    let v = datetime(1900, 1, 1, 0, 0, 0, 0);
    let mut buf = Vec::new();
    assert_eq!(v.encode_by_ref(&mut buf), Ok(IsNull::No));
    assert_eq!(buf, vec![0, 0, 0, 0, 0, 0, 0, 0]);
}

#[test]
fn decoding_zero_fields_yields_the_epoch() {
    let v = DateTimeLocal::decode(&[0u8; 8]).unwrap();
    assert_eq!(v, datetime(1900, 1, 1, 0, 0, 0, 0));
}

#[test]
fn encoding_the_day_before_the_epoch_yields_day_count_minus_one() {
    let v = datetime(1899, 12, 31, 0, 0, 0, 0);
    let mut buf = Vec::new();
    assert_eq!(v.encode_by_ref(&mut buf), Ok(IsNull::No));
    assert_eq!(buf, vec![0xFF, 0xFF, 0xFF, 0xFF, 0, 0, 0, 0]);
}

#[test]
fn scenario_exact_wire_layout() {
    let v = datetime(2024, 3, 15, 12, 30, 45, 500);
    let mut buf = Vec::new();
    assert_eq!(v.encode_by_ref(&mut buf), Ok(IsNull::No));
    assert_eq!(buf, vec![0x34, 0xB1, 0x00, 0x00, 0xB2, 0x33, 0xCE, 0x00]);
    let back = DateTimeLocal::decode(&buf).unwrap();
    assert_eq!(back, v);
}

#[test]
fn round_trip_of_tick_aligned_values() {
    let samples = [
        datetime(1900, 1, 1, 0, 0, 0, 0),
        datetime(1899, 12, 31, 23, 59, 59, 990),
        datetime(1970, 1, 1, 6, 0, 0, 10),
        datetime(2024, 2, 29, 23, 59, 59, 990),
        datetime(1753, 1, 1, 12, 0, 0, 0),
    ];
    for v in samples.iter() {
        let mut buf = Vec::new();
        assert_eq!(v.encode_by_ref(&mut buf), Ok(IsNull::No));
        assert_eq!(buf.len(), 8);
        assert_eq!(DateTimeLocal::decode(&buf).unwrap(), *v);
    }
}

#[test]
fn decoding_truncates_to_the_tick_grid() {
    // 45_045_503 ms scale to 13_513_650 ticks, the same tick as .500:
    // the decoded value is the original rounded to the nearest 10/3 ms
    // below.
    let v = datetime(2024, 3, 15, 12, 30, 45, 503);
    let mut buf = Vec::new();
    assert_eq!(v.encode_by_ref(&mut buf), Ok(IsNull::No));
    let back = DateTimeLocal::decode(&buf).unwrap();
    assert_eq!(back, datetime(2024, 3, 15, 12, 30, 45, 500));
}

#[test]
fn decoding_seven_bytes_fails_with_format_error() {
    assert_eq!(DateTimeLocal::decode(&[0u8; 7]), Err(CodecError::Format));
    assert_eq!(Date::decode(&[0u8; 7]), Err(CodecError::Format));
    assert_eq!(TimeOfDay::decode(&[0u8; 7]), Err(CodecError::Format));
    assert_eq!(DateTimeLocal::decode(&[]), Err(CodecError::Format));
}

#[test]
fn tick_ceiling_is_enforced_on_decode() {
    // 25_919_999 ticks is the last tick of the day; 25_920_000 names a
    // rolled-over day and is rejected.
    let mut highest = Vec::new();
    highest.extend_from_slice(&[0, 0, 0, 0]);
    highest.extend_from_slice(&25_919_999u32.to_le_bytes());
    let v = DateTimeLocal::decode(&highest).unwrap();
    assert_eq!(v, datetime(1900, 1, 1, 23, 59, 59, 990));

    let mut rolled = Vec::new();
    rolled.extend_from_slice(&[0, 0, 0, 0]);
    rolled.extend_from_slice(&25_920_000u32.to_le_bytes());
    assert_eq!(DateTimeLocal::decode(&rolled), Err(CodecError::Format));
    assert_eq!(TimeOfDay::decode(&rolled), Err(CodecError::Format));
}

#[test]
fn out_of_range_day_count_fails_with_range_error() {
    let far_future = DateTimeLocal {
        date: make_date(5_900_000, 1, 1).unwrap(),
        time: make_time(0, 0, 0, 0).unwrap(),
    };
    let mut buf = Vec::new();
    assert_eq!(far_future.encode_by_ref(&mut buf), Err(CodecError::Range));
    assert_eq!(buf, Vec::<u8>::new());

    let far_past = make_date(-5_900_000, 1, 1).unwrap();
    let mut buf2 = Vec::new();
    assert_eq!(far_past.encode_by_ref(&mut buf2), Err(CodecError::Range));
    assert!(buf2.is_empty());
}

#[test]
fn decode_column_checks_the_descriptor_first() {
    let good = TypeDescriptor { tag: WireTypeTag::DateTimeN, byte_width: 8 };
    let bad = TypeDescriptor { tag: WireTypeTag::DateTime, byte_width: 4 };
    let bytes = [0u8; 8];
    assert_eq!(
        DateTimeLocal::decode_column(&good, &bytes).unwrap(),
        datetime(1900, 1, 1, 0, 0, 0, 0)
    );
    assert_eq!(
        DateTimeLocal::decode_column(&bad, &bytes),
        Err(CodecError::IncompatibleType)
    );
}

#[test]
fn sibling_decode_column_checks_the_descriptor_first() {
    let bytes = [0u8; 8];
    let date_desc = TypeDescriptor { tag: WireTypeTag::DateTime, byte_width: 8 };
    let time_desc = TypeDescriptor { tag: WireTypeTag::TimeN, byte_width: 8 };
    let zoned_desc = TypeDescriptor { tag: WireTypeTag::DateTimeOffsetN, byte_width: 8 };

    assert_eq!(
        Date::decode_column(&date_desc, &bytes).unwrap(),
        make_date(1900, 1, 1).unwrap()
    );
    assert_eq!(
        Date::decode_column(&time_desc, &bytes),
        Err(CodecError::IncompatibleType)
    );
    assert_eq!(
        TimeOfDay::decode_column(&time_desc, &bytes).unwrap(),
        make_time(0, 0, 0, 0).unwrap()
    );
    assert_eq!(
        TimeOfDay::decode_column(&date_desc, &bytes),
        Err(CodecError::IncompatibleType)
    );
    assert_eq!(
        DateTimeZoned::decode_column(&zoned_desc, &bytes, ZonePolicy::Utc).unwrap(),
        DateTimeZoned { datetime: datetime(1900, 1, 1, 0, 0, 0, 0), zone: ZonePolicy::Utc }
    );
    assert_eq!(
        DateTimeZoned::decode_column(&date_desc, &bytes, ZonePolicy::Utc),
        Err(CodecError::IncompatibleType)
    );
}

#[test]
fn date_codec_uses_the_day_count_half_only() {
    let d = make_date(1900, 1, 2).unwrap();
    let mut buf = Vec::new();
    assert_eq!(d.encode_by_ref(&mut buf), Ok(IsNull::No));
    assert_eq!(buf, vec![1, 0, 0, 0, 0, 0, 0, 0]);

    // The tick half carries no date information and is ignored.
    let noisy = [1, 0, 0, 0, 0xFF, 0xFF, 0xFF, 0xFF];
    assert_eq!(Date::decode(&noisy).unwrap(), d);
}

#[test]
fn time_codec_uses_the_tick_half_only() {
    let t = make_time(12, 30, 45, 500).unwrap();
    let mut buf = Vec::new();
    assert_eq!(t.encode_by_ref(&mut buf), IsNull::No);
    let mut expected = vec![0, 0, 0, 0];
    expected.extend_from_slice(&13_513_650u32.to_le_bytes());
    assert_eq!(buf, expected);

    // The day half carries no time information and is ignored.
    let mut noisy = vec![0x2A, 0, 0, 0];
    noisy.extend_from_slice(&13_513_650u32.to_le_bytes());
    assert_eq!(TimeOfDay::decode(&noisy).unwrap(), t);
}

#[test]
fn zoned_codec_shares_the_layout_and_keeps_its_policy() {
    let wall = datetime(2024, 3, 15, 12, 30, 45, 500);
    let zoned = DateTimeZoned { datetime: wall, zone: ZonePolicy::Utc };
    let mut buf = Vec::new();
    assert_eq!(zoned.encode_by_ref(&mut buf), Ok(IsNull::No));

    let mut plain = Vec::new();
    assert_eq!(wall.encode_by_ref(&mut plain), Ok(IsNull::No));
    assert_eq!(buf, plain);

    let utc = DateTimeZoned::decode(&buf, ZonePolicy::Utc).unwrap();
    assert_eq!(utc, zoned);
    let local = DateTimeZoned::decode(&buf, ZonePolicy::ProcessLocal).unwrap();
    assert_eq!(local.datetime, wall);
    assert_eq!(local.zone, ZonePolicy::ProcessLocal);
}

#[test]
fn encode_appends_after_existing_bytes() {
    let v = datetime(1900, 1, 2, 0, 0, 0, 0);
    let mut buf = vec![0xAB, 0xCD];
    assert_eq!(v.encode_by_ref(&mut buf), Ok(IsNull::No));
    assert_eq!(buf, vec![0xAB, 0xCD, 1, 0, 0, 0, 0, 0, 0, 0]);
}

#[test]
fn decode_reads_only_the_first_eight_bytes() {
    let mut bytes = vec![1, 0, 0, 0, 0, 0, 0, 0];
    bytes.extend_from_slice(&[0xEE; 4]);
    let v = DateTimeLocal::decode(&bytes).unwrap();
    assert_eq!(v, datetime(1900, 1, 2, 0, 0, 0, 0));
}
