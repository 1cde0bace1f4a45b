use ion_scalars::decimal::Decimal;
use ion_scalars::timestamp::{CivilDateTime, Mantissa, Precision, Timestamp};
use ion_scalars::IonResult;

#[test]
fn test_timestamps_with_same_ymd_hms_millis_at_known_offset_are_equal() -> IonResult<()> {
    let builder = Timestamp::with_ymd_hms_millis(2021, 2, 5, 16, 43, 51, 192);
    let timestamp1 = builder.clone().build_at_offset(5 * 60)?;
    let timestamp2 = builder.build_at_offset(5 * 60)?;
    assert_eq!(timestamp1, timestamp2);
    assert!(timestamp1.ion_eq(&timestamp2));
    Ok(())
}

#[test]
fn test_timestamps_with_same_ymd_hms_millis_at_unknown_offset_are_equal() -> IonResult<()> {
    let builder = Timestamp::with_ymd_hms_millis(2021, 2, 5, 16, 43, 51, 192);
    let timestamp1 = builder.clone().build_at_unknown_offset()?;
    let timestamp2 = builder.build_at_unknown_offset()?;
    assert_eq!(timestamp1, timestamp2);
    assert!(timestamp1.ion_eq(&timestamp2));
    Ok(())
}

#[test]
fn test_timestamps_with_same_ymd_hms_at_known_offset_are_equal() -> IonResult<()> {
    let builder = Timestamp::with_ymd_hms(2021, 2, 5, 16, 43, 51);
    let timestamp1 = builder.clone().build_at_offset(5 * 60)?;
    let timestamp2 = builder.build_at_offset(5 * 60)?;
    assert_eq!(timestamp1, timestamp2);
    assert!(timestamp1.ion_eq(&timestamp2));
    Ok(())
}

#[test]
fn test_timestamps_from_utc_and_local_hm_fields_at_same_offset_are_equal() -> IonResult<()> {
    // Builder 1 specifies its time fields in the local time of the specified offset
    let builder1 = Timestamp::with_ymd(2021, 2, 5).with_hour_and_minute(11, 43);
    let timestamp1 = builder1.build_at_offset(-5 * 60)?;
    // Builder 2 specifies its time fields in UTC and expects the offset to be applied afterwards
    let builder2 = Timestamp::with_ymd(2021, 2, 5).with_hour_and_minute(16, 43);
    let timestamp2 = builder2.build_utc_fields_at_offset(-5 * 60)?;
    assert_eq!(timestamp1, timestamp2);
    assert!(timestamp1.ion_eq(&timestamp2));
    Ok(())
}

#[test]
fn test_timestamps_from_utc_and_local_hms_fields_at_same_offset_are_equal() -> IonResult<()> {
    let builder1 = Timestamp::with_ymd_hms(2021, 2, 5, 11, 43, 51);
    let timestamp1 = builder1.build_at_offset(-5 * 60)?;
    let builder2 = Timestamp::with_ymd_hms(2021, 2, 5, 16, 43, 51);
    let timestamp2 = builder2.build_utc_fields_at_offset(-5 * 60)?;
    assert_eq!(timestamp1, timestamp2);
    assert!(timestamp1.ion_eq(&timestamp2));
    Ok(())
}

#[test]
fn test_timestamps_with_same_ymd_hms_at_unknown_offset_are_equal() -> IonResult<()> {
    let builder = Timestamp::with_ymd_hms(2021, 2, 5, 16, 43, 51);
    let timestamp1 = builder.clone().build_at_unknown_offset()?;
    let timestamp2 = builder.build_at_unknown_offset()?;
    assert_eq!(timestamp1, timestamp2);
    assert!(timestamp1.ion_eq(&timestamp2));
    Ok(())
}

#[test]
fn test_timestamps_with_same_ymd_hm_at_known_offset_are_equal() -> IonResult<()> {
    let builder = Timestamp::with_ymd(2021, 2, 5).with_hour_and_minute(16, 43);
    let timestamp1 = builder.clone().build_at_offset(5 * 60)?;
    let timestamp2 = builder.build_at_offset(5 * 60)?;
    assert_eq!(timestamp1, timestamp2);
    assert!(timestamp1.ion_eq(&timestamp2));
    Ok(())
}

#[test]
fn test_timestamps_with_same_ymd_hm_at_unknown_offset_are_equal() -> IonResult<()> {
    let builder = Timestamp::with_ymd(2021, 2, 5).with_hour_and_minute(16, 43);
    let timestamp1 = builder.clone().build_at_unknown_offset()?;
    let timestamp2 = builder.build_at_unknown_offset()?;
    assert_eq!(timestamp1, timestamp2);
    assert!(timestamp1.ion_eq(&timestamp2));
    Ok(())
}

#[test]
fn test_timestamps_with_same_ymd_at_unknown_offset_are_equal() -> IonResult<()> {
    let builder = Timestamp::with_ymd(2021, 2, 5);
    let timestamp1 = builder.clone().build()?;
    let timestamp2 = builder.build()?;
    assert_eq!(timestamp1, timestamp2);
    assert!(timestamp1.ion_eq(&timestamp2));
    Ok(())
}

#[test]
fn test_timestamps_with_same_ym_at_unknown_offset_are_equal() -> IonResult<()> {
    let builder = Timestamp::with_year(2021).with_month(2);
    let timestamp1 = builder.clone().build()?;
    let timestamp2 = builder.build()?;
    assert_eq!(timestamp1, timestamp2);
    assert!(timestamp1.ion_eq(&timestamp2));
    Ok(())
}

#[test]
fn test_timestamps_with_same_year_at_unknown_offset_are_equal() -> IonResult<()> {
    let builder = Timestamp::with_year(2021);
    let timestamp1 = builder.clone().build()?;
    let timestamp2 = builder.build()?;
    assert_eq!(timestamp1, timestamp2);
    assert!(timestamp1.ion_eq(&timestamp2));
    Ok(())
}

#[test]
fn test_timestamps_at_different_offsets_are_not_equal() -> IonResult<()> {
    let builder = Timestamp::with_ymd_hms_millis(2021, 2, 5, 16, 43, 51, 192);
    let timestamp1 = builder.clone().build_at_offset(5 * 60)?;
    let timestamp2 = builder.build_at_offset(4 * 60)?;
    assert_ne!(timestamp1, timestamp2);
    assert!(!timestamp1.ion_eq(&timestamp2));
    Ok(())
}

#[test]
fn test_timestamps_with_known_and_unknown_offsets_are_not_equal() -> IonResult<()> {
    let builder = Timestamp::with_ymd_hms_millis(2021, 2, 5, 16, 43, 51, 192);
    let timestamp1 = builder.clone().build_at_offset(5 * 60)?;
    let timestamp2 = builder.build_at_unknown_offset()?;
    assert_ne!(timestamp1, timestamp2);
    assert!(!timestamp1.ion_eq(&timestamp2));
    Ok(())
}

#[test]
fn test_timestamps_with_different_precisions_are_not_equal() -> IonResult<()> {
    let builder = Timestamp::with_ymd_hms(2021, 2, 5, 16, 43, 51);
    let timestamp1 = builder.clone().build_at_offset(5 * 60)?;
    let timestamp2 = builder.with_milliseconds(192).build_at_offset(5 * 60)?;
    assert_ne!(timestamp1, timestamp2);
    assert!(!timestamp1.ion_eq(&timestamp2));
    Ok(())
}

#[test]
fn test_timestamps_with_different_fractional_second_precision_are_not_equal() -> IonResult<()> {
    let builder = Timestamp::with_ymd_hms(2021, 2, 5, 16, 43, 51);
    let timestamp1 = builder
        .clone()
        .with_milliseconds(192)
        .build_at_offset(5 * 60)?;
    // The microseconds field has the same amount of time, but a different precision.
    let timestamp2 = builder
        .with_microseconds(193 * 1_000)
        .build_at_offset(5 * 60)?;
    assert_ne!(timestamp1, timestamp2);
    assert!(!timestamp1.ion_eq(&timestamp2));
    Ok(())
}

#[test]
fn test_timestamps_with_different_fractional_seconds_are_not_equal() -> IonResult<()> {
    let builder = Timestamp::with_ymd_hms(2021, 2, 5, 16, 43, 51);
    let timestamp1 = builder
        .clone()
        .with_milliseconds(192)
        .build_at_offset(5 * 60)?;
    let timestamp2 = builder.with_milliseconds(193).build_at_offset(5 * 60)?;
    assert_ne!(timestamp1, timestamp2);
    assert!(!timestamp1.ion_eq(&timestamp2));
    Ok(())
}

#[test]
fn test_timestamps_with_different_seconds_are_not_equal() -> IonResult<()> {
    let builder = Timestamp::with_ymd(2021, 2, 5).with_hour_and_minute(16, 43);
    let timestamp1 = builder.clone().with_second(12).build_at_offset(5 * 60)?;
    let timestamp2 = builder.with_second(13).build_at_offset(5 * 60)?;
    assert_ne!(timestamp1, timestamp2);
    assert!(!timestamp1.ion_eq(&timestamp2));
    Ok(())
}

#[test]
fn test_timestamps_with_different_minutes_are_not_equal() -> IonResult<()> {
    let builder = Timestamp::with_ymd(2021, 2, 5);
    let timestamp1 = builder
        .clone()
        .with_hour_and_minute(16, 42)
        .build_at_offset(5 * 60)?;
    let timestamp2 = builder
        .with_hour_and_minute(16, 43)
        .build_at_offset(5 * 60)?;
    assert_ne!(timestamp1, timestamp2);
    assert!(!timestamp1.ion_eq(&timestamp2));
    Ok(())
}

#[test]
fn test_timestamps_with_different_hours_are_not_equal() -> IonResult<()> {
    let builder = Timestamp::with_ymd(2021, 2, 5);
    let timestamp1 = builder
        .clone()
        .with_hour_and_minute(16, 42)
        .build_at_offset(5 * 60)?;
    let timestamp2 = builder
        .with_hour_and_minute(17, 42)
        .build_at_offset(5 * 60)?;
    assert_ne!(timestamp1, timestamp2);
    assert!(!timestamp1.ion_eq(&timestamp2));
    Ok(())
}

#[test]
fn test_timestamps_with_different_days_are_not_equal() -> IonResult<()> {
    let builder = Timestamp::with_year(2021).with_month(2);
    let timestamp1 = builder.clone().with_day(5).build()?;
    let timestamp2 = builder.with_day(6).build()?;
    assert_ne!(timestamp1, timestamp2);
    assert!(!timestamp1.ion_eq(&timestamp2));
    Ok(())
}

#[test]
fn test_timestamps_with_different_months_are_not_equal() -> IonResult<()> {
    let builder = Timestamp::with_year(2021);
    let timestamp1 = builder.clone().with_month(2).build()?;
    let timestamp2 = builder.with_month(3).build()?;
    assert_ne!(timestamp1, timestamp2);
    assert!(!timestamp1.ion_eq(&timestamp2));
    Ok(())
}

#[test]
fn test_timestamps_with_different_years_are_not_equal() -> IonResult<()> {
    let timestamp1 = Timestamp::with_year(2021).build()?;
    let timestamp2 = Timestamp::with_year(2022).build()?;
    assert_ne!(timestamp1, timestamp2);
    assert!(!timestamp1.ion_eq(&timestamp2));
    Ok(())
}

#[test]
fn test_timestamp_builder() {
    // Using individual field setters produces the same Timestamp as using setters
    // for common combinations of fields (with_ymd, with_hms).
    let timestamp1 = Timestamp::with_year(2021)
        .with_month(2)
        .with_day(5)
        .with_hour_and_minute(17, 39)
        .with_second(51)
        .with_milliseconds(194)
        .build_at_offset(-4 * 60)
        .unwrap_or_else(|e| panic!("Couldn't build timestamp: {:?}", e));

    let timestamp2 = Timestamp::with_ymd(2021, 2, 5)
        .with_hms(17, 39, 51)
        .with_milliseconds(194)
        .build_at_offset(-4 * 60)
        .unwrap_or_else(|e| panic!("Couldn't build timestamp: {:?}", e));

    let timestamp3 = Timestamp::with_ymd_hms_millis(2021, 2, 5, 17, 39, 51, 194)
        .build_at_offset(-4 * 60)
        .unwrap_or_else(|e| panic!("Couldn't build timestamp: {:?}", e));

    assert_eq!(timestamp1.precision, Precision::Second);
    assert_eq!(timestamp1.fractional_seconds, Some(Mantissa::Digits(3)));
    assert_eq!(timestamp1, timestamp2);
    assert_eq!(timestamp2, timestamp3);

    assert!(timestamp1.ion_eq(&timestamp2));
    assert!(timestamp1.ion_eq(&timestamp3));
}

#[test]
fn test_timestamp_fixed_offset() -> IonResult<()> {
    let timestamp = Timestamp::with_ymd_hms(2021, 4, 6, 10, 15, 0)
        .with_milliseconds(449)
        .build_at_offset(-5 * 60)?;
    //                    ^-- the offset API takes minutes
    // expected offset in minutes
    let expected_offset = -5 * 60;

    assert_eq!(timestamp.offset().unwrap(), expected_offset);
    Ok(())
}

#[test]
fn test_timestamp_precision() -> IonResult<()> {
    let timestamp = Timestamp::with_year(2021).with_month(2).build()?;
    assert_eq!(timestamp.precision(), Precision::Month);
    Ok(())
}

#[test]
fn test_timestamp_fractional_seconds_scale() -> IonResult<()> {
    // Set fractional seconds as Decimal
    let timestamp_with_micro_seconds = Timestamp::with_ymd_hms(2021, 4, 6, 10, 15, 0)
        .with_fractional_seconds(Decimal::new(553, -6))
        .build_at_offset(-5 * 60)?;

    assert_eq!(
        timestamp_with_micro_seconds
            .fractional_seconds_scale()
            .unwrap(),
        6
    );

    // Set fractional seconds with milliseconds
    let timestamp_with_milliseconds = Timestamp::with_ymd_hms(2021, 4, 6, 10, 15, 0)
        .with_milliseconds(449)
        .build_at_offset(-5 * 60)?;

    assert_eq!(
        timestamp_with_milliseconds
            .fractional_seconds_scale()
            .unwrap(),
        3
    );

    // A timestamp without a fractional seconds field
    let timestamp_with_seconds =
        Timestamp::with_ymd_hms(2021, 4, 6, 10, 15, 0).build_at_offset(-5 * 60)?;

    // For low precision fractional_seconds_scale should return a None
    assert_eq!(timestamp_with_seconds.fractional_seconds_scale(), None);
    Ok(())
}

#[test]
fn test_first_n_digits_of() {
    assert_eq!(0, ion_scalars::digits::first_n_digits_of(1, 0));
    assert_eq!(1, ion_scalars::digits::first_n_digits_of(1, 1));
    assert_eq!(2, ion_scalars::digits::first_n_digits_of(1, 2));

    assert_eq!(0, ion_scalars::digits::first_n_digits_of(3, 0));
    assert_eq!(1, ion_scalars::digits::first_n_digits_of(3, 1));
    assert_eq!(2, ion_scalars::digits::first_n_digits_of(3, 2));
    assert_eq!(99, ion_scalars::digits::first_n_digits_of(9, 99));
    assert_eq!(999, ion_scalars::digits::first_n_digits_of(9, 999));
    assert_eq!(9999, ion_scalars::digits::first_n_digits_of(9, 9999));

    assert_eq!(0, ion_scalars::digits::first_n_digits_of(0, 123456789));
    assert_eq!(1, ion_scalars::digits::first_n_digits_of(1, 123456789));
    assert_eq!(12, ion_scalars::digits::first_n_digits_of(2, 123456789));
    assert_eq!(123, ion_scalars::digits::first_n_digits_of(3, 123456789));
    assert_eq!(1234, ion_scalars::digits::first_n_digits_of(4, 123456789));
    assert_eq!(12345, ion_scalars::digits::first_n_digits_of(5, 123456789));
    assert_eq!(123456, ion_scalars::digits::first_n_digits_of(6, 123456789));
    assert_eq!(1234567, ion_scalars::digits::first_n_digits_of(7, 123456789));
    assert_eq!(12345678, ion_scalars::digits::first_n_digits_of(8, 123456789));
    assert_eq!(123456789, ion_scalars::digits::first_n_digits_of(9, 123456789));
}

#[test]
fn ion_eq_fraction_seconds_mixed_mantissa() {
    let t1 = Timestamp {
        date_time: CivilDateTime {
            year: 1857,
            month: 5,
            day: 29,
            hour: 19,
            minute: 25,
            second: 59,
            nanosecond: 100_000_000,
        },
        offset: Some(60 * 23 + 59),
        precision: Precision::Second,
        fractional_seconds: Some(Mantissa::Digits(1)),
    };
    let t2 = Timestamp {
        date_time: CivilDateTime {
            year: 1857,
            month: 5,
            day: 29,
            hour: 19,
            minute: 25,
            second: 59,
            nanosecond: 0,
        },
        offset: Some(60 * 23 + 59),
        precision: Precision::Second,
        fractional_seconds: Some(Mantissa::Arbitrary(Decimal::new(1, -1))),
    };
    assert_eq!(t1, t2);
    assert!(t1.ion_eq(&t2));
}

#[test]
fn ion_eq_fraction_seconds_mixed_mantissa_2() {
    let t1 = Timestamp {
        date_time: CivilDateTime {
            year: 2001,
            month: 8,
            day: 1,
            hour: 18,
            minute: 18,
            second: 49,
            nanosecond: 6_000_000,
        },
        offset: Some(60 + 1),
        precision: Precision::Second,
        fractional_seconds: Some(Mantissa::Digits(5)),
    };
    let t2 = Timestamp {
        date_time: CivilDateTime {
            year: 2001,
            month: 8,
            day: 1,
            hour: 18,
            minute: 18,
            second: 49,
            nanosecond: 0,
        },
        offset: Some(60 + 1),
        precision: Precision::Second,
        fractional_seconds: Some(Mantissa::Arbitrary(Decimal::new(600, -5))),
    };
    assert_eq!(t1, t2);
    assert!(t1.ion_eq(&t2));
}

#[test]
fn value_eq_millis_vs_arbitrary_fraction() -> IonResult<()> {
    let t1 = Timestamp::with_ymd_hms(2021, 2, 5, 16, 43, 51)
        .with_milliseconds(192)
        .build_at_offset(5 * 60)?;
    let t2 = Timestamp::with_ymd_hms(2021, 2, 5, 16, 43, 51)
        .with_fractional_seconds(Decimal::new(192, -3))
        .build_at_offset(5 * 60)?;
    assert_eq!(t1, t2);
    assert!(t1.ion_eq(&t2));
    Ok(())
}

#[test]
fn builder_rejects_year_out_of_range() {
    assert!(Timestamp::with_year(0).build().is_err());
    assert!(Timestamp::with_year(10000).build().is_err());
    assert!(Timestamp::with_year(9999).build().is_ok());
    assert!(Timestamp::with_year(1).build().is_ok());
}

#[test]
fn builder_rejects_invalid_calendar_fields() {
    assert!(Timestamp::with_year(2021).with_month(13).build().is_err());
    assert!(Timestamp::with_year(2021).with_month(0).build().is_err());
    assert!(Timestamp::with_ymd(2021, 4, 31).build().is_err());
    assert!(Timestamp::with_ymd(2021, 2, 29).build().is_err());
    assert!(Timestamp::with_ymd(2020, 2, 29).build().is_ok());
    assert!(Timestamp::with_ymd(2000, 2, 29).build().is_ok());
    assert!(Timestamp::with_ymd(1900, 2, 29).build().is_err());
    assert!(Timestamp::with_ymd(2021, 1, 0).build().is_err());
    assert!(Timestamp::with_ymd_hms(2021, 1, 1, 24, 0, 0)
        .build_at_unknown_offset()
        .is_err());
    assert!(Timestamp::with_ymd_hms(2021, 1, 1, 0, 60, 0)
        .build_at_unknown_offset()
        .is_err());
    assert!(Timestamp::with_ymd_hms(2021, 1, 1, 0, 0, 60)
        .build_at_unknown_offset()
        .is_err());
}

#[test]
fn builder_rejects_invalid_offset() {
    let builder = Timestamp::with_ymd_hms(2021, 1, 1, 0, 0, 0);
    assert!(builder.clone().build_at_offset(1440).is_err());
    assert!(builder.clone().build_at_offset(-1440).is_err());
    assert!(builder.clone().build_at_offset(1439).is_ok());
    assert!(builder.build_at_offset(-1439).is_ok());
}

#[test]
fn builder_rejects_fractional_seconds_outside_unit_interval() {
    let builder = Timestamp::with_ymd_hms(2021, 1, 1, 0, 0, 0);
    // 1.5 seconds of fraction
    assert!(builder
        .clone()
        .with_fractional_seconds(Decimal::new(15, -1))
        .build_at_unknown_offset()
        .is_err());
    // exactly 1
    assert!(builder
        .clone()
        .with_fractional_seconds(Decimal::new(1, 0))
        .build_at_unknown_offset()
        .is_err());
    // negative
    assert!(builder
        .clone()
        .with_fractional_seconds(Decimal::new(-1, -3))
        .build_at_unknown_offset()
        .is_err());
    // in range
    assert!(builder
        .clone()
        .with_fractional_seconds(Decimal::new(999, -3))
        .build_at_unknown_offset()
        .is_ok());
    // a zero fraction with a positive exponent is rejected as unnormalized
    assert!(builder
        .clone()
        .with_fractional_seconds(Decimal::new(0, 5))
        .build_at_unknown_offset()
        .is_err());
    // more than nine digits sourced from nanoseconds is rejected
    assert!(builder
        .clone()
        .with_nanoseconds_and_precision(1, 10)
        .build_at_unknown_offset()
        .is_err());
    // out-of-range nanoseconds are rejected
    assert!(builder
        .with_nanoseconds(1_500_000_000)
        .build_at_unknown_offset()
        .is_err());
}

#[test]
fn offset_normalization_crosses_midnight() -> IonResult<()> {
    // Local 00:30 at +01:00 is 23:30 UTC of the previous day.
    let t = Timestamp::with_ymd(2021, 3, 1)
        .with_hour_and_minute(0, 30)
        .build_at_offset(60)?;
    let u = Timestamp::with_ymd(2021, 2, 28)
        .with_hour_and_minute(23, 30)
        .build_utc_fields_at_offset(60)?;
    assert_eq!(t, u);
    assert!(t.ion_eq(&u));
    Ok(())
}
