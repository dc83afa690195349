use rust_jpl::time::{CalendarDate, JulianDate};
use rust_jpl::DateField;
use rust_jpl::Error;

const MICROS_PER_DAY: i64 = 86_400_000_000;

#[test]
fn test_julian_date_conversion() {
    let jd = JulianDate::from_calendar(2024, 1, 15, 12, 0, 0).unwrap();
    let cal = jd.to_calendar();
    assert_eq!(cal.year, 2024);
    assert_eq!(cal.month, 1);
    assert_eq!(cal.day, 15);
}

#[test]
fn j2000_epoch_is_exact() {
    let jd = JulianDate::from_calendar(2000, 1, 1, 12, 0, 0).unwrap();
    assert_eq!(jd.as_micros(), 2_451_545 * MICROS_PER_DAY);
    assert_eq!(jd.as_micros() as f64 / MICROS_PER_DAY as f64, 2451545.0);
}

#[test]
fn reference_day_2024_is_exact() {
    // reference tables: 2024-01-15 00:00 is JD 2460324.5, noon is JD 2460325.0
    let midnight = JulianDate::from_calendar(2024, 1, 15, 0, 0, 0).unwrap();
    assert_eq!(midnight.as_micros(), 2_460_324 * MICROS_PER_DAY + MICROS_PER_DAY / 2);
    assert_eq!(midnight.as_micros() as f64 / MICROS_PER_DAY as f64, 2460324.5);
    let noon = JulianDate::from_calendar(2024, 1, 15, 12, 0, 0).unwrap();
    assert_eq!(noon.as_micros() as f64 / MICROS_PER_DAY as f64, 2460325.0);
}

#[test]
fn invalid_fields_are_reported() {
    assert!(matches!(
        JulianDate::from_calendar(2024, 13, 1, 0, 0, 0),
        Err(Error::InvalidDate(DateField::Month))
    ));
    assert!(matches!(
        JulianDate::from_calendar(2024, 1, 1, 24, 0, 0),
        Err(Error::InvalidDate(DateField::Hour))
    ));
    assert!(matches!(
        JulianDate::from_calendar(2024, 1, 1, 0, 0, 60_000_000),
        Err(Error::InvalidDate(DateField::Second))
    ));
    assert!(matches!(
        JulianDate::from_calendar(2024, 1, 0, 0, 0, 0),
        Err(Error::InvalidDate(DateField::Day))
    ));
    assert!(matches!(
        JulianDate::from_calendar(2024, 1, 32, 0, 0, 0),
        Err(Error::InvalidDate(DateField::Day))
    ));
    assert!(matches!(
        JulianDate::from_calendar(2024, 1, 1, 0, 60, 0),
        Err(Error::InvalidDate(DateField::Minute))
    ));
}

#[test]
fn day_is_only_checked_against_the_generic_bound() {
    // the converter deliberately accepts day 31 in any month
    let jd = JulianDate::from_calendar(2023, 2, 31, 0, 0, 0).unwrap();
    let cal = jd.to_calendar();
    assert_eq!((cal.year, cal.month, cal.day), (2023, 3, 3));
}

#[test]
fn round_trip_preserves_time_of_day() {
    let jd = JulianDate::from_calendar(1987, 6, 19, 21, 35, 22_500_000).unwrap();
    let cal = jd.to_calendar();
    assert_eq!(cal.year, 1987);
    assert_eq!(cal.month, 6);
    assert_eq!(cal.day, 19);
    assert_eq!(cal.hour, 21);
    assert_eq!(cal.minute, 35);
    assert_eq!(cal.second_micros, 22_500_000);
}

#[test]
fn round_trip_across_edges() {
    let cases: [(i64, i64, i64, i64, i64, i64); 6] = [
        (2000, 2, 29, 23, 59, 59_999_999),
        (1900, 2, 28, 0, 0, 0),
        (1582, 10, 15, 6, 30, 1_000),
        (-4700, 1, 1, 0, 0, 0),
        (9999, 12, 31, 23, 59, 59_000_000),
        (1970, 1, 1, 0, 0, 0),
    ];
    for (y, m, d, h, mi, s) in cases {
        let jd = JulianDate::from_calendar(y, m, d, h, mi, s).unwrap();
        let cal = jd.to_calendar();
        assert_eq!((cal.year, cal.month, cal.day), (y, m, d));
        assert_eq!((cal.hour, cal.minute, cal.second_micros), (h, mi, s));
    }
}

#[test]
fn calendar_date_round_trips_through_to_julian() {
    let cal = CalendarDate::new(2024, 1, 15, 12, 0, 0);
    let jd = cal.to_julian().unwrap();
    assert_eq!(jd.as_micros(), 2_460_325 * MICROS_PER_DAY);
    let back = jd.to_calendar();
    assert_eq!(back, cal);
}

#[test]
fn julian_date_new_wraps_micros() {
    let jd = JulianDate::new(42);
    assert_eq!(jd.as_micros(), 42);
    assert_eq!(jd, JulianDate::new(42));
}

#[test]
fn noon_has_no_fraction_and_midnight_is_half() {
    // the .0 of the classical convention falls at noon
    let noon = JulianDate::from_calendar(2000, 1, 1, 12, 0, 0).unwrap();
    assert_eq!(noon.as_micros() % MICROS_PER_DAY, 0);
    let midnight = JulianDate::from_calendar(2000, 1, 1, 0, 0, 0).unwrap();
    assert_eq!(noon.as_micros() - midnight.as_micros(), MICROS_PER_DAY / 2);
}
