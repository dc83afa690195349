use rust_jpl::config::AppConfig;
use rust_jpl::ephemeris::{Ephemeris, Position};
use rust_jpl::time::JulianDate;
use rust_jpl::Error;
use rust_jpl::EphemerisError;

const MICROS_PER_DAY: i64 = 86_400_000_000;

fn sample_init_data() -> Vec<u8> {
    b"BODIES:\nMars true\nEarth_Moon true\nPluto false\nDATE:\nStart_year 2000\nEnd_year 2100\n"
        .to_vec()
}

fn sample_header() -> Vec<u8> {
    b"NCOEFF= 30\n\
GROUP 1030 100.5 200.5 32\n\
GROUP 1040 3 DENUM EMRAT CLIGHT\n\
GROUP 1041 0.100000000000000D+01 0.813005600000000D+02 0.299792457999999D+06\n\
GROUP 1050 1 11 21 0 0 0 0 0 0\n\
SOMETHING else entirely\n"
        .to_vec()
}

fn sample_ephemeris() -> Ephemeris {
    Ephemeris::new(AppConfig::new(Vec::new(), sample_header(), sample_init_data()))
}

fn jd_in_range() -> JulianDate {
    JulianDate::new(150 * MICROS_PER_DAY)
}

#[test]
fn roster_is_parsed_in_order_with_active_flags() {
    let eph = sample_ephemeris();
    let bodies = eph.get_bodies();
    assert_eq!(bodies.len(), 3);
    assert_eq!(bodies[0].name, b"Mars".to_vec());
    assert_eq!(bodies[1].name, b"Earth_Moon".to_vec());
    assert_eq!(bodies[2].name, b"Pluto".to_vec());
    assert!(bodies[0].active);
    assert!(bodies[1].active);
    assert!(!bodies[2].active);
}

#[test]
fn header_constants_are_parsed() {
    let eph = sample_ephemeris();
    let meta = eph.get_metadata();
    assert_eq!(meta.start_year, 2000);
    assert_eq!(meta.end_year, 2100);
    assert_eq!(meta.number_of_coefficients, 30);
    assert_eq!(meta.interval_days, 32);
    assert_eq!(meta.julian_start.as_micros(), 100 * MICROS_PER_DAY + MICROS_PER_DAY / 2);
    assert_eq!(meta.julian_end.as_micros(), 200 * MICROS_PER_DAY + MICROS_PER_DAY / 2);
    let (lo, hi) = eph.get_date_range();
    assert_eq!(lo, meta.julian_start);
    assert_eq!(hi, meta.julian_end);
}

#[test]
fn emrat_literal_gets_the_exponent_repair() {
    let eph = sample_ephemeris();
    let meta = eph.get_metadata();
    assert_eq!(meta.earth_moon_ratio, b"0.813005600000000E".to_vec());
}

#[test]
fn pointer_triplets_are_distributed_pass_major() {
    let eph = sample_ephemeris();
    let bodies = eph.get_bodies();
    assert_eq!(bodies[0].header_data, vec![1, 0, 0]);
    assert_eq!(bodies[1].header_data, vec![11, 0, 0]);
    assert_eq!(bodies[2].header_data, vec![21, 0, 0]);
}

#[test]
fn three_block_lengths_from_thirty_coefficients() {
    let eph = sample_ephemeris();
    let bodies = eph.get_bodies();
    assert_eq!(bodies[0].coefficient_length, 10);
    assert_eq!(bodies[1].coefficient_length, 10);
    assert_eq!(bodies[2].coefficient_length, 9);
}

#[test]
fn lookup_is_case_insensitive() {
    let eph = sample_ephemeris();
    let jd = jd_in_range();
    let a = eph.get_position(b"mars", jd).unwrap();
    let b = eph.get_position(b"Mars", jd).unwrap();
    let c = eph.get_position(b"MARS", jd).unwrap();
    assert_eq!(a, b);
    assert_eq!(b, c);
    assert_eq!(a, Position::new(0, 0, 0));
}

#[test]
fn lookup_ignores_underscores_in_stored_names() {
    let eph = sample_ephemeris();
    let jd = jd_in_range();
    assert!(eph.get_position(b"EarthMoon", jd).is_ok());
    assert!(eph.get_position(b"earthmoon", jd).is_ok());
    assert!(eph.get_position(b"Earth_Moon", jd).is_ok());
}

#[test]
fn out_of_range_dates_are_refused_for_any_name() {
    let eph = sample_ephemeris();
    let before = JulianDate::new(100 * MICROS_PER_DAY);
    let after = JulianDate::new(201 * MICROS_PER_DAY);
    assert!(matches!(
        eph.get_position(b"Mars", before),
        Err(Error::Ephemeris(EphemerisError::OutOfRange))
    ));
    assert!(matches!(
        eph.get_position(b"Mars", after),
        Err(Error::Ephemeris(EphemerisError::OutOfRange))
    ));
    assert!(matches!(
        eph.get_position(b"NoSuchBody", before),
        Err(Error::Ephemeris(EphemerisError::OutOfRange))
    ));
}

#[test]
fn inactive_bodies_are_refused_even_in_range() {
    let eph = sample_ephemeris();
    assert!(matches!(
        eph.get_position(b"Pluto", jd_in_range()),
        Err(Error::Ephemeris(EphemerisError::Inactive))
    ));
}

#[test]
fn unknown_names_list_every_known_body() {
    let eph = sample_ephemeris();
    match eph.get_position(b"Vulcan", jd_in_range()) {
        Err(Error::Ephemeris(EphemerisError::NotFound(names))) => {
            assert_eq!(
                names,
                vec![b"Mars".to_vec(), b"Earth_Moon".to_vec(), b"Pluto".to_vec()]
            );
        }
        other => panic!("expected NotFound, got {:?}", other),
    }
}

#[test]
fn empty_resources_leave_zero_defaults() {
    let eph = Ephemeris::new(AppConfig::new(Vec::new(), Vec::new(), Vec::new()));
    let meta = eph.get_metadata();
    assert_eq!(meta.start_year, 0);
    assert_eq!(meta.end_year, 0);
    assert_eq!(meta.number_of_coefficients, 0);
    assert_eq!(meta.interval_days, 0);
    assert_eq!(meta.julian_start.as_micros(), 0);
    assert_eq!(meta.julian_end.as_micros(), 0);
    assert_eq!(meta.earth_moon_ratio, Vec::<u8>::new());
    assert!(eph.get_bodies().is_empty());
}

#[test]
fn malformed_year_lines_leave_zero_years() {
    let init = b"BODIES:\nMars true\nDATE:\nStart_year abc\nEnd_year\n".to_vec();
    let eph = Ephemeris::new(AppConfig::new(Vec::new(), Vec::new(), init));
    let meta = eph.get_metadata();
    assert_eq!(meta.start_year, 0);
    // the last token of a bare `End_year` line is the marker itself
    assert_eq!(meta.end_year, 0);
}

#[test]
fn bodies_without_boolean_token_are_inactive() {
    let init = b"BODIES:\nCeres\nDATE:\n".to_vec();
    let eph = Ephemeris::new(AppConfig::new(Vec::new(), Vec::new(), init));
    let bodies = eph.get_bodies();
    assert_eq!(bodies.len(), 1);
    assert!(!bodies[0].active);
}

#[test]
fn short_pointer_records_fill_only_available_columns() {
    let init = b"BODIES:\nOne true\nTwo true\nThree true\nDATE:\n".to_vec();
    let header = b"GROUP 1050 1 11 21 0\n".to_vec();
    let eph = Ephemeris::new(AppConfig::new(Vec::new(), header, init));
    let bodies = eph.get_bodies();
    assert_eq!(bodies[0].header_data, vec![1, 0]);
    assert_eq!(bodies[1].header_data, vec![11]);
    assert_eq!(bodies[2].header_data, vec![21]);
}

#[test]
fn config_hands_back_its_resource_contents() {
    let cfg = AppConfig::new(vec![1, 2, 3], vec![4, 5], vec![6]);
    assert_eq!(cfg.read_nasa_jpl_de441(), vec![1, 2, 3]);
    assert_eq!(cfg.read_header_441(), vec![4, 5]);
    assert_eq!(cfg.read_initial_data_dat(), vec![6]);
}

#[test]
fn tokenizer_splits_on_blanks_and_tabs() {
    let toks = rust_jpl::text::tokens_of(b"  NCOEFF=\t 1018  ");
    assert_eq!(toks, vec![b"NCOEFF=".to_vec(), b"1018".to_vec()]);
    let lines = rust_jpl::text::lines_of(b"a\r\nb\n\nc");
    assert_eq!(
        lines,
        vec![b"a".to_vec(), b"b".to_vec(), Vec::new(), b"c".to_vec()]
    );
}

#[test]
fn integer_tokens_parse_with_zero_fallback() {
    assert_eq!(rust_jpl::text::parse_i32_tok(b"-32045"), -32045);
    assert_eq!(rust_jpl::text::parse_i32_tok(b"+7"), 7);
    assert_eq!(rust_jpl::text::parse_i32_tok(b"2147483647"), 2147483647);
    assert_eq!(rust_jpl::text::parse_i32_tok(b"-2147483648"), -2147483648);
    assert_eq!(rust_jpl::text::parse_i32_tok(b"2147483648"), 0);
    assert_eq!(rust_jpl::text::parse_i32_tok(b"12x"), 0);
    assert_eq!(rust_jpl::text::parse_i32_tok(b""), 0);
}

#[test]
fn day_tokens_parse_to_exact_micros()
{
    assert_eq!(
        rust_jpl::text::parse_day_micros_tok(b"2287184.50"),
        2_287_184 * MICROS_PER_DAY + MICROS_PER_DAY / 2
    );
    assert_eq!(rust_jpl::text::parse_day_micros_tok(b"32"), 32 * MICROS_PER_DAY);
    assert_eq!(rust_jpl::text::parse_day_micros_tok(b".25"), MICROS_PER_DAY / 4);
    assert_eq!(
        rust_jpl::text::parse_day_micros_tok(b"-0.5"),
        -(MICROS_PER_DAY / 2)
    );
    assert_eq!(rust_jpl::text::parse_day_micros_tok(b"."), 0);
    assert_eq!(rust_jpl::text::parse_day_micros_tok(b"1.2.3"), 0);
    assert_eq!(rust_jpl::text::parse_day_micros_tok(b"abc"), 0);
}

#[test]
fn exponent_repair_strips_the_fortran_field() {
    let repaired = rust_jpl::text::repair_exponent(b"0.299792457999999D+06");
    assert_eq!(repaired, b"0.299792457999999E".to_vec());
}
