use neo6_gps::fix::GPS_Data;
use neo6_gps::sentence::{
    parse_gga, parse_gsa, parse_rmc, FixMode, FixType, GPSDate, GPSFloat, GPSTime, Position,
};

fn fix_valid(d: &GPS_Data) -> bool {
    d.is_valid() && d.get_fix_type() != FixType::NoFix && d.get_fix_mode() != FixMode::NoFix
}

#[test]
fn new_record_is_initial() {
    let d = GPS_Data::new();
    assert!(!d.is_valid());
    assert_eq!(d.get_date(), GPSDate::new());
    assert_eq!(d.get_time(), GPSTime::new());
    assert_eq!(d.get_position(), Position::new());
    assert_eq!(d.satellites_no(), 0);
    assert_eq!(d.get_fix_type(), FixType::NoFix);
    assert_eq!(d.get_fix_mode(), FixMode::NoFix);
    assert_eq!(d.satellite_ids, [0u8; 12]);
    assert_eq!(d.hdop, GPSFloat { int: 0, fract: 0 });
    assert!(!fix_valid(&d));
}

#[test]
fn each_merge_touches_its_own_fields() {
    let mut d = GPS_Data::new();
    d.update_rmc(parse_rmc(b"1,A,,,,,,,230394,"));
    assert!(d.is_valid());
    assert_eq!(d.get_date(), GPSDate { day: 23, month: 3, year: 94 });
    assert_eq!(d.get_time(), GPSTime::new());
    d.update_gga(parse_gga(b"123519,4807.038,S,01131.000,W,2,11,0.9,545.4,M"));
    assert_eq!(d.get_time(), GPSTime { hour: 12, minute: 35, second: 19 });
    assert_eq!(d.satellites_no(), 11);
    assert_eq!(d.get_fix_type(), FixType::DifferentialFix);
    assert_eq!(d.get_position().ns_indicator, 'S');
    assert_eq!(d.get_fix_mode(), FixMode::NoFix);
    assert_eq!(d.get_date(), GPSDate { day: 23, month: 3, year: 94 });
    d.update_gsa(parse_gsa(b"A,2,7,,,,,,,,,,,,3.1,1.2,2.0"));
    assert_eq!(d.get_fix_mode(), FixMode::D2);
    assert_eq!(d.satellite_ids[0], 7);
    assert_eq!(d.pdop, GPSFloat { int: 3, fract: 1 });
    assert_eq!(d.get_fix_type(), FixType::DifferentialFix);
}

#[test]
fn valid_only_after_all_three_in_any_order() {
    let rmc = parse_rmc(b"1,A,");
    let gga = parse_gga(b"1,,,,,1,");
    let gsa = parse_gsa(b"A,3,");

    let mut d = GPS_Data::new();
    d.update_gsa(gsa);
    assert!(!fix_valid(&d));
    d.update_rmc(rmc);
    assert!(!fix_valid(&d));
    d.update_gga(gga);
    assert!(fix_valid(&d));

    let mut e = GPS_Data::new();
    e.update_gga(gga);
    e.update_gsa(gsa);
    assert!(!fix_valid(&e));
    e.update_rmc(rmc);
    assert!(fix_valid(&e));
}

#[test]
fn a_later_negative_report_voids_the_fix() {
    let mut d = GPS_Data::new();
    d.update_rmc(parse_rmc(b"1,A,"));
    d.update_gga(parse_gga(b"1,,,,,1,"));
    d.update_gsa(parse_gsa(b"A,3,"));
    assert!(fix_valid(&d));
    d.update_rmc(parse_rmc(b"1,V,"));
    assert!(!fix_valid(&d));
    d.update_rmc(parse_rmc(b"1,A,"));
    assert!(fix_valid(&d));
    d.update_gsa(parse_gsa(b"A,1,"));
    assert!(!fix_valid(&d));
}

#[test]
fn merging_twice_equals_merging_once() {
    let rmc = parse_rmc(b"1,A,,,,,,,230394,");
    let gga = parse_gga(b"123519,4807.038,N,01131.000,E,1,08,0.9,545.4,M");
    let gsa = parse_gsa(b"A,3,04,05,,09,12,,,24,,,,,2.5,1.3,2.1");
    let base = GPS_Data::new();

    let mut once = base;
    once.update_rmc(rmc);
    let mut twice = once;
    twice.update_rmc(rmc);
    assert_eq!(once, twice);

    let mut once = base;
    once.update_gga(gga);
    let mut twice = once;
    twice.update_gga(gga);
    assert_eq!(once, twice);

    let mut once = base;
    once.update_gsa(gsa);
    let mut twice = once;
    twice.update_gsa(gsa);
    assert_eq!(once, twice);
}
