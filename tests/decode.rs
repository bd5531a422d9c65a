use neo6_gps::number::atoi;
use neo6_gps::sentence::{
    decode, field, parse_gga, parse_gsa, parse_rmc, split_frame, Date, FixMode, FixType, GPSDate,
    GPSFloat, GPSTime, GPS_Statement, Position, Sentence,
};

const RMC_FRAME: &[u8] = b"$GPRMC,123519,A,4807.038,N,01131.000,E,022.4,084.4,230394,003.1,W*6A\n";
const GGA_FRAME: &[u8] = b"$GPGGA,123519,4807.038,N,01131.000,E,1,08,0.9,545.4,M,46.9,M,,*47\n";
const GSA_FRAME: &[u8] = b"$GPGSA,A,3,04,05,,09,12,,,24,,,,,2.5,1.3,2.1*39\n";

fn payload(frame: &[u8]) -> &[u8] {
    split_frame(frame).1
}

#[test]
fn atoi_reads_digits() {
    assert_eq!(atoi(b"123"), 123);
    assert_eq!(atoi(b"08"), 8);
    assert_eq!(atoi(b"0"), 0);
}

#[test]
fn atoi_of_empty_is_zero() {
    assert_eq!(atoi(b""), 0);
}

#[test]
fn atoi_stops_at_first_non_digit() {
    assert_eq!(atoi(b"545.4"), 545);
    assert_eq!(atoi(b"12a3"), 12);
    assert_eq!(atoi(b"*39\n"), 0);
}

#[test]
fn atoi_wraps_past_32_bits() {
    assert_eq!(atoi(b"4294967295"), 4294967295);
    assert_eq!(atoi(b"4294967296"), 0);
    assert_eq!(atoi(b"4294967306"), 10);
}

#[test]
fn field_picks_by_position() {
    let data = b"a,bc,,d";
    assert_eq!(field(data, 0), b"a");
    assert_eq!(field(data, 1), b"bc");
    assert_eq!(field(data, 2), b"");
    assert_eq!(field(data, 3), b"d");
    assert_eq!(field(data, 4), b"");
    assert_eq!(field(b"", 0), b"");
}

#[test]
fn split_frame_classifies_known_kinds() {
    assert_eq!(split_frame(RMC_FRAME).0, GPS_Statement::GPRMC);
    assert_eq!(split_frame(GGA_FRAME).0, GPS_Statement::GPGGA);
    assert_eq!(split_frame(GSA_FRAME).0, GPS_Statement::GPGSA);
    assert_eq!(split_frame(RMC_FRAME).1, &RMC_FRAME[7..]);
}

#[test]
fn split_frame_other_kinds() {
    let (kind, rest) = split_frame(b"$GPGSV,3,1,11\n");
    assert_eq!(kind, GPS_Statement::Other);
    assert_eq!(rest, b"3,1,11\n");
    assert_eq!(split_frame(b"$GNRMC,1\n").0, GPS_Statement::Other);
    assert_eq!(split_frame(b"$GPRM,1\n").0, GPS_Statement::Other);
    assert_eq!(split_frame(b"$GPabc$GPRMC,1\n").0, GPS_Statement::Other);
}

#[test]
fn split_frame_without_comma() {
    let (kind, rest) = split_frame(b"$GPRMC\n");
    assert_eq!(kind, GPS_Statement::Other);
    assert_eq!(rest, b"");
}

#[test]
fn rmc_valid_and_date() {
    let r = parse_rmc(payload(RMC_FRAME));
    assert!(r.valid);
    assert_eq!(r.date, GPSDate { day: 23, month: 3, year: 94 });
}

#[test]
fn rmc_void_status() {
    let r = parse_rmc(b"123519,V,,,,,,,230394,,*6A\n");
    assert!(!r.valid);
    assert_eq!(r.date, GPSDate { day: 23, month: 3, year: 94 });
}

#[test]
fn rmc_missing_fields_keep_defaults() {
    let r = parse_rmc(b"123519,,,,,,,,,,*6A\n");
    assert!(!r.valid);
    assert_eq!(r.date, GPSDate::new());
    let short = parse_rmc(b"1,A,,,,,,,2303");
    assert!(short.valid);
    assert_eq!(short.date, GPSDate { day: 0, month: 0, year: 0 });
}

#[test]
fn gga_time_fix_and_position() {
    let g = parse_gga(payload(GGA_FRAME));
    assert_eq!(g.time, GPSTime { hour: 12, minute: 35, second: 19 });
    assert_eq!(g.fix, FixType::GPSFix);
    assert_eq!(g.satellites_used, 8);
    assert_eq!(g.position.ns_indicator, 'N');
    assert_eq!(g.position.ew_indicator, 'E');
    assert_eq!(g.position.lattitude, GPSFloat { int: 48, fract: 7 });
    assert_eq!(g.position.longitude, GPSFloat { int: 1, fract: 13 });
    assert_eq!(g.position.altitude, GPSFloat { int: 545, fract: 4 });
}

#[test]
fn gga_fix_qualities() {
    assert_eq!(parse_gga(b"1,,,,,0,").fix, FixType::NoFix);
    assert_eq!(parse_gga(b"1,,,,,2,").fix, FixType::DifferentialFix);
    assert_eq!(parse_gga(b"1,,,,,6,").fix, FixType::NoFix);
}

#[test]
fn gga_empty_fields_keep_defaults() {
    let g = parse_gga(b",,S,,W,,,,,M,,M,,*47\n");
    assert_eq!(g.time, GPSTime::new());
    assert_eq!(g.fix, FixType::NoFix);
    assert_eq!(g.satellites_used, 0);
    assert_eq!(g.position.ns_indicator, 'S');
    assert_eq!(g.position.ew_indicator, 'W');
    assert_eq!(g.position.lattitude, GPSFloat { int: 0, fract: 0 });
    assert_eq!(g.position.altitude, GPSFloat { int: 0, fract: 0 });
    let empty = parse_gga(b"");
    assert_eq!(empty.position, Position::new());
}

#[test]
fn gga_satellite_count_is_cut_to_a_byte() {
    assert_eq!(parse_gga(b"1,,,,,1,300,").satellites_used, 44);
}

#[test]
fn gsa_mode_ids_and_dilutions() {
    let a = parse_gsa(payload(GSA_FRAME));
    assert_eq!(a.fix, FixMode::D3);
    assert_eq!(a.satellite_ids, [4, 5, 0, 9, 12, 0, 0, 24, 0, 0, 0, 0]);
    assert_eq!(a.pdop, GPSFloat { int: 2, fract: 5 });
    assert_eq!(a.hdop, GPSFloat { int: 1, fract: 3 });
    assert_eq!(a.vdop, GPSFloat { int: 2, fract: 1 });
}

#[test]
fn gsa_modes() {
    assert_eq!(parse_gsa(b"A,2,").fix, FixMode::D2);
    assert_eq!(parse_gsa(b"A,1,").fix, FixMode::NoFix);
    assert_eq!(parse_gsa(b"A,,").fix, FixMode::NoFix);
}

#[test]
fn gsa_twelve_satellites() {
    let a = parse_gsa(b"A,3,1,2,3,4,5,6,7,8,9,10,11,12,1.0,2,3.25\n");
    assert_eq!(a.satellite_ids, [1, 2, 3, 4, 5, 6, 7, 8, 9, 10, 11, 12]);
    assert_eq!(a.pdop, GPSFloat { int: 1, fract: 0 });
    assert_eq!(a.hdop, GPSFloat { int: 2, fract: 0 });
    assert_eq!(a.vdop, GPSFloat { int: 3, fract: 25 });
}

#[test]
fn decode_each_kind() {
    assert_eq!(decode(RMC_FRAME), Sentence::Rmc(parse_rmc(payload(RMC_FRAME))));
    assert_eq!(decode(GGA_FRAME), Sentence::Gga(parse_gga(payload(GGA_FRAME))));
    assert_eq!(decode(GSA_FRAME), Sentence::Gsa(parse_gsa(payload(GSA_FRAME))));
    assert_eq!(decode(b"$GPGSV,3,1,11\n"), Sentence::Other);
    assert_eq!(decode(b"garbage"), Sentence::Other);
}

#[test]
fn records_start_at_zero() {
    assert_eq!(GPSTime::new(), GPSTime { hour: 0, minute: 0, second: 0 });
    assert_eq!(GPSDate::new(), GPSDate { day: 0, month: 0, year: 0 });
    let d = Date::new();
    assert_eq!(d, Date { hour: 0, minute: 0, second: 0, day: 0, month: 0, year: 0 });
    let p = Position::new();
    assert_eq!(p.ns_indicator, 'N');
    assert_eq!(p.ew_indicator, 'E');
    assert_eq!(p.lattitude, GPSFloat { int: 0, fract: 0 });
    assert_eq!(p.longitude, GPSFloat { int: 0, fract: 0 });
    assert_eq!(p.altitude, GPSFloat { int: 0, fract: 0 });
}
