//! Decoding of the NMEA-0183 sentences that carry time, date, position and
//! fix quality.
//!
//! A frame runs from `$` to its line end. Its first comma parts the sentence
//! identifier from the payload, whose fields are separated by commas and have a
//! fixed meaning by position. An empty or malformed field leaves its value at
//! its default.
use vstd::prelude::*;
use crate::number::{atoi, atoi_spec};

verus! {

/// Byte that separates the fields of a sentence.
pub const FIELD_SEP: u8 = 0x2C;

/// Byte that separates the integer and fractional parts of a number.
pub const DECIMAL_POINT: u8 = 0x2E;

/// Number of bytes of `s` before the first `sep`, or the length of `s` when
/// there is none.
pub open spec fn until(s: Seq<u8>, sep: u8) -> nat
    decreases s.len(),
{
    if s.len() == 0 || s[0] == sep {
        0
    } else {
        1 + until(s.drop_first(), sep)
    }
}

/// Field `n` of a comma-separated payload, counted from zero; empty when the
/// payload has fewer fields.
pub open spec fn field_spec(s: Seq<u8>, n: nat) -> Seq<u8>
    decreases s.len(),
{
    let k = until(s, FIELD_SEP);
    if n == 0 {
        s.take(k as int)
    } else if k >= s.len() {
        seq![]
    } else {
        field_spec(s.skip(k + 1 as int), (n - 1) as nat)
    }
}

proof fn lemma_until(s: Seq<u8>, sep: u8)
    ensures
        until(s, sep) <= s.len(),
        forall|j: int| 0 <= j < until(s, sep) ==> #[trigger] s[j] != sep,
        until(s, sep) < s.len() ==> s[until(s, sep) as int] == sep,
    decreases s.len(),
{
    if s.len() > 0 && s[0] != sep {
        lemma_until(s.drop_first(), sep);
        assert forall|j: int| 0 <= j < until(s, sep) implies #[trigger] s[j] != sep by {
            if j > 0 {
                assert(s[j] == s.drop_first()[j - 1]);
            }
        }
    }
}

/// Position of the first `sep` in `data` at or after `pos`, or the length of
/// `data` when there is none.
fn find_from(data: &[u8], pos: usize, sep: u8) -> (r: usize)
    requires
        pos <= data@.len(),
    ensures
        r == pos + until(data@.skip(pos as int), sep),
{
    let ghost t = data@.skip(pos as int);
    proof {
        lemma_until(t, sep);
    }
    let mut j: usize = pos;
    while j < data.len() && data[j] != sep
        invariant
            pos <= j <= data@.len(),
            t == data@.skip(pos as int),
            until(t, sep) <= t.len(),
            forall|i: int| 0 <= i < until(t, sep) ==> #[trigger] t[i] != sep,
            until(t, sep) < t.len() ==> t[until(t, sep) as int] == sep,
            j - pos <= until(t, sep),
        decreases data@.len() - j,
    {
        assert(t[j - pos] == data@[j as int]);
        j = j + 1;
    }
    proof {
        if j - pos < until(t, sep) {
            assert(t[j - pos] == data@[j as int]);
        }
    }
    j
}

/// Field `n` of a comma-separated payload; empty when there is no such field.
pub fn field(data: &[u8], n: usize) -> (r: &[u8])
    ensures
        r@ == field_spec(data@, n as nat),
{
    let ghost s = data@;
    let mut pos: usize = 0;
    let mut i: usize = 0;
    assert(s.skip(0) =~= s);
    loop
        invariant
            s == data@,
            pos <= data@.len(),
            i <= n,
            field_spec(s, n as nat) == field_spec(s.skip(pos as int), (n - i) as nat),
        decreases data@.len() - pos,
    {
        let j = find_from(data, pos, FIELD_SEP);
        let ghost t = s.skip(pos as int);
        proof {
            lemma_until(t, FIELD_SEP);
        }
        if i == n {
            let r = vstd::slice::slice_subrange(data, pos, j);
            assert(r@ =~= t.take(until(t, FIELD_SEP) as int));
            return r;
        }
        if j == data.len() {
            let r = vstd::slice::slice_subrange(data, j, j);
            assert(r@ =~= seq![]);
            return r;
        }
        assert(t.skip(until(t, FIELD_SEP) + 1 as int) =~= s.skip(j + 1));
        pos = j + 1;
        i = i + 1;
    }
}

/// A number with a fractional part, kept as its integer part and the digits
/// after its decimal point.
#[derive(Debug, Clone, Copy, PartialEq, Eq, Structural)]
pub struct GPSFloat {
    pub int: u32,
    pub fract: u32,
}

/// The kind of a sentence, from its identifier.
#[allow(non_camel_case_types)]
#[derive(Debug, Clone, Copy, PartialEq, Eq, Structural)]
pub enum GPS_Statement {
    GPRMC,
    GPGSA,
    GPGGA,
    GPGSV,
    Other,
}

/// Time of day, as UTC.
#[derive(Debug, Clone, Copy, PartialEq, Eq, Structural)]
pub struct GPSTime {
    pub hour: u8,
    pub minute: u8,
    pub second: u8,
}

impl GPSTime {
    /// Midnight: every part zero.
    pub fn new() -> (r: Self)
        ensures
            r == (GPSTime { hour: 0, minute: 0, second: 0 }),
    {
        GPSTime { hour: 0, minute: 0, second: 0 }
    }
}

/// Calendar date, with a two-digit year.
#[derive(Debug, Clone, Copy, PartialEq, Eq, Structural)]
pub struct GPSDate {
    pub day: u8,
    pub month: u8,
    pub year: u8,
}

impl GPSDate {
    /// The unset date: every part zero.
    pub fn new() -> (r: Self)
        ensures
            r == (GPSDate { day: 0, month: 0, year: 0 }),
    {
        GPSDate { day: 0, month: 0, year: 0 }
    }
}

/// Time of day and calendar date together.
#[derive(Debug, Clone, Copy, PartialEq, Eq, Structural)]
pub struct Date {
    pub hour: u8,
    pub minute: u8,
    pub second: u8,
    pub day: u8,
    pub month: u8,
    pub year: u8,
}

impl Date {
    /// Every part zero.
    pub fn new() -> (r: Self)
        ensures
            r == (Date { hour: 0, minute: 0, second: 0, day: 0, month: 0, year: 0 }),
    {
        Date { hour: 0, minute: 0, second: 0, day: 0, month: 0, year: 0 }
    }
}

/// Latitude and longitude, each as degrees and minutes, with their
/// hemispheres, and altitude in metres.
#[derive(Debug, Clone, Copy, PartialEq, Eq, Structural)]
pub struct Position {
    pub lattitude: GPSFloat,
    pub ns_indicator: char,
    pub longitude: GPSFloat,
    pub ew_indicator: char,
    pub altitude: GPSFloat,
}

pub open spec fn zero_float() -> GPSFloat {
    GPSFloat { int: 0, fract: 0 }
}

/// The position before any is known.
pub open spec fn default_position() -> Position {
    Position {
        lattitude: zero_float(),
        ns_indicator: 'N',
        longitude: zero_float(),
        ew_indicator: 'E',
        altitude: zero_float(),
    }
}

impl Position {
    /// Zero latitude north, zero longitude east, zero altitude.
    pub fn new() -> (r: Self)
        ensures
            r == default_position(),
    {
        Position {
            lattitude: GPSFloat { int: 0, fract: 0 },
            ns_indicator: 'N',
            longitude: GPSFloat { int: 0, fract: 0 },
            ew_indicator: 'E',
            altitude: GPSFloat { int: 0, fract: 0 },
        }
    }
}

/// A satellite in view.
#[allow(non_snake_case)]
#[derive(Debug)]
pub struct GPSSatellite {
    ID: u8,
    elevation: u8,
    azimuth: u16,
    SNR: u8,
}

/// Quality of a position fix.
#[derive(Debug, Clone, Copy, PartialEq, Eq, Structural)]
pub enum FixType {
    NoFix,
    GPSFix,
    DifferentialFix,
}

/// Dimension of a position fix.
#[derive(Debug, Clone, Copy, PartialEq, Eq, Structural)]
pub enum FixMode {
    NoFix,
    D2,
    D3,
}

/// What a recommended-minimum sentence reports: whether the receiver holds its
/// data valid, and the date.
#[derive(Debug, Clone, Copy, PartialEq, Eq, Structural)]
pub struct RMC {
    pub valid: bool,
    pub date: GPSDate,
}

/// What a fix-data sentence reports.
#[derive(Debug, Clone, Copy, PartialEq, Eq, Structural)]
pub struct GGA {
    pub position: Position,
    pub satellites_used: u8,
    pub fix: FixType,
    pub time: GPSTime,
}

/// What a dilution-of-precision sentence reports: the fix mode, the satellites
/// in use and the three dilutions of precision.
#[derive(Debug, Clone, Copy, PartialEq, Eq)]
pub struct GSA {
    pub hdop: GPSFloat,
    pub vdop: GPSFloat,
    pub pdop: GPSFloat,
    pub fix: FixMode,
    pub satellite_ids: [u8; 12],
}

/// The identifier of a sentence of the GPS talker whose type is `a b c`.
pub open spec fn gp_tag(a: u8, b: u8, c: u8) -> Seq<u8> {
    seq![0x24u8, 0x47u8, 0x50u8, a, b, c]
}

/// The kind of sentence that an identifier names.
pub open spec fn statement_of(tag: Seq<u8>) -> GPS_Statement {
    if tag == gp_tag(0x52, 0x4D, 0x43) {
        GPS_Statement::GPRMC
    } else if tag == gp_tag(0x47, 0x53, 0x41) {
        GPS_Statement::GPGSA
    } else if tag == gp_tag(0x47, 0x47, 0x41) {
        GPS_Statement::GPGGA
    } else {
        GPS_Statement::Other
    }
}

/// A frame parted at its first comma into the kind that its identifier names
/// and the payload after the comma. A frame without a comma has no payload
/// and is of no known kind.
pub open spec fn split_frame_spec(frame: Seq<u8>) -> (GPS_Statement, Seq<u8>) {
    let k = until(frame, FIELD_SEP);
    if k < frame.len() {
        (statement_of(frame.take(k as int)), frame.skip(k + 1 as int))
    } else {
        (GPS_Statement::Other, seq![])
    }
}

fn classify(tag: &[u8]) -> (r: GPS_Statement)
    ensures
        r == statement_of(tag@),
{
    if tag.len() != 6 || tag[0] != 0x24 || tag[1] != 0x47 || tag[2] != 0x50 {
        proof {
            if tag@.len() == 6 {
                assert(tag@[0] != 0x24 || tag@[1] != 0x47 || tag@[2] != 0x50);
                assert(gp_tag(0x52, 0x4D, 0x43)[0] == 0x24 && gp_tag(0x52, 0x4D, 0x43)[1] == 0x47);
                assert(gp_tag(0x52, 0x4D, 0x43)[2] == 0x50 && gp_tag(0x47, 0x53, 0x41)[2] == 0x50);
                assert(gp_tag(0x47, 0x53, 0x41)[0] == 0x24 && gp_tag(0x47, 0x53, 0x41)[1] == 0x47);
                assert(gp_tag(0x47, 0x47, 0x41)[0] == 0x24 && gp_tag(0x47, 0x47, 0x41)[1] == 0x47);
                assert(gp_tag(0x47, 0x47, 0x41)[2] == 0x50);
            }
        }
        return GPS_Statement::Other;
    }
    let (a, b, c) = (tag[3], tag[4], tag[5]);
    assert(tag@ =~= gp_tag(a, b, c));
    if a == 0x52 && b == 0x4D && c == 0x43 {
        GPS_Statement::GPRMC
    } else if a == 0x47 && b == 0x53 && c == 0x41 {
        GPS_Statement::GPGSA
    } else if a == 0x47 && b == 0x47 && c == 0x41 {
        GPS_Statement::GPGGA
    } else {
        proof {
            assert(gp_tag(a, b, c)[3] == a && gp_tag(a, b, c)[4] == b && gp_tag(a, b, c)[5] == c);
            assert(gp_tag(0x52, 0x4D, 0x43)[3] == 0x52 && gp_tag(0x52, 0x4D, 0x43)[4] == 0x4D);
            assert(gp_tag(0x47, 0x53, 0x41)[4] == 0x53 && gp_tag(0x47, 0x53, 0x41)[5] == 0x41);
            assert(gp_tag(0x47, 0x47, 0x41)[4] == 0x47 && gp_tag(0x47, 0x47, 0x41)[5] == 0x41);
            assert(gp_tag(0x52, 0x4D, 0x43)[5] == 0x43);
        }
        GPS_Statement::Other
    }
}

/// Parts a frame at its first comma into the kind of sentence that its
/// identifier names and the payload that follows the comma.
pub fn split_frame(frame: &[u8]) -> (r: (GPS_Statement, &[u8]))
    ensures
        r.0 == split_frame_spec(frame@).0,
        r.1@ == split_frame_spec(frame@).1,
{
    let k = find_from(frame, 0, FIELD_SEP);
    assert(frame@.skip(0) =~= frame@);
    proof {
        lemma_until(frame@, FIELD_SEP);
    }
    if k < frame.len() {
        let tag = vstd::slice::slice_subrange(frame, 0, k);
        let payload = vstd::slice::slice_subrange(frame, k + 1, frame.len());
        assert(tag@ =~= frame@.take(k as int));
        assert(payload@ =~= frame@.skip(k + 1));
        (classify(tag), payload)
    } else {
        let payload = vstd::slice::slice_subrange(frame, k, k);
        assert(payload@ =~= seq![]);
        (GPS_Statement::Other, payload)
    }
}

/// Byte that marks the receiver's data valid in a recommended-minimum sentence.
pub const STATUS_VALID: u8 = 0x41;

/// The two-digit number at offset `i` of a field, cut to a byte.
pub open spec fn two_digits(f: Seq<u8>, i: int) -> u8 {
    atoi_spec(f.subrange(i, i + 2)) as u8
}

/// A time of day written `hhmmss`; midnight when the field is shorter.
pub open spec fn time_of(f: Seq<u8>) -> GPSTime {
    if f.len() >= 6 {
        GPSTime { hour: two_digits(f, 0), minute: two_digits(f, 2), second: two_digits(f, 4) }
    } else {
        GPSTime { hour: 0, minute: 0, second: 0 }
    }
}

/// A date written `ddmmyy`; all zero when the field is shorter.
pub open spec fn date_of(f: Seq<u8>) -> GPSDate {
    if f.len() >= 6 {
        GPSDate { day: two_digits(f, 0), month: two_digits(f, 2), year: two_digits(f, 4) }
    } else {
        GPSDate { day: 0, month: 0, year: 0 }
    }
}

/// A coordinate: the two-digit groups at its start, as degrees and minutes;
/// zero when the field is shorter than four bytes.
pub open spec fn degrees_of(f: Seq<u8>) -> GPSFloat {
    if f.len() >= 4 {
        GPSFloat { int: atoi_spec(f.subrange(0, 2)), fract: atoi_spec(f.subrange(2, 4)) }
    } else {
        zero_float()
    }
}

/// A decimal number: the digits before its point and those after it, zero
/// where there are none.
pub open spec fn decimal_of(f: Seq<u8>) -> GPSFloat {
    let k = until(f, DECIMAL_POINT);
    GPSFloat {
        int: atoi_spec(f),
        fract: if k < f.len() { atoi_spec(f.skip(k + 1 as int)) } else { 0 },
    }
}

/// A one-letter indicator: the field's first byte, or `d` when it is empty.
pub open spec fn indicator_of(f: Seq<u8>, d: char) -> char {
    if f.len() > 0 { f[0] as char } else { d }
}

/// The fix quality that a number stands for.
pub open spec fn fix_type_of(n: u32) -> FixType {
    if n == 1 {
        FixType::GPSFix
    } else if n == 2 {
        FixType::DifferentialFix
    } else {
        FixType::NoFix
    }
}

/// The fix mode that a number stands for.
pub open spec fn fix_mode_of(n: u32) -> FixMode {
    if n == 2 {
        FixMode::D2
    } else if n == 3 {
        FixMode::D3
    } else {
        FixMode::NoFix
    }
}

/// The record of a recommended-minimum payload: the status in field 1 and
/// the date in field 8.
pub open spec fn rmc_of(p: Seq<u8>) -> RMC {
    let status = field_spec(p, 1);
    RMC {
        valid: status.len() > 0 && status[0] == STATUS_VALID,
        date: date_of(field_spec(p, 8)),
    }
}

/// The record of a fix-data payload: time in field 0, latitude and its
/// hemisphere in 1 and 2, longitude and its hemisphere in 3 and 4, fix
/// quality in 5, satellites used in 6, altitude in 8.
pub open spec fn gga_of(p: Seq<u8>) -> GGA {
    GGA {
        position: Position {
            lattitude: degrees_of(field_spec(p, 1)),
            ns_indicator: indicator_of(field_spec(p, 2), 'N'),
            longitude: degrees_of(field_spec(p, 3)),
            ew_indicator: indicator_of(field_spec(p, 4), 'E'),
            altitude: decimal_of(field_spec(p, 8)),
        },
        satellites_used: atoi_spec(field_spec(p, 6)) as u8,
        fix: fix_type_of(atoi_spec(field_spec(p, 5))),
        time: time_of(field_spec(p, 0)),
    }
}

/// The satellites of a dilution-of-precision payload, from fields 2 to 13.
pub open spec fn satellite_ids_of(p: Seq<u8>) -> Seq<u8> {
    Seq::new(12, |k: int| atoi_spec(field_spec(p, (k + 2) as nat)) as u8)
}

/// Whether `r` is the record of a dilution-of-precision payload: fix mode in
/// field 1, satellites in 2 to 13, position, horizontal and vertical dilution
/// in 14, 15 and 16.
pub open spec fn is_gsa_of(r: GSA, p: Seq<u8>) -> bool {
    &&& r.fix == fix_mode_of(atoi_spec(field_spec(p, 1)))
    &&& r.satellite_ids@ == satellite_ids_of(p)
    &&& r.pdop == decimal_of(field_spec(p, 14))
    &&& r.hdop == decimal_of(field_spec(p, 15))
    &&& r.vdop == decimal_of(field_spec(p, 16))
}

fn two_digits_at(f: &[u8], i: usize) -> (r: u8)
    requires
        i <= 4,
        i + 2 <= f@.len(),
    ensures
        r == two_digits(f@, i as int),
{
    #[verifier::truncate]
    (atoi(vstd::slice::slice_subrange(f, i, i + 2)) as u8)
}

fn parse_time(f: &[u8]) -> (r: GPSTime)
    ensures
        r == time_of(f@),
{
    if f.len() >= 6 {
        GPSTime { hour: two_digits_at(f, 0), minute: two_digits_at(f, 2), second: two_digits_at(f, 4) }
    } else {
        GPSTime::new()
    }
}

fn parse_date(f: &[u8]) -> (r: GPSDate)
    ensures
        r == date_of(f@),
{
    if f.len() >= 6 {
        GPSDate { day: two_digits_at(f, 0), month: two_digits_at(f, 2), year: two_digits_at(f, 4) }
    } else {
        GPSDate::new()
    }
}

fn parse_degrees(f: &[u8]) -> (r: GPSFloat)
    ensures
        r == degrees_of(f@),
{
    if f.len() >= 4 {
        GPSFloat {
            int: atoi(vstd::slice::slice_subrange(f, 0, 2)),
            fract: atoi(vstd::slice::slice_subrange(f, 2, 4)),
        }
    } else {
        GPSFloat { int: 0, fract: 0 }
    }
}

fn parse_decimal(f: &[u8]) -> (r: GPSFloat)
    ensures
        r == decimal_of(f@),
{
    let k = find_from(f, 0, DECIMAL_POINT);
    assert(f@.skip(0) =~= f@);
    proof {
        lemma_until(f@, DECIMAL_POINT);
    }
    let fract = if k < f.len() {
        let rest = vstd::slice::slice_subrange(f, k + 1, f.len());
        assert(rest@ =~= f@.skip(k + 1));
        atoi(rest)
    } else {
        0
    };
    GPSFloat { int: atoi(f), fract }
}

fn parse_indicator(f: &[u8], d: char) -> (r: char)
    ensures
        r == indicator_of(f@, d),
{
    if f.len() > 0 {
        f[0] as char
    } else {
        d
    }
}

/// Decodes the payload of a recommended-minimum sentence.
pub fn parse_rmc(data: &[u8]) -> (r: RMC)
    ensures
        r == rmc_of(data@),
{
    let status = field(data, 1);
    let valid = status.len() > 0 && status[0] == STATUS_VALID;
    RMC { valid, date: parse_date(field(data, 8)) }
}

/// Decodes the payload of a fix-data sentence.
pub fn parse_gga(data: &[u8]) -> (r: GGA)
    ensures
        r == gga_of(data@),
{
    let fix = match atoi(field(data, 5)) {
        1 => FixType::GPSFix,
        2 => FixType::DifferentialFix,
        _ => FixType::NoFix,
    };
    GGA {
        position: Position {
            lattitude: parse_degrees(field(data, 1)),
            ns_indicator: parse_indicator(field(data, 2), 'N'),
            longitude: parse_degrees(field(data, 3)),
            ew_indicator: parse_indicator(field(data, 4), 'E'),
            altitude: parse_decimal(field(data, 8)),
        },
        satellites_used: #[verifier::truncate]
        (atoi(field(data, 6)) as u8),
        fix,
        time: parse_time(field(data, 0)),
    }
}

/// Decodes the payload of a dilution-of-precision sentence.
pub fn parse_gsa(data: &[u8]) -> (r: GSA)
    ensures
        is_gsa_of(r, data@),
{
    let fix = match atoi(field(data, 1)) {
        2 => FixMode::D2,
        3 => FixMode::D3,
        _ => FixMode::NoFix,
    };
    let mut sat_ids = [0u8; 12];
    let mut k: usize = 0;
    while k < 12
        invariant
            k <= 12,
            forall|j: int| 0 <= j < k ==> #[trigger] sat_ids@[j] == satellite_ids_of(data@)[j],
        decreases 12 - k,
    {
        let id = #[verifier::truncate]
        (atoi(field(data, k + 2)) as u8);
        sat_ids[k] = id;
        k = k + 1;
    }
    assert(sat_ids@ =~= satellite_ids_of(data@));
    GSA {
        hdop: parse_decimal(field(data, 15)),
        vdop: parse_decimal(field(data, 16)),
        pdop: parse_decimal(field(data, 14)),
        fix,
        satellite_ids: sat_ids,
    }
}

/// A decoded sentence.
#[derive(Debug, Clone, Copy, PartialEq, Eq)]
pub enum Sentence {
    Rmc(RMC),
    Gga(GGA),
    Gsa(GSA),
    Other,
}

/// Whether `s` is what a frame decodes to: the record of its payload when its
/// identifier names one of the three decoded kinds, and `Other` otherwise.
pub open spec fn decodes(frame: Seq<u8>, s: Sentence) -> bool {
    let (kind, p) = split_frame_spec(frame);
    match s {
        Sentence::Rmc(r) => kind == GPS_Statement::GPRMC && r == rmc_of(p),
        Sentence::Gga(g) => kind == GPS_Statement::GPGGA && g == gga_of(p),
        Sentence::Gsa(a) => kind == GPS_Statement::GPGSA && is_gsa_of(a, p),
        Sentence::Other => kind != GPS_Statement::GPRMC && kind != GPS_Statement::GPGGA && kind
            != GPS_Statement::GPGSA,
    }
}

/// Decodes one frame, from its `$` to its line end.
pub fn decode(frame: &[u8]) -> (r: Sentence)
    ensures
        decodes(frame@, r),
{
    let (kind, payload) = split_frame(frame);
    match kind {
        GPS_Statement::GPRMC => Sentence::Rmc(parse_rmc(payload)),
        GPS_Statement::GPGGA => Sentence::Gga(parse_gga(payload)),
        GPS_Statement::GPGSA => Sentence::Gsa(parse_gsa(payload)),
        _ => Sentence::Other,
    }
}

} // verus!
