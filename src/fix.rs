//! The current fix: the latest data of each sentence kind, merged into one
//! record.
use vstd::prelude::*;
use crate::sentence::{
    default_position, zero_float, FixMode, FixType, GPSDate, GPSFloat, GPSTime, Position, Sentence,
    GGA, GSA, RMC,
};

verus! {

/// The latest time, date, position and fix quality. Each sentence kind owns
/// its own fields: the recommended-minimum sentence the status and date, the
/// fix-data sentence position, satellite count, quality and time, the
/// dilution-of-precision sentence the dilutions, mode and satellites in use.
#[allow(non_camel_case_types)]
#[derive(Debug, Clone, Copy, PartialEq, Eq)]
pub struct GPS_Data {
    pub valid: bool,
    pub date: GPSDate,
    pub position: Position,
    pub satellites_used: u8,
    pub fix: FixType,
    pub time: GPSTime,
    pub hdop: GPSFloat,
    pub vdop: GPSFloat,
    pub pdop: GPSFloat,
    pub fix_mode: FixMode,
    pub satellite_ids: [u8; 12],
}

/// Whether `d` is the record before any sentence: status not valid, every
/// number zero, no fix, default position.
pub open spec fn is_initial(d: GPS_Data) -> bool {
    &&& !d.valid
    &&& d.date == (GPSDate { day: 0, month: 0, year: 0 })
    &&& d.position == default_position()
    &&& d.satellites_used == 0
    &&& d.fix == FixType::NoFix
    &&& d.time == (GPSTime { hour: 0, minute: 0, second: 0 })
    &&& d.hdop == zero_float()
    &&& d.vdop == zero_float()
    &&& d.pdop == zero_float()
    &&& d.fix_mode == FixMode::NoFix
    &&& d.satellite_ids@ == Seq::new(12, |i: int| 0u8)
}

/// Whether the fix can be used: the receiver's status is valid and both the
/// fix quality and the fix mode show a fix.
pub open spec fn fix_valid(d: GPS_Data) -> bool {
    d.valid && d.fix != FixType::NoFix && d.fix_mode != FixMode::NoFix
}

/// `d` with the fields of a recommended-minimum record replaced.
pub open spec fn rmc_merged(d: GPS_Data, r: RMC) -> GPS_Data {
    GPS_Data { valid: r.valid, date: r.date, ..d }
}

/// `d` with the fields of a fix-data record replaced.
pub open spec fn gga_merged(d: GPS_Data, g: GGA) -> GPS_Data {
    GPS_Data { position: g.position, satellites_used: g.satellites_used, fix: g.fix, time: g.time, ..d }
}

/// `d` with the fields of a dilution-of-precision record replaced.
pub open spec fn gsa_merged(d: GPS_Data, a: GSA) -> GPS_Data {
    GPS_Data {
        hdop: a.hdop,
        vdop: a.vdop,
        pdop: a.pdop,
        fix_mode: a.fix,
        satellite_ids: a.satellite_ids,
        ..d
    }
}

/// `d` after merging a decoded sentence; other sentences change nothing.
pub open spec fn merged(d: GPS_Data, s: Sentence) -> GPS_Data {
    match s {
        Sentence::Rmc(r) => rmc_merged(d, r),
        Sentence::Gga(g) => gga_merged(d, g),
        Sentence::Gsa(a) => gsa_merged(d, a),
        Sentence::Other => d,
    }
}

/// `d` after merging the sentences of `ss` in order.
pub open spec fn merged_all(d: GPS_Data, ss: Seq<Sentence>) -> GPS_Data
    decreases ss.len(),
{
    if ss.len() == 0 {
        d
    } else {
        merged(merged_all(d, ss.drop_last()), ss.last())
    }
}

/// The status of the latest recommended-minimum sentence in `ss`, or `b` when
/// there is none.
pub open spec fn valid_after(b: bool, ss: Seq<Sentence>) -> bool
    decreases ss.len(),
{
    if ss.len() == 0 {
        b
    } else {
        match ss.last() {
            Sentence::Rmc(r) => r.valid,
            _ => valid_after(b, ss.drop_last()),
        }
    }
}

/// The fix quality of the latest fix-data sentence in `ss`, or `f` when there
/// is none.
pub open spec fn fix_after(f: FixType, ss: Seq<Sentence>) -> FixType
    decreases ss.len(),
{
    if ss.len() == 0 {
        f
    } else {
        match ss.last() {
            Sentence::Gga(g) => g.fix,
            _ => fix_after(f, ss.drop_last()),
        }
    }
}

/// The fix mode of the latest dilution-of-precision sentence in `ss`, or `m`
/// when there is none.
pub open spec fn mode_after(m: FixMode, ss: Seq<Sentence>) -> FixMode
    decreases ss.len(),
{
    if ss.len() == 0 {
        m
    } else {
        match ss.last() {
            Sentence::Gsa(a) => a.fix,
            _ => mode_after(m, ss.drop_last()),
        }
    }
}

proof fn lemma_merged_all_status(d: GPS_Data, ss: Seq<Sentence>)
    ensures
        merged_all(d, ss).valid == valid_after(d.valid, ss),
        merged_all(d, ss).fix == fix_after(d.fix, ss),
        merged_all(d, ss).fix_mode == mode_after(d.fix_mode, ss),
    decreases ss.len(),
{
    if ss.len() > 0 {
        lemma_merged_all_status(d, ss.drop_last());
    }
}

proof fn lemma_status_seen(ss: Seq<Sentence>)
    ensures
        valid_after(false, ss) ==> exists|i: int|
            0 <= i < ss.len() && (#[trigger] ss[i] matches Sentence::Rmc(r) && r.valid),
        fix_after(FixType::NoFix, ss) != FixType::NoFix ==> exists|i: int|
            0 <= i < ss.len() && (#[trigger] ss[i] matches Sentence::Gga(g) && g.fix
                != FixType::NoFix),
        mode_after(FixMode::NoFix, ss) != FixMode::NoFix ==> exists|i: int|
            0 <= i < ss.len() && (#[trigger] ss[i] matches Sentence::Gsa(a) && a.fix
                != FixMode::NoFix),
    decreases ss.len(),
{
    if ss.len() > 0 {
        let init = ss.drop_last();
        lemma_status_seen(init);
        let n = ss.len() - 1;
        assert(ss[n] == ss.last());
        assert forall|i: int| 0 <= i < init.len() implies #[trigger] init[i] == ss[i] by {}
        if valid_after(false, ss) && !(ss.last() matches Sentence::Rmc(_)) {
            let i = choose|i: int|
                0 <= i < init.len() && (#[trigger] init[i] matches Sentence::Rmc(r) && r.valid);
            assert(init[i] == ss[i]);
        }
        if fix_after(FixType::NoFix, ss) != FixType::NoFix && !(ss.last() matches Sentence::Gga(_)) {
            let i = choose|i: int|
                0 <= i < init.len() && (#[trigger] init[i] matches Sentence::Gga(g) && g.fix
                    != FixType::NoFix);
            assert(init[i] == ss[i]);
        }
        if mode_after(FixMode::NoFix, ss) != FixMode::NoFix && !(ss.last() matches Sentence::Gsa(_)) {
            let i = choose|i: int|
                0 <= i < init.len() && (#[trigger] init[i] matches Sentence::Gsa(a) && a.fix
                    != FixMode::NoFix);
            assert(init[i] == ss[i]);
        }
    }
}

/// From the initial record, whatever sentences are merged and in whatever
/// order, the fix is valid exactly when the latest recommended-minimum
/// sentence reports a valid status, the latest fix-data sentence a fix, and
/// the latest dilution-of-precision sentence a fix mode. So the fix is not
/// valid before any sentence, and it is valid only once a sentence of each of
/// the three kinds has reported so.
pub proof fn lemma_fix_valid_after(d: GPS_Data, ss: Seq<Sentence>)
    requires
        is_initial(d),
    ensures
        fix_valid(merged_all(d, ss)) <==> valid_after(false, ss) && fix_after(FixType::NoFix, ss)
            != FixType::NoFix && mode_after(FixMode::NoFix, ss) != FixMode::NoFix,
        !fix_valid(d),
        fix_valid(merged_all(d, ss)) ==> {
            &&& exists|i: int| 0 <= i < ss.len() && (#[trigger] ss[i] matches Sentence::Rmc(r) && r.valid)
            &&& exists|i: int|
                0 <= i < ss.len() && (#[trigger] ss[i] matches Sentence::Gga(g) && g.fix
                    != FixType::NoFix)
            &&& exists|i: int|
                0 <= i < ss.len() && (#[trigger] ss[i] matches Sentence::Gsa(a) && a.fix
                    != FixMode::NoFix)
        },
{
    lemma_merged_all_status(d, ss);
    lemma_status_seen(ss);
}

/// Merging the same sentence twice in a row leaves the record as merging it
/// once does.
pub proof fn lemma_merge_idempotent(d: GPS_Data, s: Sentence)
    ensures
        merged(merged(d, s), s) == merged(d, s),
{
}

impl GPS_Data {
    /// The record before any sentence.
    pub fn new() -> (r: Self)
        ensures
            is_initial(r),
    {
        let r = GPS_Data {
            valid: false,
            date: GPSDate::new(),
            position: Position::new(),
            satellites_used: 0,
            fix: FixType::NoFix,
            time: GPSTime::new(),
            hdop: GPSFloat { int: 0, fract: 0 },
            vdop: GPSFloat { int: 0, fract: 0 },
            pdop: GPSFloat { int: 0, fract: 0 },
            fix_mode: FixMode::NoFix,
            satellite_ids: [0u8; 12],
        };
        assert(r.satellite_ids@ =~= Seq::new(12, |i: int| 0u8));
        r
    }

    /// The receiver's status from the latest recommended-minimum sentence.
    pub fn is_valid(&self) -> (r: bool)
        ensures
            r == self.valid,
    {
        self.valid
    }

    pub fn get_position(&self) -> (r: Position)
        ensures
            r == self.position,
    {
        self.position
    }

    pub fn get_time(&self) -> (r: GPSTime)
        ensures
            r == self.time,
    {
        self.time
    }

    pub fn get_date(&self) -> (r: GPSDate)
        ensures
            r == self.date,
    {
        self.date
    }

    /// Number of satellites used for the fix.
    pub fn satellites_no(&self) -> (r: u8)
        ensures
            r == self.satellites_used,
    {
        self.satellites_used
    }

    pub fn get_fix_type(&self) -> (r: FixType)
        ensures
            r == self.fix,
    {
        self.fix
    }

    pub fn get_fix_mode(&self) -> (r: FixMode)
        ensures
            r == self.fix_mode,
    {
        self.fix_mode
    }

    /// Takes the status and date of a recommended-minimum record.
    pub fn update_rmc(&mut self, data: RMC)
        ensures
            *final(self) == rmc_merged(*old(self), data),
    {
        self.valid = data.valid;
        self.date = data.date;
    }

    /// Takes the position, satellite count, quality and time of a fix-data
    /// record.
    pub fn update_gga(&mut self, data: GGA)
        ensures
            *final(self) == gga_merged(*old(self), data),
    {
        self.position = data.position;
        self.satellites_used = data.satellites_used;
        self.fix = data.fix;
        self.time = data.time;
    }

    /// Takes the dilutions, mode and satellites of a dilution-of-precision
    /// record.
    pub fn update_gsa(&mut self, data: GSA)
        ensures
            *final(self) == gsa_merged(*old(self), data),
    {
        self.hdop = data.hdop;
        self.vdop = data.vdop;
        self.pdop = data.pdop;
        self.fix_mode = data.fix;
        self.satellite_ids = data.satellite_ids;
    }
}

} // verus!
