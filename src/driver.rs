//! The receiver's driver: frames arrive byte by byte from the receive
//! interrupt, and the polling side decodes them into the current fix.
//!
//! The serial peripherals stay with the caller, which hands each received byte
//! to `receive` (and echoes it), and masks reception around its own reads of
//! the fix.
use vstd::prelude::*;
use crate::fix::{fix_valid, is_initial, merged, GPS_Data};
use crate::line::{empty_state, push_spec, release_spec, state_bounded, LineState, MSG};
use crate::sentence::{decode, decodes, split_frame_spec, FixMode, FixType, GPS_Statement, Sentence};

verus! {

/// Driver state: the frame assembler and the current fix.
pub struct NEO6 {
    buffer: MSG,
    gps_data: GPS_Data,
}

impl NEO6 {
    /// The frames received and not yet decoded, and the frame being received.
    pub closed spec fn lines(&self) -> LineState {
        self.buffer@
    }

    /// Size of each half of the frame storage.
    pub closed spec fn half_capacity(&self) -> nat {
        self.buffer.capacity()
    }

    /// The current fix.
    pub closed spec fn fix(&self) -> GPS_Data {
        self.gps_data
    }

    pub closed spec fn wf(&self) -> bool {
        self.buffer.wf()
    }

    /// What holds of the frames of every driver: at most two pending, each
    /// whole and within its half.
    pub proof fn lemma_lines_bounded(&self)
        requires
            self.wf(),
        ensures
            state_bounded(self.lines(), self.half_capacity()),
    {
        self.buffer.lemma_view_bounded();
    }

    /// A driver whose frame storage is `buf`, split in two halves, with no
    /// frame received and the initial fix. Halves under two bytes can hold no
    /// frame, so such a driver never completes one.
    pub fn new(buf: Vec<u8>) -> (r: Self)
        ensures
            r.wf(),
            r.lines() == empty_state(),
            r.half_capacity() == buf@.len() / 2,
            is_initial(r.fix()),
    {
        let buf_len = buf.len();
        NEO6 { buffer: MSG::new(buf, buf_len / 2), gps_data: GPS_Data::new() }
    }

    /// Takes one byte from the receive interrupt.
    pub fn receive(&mut self, byte: u8)
        requires
            old(self).wf(),
        ensures
            final(self).wf(),
            final(self).half_capacity() == old(self).half_capacity(),
            final(self).lines() == push_spec(old(self).lines(), old(self).half_capacity(), byte),
            final(self).fix() == old(self).fix(),
    {
        self.buffer.add(byte);
    }

    /// Decodes the oldest pending frame, if there is one, merges it into the
    /// fix and releases it.
    pub fn parse(&mut self)
        requires
            old(self).wf(),
        ensures
            final(self).wf(),
            final(self).half_capacity() == old(self).half_capacity(),
            final(self).lines() == release_spec(old(self).lines()),
            old(self).lines().frames.len() == 0 ==> final(self).fix() == old(self).fix(),
            old(self).lines().frames.len() > 0 ==> exists|s: Sentence|
                #[trigger] decodes(old(self).lines().frames[0], s) && final(self).fix()
                    == merged(old(self).fix(), s),
    {
        match self.buffer.get_frame() {
            Some(frame) => {
                let s = decode(frame);
                match s {
                    Sentence::Rmc(r) => self.gps_data.update_rmc(r),
                    Sentence::Gga(g) => self.gps_data.update_gga(g),
                    Sentence::Gsa(a) => self.gps_data.update_gsa(a),
                    Sentence::Other => {},
                }
                assert(decodes(old(self).lines().frames[0], s));
                self.buffer.clear();
            },
            None => {},
        }
    }

    /// Whether the fix can be used.
    pub fn data_valid(&self) -> (r: bool)
        ensures
            r == fix_valid(self.fix()),
    {
        self.gps_data.is_valid() && self.gps_data.get_fix_type() != FixType::NoFix
            && self.gps_data.get_fix_mode() != FixMode::NoFix
    }

    /// A copy of the current fix.
    pub fn get_data(&self) -> (r: GPS_Data)
        ensures
            r == self.fix(),
    {
        self.gps_data
    }

    /// The kind and payload of the oldest pending frame; `Other` with an empty
    /// payload when none is pending.
    pub fn get_line(&self) -> (r: (GPS_Statement, &[u8]))
        requires
            self.wf(),
        ensures
            self.lines().frames.len() == 0 ==> r.0 == GPS_Statement::Other && r.1@ == Seq::<
                u8,
            >::empty(),
            self.lines().frames.len() > 0 ==> r.0 == split_frame_spec(self.lines().frames[0]).0
                && r.1@ == split_frame_spec(self.lines().frames[0]).1,
    {
        self.buffer.get_line()
    }

    /// Whether no frame is pending.
    pub fn buffer_is_empty(&self) -> (r: bool)
        requires
            self.wf(),
        ensures
            r == (self.lines().frames.len() == 0),
    {
        self.buffer.is_empty()
    }

    /// Releases the oldest pending frame without decoding it.
    pub fn clear_buffer(&mut self)
        requires
            old(self).wf(),
        ensures
            final(self).wf(),
            final(self).half_capacity() == old(self).half_capacity(),
            final(self).lines() == release_spec(old(self).lines()),
            final(self).fix() == old(self).fix(),
    {
        self.buffer.clear();
    }
}

} // verus!
