//! Reception and decoding of NMEA-0183 sentences from a GPS receiver.
//!
//! `line` reassembles frames from bytes received one at a time, `sentence`
//! decodes the time, date, position and fix quality that they carry, `fix`
//! merges the decoded sentences into the current fix, and `driver` ties the
//! three together for an interrupt-driven receiver.

pub mod driver;
pub mod fix;
pub mod line;
pub mod number;
pub mod sentence;
