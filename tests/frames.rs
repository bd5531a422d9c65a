use neo6_gps::line::MSG;
use neo6_gps::sentence::GPS_Statement;

const RMC_FRAME: &[u8] = b"$GPRMC,123519,A,4807.038,N,01131.000,E,022.4,084.4,230394,003.1,W*6A\n";
const GGA_FRAME: &[u8] = b"$GPGGA,123519,4807.038,N,01131.000,E,1,08,0.9,545.4,M,46.9,M,,*47\n";
const GSA_FRAME: &[u8] = b"$GPGSA,A,3,04,05,,09,12,,,24,,,,,2.5,1.3,2.1*39\n";

fn assembler(cap: usize) -> MSG {
    MSG::new(vec![0u8; 2 * cap], cap)
}

fn feed(m: &mut MSG, bytes: &[u8]) {
    for b in bytes {
        m.add(*b);
    }
}

#[test]
fn starts_empty() {
    let m = assembler(100);
    assert!(m.is_empty());
    assert!(!m.is_full());
    assert_eq!(m.get_frame(), None);
    let (kind, rest) = m.get_line();
    assert_eq!(kind, GPS_Statement::Other);
    assert!(rest.is_empty());
}

#[test]
fn one_frame_is_kept_whole() {
    let mut m = assembler(100);
    feed(&mut m, RMC_FRAME);
    assert!(!m.is_empty());
    assert!(!m.is_full());
    assert_eq!(m.get_frame(), Some(RMC_FRAME));
    let (kind, rest) = m.get_line();
    assert_eq!(kind, GPS_Statement::GPRMC);
    assert_eq!(rest, &RMC_FRAME[7..]);
}

#[test]
fn bytes_outside_a_frame_are_ignored() {
    let mut m = assembler(100);
    feed(&mut m, b"noise\n,,\n");
    assert!(m.is_empty());
    feed(&mut m, b"xx");
    feed(&mut m, GGA_FRAME);
    assert_eq!(m.get_frame(), Some(GGA_FRAME));
}

#[test]
fn two_frames_come_out_oldest_first() {
    let mut m = assembler(100);
    feed(&mut m, RMC_FRAME);
    feed(&mut m, GGA_FRAME);
    assert!(m.is_full());
    assert_eq!(m.get_frame(), Some(RMC_FRAME));
    m.clear();
    assert!(!m.is_full());
    assert_eq!(m.get_frame(), Some(GGA_FRAME));
    m.clear();
    assert!(m.is_empty());
}

#[test]
fn frame_start_resyncs_a_partial_frame() {
    let mut m = assembler(100);
    feed(&mut m, b"$GPabc");
    feed(&mut m, RMC_FRAME);
    assert!(!m.is_full());
    assert_eq!(m.get_frame(), Some(RMC_FRAME));
    m.clear();
    assert!(m.is_empty());
}

#[test]
fn third_frame_start_loses_the_oldest() {
    let mut m = assembler(100);
    feed(&mut m, RMC_FRAME);
    feed(&mut m, GGA_FRAME);
    assert!(m.is_full());
    m.add(b'$');
    assert!(!m.is_full());
    assert_eq!(m.get_frame(), Some(GGA_FRAME));
    feed(&mut m, &GSA_FRAME[1..]);
    assert!(m.is_full());
    assert_eq!(m.get_frame(), Some(GGA_FRAME));
    m.clear();
    assert_eq!(m.get_frame(), Some(GSA_FRAME));
    m.clear();
    assert!(m.is_empty());
}

#[test]
fn bytes_are_ignored_while_full_and_not_capturing() {
    let mut m = assembler(100);
    feed(&mut m, RMC_FRAME);
    feed(&mut m, GGA_FRAME);
    feed(&mut m, b"abc\n");
    assert!(m.is_full());
    assert_eq!(m.get_frame(), Some(RMC_FRAME));
}

#[test]
fn long_frame_is_truncated_and_keeps_its_end() {
    let mut m = assembler(8);
    feed(&mut m, b"$GPRMC,123519,A\n");
    assert_eq!(m.get_frame(), Some(&b"$GPRMC,\n"[..]));
    m.clear();
    feed(&mut m, b"$GPGGA,1\n");
    assert_eq!(m.get_frame(), Some(&b"$GPGGA,\n"[..]));
    m.clear();
    feed(&mut m, b"$GP,12\n");
    assert_eq!(m.get_frame(), Some(&b"$GP,12\n"[..]));
}

#[test]
fn smallest_halves_hold_start_and_end() {
    let mut m = assembler(2);
    feed(&mut m, b"$abc\n$\n");
    assert!(m.is_full());
    assert_eq!(m.get_frame(), Some(&b"$\n"[..]));
}

#[test]
fn clear_with_nothing_pending_does_nothing() {
    let mut m = assembler(100);
    m.clear();
    assert!(m.is_empty());
    feed(&mut m, RMC_FRAME);
    m.clear();
    m.clear();
    assert!(m.is_empty());
    feed(&mut m, GGA_FRAME);
    assert_eq!(m.get_frame(), Some(GGA_FRAME));
}

#[test]
fn larger_buffer_uses_only_its_halves() {
    let mut m = MSG::new(vec![7u8; 201], 100);
    feed(&mut m, RMC_FRAME);
    feed(&mut m, GGA_FRAME);
    assert_eq!(m.get_frame(), Some(RMC_FRAME));
}

#[test]
fn halves_too_small_never_complete_a_frame() {
    for cap in 0..2 {
        let mut m = assembler(cap);
        assert!(m.is_empty());
        assert!(!m.is_full());
        assert_eq!(m.get_line().0, GPS_Statement::Other);
        feed(&mut m, b"$\n$A\n\n$");
        assert!(m.is_empty());
        assert_eq!(m.get_frame(), None);
    }
}
