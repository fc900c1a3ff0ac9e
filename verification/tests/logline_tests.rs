use backend::logline::{dec_bytes, jobnum_label, log_line, log_line_now};

#[test]
fn decimal_digits() {
    assert_eq!(dec_bytes(0), b"0".to_vec());
    assert_eq!(dec_bytes(7), b"7".to_vec());
    assert_eq!(dec_bytes(10), b"10".to_vec());
    assert_eq!(dec_bytes(409), b"409".to_vec());
    assert_eq!(dec_bytes(usize::MAX), b"18446744073709551615".to_vec());
}

#[test]
fn job_attribution() {
    assert_eq!(jobnum_label(0), b"Main".to_vec());
    assert_eq!(jobnum_label(1), b"1".to_vec());
    assert_eq!(jobnum_label(123), b"123".to_vec());
}

#[test]
fn info_line() {
    let line = log_line(b"01/02/03 04:05:06", b"Starting server", false, 0);
    assert_eq!(line, b"[II] - 01/02/03 04:05:06 - Main - Starting server".to_vec());
}

#[test]
fn error_line_with_jobnum() {
    let line = log_line(b"31/12/99 23:59:59", b"File not found", true, 42);
    assert_eq!(line, b"[EE] - 31/12/99 23:59:59 - 42 - File not found".to_vec());
}

#[test]
fn stamped_line_has_a_17_byte_timestamp() {
    let line = log_line_now(b"x", false, 0);
    // [II], three separators, 17 bytes of clock, `Main`, and the message
    assert_eq!(line.len(), 4 + 3 + 17 + 3 + 4 + 3 + 1);
    assert_eq!(&line[..7], b"[II] - ");
    assert_eq!(&line[line.len() - 11..], b" - Main - x");
    // the timestamp really comes from the clock: both date separators in place
    assert_eq!(line[9], b'/');
    assert_eq!(line[12], b'/');
}
