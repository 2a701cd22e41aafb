use rstrf::strf_header::{parse_header, parse_header_text, HEADER_SIZE};
use rstrf::strf_write::{decimal_string, format_header, header_start_from_rfc3339, header_start_text};

#[test]
fn decimal_string_matches_to_string() {
    for n in [0usize, 7, 10, 99, 100, 4096, 123456789, usize::MAX] {
        assert_eq!(decimal_string(n), n.to_string());
    }
}

#[test]
fn header_has_the_strf_layout_padded_to_256() {
    let h = format_header("2024-06-15T12:30:00.000", "437000000", "100000", "1", 16, 10);
    let body = "HEADER\nUTC_START    2024-06-15T12:30:00.000\nFREQ         437000000 Hz\nBW           100000 Hz\nLENGTH       1 s\nNCHAN        16\nNSUB         10\nEND\n";
    assert!(h.starts_with(body));
    assert_eq!(h.chars().count(), 256);
    assert!(h[body.len()..].chars().all(|c| c == ' '));
}

#[test]
fn written_header_reads_back() {
    let h = format_header("2024-01-01T00:00:00.500", "145900000.5", "2400.25", "0.99", 4096, 3);
    let f = parse_header_text(&h).unwrap();
    assert_eq!(f.utc_start, "2024-01-01T00:00:00.500");
    assert_eq!((f.start_secs, f.start_nanos), (1704067200, 500_000_000));
    assert_eq!(f.freq, "145900000.5");
    assert_eq!(f.bw, "2400.25");
    assert_eq!(f.length, "0.99");
    assert_eq!(f.nchan, Some(4096));
    assert_eq!(h.len(), HEADER_SIZE);
    assert_eq!(parse_header(h.as_bytes()).unwrap(), f);
}

#[test]
fn start_time_is_written_to_milliseconds_without_zone() {
    assert_eq!(header_start_text(1718454600, 0).as_deref(), Some("2024-06-15T12:30:00.000"));
    assert_eq!(header_start_text(1704067200, 500_123_456).as_deref(), Some("2024-01-01T00:00:00.500"));
    assert_eq!(header_start_text(i64::MAX, 0), None);
    assert_eq!(header_start_from_rfc3339("2024-01-01T00:00:00.000Z"), "2024-01-01T00:00:00.000");
    assert_eq!(header_start_from_rfc3339(""), "");
}

#[test]
fn written_start_time_reads_back() {
    let start = header_start_text(1718454600, 250_000_000).unwrap();
    let h = format_header(&start, "437000000", "100000", "1", 16, 1);
    let f = parse_header_text(&h).unwrap();
    assert_eq!((f.start_secs, f.start_nanos), (1718454600, 250_000_000));
}
