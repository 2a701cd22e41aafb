use rstrf::strf_header::{
    block_count, channel_window, parse_header, parse_header_text, ChannelWindow, HeaderError,
    HEADER_SIZE,
};

fn padded(text: &str) -> Vec<u8> {
    let mut bytes = text.as_bytes().to_vec();
    bytes.resize(HEADER_SIZE, 0);
    bytes
}

const WITH_NSUB: &str = "HEADER\nUTC_START    2024-01-01T00:00:00.000\nFREQ         437000000 Hz\nBW           100000 Hz\nLENGTH       1 s\nNCHAN        16\nNSUB         10\nEND\n";

#[test]
fn header_with_nsub_line() {
    let f = parse_header(&padded(WITH_NSUB)).unwrap();
    assert_eq!(f.utc_start, "2024-01-01T00:00:00.000");
    assert_eq!((f.start_secs, f.start_nanos), (1704067200, 0));
    assert_eq!(f.freq, "437000000");
    assert_eq!(f.bw, "100000");
    assert_eq!(f.length, "1");
    assert_eq!(f.nchan, Some(16));
}

#[test]
fn header_without_nsub_line() {
    let text = "HEADER\nUTC_START 2024-06-15T12:30:00.500\nFREQ 145.9e0 Hz\nBW 50000.5 Hz\nLENGTH 0.25 s\nNCHAN 4096\nEND\n";
    let text = text.replace("145.9e0", "145900000.0");
    let f = parse_header(&padded(&text)).unwrap();
    assert_eq!(f.utc_start, "2024-06-15T12:30:00.500");
    assert_eq!((f.start_secs, f.start_nanos), (1718454600, 500_000_000));
    assert_eq!(f.freq, "145900000.0");
    assert_eq!(f.bw, "50000.5");
    assert_eq!(f.length, "0.25");
    assert_eq!(f.nchan, Some(4096));
}

#[test]
fn header_with_leading_text_is_found() {
    let text = format!("garbage HEADER x {}", WITH_NSUB);
    let f = parse_header_text(&text).unwrap();
    assert_eq!(f.nchan, Some(16));
    assert_eq!(f.freq, "437000000");
}

#[test]
fn header_errors() {
    assert_eq!(parse_header(&[0xff, 0xfe, 0x00]), Err(HeaderError::InvalidUtf8));
    assert_eq!(parse_header(&padded("HEADER\nEND\n")), Err(HeaderError::IncorrectFormat));
    assert_eq!(parse_header(&[0u8; HEADER_SIZE]), Err(HeaderError::IncorrectFormat));
    // frequency with an exponent does not fit [0-9.]+ followed by whitespace
    let bad_freq = WITH_NSUB.replace("437000000", "4.37e8");
    assert_eq!(parse_header(&padded(&bad_freq)), Err(HeaderError::IncorrectFormat));
    // a channel count beyond usize
    let huge = WITH_NSUB.replace("NCHAN        16", "NCHAN        999999999999999999999999");
    assert_eq!(parse_header(&padded(&huge)).unwrap().nchan, None);
    // Arabic-Indic digits are decimal digits, but not a usize
    let arabic = WITH_NSUB.replace("NCHAN        16", "NCHAN        \u{661}\u{666}");
    assert_eq!(parse_header_text(&arabic).unwrap().nchan, None);
    // the start time is read before the channel count: a bad start time is reported first
    let bad_time = huge.replace("2024-01-01T00:00:00.000", "2024-13-01T00:00:00.000");
    assert_eq!(parse_header(&padded(&bad_time)), Err(HeaderError::InvalidStartTime));
    let zoned = WITH_NSUB.replace("00:00:00.000", "00:00:00.000+01:00");
    assert_eq!(parse_header_text(&zoned), Err(HeaderError::InvalidStartTime));
}

#[test]
fn nsub_accepts_any_decimal_digits() {
    let text = WITH_NSUB.replace("NSUB         10", "NSUB         \u{661}\u{660}");
    assert_eq!(parse_header_text(&text).unwrap().nchan, Some(16));
}

#[test]
fn unit_mismatch_is_rejected() {
    let text = WITH_NSUB.replace("100000 Hz", "100000 kHz");
    assert_eq!(parse_header_text(&text), Err(HeaderError::IncorrectFormat));
}

#[test]
fn block_count_counts_whole_blocks() {
    // 10 channels: 256 header bytes + 40 sample bytes per block
    assert_eq!(block_count(296 * 3, 10), 3);
    assert_eq!(block_count(296 * 3 + 295, 10), 3);
    assert_eq!(block_count(0, 10), 0);
    assert_eq!(block_count(HEADER_SIZE, 0), 1);
}

#[test]
fn channel_window_skips_the_channels_outside_the_range() {
    assert_eq!(
        channel_window(10, 0, 10),
        ChannelWindow { nchan: 10, skip_before: 0, skip_after: 0 }
    );
    assert_eq!(
        channel_window(10, 0, 5),
        ChannelWindow { nchan: 5, skip_before: 0, skip_after: 20 }
    );
    assert_eq!(
        channel_window(10, 5, 10),
        ChannelWindow { nchan: 5, skip_before: 20, skip_after: 0 }
    );
    assert_eq!(
        channel_window(10, 3, 7),
        ChannelWindow { nchan: 4, skip_before: 12, skip_after: 12 }
    );
    assert_eq!(channel_window(10, 10, 10).nchan, 0);
    assert_eq!(channel_window(10, 0, 0).nchan, 0);
}
