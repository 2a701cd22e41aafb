use rstrf::catalog::{parse_frequency_line, FrequencyEntry, FrequencyLineError};

#[test]
fn frequency_lines() {
    assert_eq!(
        parse_frequency_line("  25544 437.800  "),
        Ok(Some(FrequencyEntry { norad_id: 25544, freq_mhz: "437.800".into() }))
    );
    assert_eq!(
        parse_frequency_line("5\t145.9"),
        Ok(Some(FrequencyEntry { norad_id: 5, freq_mhz: "145.9".into() }))
    );
    assert_eq!(
        parse_frequency_line("+7 1"),
        Ok(Some(FrequencyEntry { norad_id: 7, freq_mhz: "1".into() }))
    );
}

#[test]
fn blank_and_comment_lines_are_skipped() {
    assert_eq!(parse_frequency_line(""), Ok(None));
    assert_eq!(parse_frequency_line("   \t "), Ok(None));
    assert_eq!(parse_frequency_line("# id freq"), Ok(None));
    assert_eq!(parse_frequency_line("   # indented comment"), Ok(None));
}

#[test]
fn malformed_lines_are_errors() {
    assert_eq!(parse_frequency_line("25544"), Err(FrequencyLineError::ColumnCount(1)));
    assert_eq!(parse_frequency_line("1 2 3"), Err(FrequencyLineError::ColumnCount(3)));
    assert_eq!(parse_frequency_line("ISS 437.8"), Err(FrequencyLineError::InvalidNoradId));
    assert_eq!(parse_frequency_line("-5 437.8"), Err(FrequencyLineError::InvalidNoradId));
    assert_eq!(parse_frequency_line("+ 437.8"), Err(FrequencyLineError::InvalidNoradId));
    assert_eq!(
        parse_frequency_line("18446744073709551616 437.8"),
        Err(FrequencyLineError::InvalidNoradId)
    );
    assert_eq!(
        parse_frequency_line("18446744073709551615 437.8"),
        Ok(Some(FrequencyEntry { norad_id: u64::MAX, freq_mhz: "437.8".into() }))
    );
}
