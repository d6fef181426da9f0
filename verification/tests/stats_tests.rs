use memstress::stats::{
    parse_counter, parse_free, parse_peak_value, parse_zswap, u8_percent, PercentError,
    StatsError,
};

const FREE_OUTPUT: &str = "               total        used        free      shared  buff/cache   available\n\
Mem:     16384000000  4000000000  2000000000   100000000 10384000000  8192000000\n\
Swap:     2048000000           0  2048000000\n";

#[test]
fn parse_free_reads_all_fields() {
    let stats = parse_free(FREE_OUTPUT).expect("parse failed");
    assert_eq!(stats.mem_total, 16_384_000_000);
    assert_eq!(stats.mem_available, 8_192_000_000);
    assert_eq!(stats.swap_total, 2_048_000_000);
    assert_eq!(stats.swap_available, 2_048_000_000);
}

#[test]
fn parse_free_without_swap_line() {
    let txt = "header\nMem: 100 40 10 1 50 60\n";
    let stats = parse_free(txt).expect("parse failed");
    assert_eq!(stats.mem_total, 100);
    assert_eq!(stats.mem_available, 60);
    assert_eq!(stats.swap_total, 0);
    assert_eq!(stats.swap_available, 0);
}

#[test]
fn parse_free_ignores_malformed_swap_numbers() {
    let txt = "header\nMem: 100 40 10 1 50 60\nSwap: oops 0 broken\n";
    let stats = parse_free(txt).expect("parse failed");
    assert_eq!(stats.swap_total, 0);
    assert_eq!(stats.swap_available, 0);
}

#[test]
fn parse_free_requires_a_memory_line() {
    assert!(matches!(parse_free(""), Err(StatsError::MissingMemLine)));
    assert!(matches!(
        parse_free("only a header, no newline"),
        Err(StatsError::MissingMemLine)
    ));
}

#[test]
fn parse_free_requires_a_second_column() {
    assert!(matches!(
        parse_free("header\nMem:\n"),
        Err(StatsError::MissingMemTotal)
    ));
}

#[test]
fn parse_free_rejects_bad_numbers() {
    assert!(matches!(
        parse_free("header\nMem: notanumber 60\n"),
        Err(StatsError::BadNumber)
    ));
}

#[test]
fn parse_counter_trims_whitespace() {
    assert_eq!(parse_counter("123\n"), Some(123));
    assert_eq!(parse_counter("  456  "), Some(456));
    assert_eq!(parse_counter("789"), Some(789));
    assert_eq!(parse_counter("12 34"), None);
    assert_eq!(parse_counter("abc"), None);
}

#[test]
fn parse_zswap_packs_three_counters() {
    let z = parse_zswap("10\n", " 20 ", "30").expect("parse failed");
    assert_eq!(z.written_back, 10);
    assert_eq!(z.rejects, 20);
    assert_eq!(z.pool_size, 30);
}

#[test]
fn parse_zswap_fails_on_any_bad_counter() {
    assert!(parse_zswap("x", "20", "30").is_err());
    assert!(parse_zswap("10", "x", "30").is_err());
    assert!(parse_zswap("10", "20", "x").is_err());
}

#[test]
fn u8_percent_accepts_percentages() {
    assert_eq!(u8_percent("0"), Ok(0));
    assert_eq!(u8_percent("50"), Ok(50));
    assert_eq!(u8_percent("100"), Ok(100));
}

#[test]
fn u8_percent_rejects_out_of_range() {
    assert_eq!(u8_percent("101"), Err(PercentError::OverLimit));
    assert_eq!(u8_percent("255"), Err(PercentError::OverLimit));
    assert_eq!(u8_percent("256"), Err(PercentError::NotANumber));
    assert_eq!(u8_percent("abc"), Err(PercentError::NotANumber));
    assert_eq!(u8_percent(""), Err(PercentError::NotANumber));
}

#[test]
fn peak_value_is_first_field() {
    assert_eq!(parse_peak_value("123 456 789"), Some(123));
    assert_eq!(parse_peak_value("42"), Some(42));
    assert_eq!(parse_peak_value("x 42"), None);
}
