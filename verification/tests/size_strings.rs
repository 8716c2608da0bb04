use rdd::error::RddError;
use rdd::size::{decimal_text, parse_normalized_size, parse_size};

fn config_text(r: Result<usize, RddError>) -> String {
    match r {
        Err(RddError::Config(text)) => text,
        other => panic!("expected a configuration error, got {:?}", other),
    }
}

#[test]
fn two_gibibytes() {
    assert_eq!(parse_size("2G").unwrap(), 2_147_483_648);
}

#[test]
fn far_too_many_tebibytes_overflow() {
    assert_eq!(
        config_text(parse_size("999999999999T")),
        "Size value '999999999999T' is too large and would overflow."
    );
}

#[test]
fn plain_bytes() {
    assert_eq!(parse_size("512").unwrap(), 512);
    assert_eq!(parse_size("0").unwrap(), 0);
    assert_eq!(parse_size("007").unwrap(), 7);
}

#[test]
fn every_suffix_in_either_case() {
    assert_eq!(parse_size("4k").unwrap(), 4096);
    assert_eq!(parse_size("4K").unwrap(), 4096);
    assert_eq!(parse_size("4kb").unwrap(), 4096);
    assert_eq!(parse_size("4Kb").unwrap(), 4096);
    assert_eq!(parse_size("4KB").unwrap(), 4096);
    assert_eq!(parse_size("128M").unwrap(), 128 * 1024 * 1024);
    assert_eq!(parse_size("128mb").unwrap(), 128 * 1024 * 1024);
    assert_eq!(parse_size("3g").unwrap(), 3 * 1024 * 1024 * 1024);
    assert_eq!(parse_size("3GB").unwrap(), 3 * 1024 * 1024 * 1024);
    assert_eq!(parse_size("1t").unwrap(), 1024 * 1024 * 1024 * 1024);
    assert_eq!(parse_size("1TB").unwrap(), 1024 * 1024 * 1024 * 1024);
}

#[test]
fn surrounding_whitespace_is_dropped() {
    assert_eq!(parse_size("  512k\t\n").unwrap(), 512 * 1024);
    assert_eq!(parse_size("\u{3000}8\u{a0}").unwrap(), 8);
}

#[test]
fn kelvin_sign_lowers_to_k() {
    assert_eq!(parse_size("4\u{212a}").unwrap(), 4096);
}

#[test]
fn empty_and_blank_strings() {
    assert_eq!(config_text(parse_size("")), "Size string cannot be empty.");
    assert_eq!(config_text(parse_size("   ")), "Size string cannot be empty.");
}

#[test]
fn missing_or_oversized_number() {
    assert_eq!(config_text(parse_size("k")), "Invalid numeric value in size: 'k'");
    assert_eq!(config_text(parse_size(" -5 ")), "Invalid numeric value in size: '-5'");
    assert_eq!(config_text(parse_size("+5")), "Invalid numeric value in size: '+5'");
    assert_eq!(
        config_text(parse_size("18446744073709551616")),
        "Invalid numeric value in size: '18446744073709551616'"
    );
    assert_eq!(
        config_text(parse_size("99999999999999999999999x")),
        "Invalid numeric value in size: '99999999999999999999999x'"
    );
}

#[test]
fn largest_number_of_64_bits() {
    assert_eq!(parse_size("18446744073709551615").unwrap() as u64, u64::MAX);
}

#[test]
fn unknown_suffixes_are_shown_in_lower_case() {
    assert_eq!(config_text(parse_size("5X")), "Unknown size suffix: 'x'");
    assert_eq!(config_text(parse_size("5 k")), "Unknown size suffix: ' k'");
    assert_eq!(config_text(parse_size("5kib")), "Unknown size suffix: 'kib'");
    assert_eq!(config_text(parse_size("5KX")), "Unknown size suffix: 'kx'");
    assert_eq!(config_text(parse_size("5b")), "Unknown size suffix: 'b'");
    assert_eq!(config_text(parse_size("12\u{c9}")), "Unknown size suffix: '\u{e9}'");
    assert_eq!(config_text(parse_size("1.5k")), "Unknown size suffix: '.5k'");
    assert_eq!(config_text(parse_size("5k5")), "Unknown size suffix: 'k5'");
}

#[test]
fn product_beyond_64_bits() {
    assert_eq!(
        config_text(parse_size("16777216T")),
        "Size value '16777216T' is too large and would overflow."
    );
    assert_eq!(parse_size("16777215T").unwrap() as u64, 16_777_215u64 << 40);
}

#[test]
fn normalized_parser_reads_the_lowered_text_and_shows_the_other() {
    assert_eq!(parse_normalized_size("2G", "2g").unwrap(), 2_147_483_648);
    assert_eq!(
        config_text(parse_normalized_size("shown", "lowered")),
        "Invalid numeric value in size: 'shown'"
    );
    // Nothing is lowered here: an upper-case suffix is no suffix.
    assert_eq!(config_text(parse_normalized_size("2G", "2G")), "Unknown size suffix: 'G'");
    assert_eq!(config_text(parse_normalized_size("", "")), "Invalid numeric value in size: ''");
}

#[test]
fn decimal_writing() {
    assert_eq!(decimal_text(0), "0");
    assert_eq!(decimal_text(7), "7");
    assert_eq!(decimal_text(10), "10");
    assert_eq!(decimal_text(4096), "4096");
    assert_eq!(decimal_text(u64::MAX), "18446744073709551615");
}

#[test]
fn written_sizes_read_back() {
    for (suffix, factor) in [("", 1u64), ("k", 1 << 10), ("MB", 1 << 20), ("g", 1 << 30), ("Tb", 1 << 40)] {
        for n in [0u64, 1, 9, 10, 99, 1000, 4095, 65_536] {
            let mut text = decimal_text(n);
            text.push_str(suffix);
            assert_eq!(parse_size(&text).unwrap() as u64, n * factor);
        }
    }
}
