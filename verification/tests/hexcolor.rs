use labui::hexcolor::{format_hex_rgb, hex_pairs_split_cleanly, parse_hex_pair, parse_hex_rgb};

#[test]
fn parses_upper_and_lower_case() {
    assert_eq!(parse_hex_rgb("#007AFF"), Ok((0, 122, 255)));
    assert_eq!(parse_hex_rgb("#787880"), Ok((120, 120, 128)));
    assert_eq!(parse_hex_rgb("#ff3b30"), Ok((255, 59, 48)));
}

#[test]
fn hash_signs_are_optional_and_repeatable() {
    assert_eq!(parse_hex_rgb("101012"), Ok((16, 16, 18)));
    assert_eq!(parse_hex_rgb("###101012"), Ok((16, 16, 18)));
}

#[test]
fn a_sign_is_not_a_digit() {
    assert_eq!(
        parse_hex_rgb("#+F+0+a"),
        Err("invalid hex '+F': invalid digit found in string".to_string())
    );
    assert_eq!(
        parse_hex_rgb("#00+F00"),
        Err("invalid hex '+F': invalid digit found in string".to_string())
    );
}

#[test]
fn parse_rejects_short_code() {
    assert_eq!(
        parse_hex_rgb("#fff"),
        Err("expected #RRGGBB, got #fff".to_string())
    );
}

#[test]
fn parse_rejects_malformed_digits() {
    assert_eq!(
        parse_hex_rgb("#GGGGGG"),
        Err("invalid hex 'GG': invalid digit found in string".to_string())
    );
    assert_eq!(
        parse_hex_rgb("#00GG00"),
        Err("invalid hex 'GG': invalid digit found in string".to_string())
    );
    assert_eq!(
        parse_hex_rgb("#0000-1"),
        Err("invalid hex '-1': invalid digit found in string".to_string())
    );
}

#[test]
fn a_non_ascii_pair_is_an_invalid_digit() {
    // "é" takes two bytes, so the code is six bytes long.
    assert!(hex_pairs_split_cleanly("#é0000"));
    assert_eq!(
        parse_hex_rgb("#é0000"),
        Err("invalid hex 'é': invalid digit found in string".to_string())
    );
    assert!(hex_pairs_split_cleanly("#abcdé"));
    assert_eq!(
        parse_hex_rgb("#abcdé"),
        Err("invalid hex 'é': invalid digit found in string".to_string())
    );
}

#[test]
fn cutting_a_character_is_detected() {
    // 'a', then "é" across bytes 1 and 2: the first cut falls inside it.
    assert!(!hex_pairs_split_cleanly("#aébcd"));
    // Six-byte codes of ASCII characters always split cleanly.
    assert!(hex_pairs_split_cleanly("#123456"));
    // Codes of another length are never cut.
    assert!(hex_pairs_split_cleanly("#ééé"));
}

#[test]
fn formats_upper_case_with_hash() {
    assert_eq!(format_hex_rgb(0, 122, 255), "#007AFF");
    assert_eq!(format_hex_rgb(16, 16, 18), "#101012");
    assert_eq!(format_hex_rgb(255, 255, 255), "#FFFFFF");
    assert_eq!(format_hex_rgb(0, 0, 0), "#000000");
}

#[test]
fn format_then_parse_round_trips() {
    for &(r, g, b) in &[(0u8, 0u8, 0u8), (1, 2, 3), (171, 205, 239), (255, 255, 255), (16, 128, 250)] {
        assert_eq!(parse_hex_rgb(&format_hex_rgb(r, g, b)), Ok((r, g, b)));
    }
}

#[test]
fn parse_then_format_normalises_case() {
    let (r, g, b) = parse_hex_rgb("#abcdef").unwrap();
    assert_eq!(format_hex_rgb(r, g, b), "#ABCDEF");
    let (r, g, b) = parse_hex_rgb("##787880").unwrap();
    assert_eq!(format_hex_rgb(r, g, b), "#787880");
}

#[test]
fn pair_reads_two_hex_digits() {
    assert_eq!(parse_hex_pair("FF"), Some(255));
    assert_eq!(parse_hex_pair("0a"), Some(10));
    assert_eq!(parse_hex_pair("7f"), Some(127));
}

#[test]
fn pair_rejects_anything_else() {
    assert_eq!(parse_hex_pair(""), None);
    assert_eq!(parse_hex_pair("7"), None);
    assert_eq!(parse_hex_pair("+F"), None);
    assert_eq!(parse_hex_pair("-1"), None);
    assert_eq!(parse_hex_pair("100"), None);
    assert_eq!(parse_hex_pair("g0"), None);
}
