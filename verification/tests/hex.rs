use nail::{
    dehex, enhex, has_hex_indicator, hex_ascii_to_integer, is_decimal_token, is_hex_token,
    to_decimal_chars, to_hex_chars,
};

#[test]
fn convert_to_hex() {
    assert_eq!("0x9fbf1", to_hex_chars(654321))
}

#[test]
fn convert_from_hex() {
    assert_eq!("654321", to_decimal_chars(&"9fbf1".to_string()))
}

#[test]
fn convert_from_hex_with_leading_zero() {
    assert_eq!("654321", to_decimal_chars(&"09fbf1".to_string()))
}

#[test]
fn convert_from_hex_with_leading_zero_and_hex_indicator() {
    assert_eq!("654321", to_decimal_chars(&"0x09fbf1".to_string()))
}

#[test]
fn convert_zero_and_the_largest_number_to_hex() {
    assert_eq!("0x0", to_hex_chars(0));
    assert_eq!("0xf", to_hex_chars(15));
    assert_eq!("0x10", to_hex_chars(16));
    assert_eq!("0xffffffffffffffff", to_hex_chars(u64::MAX));
}

#[test]
fn convert_from_hex_in_either_case() {
    assert_eq!("11259375", to_decimal_chars(&"ABCDEF".to_string()));
    assert_eq!("11259375", to_decimal_chars(&"0xabcdef".to_string()));
    assert_eq!("18446744073709551615", to_decimal_chars(&"0xFFFFffffFFFFffff".to_string()));
    assert_eq!("0", to_decimal_chars(&"0".to_string()));
    assert_eq!("0", to_decimal_chars(&"0x".to_string()));
    assert_eq!("0", to_decimal_chars(&"".to_string()));
}

#[test]
fn indicator_is_a_zero_and_a_lowercase_x() {
    assert!(has_hex_indicator("0x".as_bytes()));
    assert!(has_hex_indicator("0x1f".as_bytes()));
    assert!(!has_hex_indicator("0X1f".as_bytes()));
    assert!(!has_hex_indicator("1x".as_bytes()));
    assert!(!has_hex_indicator("0".as_bytes()));
    assert!(!has_hex_indicator("".as_bytes()));
}

#[test]
fn hex_ascii_to_integer_reads_base_sixteen_and_empties_the_accumulator() {
    let mut accumulator = "9fbf1".as_bytes().to_vec();
    assert_eq!(654321, hex_ascii_to_integer(&mut accumulator));
    assert!(accumulator.is_empty());

    let mut accumulator = "00Ff".as_bytes().to_vec();
    assert_eq!(255, hex_ascii_to_integer(&mut accumulator));

    let mut accumulator = Vec::new();
    assert_eq!(0, hex_ascii_to_integer(&mut accumulator));
}

#[test]
fn decimal_tokens_are_digits_that_fit() {
    assert!(is_decimal_token(&"654321".to_string()));
    assert!(is_decimal_token(&"".to_string()));
    assert!(is_decimal_token(&"18446744073709551615".to_string()));
    assert!(is_decimal_token(&"00000000000000000000000000000001".to_string()));
    assert!(!is_decimal_token(&"18446744073709551616".to_string()));
    assert!(!is_decimal_token(&"99999999999999999999".to_string()));
    assert!(!is_decimal_token(&"12a".to_string()));
    assert!(!is_decimal_token(&"-12".to_string()));
    assert!(!is_decimal_token(&"1 2".to_string()));
    assert!(!is_decimal_token(&"١٢".to_string()));
}

#[test]
fn hex_tokens_are_hex_digits_that_fit() {
    assert!(is_hex_token(&"9fbf1".to_string()));
    assert!(is_hex_token(&"0x9FBF1".to_string()));
    assert!(is_hex_token(&"".to_string()));
    assert!(is_hex_token(&"0x".to_string()));
    assert!(is_hex_token(&"ffffffffffffffff".to_string()));
    assert!(is_hex_token(&"0x0000ffffffffffffffff".to_string()));
    assert!(!is_hex_token(&"10000000000000000".to_string()));
    assert!(!is_hex_token(&"0x10000000000000000".to_string()));
    assert!(!is_hex_token(&"0xg".to_string()));
    assert!(!is_hex_token(&"x1".to_string()));
    assert!(!is_hex_token(&"0X1f".to_string()));
    assert!(!is_hex_token(&"1f ".to_string()));
}

#[test]
fn enhex_gives_one_line_for_each_token() {
    let tokens = ["654321".to_string(), "0".to_string(), "255".to_string()];
    assert_eq!(vec!["0x9fbf1", "0x0", "0xff"], enhex(&tokens));
    assert!(enhex(&[]).is_empty());
}

#[test]
fn dehex_gives_one_line_for_each_token() {
    let tokens = ["9fbf1".to_string(), "0x0".to_string(), "0xFF".to_string()];
    assert_eq!(vec!["654321", "0", "255"], dehex(&tokens));
    assert!(dehex(&[]).is_empty());
}
