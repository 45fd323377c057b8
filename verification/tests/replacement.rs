use nail::{replace_epoch_timestamps, replace_epoch_timestamps_in_buffer};

fn compare_bytes(a: &[u8], b: &[u8]) {
    assert_eq!(
        a.len(),
        b.len(),
        "Input lengths differ: {}, {}",
        a.len(),
        b.len()
    );

    compare_bytes_len(a, b, b.len())
}

fn compare_bytes_len(a: &[u8], b: &[u8], length: usize) {
    for index in 0..length {
        assert_eq!(
            a[index] as char, b[index] as char,
            "Bytes at position {} differ",
            index
        );
    }
}

#[test]
fn replace_valid_timestamp_with_millisecond_precision() {
    let input = "1530216070317a";
    let expected = "[2018-06-28 20:01:10.317 UTC]a";
    let mut input_buffer = Vec::new();
    input_buffer.extend_from_slice(&input.as_bytes());
    let response = replace_epoch_timestamps(&input_buffer, false);

    assert_eq!(0, response.left_over_data);
    compare_bytes(expected.as_bytes(), &response.data);
}

#[test]
fn replace_valid_timestamp_with_second_precision() {
    let input = "1530216070a";
    let expected = "[2018-06-28 20:01:10 UTC]a";
    let mut input_buffer = Vec::new();
    input_buffer.extend_from_slice(&input.as_bytes());
    let response = replace_epoch_timestamps(&input_buffer, false);

    assert_eq!(0, response.left_over_data);
    compare_bytes(expected.as_bytes(), &response.data);
}

#[test]
fn do_not_replace_millisecond_timestamp_at_end_of_input() {
    let input = "1530216070317";
    let expected = "1530216070317";
    let mut input_buffer = Vec::new();
    input_buffer.extend_from_slice(&input.as_bytes());
    let response = replace_epoch_timestamps(&input_buffer, false);

    assert_eq!(13, response.left_over_data);
    compare_bytes(expected.as_bytes(), &response.data);
}

#[test]
fn do_not_replace_second_timestamp_at_end_of_input() {
    let input = "1530216070";
    let expected = "1530216070";
    let mut input_buffer = Vec::new();
    input_buffer.extend_from_slice(&input.as_bytes());
    let response = replace_epoch_timestamps(&input_buffer, false);

    assert_eq!(10, response.left_over_data);
    compare_bytes(expected.as_bytes(), &response.data);
}

#[test]
fn replace_millisecond_timestamp_at_end_of_input() {
    let input = "1530216070317";
    let expected = "[2018-06-28 20:01:10.317 UTC]";
    let mut input_buffer = Vec::new();
    input_buffer.extend_from_slice(&input.as_bytes());
    let response = replace_epoch_timestamps(&input_buffer, true);

    assert_eq!(0, response.left_over_data);
    compare_bytes(expected.as_bytes(), &response.data);
}

#[test]
fn replace_second_timestamp_at_end_of_input() {
    let input = "1530216070";
    let expected = "[2018-06-28 20:01:10 UTC]";
    let mut input_buffer = Vec::new();
    input_buffer.extend_from_slice(&input.as_bytes());
    let response = replace_epoch_timestamps(&input_buffer, true);

    assert_eq!(0, response.left_over_data);
    compare_bytes(expected.as_bytes(), &response.data);
}

#[test]
fn replace_valid_timestamp_with_millisecond_precision_in_place() {
    let input = "prefix1530216070317suffix";
    let expected = "prefix[2018-06-28 20:01:10.317 UTC]suffix";
    let mut input_buffer = Vec::new();
    input_buffer.extend_from_slice(&input.as_bytes());
    let response = replace_epoch_timestamps(&input_buffer, false);

    assert_eq!(0, response.left_over_data);
    compare_bytes(expected.as_bytes(), &response.data);
}

#[test]
fn replace_valid_timestamp_with_second_precision_in_place() {
    let input = "prefix1530216070suffix";
    let expected = "prefix[2018-06-28 20:01:10 UTC]suffix";
    let mut input_buffer = Vec::new();
    input_buffer.extend_from_slice(&input.as_bytes());
    let response = replace_epoch_timestamps(&input_buffer, false);

    assert_eq!(0, response.left_over_data);
    compare_bytes(expected.as_bytes(), &response.data);
}

#[test]
fn replace_multiple_timestamp_with_second_precision() {
    let input = "prefix1530216070middle1530216070suffix";
    let expected = "prefix[2018-06-28 20:01:10 UTC]middle[2018-06-28 20:01:10 UTC]suffix";
    let mut input_buffer = Vec::new();
    input_buffer.extend_from_slice(&input.as_bytes());
    let response = replace_epoch_timestamps(&input_buffer, false);

    assert_eq!(0, response.left_over_data);
    compare_bytes(expected.as_bytes(), &response.data);
}

#[test]
fn replace_multiple_timestamp_with_millisecond_precision() {
    let input = "prefix1530216070317middle1530216070317suffix";
    let expected =
        "prefix[2018-06-28 20:01:10.317 UTC]middle[2018-06-28 20:01:10.317 UTC]suffix";
    let mut input_buffer = Vec::new();
    input_buffer.extend_from_slice(&input.as_bytes());
    let response = replace_epoch_timestamps(&input_buffer, false);

    assert_eq!(0, response.left_over_data);
    compare_bytes(expected.as_bytes(), &response.data);
}

#[test]
fn indicate_trailing_numeric_chars() {
    let input = "prefix15302160";
    let expected = "prefix";
    let mut input_buffer = Vec::new();
    input_buffer.extend_from_slice(&input.as_bytes());
    let response = replace_epoch_timestamps(&input_buffer, false);

    assert_eq!(8, response.left_over_data);
    compare_bytes(expected.as_bytes(), &response.data);
}

fn replaced(input: &str, end_of_input: bool) -> (String, u64) {
    let response = replace_epoch_timestamps(&input.as_bytes().to_vec(), end_of_input);
    (String::from_utf8(response.data).unwrap(), response.left_over_data)
}

#[test]
fn run_of_other_length_stays_verbatim() {
    assert_eq!(("a153021607b".to_string(), 0), replaced("a153021607b", false));
    assert_eq!(("a15302160701b".to_string(), 0), replaced("a15302160701b", false));
    assert_eq!(("a153021607031b".to_string(), 0), replaced("a153021607031b", false));
    assert_eq!(("a15302160703171b".to_string(), 0), replaced("a15302160703171b", false));
    assert_eq!(("7".to_string(), 0), replaced("7", true));
    assert_eq!(("15302160703171".to_string(), 0), replaced("15302160703171", true));
}

#[test]
fn short_runs_do_not_add_up_to_a_timestamp() {
    assert_eq!(("15302a16070b".to_string(), 0), replaced("15302a16070b", false));
    assert_eq!(("15302a16070".to_string(), 0), replaced("15302a16070", true));
}

#[test]
fn run_growing_past_a_timestamp_length_is_not_replaced() {
    assert_eq!(("15302160701 ".to_string(), 0), replaced("15302160701 ", true));
    assert_eq!(("15302160703170 ".to_string(), 0), replaced("15302160703170 ", true));
}

#[test]
fn bytes_that_are_no_digits_stay_in_place() {
    let input: Vec<u8> = vec![0, 255, 47, 58, 10, 13, 91, 93, 32];
    let response = replace_epoch_timestamps(&input, true);
    assert_eq!(input, response.data);
    assert_eq!(0, response.left_over_data);
}

#[test]
fn empty_input_gives_empty_output() {
    assert_eq!((String::new(), 0), replaced("", false));
    assert_eq!((String::new(), 0), replaced("", true));
}

#[test]
fn zero_seconds_is_the_epoch() {
    assert_eq!(("[1970-01-01 00:00:00 UTC]".to_string(), 0), replaced("0000000000", true));
}

#[test]
fn leading_zeros_count_for_nothing() {
    assert_eq!(("[1970-01-01 00:00:07 UTC]".to_string(), 0), replaced("0000000007", true));
    assert_eq!(("[1970-01-01 00:00:01.001 UTC]".to_string(), 0), replaced("0000000001001", true));
}

#[test]
fn whole_second_in_milliseconds_shows_three_zeros() {
    assert_eq!(
        ("[2018-06-28 20:01:10.000 UTC]".to_string(), 0),
        replaced("1530216070000", true)
    );
}

#[test]
fn largest_timestamps_are_rendered() {
    assert_eq!(("[2286-11-20 17:46:39 UTC]".to_string(), 0), replaced("9999999999", true));
    assert_eq!(
        ("[2286-11-20 17:46:39.999 UTC]".to_string(), 0),
        replaced("9999999999999", true)
    );
}

#[test]
fn output_without_timestamps_is_rewritten_to_itself() {
    let (first, _) = replaced("at 1530216070 and 1530216070317, not 12345", true);
    assert_eq!(
        "at [2018-06-28 20:01:10 UTC] and [2018-06-28 20:01:10.317 UTC], not 12345",
        first
    );
    let (second, left_over) = replaced(&first, true);
    assert_eq!(first, second);
    assert_eq!(0, left_over);
}

#[test]
fn only_the_given_length_of_the_buffer_is_read() {
    let buffer = "x1530216070 1530216070".as_bytes().to_vec();
    let response = replace_epoch_timestamps_in_buffer(&buffer, 12, false);
    assert_eq!("x[2018-06-28 20:01:10 UTC] ".as_bytes(), &response.data[..]);
    assert_eq!(0, response.left_over_data);

    let response = replace_epoch_timestamps_in_buffer(&buffer, 5, false);
    assert_eq!("x".as_bytes(), &response.data[..]);
    assert_eq!(4, response.left_over_data);

    let response = replace_epoch_timestamps_in_buffer(&buffer, 5, true);
    assert_eq!("x1530".as_bytes(), &response.data[..]);
    assert_eq!(0, response.left_over_data);
}

#[test]
fn buffer_of_digits_alone_is_handed_back_while_the_run_is_open() {
    let buffer = "15302160703171530216070317".as_bytes().to_vec();
    let response = replace_epoch_timestamps_in_buffer(&buffer, 13, false);
    assert_eq!("1530216070317".as_bytes(), &response.data[..]);
    assert_eq!(13, response.left_over_data);
}
