use nail::{process_input, replace_epoch_timestamps, StreamRewriter};

const BUFFER_SIZE: usize = 1024;

fn in_chunks(input: &[u8], sizes: &[usize]) -> Vec<u8> {
    let mut rewriter = StreamRewriter::new();
    let mut output = Vec::new();
    let mut position = 0;
    for size in sizes {
        let end = (position + size).min(input.len());
        output.extend(rewriter.process_chunk(&input[position..end], false));
        position = end;
    }
    output.extend(rewriter.process_chunk(&input[position..], true));
    assert_eq!(0, rewriter.carry_length());
    assert!(!rewriter.is_in_long_run());
    output
}

#[test]
fn replace_in_stream() {
    let test_data = "abcdef\nsome1530216070timestamp\nfoo\nprefix1530216070317suffix\nbar\n\n";
    let mut input = String::new();
    let mut expected = String::new();
    for _ in 0..100 {
        input.push_str(test_data);
        expected.push_str("abcdef\nsome[2018-06-28 20:01:10 UTC]timestamp\nfoo\nprefix[2018-06-28 20:01:10.317 UTC]suffix\nbar\n\n");
    }
    assert_eq!(expected.as_bytes(), &process_input(input.as_bytes(), BUFFER_SIZE)[..]);
}

#[test]
fn replace_in_stream_over_buffer_boundary() {
    let mut input = String::new();
    let mut expected = String::new();
    for _ in 0..BUFFER_SIZE - 4 {
        input.push_str("a");
        expected.push_str("a");
    }
    input.push_str("1530216070317");
    expected.push_str("[2018-06-28 20:01:10.317 UTC]");
    assert_eq!(expected.as_bytes(), &process_input(input.as_bytes(), BUFFER_SIZE)[..]);
}

#[test]
fn run_that_ends_with_the_last_full_buffer_is_resolved() {
    let mut input = String::new();
    let mut expected = String::new();
    for _ in 0..BUFFER_SIZE - 10 {
        input.push_str("a");
        expected.push_str("a");
    }
    input.push_str("1530216070");
    expected.push_str("[2018-06-28 20:01:10 UTC]");
    assert_eq!(BUFFER_SIZE, input.len());
    assert_eq!(expected.as_bytes(), &process_input(input.as_bytes(), BUFFER_SIZE)[..]);
}

#[test]
fn timestamp_split_across_two_chunks() {
    let mut rewriter = StreamRewriter::new();
    let first = rewriter.process_chunk("...153021607".as_bytes(), false);
    assert_eq!("...".as_bytes(), &first[..]);
    assert_eq!(9, rewriter.carry_length());
    let second = rewriter.process_chunk("0317...".as_bytes(), false);
    assert_eq!("[2018-06-28 20:01:10.317 UTC]...".as_bytes(), &second[..]);
    assert_eq!(0, rewriter.carry_length());

    let whole = replace_epoch_timestamps(&"...1530216070317...".as_bytes().to_vec(), true);
    let mut joined = first;
    joined.extend(second);
    assert_eq!(whole.data, joined);
}

#[test]
fn every_chunk_size_gives_the_same_output() {
    let input = "1530216070317 x1530216070\n15302160703171530216070 0000000000,9\n1530216070";
    let expected =
        "[2018-06-28 20:01:10.317 UTC] x[2018-06-28 20:01:10 UTC]\n15302160703171530216070 [1970-01-01 00:00:00 UTC],9\n[2018-06-28 20:01:10 UTC]";
    for size in 1..=input.len() + 1 {
        let output = process_input(input.as_bytes(), size);
        assert_eq!(expected.as_bytes(), &output[..], "chunks of {}", size);
    }
}

#[test]
fn uneven_chunks_give_the_same_output() {
    let input = "ab1530216070317cd1530216070ef123456789012345678gh";
    let expected = process_input(input.as_bytes(), input.len());
    assert_eq!(
        "ab[2018-06-28 20:01:10.317 UTC]cd[2018-06-28 20:01:10 UTC]ef123456789012345678gh"
            .as_bytes(),
        &expected[..]
    );
    assert_eq!(expected, in_chunks(input.as_bytes(), &[1, 2, 3, 5, 8, 13, 0, 1, 1]));
    assert_eq!(expected, in_chunks(input.as_bytes(), &[15, 0, 0, 12]));
    assert_eq!(expected, in_chunks(input.as_bytes(), &[40, 1, 1, 1, 1]));
    assert_eq!(expected, in_chunks(input.as_bytes(), &[]));
}

#[test]
fn open_run_is_carried_and_not_written() {
    let mut rewriter = StreamRewriter::new();
    let output = rewriter.process_chunk("prefix15302160".as_bytes(), false);
    assert_eq!("prefix".as_bytes(), &output[..]);
    assert_eq!(8, rewriter.carry_length());

    let output = rewriter.process_chunk("70".as_bytes(), false);
    assert!(output.is_empty());
    assert_eq!(10, rewriter.carry_length());

    let output = rewriter.process_chunk("317".as_bytes(), false);
    assert!(output.is_empty());
    assert_eq!(13, rewriter.carry_length());

    let output = rewriter.process_chunk(&[], true);
    assert_eq!("[2018-06-28 20:01:10.317 UTC]".as_bytes(), &output[..]);
    assert_eq!(0, rewriter.carry_length());
}

#[test]
fn dangling_run_of_other_length_is_written_at_the_end() {
    let mut rewriter = StreamRewriter::new();
    let output = rewriter.process_chunk("prefix15302160".as_bytes(), false);
    assert_eq!("prefix".as_bytes(), &output[..]);
    let output = rewriter.process_chunk(&[], true);
    assert_eq!("15302160".as_bytes(), &output[..]);
}

#[test]
fn carry_never_exceeds_thirteen_digits() {
    let mut rewriter = StreamRewriter::new();
    let output = rewriter.process_chunk("a1530216070317".as_bytes(), false);
    assert_eq!("a".as_bytes(), &output[..]);
    assert_eq!(13, rewriter.carry_length());
    assert!(!rewriter.is_in_long_run());

    let output = rewriter.process_chunk("1".as_bytes(), false);
    assert_eq!("15302160703171".as_bytes(), &output[..]);
    assert_eq!(0, rewriter.carry_length());
    assert!(rewriter.is_in_long_run());

    let output = rewriter.process_chunk("1530216070".as_bytes(), false);
    assert_eq!("1530216070".as_bytes(), &output[..]);
    assert_eq!(0, rewriter.carry_length());
    assert!(rewriter.is_in_long_run());

    let output = rewriter.process_chunk("22 1530216070 15".as_bytes(), false);
    assert_eq!("22 [2018-06-28 20:01:10 UTC] ".as_bytes(), &output[..]);
    assert_eq!(2, rewriter.carry_length());
    assert!(!rewriter.is_in_long_run());
}

#[test]
fn long_run_of_digits_stays_verbatim_in_any_chunking() {
    let input = vec![b'7'; 3000];
    for size in [1usize, 7, 13, 14, 1024, 3000, 5000] {
        assert_eq!(input, process_input(&input, size), "chunks of {}", size);
    }
}

#[test]
fn final_chunk_ends_a_long_run() {
    let mut rewriter = StreamRewriter::new();
    let output = rewriter.process_chunk("12345678901234567890".as_bytes(), false);
    assert_eq!("12345678901234567890".as_bytes(), &output[..]);
    assert!(rewriter.is_in_long_run());
    let output = rewriter.process_chunk("1530216070".as_bytes(), true);
    assert_eq!("1530216070".as_bytes(), &output[..]);
    assert!(!rewriter.is_in_long_run());
    let output = rewriter.process_chunk("1530216070".as_bytes(), true);
    assert_eq!("[2018-06-28 20:01:10 UTC]".as_bytes(), &output[..]);
}

#[test]
fn empty_stream_writes_nothing() {
    assert!(process_input(&[], 1).is_empty());
    assert!(process_input(&[], BUFFER_SIZE).is_empty());
    let mut rewriter = StreamRewriter::new();
    assert!(rewriter.process_chunk(&[], false).is_empty());
    assert!(rewriter.process_chunk(&[], true).is_empty());
}

#[test]
fn rewriting_goes_to_a_sibling_file() {
    assert_eq!("/tmp/log.txt.depoch", nail::target_file_name(&"/tmp/log.txt".to_string()));
    assert_eq!(".depoch", nail::target_file_name(&String::new()));
    assert_eq!(1024, nail::BUFFER_SIZE);
}
