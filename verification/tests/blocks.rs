use lanl_parser::block::{all_float_literals, parse_block, parse_block_chars};
use lanl_parser::error::ParseError;

fn chars(s: &str) -> Vec<char> {
    s.chars().collect()
}

fn number(text: &[char]) -> f32 {
    text.iter().collect::<String>().parse::<f32>().unwrap()
}

fn numbers(v: &Vec<Vec<char>>) -> Vec<f32> {
    v.iter().map(|t| number(t)).collect()
}

#[test]
fn block_gives_time_bins_and_flux_in_row_order() {
    let b = parse_block("time 1.5\n1.0 2.0 10 20 30\n2.0 3.0 40 50 60").unwrap();
    assert_eq!(number(&b.time), 1.5);
    assert_eq!(numbers(&b.la), vec![1.0, 2.0, 2.0, 3.0]);
    assert_eq!(numbers(&b.fla), vec![10.0, 20.0, 30.0, 40.0, 50.0, 60.0]);
}

#[test]
fn block_keeps_each_field_as_it_is_spelled() {
    let b = parse_block("t 1.50\n+1e0 2. 0.050").unwrap();
    assert_eq!(b.time, chars("1.50"));
    assert_eq!(b.la, vec![chars("+1e0"), chars("2.")]);
    assert_eq!(b.fla, vec![chars("0.050")]);
}

#[test]
fn header_time_is_the_last_word() {
    let b = parse_block("# time [d] = 7 0.25\n1 2 3").unwrap();
    assert_eq!(number(&b.time), 0.25);
    let b = parse_block("0.125\n1 2 3").unwrap();
    assert_eq!(number(&b.time), 0.125);
    let b = parse_block("  t\t=\t3e2  \n1 2 3").unwrap();
    assert_eq!(number(&b.time), 300.0);
}

#[test]
fn block_without_rows_has_no_bins() {
    let b = parse_block("t 1.0").unwrap();
    assert_eq!(number(&b.time), 1.0);
    assert!(b.la.is_empty());
    assert!(b.fla.is_empty());
}

#[test]
fn rows_may_differ_in_length() {
    let b = parse_block("t 1.0\n1 2 3\n4 5 6 7 8").unwrap();
    assert_eq!(numbers(&b.la), vec![1.0, 2.0, 4.0, 5.0]);
    assert_eq!(numbers(&b.fla), vec![3.0, 6.0, 7.0, 8.0]);
}

#[test]
fn header_without_a_word_is_a_format_error() {
    assert_eq!(parse_block("").err(), Some(ParseError::Format));
    assert_eq!(parse_block("   \n1 2 3").err(), Some(ParseError::Format));
    assert_eq!(parse_block("\nt 1.0\n1 2 3").err(), Some(ParseError::Format));
}

#[test]
fn header_whose_last_word_is_no_number_is_a_format_error() {
    assert_eq!(parse_block("time 1.5 days\n1 2 3").err(), Some(ParseError::Format));
    assert_eq!(parse_block("time\n1 2 3").err(), Some(ParseError::Format));
}

#[test]
fn row_with_fewer_than_three_words_is_a_format_error() {
    assert_eq!(parse_block("t 1.0\n1 2").err(), Some(ParseError::Format));
    assert_eq!(parse_block("t 1.0\n1").err(), Some(ParseError::Format));
    assert_eq!(parse_block("t 1.0\n1 2 3\n\n4 5 6").err(), Some(ParseError::Format));
    assert_eq!(parse_block("t 1.0\n1 2 3\n").err(), Some(ParseError::Format));
}

#[test]
fn row_with_a_word_that_is_no_number_is_a_format_error() {
    assert_eq!(parse_block("t 1.0\nx 2 3").err(), Some(ParseError::Format));
    assert_eq!(parse_block("t 1.0\n1 y 3").err(), Some(ParseError::Format));
    assert_eq!(parse_block("t 1.0\n1 2 3 4z").err(), Some(ParseError::Format));
    assert_eq!(parse_block("t 1.0\n1 2 3\n4 5 six").err(), Some(ParseError::Format));
}

#[test]
fn block_of_characters_parses_as_the_block_of_text() {
    let text = "t 2.5\n1 2 3 4\n5 6 7 8";
    let a = parse_block(text).unwrap();
    let b = parse_block_chars(&chars(text)).unwrap();
    assert_eq!(a.time, b.time);
    assert_eq!(a.la, b.la);
    assert_eq!(a.fla, b.fla);
    assert_eq!(parse_block_chars(&chars("t")).err(), Some(ParseError::Format));
}

#[test]
fn all_float_literals_checks_every_text() {
    assert!(all_float_literals(&vec![]));
    assert!(all_float_literals(&vec![chars("1"), chars("2.5"), chars("-inf")]));
    assert!(!all_float_literals(&vec![chars("1"), chars("x"), chars("3")]));
    assert!(!all_float_literals(&vec![chars("1"), chars("2"), chars("")]));
}
