use lanl_parser::arrays::{angle_bins, parse_arrays, Arrays};
use lanl_parser::error::ParseError;

fn number(text: &[char]) -> f32 {
    text.iter().collect::<String>().parse::<f32>().unwrap()
}

fn numbers(v: &Vec<Vec<char>>) -> Vec<f32> {
    v.iter().map(|t| number(t)).collect()
}

/// A file of `nt` blocks, `nla` rows each, `nth` flux values per row. The
/// flux at (it, ila, ith) is `100 it + 10 ila + ith`.
fn synthetic(nt: usize, nla: usize, nth: usize) -> String {
    let mut blocks: Vec<String> = Vec::new();
    for it in 0..nt {
        let mut block = format!("time = {}", it as f32 + 0.5);
        for ila in 0..nla {
            block.push_str(&format!("\n{} {}", ila, ila + 1));
            for ith in 0..nth {
                block.push_str(&format!(" {}", 100 * it + 10 * ila + ith));
            }
        }
        blocks.push(block);
    }
    blocks.join("\n\n\n")
}

fn shape(a: &Arrays) -> (usize, usize, usize) {
    (a.nt, a.nla, a.nth)
}

#[test]
fn synthetic_file_has_the_shape_it_was_made_with() {
    for (nt, nla, nth) in [(1, 1, 1), (3, 2, 4), (2, 5, 3), (4, 1, 6), (1, 7, 2)] {
        let a = parse_arrays(&synthetic(nt, nla, nth)).unwrap();
        assert_eq!(shape(&a), (nt, nla, nth));
        assert_eq!(a.t.len(), nt);
        assert_eq!(a.la.len(), 2 * nla);
        assert_eq!(a.th.len(), nth);
        assert_eq!(a.fla.len(), nt * nla * nth);
    }
}

#[test]
fn flux_is_laid_out_time_then_wavelength_then_angle() {
    let a = parse_arrays(&synthetic(3, 2, 4)).unwrap();
    for it in 0..3 {
        for ila in 0..2 {
            for ith in 0..4 {
                let expected = (100 * it + 10 * ila + ith) as f32;
                assert_eq!(number(a.flux(it, ila, ith)), expected);
                assert_eq!(number(&a.fla[(it * 2 + ila) * 4 + ith]), expected);
            }
        }
    }
}

#[test]
fn bins_are_the_first_two_words_of_each_row() {
    let a = parse_arrays(&synthetic(2, 3, 2)).unwrap();
    assert_eq!(numbers(&a.la), vec![0.0, 1.0, 1.0, 2.0, 2.0, 3.0]);
    for ila in 0..3 {
        let (low, high) = a.bin(ila);
        assert_eq!(number(low), ila as f32);
        assert_eq!(number(high), ila as f32 + 1.0);
    }
}

#[test]
fn exact_values_of_a_small_file() {
    let text = "t 0.5\n1 2 10 11\n2 3 12 13\n\n\nt 1.5\n1 2 20 21\n2 3 22 23\n";
    let a = parse_arrays(text).unwrap();
    assert_eq!(shape(&a), (2, 2, 2));
    assert_eq!(numbers(&a.t), vec![0.5, 1.5]);
    assert_eq!(numbers(&a.la), vec![1.0, 2.0, 2.0, 3.0]);
    assert_eq!(numbers(&a.fla), vec![10.0, 11.0, 12.0, 13.0, 20.0, 21.0, 22.0, 23.0]);
    assert_eq!(a.th, vec![(0, 1), (1, 2)]);
}

#[test]
fn times_keep_the_order_of_the_blocks() {
    let text = "t 3.0\n1 2 5\n\n\nt 1.0\n1 2 6\n\n\nt 2.0\n1 2 7";
    let a = parse_arrays(text).unwrap();
    assert_eq!(numbers(&a.t), vec![3.0, 1.0, 2.0]);
    assert_eq!(numbers(&a.fla), vec![5.0, 6.0, 7.0]);
}

#[test]
fn bins_are_those_of_the_last_block() {
    let text = "t 1\n1 2 5\n\n\nt 2\n3 4 6";
    let a = parse_arrays(text).unwrap();
    assert_eq!(numbers(&a.la), vec![3.0, 4.0]);
}

#[test]
fn white_space_around_the_text_is_dropped() {
    let text = "\n\n  t 1\n1 2 5\n\n\nt 2\n1 2 6\n\n\n\n";
    let a = parse_arrays(text).unwrap();
    assert_eq!(shape(&a), (2, 1, 1));
    assert_eq!(numbers(&a.t), vec![1.0, 2.0]);
}

#[test]
fn ragged_blocks_are_a_shape_error() {
    let text = "t 1\n1 2 5 6\n2 3 7 8\n\n\nt 2\n1 2 5 6 9\n2 3 7 8 9";
    assert_eq!(parse_arrays(text).err(), Some(ParseError::Shape));
    let text = "t 1\n1 2 5\n2 3 7\n\n\nt 2\n1 2 5 6 9\n2 3 7 8 9";
    assert_eq!(parse_arrays(text).err(), Some(ParseError::Shape));
    let text = "t 1\n1 2 5\n\n\nt 2\n1 2 5\n2 3 7";
    assert_eq!(parse_arrays(text).err(), Some(ParseError::Shape));
    let text = "t 1\n1 2 5 6\n\n\nt 2\n1 2 5 6\n\n\nt 3\n1 2 5";
    assert_eq!(parse_arrays(text).err(), Some(ParseError::Shape));
}

#[test]
fn flux_count_that_is_no_multiple_of_the_rows_is_a_shape_error() {
    let text = "t 1\n1 2 5 6\n2 3 7 8 9";
    assert_eq!(parse_arrays(text).err(), Some(ParseError::Shape));
}

#[test]
fn last_block_without_rows_is_a_shape_error() {
    assert_eq!(parse_arrays("t 1").err(), Some(ParseError::Shape));
    let text = "t 1\n1 2 5\n\n\nt 2";
    assert_eq!(parse_arrays(text).err(), Some(ParseError::Shape));
}

#[test]
fn empty_text_is_a_format_error() {
    assert_eq!(parse_arrays("").err(), Some(ParseError::Format));
    assert_eq!(parse_arrays(" \n\n\n\n \t").err(), Some(ParseError::Format));
}

#[test]
fn malformed_block_is_a_format_error() {
    let text = "t 1\n1 2 5\n\n\nt 2\n1 2";
    assert_eq!(parse_arrays(text).err(), Some(ParseError::Format));
    let text = "t 1\n1 2 5\n\n\nt 2\n1 2 x";
    assert_eq!(parse_arrays(text).err(), Some(ParseError::Format));
    let text = "t 1\n1 2 5\n\n\n\nt 2\n1 2 6";
    assert_eq!(parse_arrays(text).err(), Some(ParseError::Format));
}

#[test]
fn malformed_block_is_reported_before_a_bad_shape() {
    let text = "t 1\n1 2 5 6\n\n\nt 2\n1 2 5\n\n\nt x\n1 2 5 6";
    assert_eq!(parse_arrays(text).err(), Some(ParseError::Format));
}

#[test]
fn parsing_twice_gives_the_same_arrays() {
    let text = synthetic(3, 4, 5);
    let a = parse_arrays(&text).unwrap();
    let b = parse_arrays(&text).unwrap();
    assert_eq!(shape(&a), shape(&b));
    assert_eq!(a.t, b.t);
    assert_eq!(a.la, b.la);
    assert_eq!(a.th, b.th);
    assert_eq!(a.fla, b.fla);
    let bits = |v: &Vec<Vec<char>>| v.iter().map(|t| number(t).to_bits()).collect::<Vec<u32>>();
    assert_eq!(bits(&a.fla), bits(&b.fla));
    assert_eq!(bits(&a.t), bits(&b.t));
}

#[test]
fn angle_bins_pair_consecutive_edges() {
    assert_eq!(angle_bins(0), vec![]);
    assert_eq!(angle_bins(1), vec![(0, 1)]);
    assert_eq!(angle_bins(4), vec![(0, 1), (1, 2), (2, 3), (3, 4)]);
}

#[test]
fn four_angle_bins_have_equal_steps_in_cosine() {
    let m = 4usize;
    let angle = |k: usize| (1.0 - ((2 * k) as f32) / (m as f32)).acos();
    let got: Vec<(f32, f32)> = angle_bins(m).iter().map(|&(lo, hi)| (angle(lo), angle(hi))).collect();
    let edges: Vec<f32> = [1.0f32, 0.5, 0.0, -0.5, -1.0].iter().map(|c| c.acos()).collect();
    let expected: Vec<(f32, f32)> = (0..4).map(|i| (edges[i], edges[i + 1])).collect();
    assert_eq!(got, expected);
}

#[test]
fn parsed_file_has_the_angle_bins_of_its_shape() {
    let a = parse_arrays(&synthetic(2, 2, 4)).unwrap();
    assert_eq!(a.th, angle_bins(4));
}
