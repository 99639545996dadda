use combinator_fuzzer::model::bit_array::BitArray;
use combinator_fuzzer::model::context::{Children, Context};
use combinator_fuzzer::simple_example_grammar::simple;

fn try_parse(input: Vec<u8>) -> bool {
    let grammar = simple();
    let mut input = BitArray::new(input, None);
    let mut ctx = Context::new(None, Children::Zilch);
    let parse_result = grammar.parse(&mut input, &mut ctx);
    parse_result.is_ok()
}

#[test]
fn five_bytes() {
    assert!(try_parse(vec![0x00, 0x01, 0x02, 0x03, 0x04]))
}

#[test]
fn four_bytes_good() {
    assert!(try_parse(vec![0x00, 0x01, 0x02, 0x07]))
}

#[test]
fn four_bytes_bad() {
    assert!(!try_parse(vec![0x00, 0x01, 0x02, 0x03]))
}

#[test]
fn three_bytes() {
    assert!(!try_parse(vec![0x00, 0x01, 0x02]))
}
