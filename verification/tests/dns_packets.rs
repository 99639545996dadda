use combinator_fuzzer::dns::dns;
use combinator_fuzzer::model::bit_array::BitArray;
use combinator_fuzzer::model::context::{Children, Context};

fn query_packet() -> Vec<u8> {
    let mut p = vec![0x12, 0x34, 0x01, 0x00, 0x00, 0x01, 0x00, 0x00, 0x00, 0x00, 0x00, 0x00];
    p.extend_from_slice(&[7, b'e', b'x', b'a', b'm', b'p', b'l', b'e', 3, b'c', b'o', b'm', 0]);
    p.extend_from_slice(&[0x00, 0x01, 0x00, 0x01]);
    p
}

fn answer_packet() -> Vec<u8> {
    let mut p = vec![0x12, 0x34, 0x81, 0x80, 0x00, 0x01, 0x00, 0x01, 0x00, 0x00, 0x00, 0x00];
    p.extend_from_slice(&[7, b'e', b'x', b'a', b'm', b'p', b'l', b'e', 3, b'c', b'o', b'm', 0]);
    p.extend_from_slice(&[0x00, 0x01, 0x00, 0x01]);
    p.extend_from_slice(&[0xc0, 0x0c, 0x00, 0x01, 0x00, 0x01, 0x00, 0x00, 0x0e, 0x10, 0x00, 0x04]);
    p.extend_from_slice(&[93, 184, 216, 34]);
    p
}

fn parse_bytes(bytes: Vec<u8>) -> (bool, i32) {
    let grammar = dns();
    let mut input = BitArray::new(bytes, None);
    let mut ctx = Context::new(None, Children::Zilch);
    let r = grammar.parse(&mut input, &mut ctx);
    (r.is_ok(), input.len())
}

#[test]
fn dns_query_parses() {
    assert_eq!(parse_bytes(query_packet()), (true, 0));
}

#[test]
fn dns_answer_parses() {
    assert_eq!(parse_bytes(answer_packet()), (true, 0));
}

#[test]
fn dns_truncated_fails() {
    let mut p = answer_packet();
    p.pop();
    assert!(!parse_bytes(p).0);
}

#[test]
fn dns_trailing_byte_fails() {
    let mut p = query_packet();
    p.push(0);
    assert!(!parse_bytes(p).0);
}

#[test]
fn dns_parse_then_serialize_gives_the_packet() {
    let grammar = dns();
    let bytes = answer_packet();
    let mut input = BitArray::new(bytes.clone(), None);
    let mut ctx = Context::new(None, Children::Zilch);
    let tree = grammar.parse(&mut input, &mut ctx).unwrap();
    assert_eq!(tree.serialize().to_bytes(), bytes);
}
