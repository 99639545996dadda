use combinator_fuzzer::library::button::Button;
use combinator_fuzzer::library::constraint::Constraint;
use combinator_fuzzer::library::sequence::Sequence;
use combinator_fuzzer::library::set_of::SetOf;
use combinator_fuzzer::library::u16::U16;
use combinator_fuzzer::library::u8::U8;
use combinator_fuzzer::model::bit_array::BitArray;
use combinator_fuzzer::model::bolts::ChildMap;
use combinator_fuzzer::model::context::{Children, Context};
use combinator_fuzzer::model::predicate::{Cond, Expr, Path, Step};
use combinator_fuzzer::model::{DataModel, Named};
use combinator_fuzzer::simple_example_grammar::simple;

fn root() -> Context {
    Context::new(None, Children::Zilch)
}

#[test]
fn eat_then_extend_gives_the_bits_back() {
    let whole = BitArray::new(vec![0xDE, 0xAD, 0xBE], Some(21));
    let mut rest = whole.clone();
    let mut taken = rest.eat(11).unwrap();
    taken.extend(&rest);
    assert_eq!(taken, whole);
}

#[test]
fn to_bytes_then_new_gives_the_bits_back() {
    let mut ba = BitArray::new(vec![0xA5, 0xF0], Some(13));
    ba.eat(3);
    let bytes = ba.to_bytes();
    assert_eq!(bytes, vec![0x2F, 0x80]);
    assert_eq!(BitArray::new(bytes, Some(10)), ba);
}

#[test]
fn new_then_to_bytes_gives_the_bytes_back() {
    let bytes = vec![0x01, 0x80, 0xFF, 0x00];
    assert_eq!(BitArray::new(bytes.clone(), None).to_bytes(), bytes);
}

#[test]
fn from_value_then_value_gives_the_value_back() {
    assert_eq!(U8::from_u8(0xC3).value(), 0xC3);
    assert_eq!(U16::from_u16(0xBEEF).value(), 0xBEEF);
    assert_eq!(U16::new().value(), 0);
}

#[test]
fn set_name_then_name() {
    let mut m = DataModel::U8(U8::new());
    assert_eq!(m.name(), "U8");
    m.set_name("length");
    assert_eq!(m.name(), "length");
    assert_eq!(m.int_value(), Some(0));
}

#[test]
fn parse_then_serialize_gives_the_bits_taken() {
    let grammar = simple();
    let mut input = BitArray::new(vec![0x00, 0x01, 0x02, 0x07, 0x55], Some(36));
    let tree = grammar.parse(&mut input, &mut root()).unwrap_err();
    match tree {
        combinator_fuzzer::model::ParseError::Failed(_, rest) => assert_eq!(rest.len(), 3),
        _ => panic!("a button failure is a plain failure"),
    }
    let mut input = BitArray::new(vec![0x00, 0x01, 0x02, 0x07], None);
    let tree = grammar.parse(&mut input, &mut root()).unwrap();
    assert_eq!(tree.serialize().to_bytes(), vec![0x00, 0x01, 0x02, 0x07]);
    assert_eq!(input.len(), 0);
}

#[test]
fn parsed_sequence_keeps_names_and_fields() {
    let grammar = simple();
    let mut input = BitArray::new(vec![0x00, 0x01, 0x02, 0x03, 0x04], None);
    let tree = grammar.parse(&mut input, &mut root()).unwrap();
    assert_eq!(tree.name(), "simple_root");
    let map = tree.map();
    assert_eq!(map.keys(), &vec!["first_field".to_string(), "second_field".to_string(), "third_field".to_string(), "end".to_string()]);
    assert_eq!(map.vals().len(), 4);
    let third = map.get(&"third_field".to_string()).unwrap();
    assert_eq!(third.child().int_value(), Some(0x0304));
}

#[test]
fn parsed_constraint_holds_of_its_child() {
    let m = Constraint::new(DataModel::U8(U8::new()), Cond::Lt(Expr::Int(Path::new(0, vec![Step::Child])), Expr::Const(0x10)));
    let g = DataModel::Constraint(m);
    let mut ok = BitArray::new(vec![0x0F], None);
    let parsed = g.parse(&mut ok, &mut root()).unwrap();
    assert_eq!(parsed.child().int_value(), Some(0x0F));
    let mut bad = BitArray::new(vec![0x10, 0xAA], None);
    match g.parse(&mut bad, &mut root()) {
        Err(combinator_fuzzer::model::ParseError::Failed(at, rest)) => {
            // the context of a failed constraint holds the child it parsed
            assert_eq!(at.child().int_value(), Some(0x10));
            assert_eq!(at.parent().frame(1).is_none(), true);
            assert_eq!(rest.len(), 8);
        },
        _ => panic!("the constraint should fail"),
    }
    assert_eq!(bad.len(), 8);
}

#[test]
fn parsed_set_ends_where_its_condition_holds() {
    let set = SetOf::new(DataModel::U8(U8::new()), Vec::new(), Cond::Eq(Expr::Count(0), Expr::Const(3)));
    let g = DataModel::SetOf(set);
    let mut input = BitArray::new(vec![1, 2, 3, 4], None);
    let parsed = g.parse(&mut input, &mut root()).unwrap();
    assert_eq!(parsed.serialize().to_bytes(), vec![1, 2, 3]);
    assert_eq!(input.len(), 8);
}

#[test]
fn fuzzed_sequence_replaces_one_field() {
    let fields = ChildMap::from(vec![("a", DataModel::U8(U8::from_u8(1))), ("b", DataModel::U8(U8::from_u8(2)))]);
    let mut s = Sequence::new(fields);
    s.set_name("pair");
    let g = DataModel::Sequence(s);
    let variants = g.fuzz();
    assert_eq!(variants.len(), 4);
    let bytes: Vec<Vec<u8>> = variants.iter().map(|v| v.serialize().to_bytes()).collect();
    assert_eq!(bytes, vec![vec![0xFF, 2], vec![0xAA, 2], vec![1, 0xFF], vec![1, 0xAA]]);
    for v in &variants {
        assert_eq!(v.name(), "pair");
    }
}

#[test]
fn button_matches_only_the_end() {
    let g = DataModel::Button(Button::new());
    let mut empty = BitArray::new(vec![], None);
    assert!(g.parse(&mut empty, &mut root()).is_ok());
    let mut one = BitArray::new(vec![0x80], Some(2));
    assert!(g.parse(&mut one, &mut root()).is_err());
    assert_eq!(one.len(), 1);
}

#[test]
fn renaming_keeps_bits_fuzz_and_parse() {
    let fields = || ChildMap::from(vec![("a", DataModel::U8(U8::new())), ("b", DataModel::U16(U16::new()))]);
    let plain = DataModel::Sequence(Sequence::new(fields()));
    let mut other = DataModel::Sequence(Sequence::new(fields()));
    other.set_name("other");
    assert_eq!(other.fuzz().len(), plain.fuzz().len());
    assert_eq!(other.fuzz().len(), 4);
    let grammar = simple();
    let mut renamed = simple();
    renamed.set_name("renamed_root");
    let mut a = BitArray::new(vec![0x00, 0x01, 0x02, 0x07], None);
    let mut b = BitArray::new(vec![0x00, 0x01, 0x02, 0x07], None);
    let ta = grammar.parse(&mut a, &mut root()).unwrap();
    let tb = renamed.parse(&mut b, &mut root()).unwrap();
    assert_eq!(a.len(), b.len());
    assert_eq!(tb.name(), "renamed_root");
    assert_eq!(ta.serialize(), tb.serialize());
}

#[test]
fn a_dns_parse_takes_the_whole_packet() {
    let packet = vec![
        0x12, 0x34, 0x01, 0x00, 0x00, 0x01, 0x00, 0x00, 0x00, 0x00, 0x00, 0x00, 0x03, b'w', b'w', b'w', 0x00,
        0x00, 0x01, 0x00, 0x01,
    ];
    let mut input = BitArray::new(packet.clone(), None);
    let whole = input.clone();
    let tree = combinator_fuzzer::dns::dns().parse(&mut input, &mut root()).unwrap();
    assert_eq!(input.len(), 0);
    assert_eq!(tree.serialize(), whole);
    let mut longer = packet.clone();
    longer.push(0xFF);
    let mut input = BitArray::new(longer, None);
    assert!(combinator_fuzzer::dns::dns().parse(&mut input, &mut root()).is_err());
}

#[test]
fn a_clone_is_independent() {
    let mut ba = BitArray::new(vec![0xDE, 0xAD], None);
    let c = ba.clone();
    assert!(c == ba);
    assert_eq!(c.len(), ba.len());
    ba.eat(3);
    ba.extend(&BitArray::new(vec![0xFF], None));
    assert_eq!(c, BitArray::new(vec![0xDE, 0xAD], None));
    assert_eq!(c.len(), 16);
}

#[test]
fn feature_pairs_in_order() {
    let fs = vec!["a".to_string(), "b".to_string(), "c".to_string()];
    let pairs = combinator_fuzzer::model::feature_vector::feature_pairs(&fs);
    assert_eq!(pairs.len(), 9);
    assert_eq!(pairs[0], ("a".to_string(), "a".to_string()));
    assert_eq!(pairs[5], ("b".to_string(), "c".to_string()));
    assert_eq!(pairs[7], ("c".to_string(), "b".to_string()));
    assert!(combinator_fuzzer::model::feature_vector::feature_pairs(&Vec::new()).is_empty());
}
