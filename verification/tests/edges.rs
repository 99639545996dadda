use combinator_fuzzer::dns::dns;
use combinator_fuzzer::library::button::Button;
use combinator_fuzzer::library::constraint::Constraint;
use combinator_fuzzer::library::set_of::SetOf;
use combinator_fuzzer::library::switch::Switch;
use combinator_fuzzer::library::u16::U16;
use combinator_fuzzer::library::u8::U8;
use combinator_fuzzer::library::union::Union;
use combinator_fuzzer::model::bit_array::BitArray;
use combinator_fuzzer::model::bolts::ChildMap;
use combinator_fuzzer::model::context::{Children, Context};
use combinator_fuzzer::model::feature_vector::bucket;
use combinator_fuzzer::model::predicate::{Cond, Expr, Path, Selector, Step};
use combinator_fuzzer::model::{DataModel, Named, ParseError};
use combinator_fuzzer::simple_example_grammar::simple;

fn root() -> Context {
    Context::new(None, Children::Zilch)
}

fn byte(v: u8) -> DataModel {
    DataModel::U8(U8::from_u8(v))
}

#[test]
fn peek_within_and_across_bytes() {
    let mut ba = BitArray::new(vec![0b1011_0110, 0b1100_0011], None);
    assert_eq!(ba.peek(0), 0);
    assert_eq!(ba.peek(3), 0b1010_0000);
    assert_eq!(ba.peek(8), 0b1011_0110);
    ba.eat(5);
    assert_eq!(ba.peek(3), 0b1100_0000);
    assert_eq!(ba.peek(6), 0b1101_1000);
    assert_eq!(ba.peek(8), 0b1101_1000);
}

#[test]
fn offsets_follow_the_start_and_end() {
    let mut ba = BitArray::new(vec![0xFF, 0xFF], Some(12));
    assert!(ba.clean_offset());
    assert!(!ba.clean_end_offset());
    ba.eat(4);
    assert!(!ba.clean_offset());
    assert!(!ba.clean_end_offset());
    ba.eat(4);
    assert!(ba.clean_offset());
    let whole = BitArray::new(vec![0xFF, 0xFF], None);
    assert!(whole.clean_end_offset());
}

#[test]
fn new_with_fewer_bits_clears_the_rest() {
    let ba = BitArray::new(vec![0xFF], Some(3));
    assert_eq!(ba.len(), 3);
    assert_eq!(ba.to_bytes(), vec![0xE0]);
    assert_eq!(BitArray::new(vec![0xAB], Some(0)).len(), 0);
}

#[test]
fn eat_nothing_and_too_much() {
    let mut ba = BitArray::new(vec![0x5A], None);
    assert_eq!(ba.eat(0), Some(BitArray::new(vec![], None)));
    assert_eq!(ba.eat(9), None);
    assert_eq!(ba.len(), 8);
}

#[test]
fn extend_with_nothing_and_unequal_lengths() {
    let mut ba = BitArray::new(vec![0x5A], Some(5));
    ba.extend(&BitArray::new(vec![], None));
    assert_eq!(ba, BitArray::new(vec![0x5A], Some(5)));
    assert_ne!(ba, BitArray::new(vec![0x5A], Some(6)));
    assert_ne!(ba, BitArray::new(vec![0x52], Some(5)));
}

#[test]
fn advance_moves_the_window() {
    let mut ba = BitArray::new(vec![0x0F, 0xF0], Some(8));
    ba.advance(4);
    assert_eq!(ba.len(), 8);
    assert_eq!(ba.peek(8), 0xFF);
}

#[test]
fn extend_after_eat_keeps_earlier_bits() {
    let mut ba = BitArray::new(vec![0xF0, 0x0F], None);
    let mut head = ba.eat(6).unwrap();
    head.extend(&BitArray::new(vec![0xC0], Some(2)));
    assert_eq!(head, BitArray::new(vec![0xF3], None));
    assert_eq!(ba.to_bytes(), vec![0x03, 0xC0]);
}

#[test]
fn u8_parse_fails_on_short_input() {
    let g = byte(0);
    let mut input = BitArray::new(vec![0xFF], Some(7));
    match g.parse(&mut input, &mut root()) {
        Err(ParseError::Failed(_, rest)) => assert_eq!(rest.len(), 7),
        _ => panic!("expected a failure"),
    }
    assert_eq!(input.len(), 7);
}

#[test]
fn union_failure_lists_each_alternative() {
    let g = DataModel::Union(Union::new(vec![byte(0), DataModel::U16(U16::new())], byte(0)));
    let mut input = BitArray::new(vec![0xFF], Some(4));
    match g.parse(&mut input, &mut root()) {
        Err(ParseError::Children(errors)) => assert_eq!(errors.len(), 2),
        _ => panic!("expected the alternatives' failures"),
    }
    assert_eq!(input.len(), 4);
}

#[test]
fn union_takes_the_first_match() {
    let g = DataModel::Union(Union::new(vec![DataModel::U16(U16::new()), byte(0)], byte(0)));
    let mut input = BitArray::new(vec![0x12, 0x34, 0x56], None);
    let parsed = g.parse(&mut input, &mut root()).unwrap();
    assert_eq!(parsed.child().int_value(), Some(0x1234));
    assert_eq!(input.len(), 8);
}

#[test]
fn set_of_copies_that_take_nothing() {
    let g = DataModel::SetOf(SetOf::new(DataModel::Button(Button::new()), Vec::new(), Cond::Eq(Expr::Count(0), Expr::Const(2))));
    let mut input = BitArray::new(vec![], None);
    let parsed = g.parse(&mut input, &mut root()).unwrap();
    let mut tallies = Vec::new();
    parsed.do_vectorization(&mut tallies);
    assert_eq!(tallies, vec!["Set", "Button", "Button"]);
    assert_eq!(input.len(), 0);
    assert_eq!(parsed.serialize().len(), 0);
}

#[test]
fn set_with_unknown_path_fails() {
    let g = DataModel::SetOf(SetOf::new(byte(0), Vec::new(), Cond::Eq(Expr::Count(0), Expr::Int(Path::new(3, vec![Step::Child])))));
    let mut input = BitArray::new(vec![1, 2], None);
    assert!(g.parse(&mut input, &mut root()).is_err());
    assert_eq!(input.len(), 16);
}

#[test]
fn switch_picks_by_key_and_default() {
    let options = vec![byte(0), DataModel::U16(U16::new()), DataModel::Button(Button::new())];
    let selector = Selector { key: Expr::Const(7), cases: vec![(1, 0), (7, 1)], default: Box::new(byte(0)) };
    let g = Switch::new("pick", options, selector);
    let mut input = BitArray::new(vec![0xAB, 0xCD, 0xEF], None);
    let parsed = g.parse(&mut input, &mut root()).unwrap();
    assert_eq!(parsed.int_value(), Some(0xABCD));
    // no case matches: the default, which is not among the alternatives, is parsed
    let options = vec![byte(0), DataModel::U16(U16::new())];
    let selector = Selector { key: Expr::Const(9), cases: vec![(1, 0)], default: Box::new(DataModel::Button(Button::new())) };
    let g = Switch::new("pick", options, selector);
    let mut input = BitArray::new(vec![0xAB], None);
    assert!(g.parse(&mut input, &mut root()).is_err());
    let mut empty = BitArray::new(vec![], None);
    assert!(g.parse(&mut empty, &mut root()).is_ok());
    let mut features = Vec::new();
    g.do_features(&mut features);
    assert_eq!(features, vec!["pick", "U8", "U16"]);
    // a case that names no alternative fails
    let options = vec![byte(0)];
    let selector = Selector { key: Expr::Const(1), cases: vec![(1, 4)], default: Box::new(byte(0)) };
    let g = Switch::new("pick", options, selector);
    let mut input = BitArray::new(vec![0xAB], None);
    assert!(g.parse(&mut input, &mut root()).is_err());
    assert_eq!(input.len(), 8);
}

#[test]
fn expressions_in_a_context() {
    let fields = ChildMap::from(vec![("len", byte(5)), ("kind", DataModel::U16(U16::from_u16(300)))]);
    let outer = Context::new(None, Children::ChildMap(fields));
    let ctx = Context::new(Some(outer), Children::ChildList(vec![byte(1), byte(2)]));
    let len = || Expr::Int(Path::new(1, vec![Step::Field("len".to_string())]));
    assert_eq!(len().eval(&ctx), Some(5));
    assert_eq!(Expr::Count(0).eval(&ctx), Some(2));
    assert_eq!(Expr::FieldBytes(1).eval(&ctx), Some(3));
    assert_eq!(Expr::Bytes(Path::new(0, vec![Step::Last])).eval(&ctx), Some(1));
    assert_eq!(Expr::Sub(Box::new(len()), Box::new(Expr::Const(9))).eval(&ctx), Some(-4));
    assert_eq!(Expr::Rem(Box::new(len()), Box::new(Expr::Const(3))).eval(&ctx), Some(2));
    assert_eq!(Expr::Rem(Box::new(Expr::Const(-1)), Box::new(Expr::Const(3))).eval(&ctx), None);
    assert_eq!(Expr::Add(Box::new(Expr::Const(i64::MAX)), Box::new(Expr::Const(1))).eval(&ctx), None);
    assert_eq!(Expr::Int(Path::new(1, vec![Step::Field("missing".to_string())])).eval(&ctx), None);
    assert_eq!(Expr::Int(Path::new(0, vec![Step::Last])).eval(&ctx), Some(2));
    assert_eq!(Cond::Present(Path::new(1, vec![Step::Field("kind".to_string())])).eval(&ctx), Some(true));
    assert_eq!(Cond::And(Box::new(Cond::Always(false)), Box::new(Cond::Eq(len(), Expr::Count(9)))).eval(&ctx), Some(false));
    assert_eq!(Cond::Or(Box::new(Cond::Always(false)), Box::new(Cond::Eq(len(), Expr::Count(9)))).eval(&ctx), None);
    assert_eq!(Cond::Not(Box::new(Cond::Lt(Expr::Count(0), len()))).eval(&ctx), Some(false));
}

#[test]
fn context_levels() {
    let outer = Context::new(None, Children::Child(byte(9)));
    let ctx = Context::new(Some(outer), Children::ChildList(vec![byte(1)]));
    assert_eq!(ctx.vec().len(), 1);
    let parent = ctx.parent();
    assert_eq!(parent.child().int_value(), Some(9));
    assert!(ctx.frame(2).is_none());
    let m = Context::new(None, Children::ChildMap(ChildMap::from(vec![("x", byte(3))])));
    assert_eq!(m.map().vals().len(), 1);
}

#[test]
fn child_map_lookups() {
    let mut map = ChildMap::from(vec![("a", byte(1)), ("b", byte(2)), ("c", byte(3))]);
    assert_eq!(map.find(&"a".to_string()), Some(0));
    assert_eq!(map.find(&"c".to_string()), Some(2));
    assert_eq!(map.find(&"d".to_string()), None);
    assert_eq!(map.get(&"b".to_string()).unwrap().int_value(), Some(2));
    map.set_ind(1, byte(7));
    assert_eq!(map.get(&"b".to_string()).unwrap().int_value(), Some(7));
    let mut empty = map.empty();
    assert_eq!(empty.keys().len(), 3);
    assert!(empty.get(&"a".to_string()).is_none());
    empty.push(byte(4));
    assert_eq!(empty.get(&"a".to_string()).unwrap().int_value(), Some(4));
}

#[test]
fn debug_texts() {
    assert_eq!(byte(0x0A).debug(), "A");
    assert_eq!(byte(0xFF).debug(), "FF");
    assert_eq!(DataModel::U16(U16::from_u16(0x1234)).debug(), "1234");
    assert_eq!(DataModel::Button(Button::new()).debug(), "Button");
    assert_eq!(DataModel::Constraint(Constraint::new(byte(0), Cond::Always(true))).debug(), "Constraint");
    assert_eq!(simple().debug(), "");
}

#[test]
fn buckets() {
    assert_eq!(bucket(0), 0);
    assert_eq!(bucket(1), 1);
    assert_eq!(bucket(2), 2);
    assert_eq!(bucket(255), 8);
    assert_eq!(bucket(256), 9);
    assert_eq!(bucket(u64::MAX), 64);
}

#[test]
fn feature_and_tally_names() {
    let g = simple();
    let mut features = Vec::new();
    g.do_features(&mut features);
    assert_eq!(features, vec!["simple_root", "U8", "U16", "third_field_union", "Button"]);
    let mut input = BitArray::new(vec![0x00, 0x01, 0x02, 0x07], None);
    let tree = g.parse(&mut input, &mut root()).unwrap();
    let mut tallies = Vec::new();
    tree.do_vectorization(&mut tallies);
    assert_eq!(tallies, vec!["simple_root", "U8", "U16", "third_field_union", "Button"]);
}

#[test]
fn features_hold_each_name_once() {
    let g = dns();
    let mut features = Vec::new();
    g.do_features(&mut features);
    let mut seen = std::collections::HashSet::new();
    for f in &features {
        assert!(seen.insert(f.clone()), "{} twice", f);
    }
    assert_eq!(features[0], "result");
    assert_eq!(features[1], "U16");
    for name in ["U8", "domain", "label", "question_set", "resource_record", "u32_sequence", "rr_body_or_unknown", "Button"] {
        assert!(features.iter().any(|f| f == name), "{} missing", name);
    }
    // a union gives its own name only
    assert!(!features.iter().any(|f| f == "rr_body_switch"));
    assert!(!features.iter().any(|f| f == "fail"));
    let before = features.len();
    g.do_features(&mut features);
    assert_eq!(features.len(), before);
}

#[test]
fn breed_copies() {
    let b = DataModel::Button(Button::new());
    let child = b.breed(byte(1));
    assert_eq!(child.name(), "Button");
}

#[test]
fn fuzz_leaves_and_constraints() {
    let u8_variants: Vec<Option<i64>> = byte(3).fuzz().iter().map(|v| v.int_value()).collect();
    assert_eq!(u8_variants, vec![Some(0xFF), Some(0xAA)]);
    let u16_variants: Vec<Option<i64>> = DataModel::U16(U16::new()).fuzz().iter().map(|v| v.int_value()).collect();
    assert_eq!(u16_variants, vec![Some(0xFFFF), Some(0xAAAA)]);
    assert!(DataModel::Button(Button::new()).fuzz().is_empty());
    let c = DataModel::Constraint(Constraint::new(byte(3), Cond::Always(true)));
    assert_eq!(c.fuzz().len(), 2);
}

#[test]
fn clone_is_equal_in_bits() {
    let g = simple();
    let copy = g.clone();
    assert_eq!(copy.name(), g.name());
    let mut a = BitArray::new(vec![0x00, 0x01, 0x02, 0x07], None);
    let mut b = BitArray::new(vec![0x00, 0x01, 0x02, 0x07], None);
    let ta = g.parse(&mut a, &mut root()).unwrap();
    let tb = copy.parse(&mut b, &mut root()).unwrap();
    assert_eq!(ta.serialize(), tb.serialize());
    assert_eq!(ta.bit_len(), Some(32));
}
