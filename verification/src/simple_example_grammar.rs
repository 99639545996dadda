use vstd::prelude::*;

use crate::library::button::Button;
use crate::library::constraint::Constraint;
use crate::library::sequence::Sequence;
use crate::library::u16::U16;
use crate::library::u8::U8;
use crate::library::union::Union;
use crate::model::bit_array::{byte_bits, u16_bits};
use crate::model::bolts::ChildMap;
use crate::model::predicate::{Cond, CondV, Expr, ExprV, Path, PathV, Step, StepV};
use crate::model::{DataModel, ModelV, Named, lemma_models_view, models_view};

verus! {

/// A byte that is a multiple of seven.
pub open spec fn divisible_by_seven() -> CondV {
    CondV::Eq(
        ExprV::Rem(
            Box::new(ExprV::Int(PathV { up: 0, steps: seq![StepV::Child] })),
            Box::new(ExprV::Const(7)),
        ),
        ExprV::Const(0),
    )
}

/// The example grammar: a byte, a 16-bit integer, then either a byte that is
/// a multiple of seven or a 16-bit integer, then the end of the input.
pub open spec fn simple_grammar() -> ModelV {
    let uint8 = ModelV::U8 { name: "U8"@, bits: byte_bits(0) };
    let uint16 = ModelV::U16 { name: "U16"@, bits: u16_bits(0) };
    ModelV::Sequence {
        name: "simple_root"@,
        keys: seq!["first_field"@, "second_field"@, "third_field"@, "end"@],
        vals: seq![
            uint8,
            uint16,
            ModelV::Union {
                name: "third_field_union"@,
                options: seq![
                    ModelV::Constraint {
                        name: "divisibility_constraint"@,
                        child: Box::new(uint8),
                        pred: divisible_by_seven(),
                    },
                    uint16,
                ],
                child: Box::new(uint16),
            },
            ModelV::Button { name: "Button"@ },
        ],
    }
}

/// Builds the example grammar.
pub fn simple() -> (r: DataModel)
    ensures
        r@ == simple_grammar(),
{
    let child = Path::new(0, vec![Step::Child]);
    assert(child@.steps =~= seq![StepV::Child]);
    assert(child@ == PathV { up: 0, steps: seq![StepV::Child] });
    let value = Expr::Int(child);
    assert(value@ == ExprV::Int(PathV { up: 0, steps: seq![StepV::Child] }));
    let seven_e = Expr::Const(7);
    assert(seven_e@ == ExprV::Const(7));
    let rem = Expr::Rem(Box::new(value), Box::new(seven_e));
    assert(rem@ == ExprV::Rem(
        Box::new(ExprV::Int(PathV { up: 0, steps: seq![StepV::Child] })),
        Box::new(ExprV::Const(7)),
    ));
    let seven = Cond::Eq(rem, Expr::Const(0));
    let ghost uint8 = ModelV::U8 { name: "U8"@, bits: byte_bits(0) };
    let ghost uint16 = ModelV::U16 { name: "U16"@, bits: u16_bits(0) };
    let mut divisibility = Constraint::new(DataModel::U8(U8::new()), seven);
    divisibility.set_name("divisibility_constraint");
    let option_a = DataModel::Constraint(divisibility);
    let option_b = DataModel::U16(U16::new());
    let options = vec![option_a, option_b];
    proof {
        lemma_models_view(options@);
        assert(models_view(options@) =~= simple_grammar()->Sequence_vals[2]->Union_options);
    }
    let mut third = Union::new(options, DataModel::U16(U16::new()));
    third.set_name("third_field_union");
    let f1 = DataModel::U8(U8::new());
    let f2 = DataModel::U16(U16::new());
    let f3 = DataModel::Union(third);
    let f4 = DataModel::Button(Button::new());
    assert(f3@ == simple_grammar()->Sequence_vals[2]);
    let fields = vec![("first_field", f1), ("second_field", f2), ("third_field", f3), ("end", f4)];
    proof {
        reveal_strlit("first_field");
        reveal_strlit("second_field");
        reveal_strlit("third_field");
        reveal_strlit("end");
        assert("first_field"@[0] == 'f');
        assert("first_field"@.len() == 11);
        assert("second_field"@.len() == 12);
        assert("third_field"@[0] == 't');
        assert("third_field"@.len() == 11);
        assert("end"@.len() == 3);
        assert(seq!["first_field"@, "second_field"@, "third_field"@, "end"@].no_duplicates());
        assert(Seq::new(fields@.len(), |i: int| fields@[i].0@) =~= seq!["first_field"@, "second_field"@, "third_field"@, "end"@]);
    }
    let mut root = Sequence::new(ChildMap::from(fields));
    root.set_name("simple_root");
    let r = DataModel::Sequence(root);
    proof {
        assert(r@->Sequence_keys =~= simple_grammar()->Sequence_keys);
        assert(r@->Sequence_vals =~= simple_grammar()->Sequence_vals);
    }
    r
}

} // verus!
