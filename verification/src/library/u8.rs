use vstd::prelude::*;

use crate::model::bit_array::{BitArray, byte_bits, lemma_byte_value};
use crate::model::predicate::int_of;
use crate::model::context::Context;
use crate::model::{Named, name_of, with_name, DataModel, DataModelBase, ModelV, ParseError, lemma_models_view, models_view, result_view, spec_fuzz, spec_parse};

verus! {

/// An unsigned byte.
#[derive(Debug)]
pub struct U8 {
    pub(crate) base: DataModelBase,
    pub(crate) data: BitArray,
}

impl U8 {
    #[verifier::type_invariant]
    spec fn inv(self) -> bool {
        self.data@.len() == 8
    }

    pub open(crate) spec fn view(&self) -> ModelV {
        ModelV::U8 { name: self.base.view(), bits: self.data@ }
    }
}

impl U8 {
    pub fn clone(&self) -> (r: Self)
        ensures
            r.view() == self.view(),
    {
        proof {
            use_type_invariant(self);
        }
        U8 { base: self.base.clone(), data: self.data.clone() }
    }
}

impl U8 {
    /// The byte.
    pub fn value(&self) -> (r: u8)
        ensures
            int_of(self.view()) == Some(r as int),
    {
        proof {
            use_type_invariant(self);
        }
        let r = self.data.peek(8);
        proof {
            assert(self.data@.take(8) =~= self.data@);
            lemma_byte_value(r, self.data@);
        }
        r
    }
}

impl U8 {
    /// Takes the next eight bits.
    pub fn parse(&self, input: &mut BitArray, ctx: &mut Context) -> (r: Result<DataModel, ParseError>)
        ensures
            result_view(r) == spec_parse(self.view(), old(ctx)@, old(input)@).result,
            final(input)@ == old(input)@.skip(spec_parse(self.view(), old(ctx)@, old(input)@).consumed as int),
            final(ctx)@ == old(ctx)@,
    {
        match input.eat(8) {
            Some(data) => Ok(DataModel::U8(U8 { base: self.base.clone(), data })),
            None => {
                assert(input@.skip(0) =~= input@);
                Err(ParseError::Failed(ctx.clone(), input.clone()))
            },
        }
    }
}

impl Named for U8 {
    open spec fn model(&self) -> ModelV {
        self.view()
    }

    fn name(&self) -> (r: &String) {
        self.base.name()
    }

    fn set_name(&mut self, name: &str) {
        proof {
            use_type_invariant(&*self);
        }
        self.base = DataModelBase::new(name.to_owned());
        proof {
            assert(self.view() =~= with_name(old(self).view(), name@));
        }
    }
}

impl U8 {
    /// A byte that is zero.
    pub fn new() -> (r: Self)
        ensures
            r.view() == (ModelV::U8 { name: "U8"@, bits: byte_bits(0) }),
    {
        Self::from_u8(0x00)
    }

    /// The byte `data`.
    pub fn from_u8(data: u8) -> (r: Self)
        ensures
            r.view() == (ModelV::U8 { name: "U8"@, bits: byte_bits(data) }),
    {
        let bits = BitArray::new(vec![data], None);
        assert(bits@ =~= byte_bits(data));
        U8 { base: DataModelBase::new("U8".to_owned()), data: bits }
    }
}

impl U8 {
    /// Two set values: all ones and alternating ones and zeros.
    pub fn fuzz(&self) -> (r: Vec<DataModel>)
        ensures
            models_view(r@) == spec_fuzz(self.view()),
    {
        let r = vec![DataModel::U8(U8::from_u8(0xFF)), DataModel::U8(U8::from_u8(0xAA))];
        proof {
            lemma_models_view(r@);
            assert(models_view(r@) =~= spec_fuzz(self.view()));
        }
        r
    }
}

/// A byte made from a value holds that value: `from_u8` then `value` gives it back.
pub proof fn lemma_from_u8_value(v: u8, name: Seq<char>)
    ensures
        int_of(ModelV::U8 { name, bits: byte_bits(v) }) == Some(v as int),
{
    lemma_byte_value(v, byte_bits(v));
}

} // verus!
