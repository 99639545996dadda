use vstd::prelude::*;

use crate::model::bit_array::{BitArray, byte_bits, lemma_bits_value_concat8, lemma_byte_value, u16_bits};
use crate::model::predicate::int_of;
use crate::model::context::Context;
use crate::model::{Named, name_of, with_name, DataModel, DataModelBase, ModelV, ParseError, lemma_models_view, models_view, result_view, spec_fuzz, spec_parse};

verus! {

/// An unsigned 16-bit integer, most significant byte first.
#[derive(Debug)]
pub struct U16 {
    pub(crate) base: DataModelBase,
    pub(crate) data: BitArray,
}

impl U16 {
    #[verifier::type_invariant]
    spec fn inv(self) -> bool {
        self.data@.len() == 16
    }

    pub open(crate) spec fn view(&self) -> ModelV {
        ModelV::U16 { name: self.base.view(), bits: self.data@ }
    }
}

impl U16 {
    pub fn clone(&self) -> (r: Self)
        ensures
            r.view() == self.view(),
    {
        proof {
            use_type_invariant(self);
        }
        U16 { base: self.base.clone(), data: self.data.clone() }
    }
}

impl U16 {
    /// The integer, its first byte the most significant.
    pub fn value(&self) -> (r: u16)
        ensures
            int_of(self.view()) == Some(r as int),
    {
        proof {
            use_type_invariant(self);
        }
        let mut rest = self.data.clone();
        let high = rest.eat(8).unwrap().peek(8);
        let low = rest.peek(8);
        proof {
            let s = self.data@;
            assert(s.take(8).take(8) =~= s.take(8));
            assert(s.skip(8).take(8) =~= s.skip(8));
            lemma_byte_value(high, s.take(8));
            lemma_byte_value(low, s.skip(8));
            assert(s =~= s.take(8) + s.skip(8));
            lemma_bits_value_concat8(s.take(8), s.skip(8));
        }
        (high as u16) * 256 + (low as u16)
    }
}

impl U16 {
    /// Takes the next sixteen bits.
    pub fn parse(&self, input: &mut BitArray, ctx: &mut Context) -> (r: Result<DataModel, ParseError>)
        ensures
            result_view(r) == spec_parse(self.view(), old(ctx)@, old(input)@).result,
            final(input)@ == old(input)@.skip(spec_parse(self.view(), old(ctx)@, old(input)@).consumed as int),
            final(ctx)@ == old(ctx)@,
    {
        match input.eat(16) {
            Some(data) => Ok(DataModel::U16(U16 { base: self.base.clone(), data })),
            None => {
                assert(input@.skip(0) =~= input@);
                Err(ParseError::Failed(ctx.clone(), input.clone()))
            },
        }
    }
}

impl Named for U16 {
    open spec fn model(&self) -> ModelV {
        self.view()
    }

    fn name(&self) -> (r: &String) {
        self.base.name()
    }

    fn set_name(&mut self, name: &str) {
        proof {
            use_type_invariant(&*self);
        }
        self.base = DataModelBase::new(name.to_owned());
        proof {
            assert(self.view() =~= with_name(old(self).view(), name@));
        }
    }
}

impl U16 {
    /// An integer that is zero.
    pub fn new() -> (r: Self)
        ensures
            r.view() == (ModelV::U16 { name: "U16"@, bits: u16_bits(0) }),
    {
        Self::from_u16(0)
    }

    /// The integer `data`.
    pub fn from_u16(data: u16) -> (r: Self)
        ensures
            r.view() == (ModelV::U16 { name: "U16"@, bits: u16_bits(data) }),
    {
        let high = (data / 256) as u8;
        let low = (data % 256) as u8;
        let bits = BitArray::new(vec![high, low], None);
        assert(bits@ =~= u16_bits(data));
        U16 { base: DataModelBase::new("U16".to_owned()), data: bits }
    }
}

impl U16 {
    /// Two set values: all ones and alternating ones and zeros.
    pub fn fuzz(&self) -> (r: Vec<DataModel>)
        ensures
            models_view(r@) == spec_fuzz(self.view()),
    {
        let r = vec![DataModel::U16(U16::from_u16(0xFFFF)), DataModel::U16(U16::from_u16(0xAAAA))];
        proof {
            lemma_models_view(r@);
            assert(models_view(r@) =~= spec_fuzz(self.view()));
        }
        r
    }
}

/// An integer made from a value holds that value: `from_u16` then `value` gives it back.
pub proof fn lemma_from_u16_value(v: u16, name: Seq<char>)
    ensures
        int_of(ModelV::U16 { name, bits: u16_bits(v) }) == Some(v as int),
{
    let high = (v / 256) as u8;
    let low = (v % 256) as u8;
    lemma_byte_value(high, byte_bits(high));
    lemma_byte_value(low, byte_bits(low));
    lemma_bits_value_concat8(byte_bits(high), byte_bits(low));
}

} // verus!
