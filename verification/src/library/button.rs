use vstd::prelude::*;

use crate::model::bit_array::BitArray;
use crate::model::context::Context;
use crate::model::{Named, name_of, with_name, DataModel, DataModelBase, ModelV, ParseError, result_view, spec_parse};

verus! {

/// Matches the end of the input.
#[derive(Debug)]
pub struct Button {
    pub(crate) base: DataModelBase,
}

impl Button {
    pub open(crate) spec fn view(&self) -> ModelV {
        ModelV::Button { name: self.base.view() }
    }
}

impl Button {
    pub fn clone(&self) -> (r: Self)
        ensures
            r.view() == self.view(),
    {
        Button { base: self.base.clone() }
    }
}

impl Button {
    /// Matches where no input is left; otherwise takes a bit and fails.
    pub fn parse(&self, input: &mut BitArray, ctx: &mut Context) -> (r: Result<DataModel, ParseError>)
        ensures
            result_view(r) == spec_parse(self.view(), old(ctx)@, old(input)@).result,
            final(input)@ == old(input)@.skip(spec_parse(self.view(), old(ctx)@, old(input)@).consumed as int),
            final(ctx)@ == old(ctx)@,
    {
        match input.eat(1) {
            Some(_) => Err(ParseError::Failed(ctx.clone(), input.clone())),
            None => {
                assert(input@.skip(0) =~= input@);
                Ok(DataModel::Button(self.clone()))
            },
        }
    }
}

impl Named for Button {
    open spec fn model(&self) -> ModelV {
        self.view()
    }

    fn name(&self) -> (r: &String) {
        self.base.name()
    }

    fn set_name(&mut self, name: &str) {
        self.base = DataModelBase::new(name.to_owned());
        proof {
            assert(self.view() =~= with_name(old(self).view(), name@));
        }
    }
}

impl Button {
    pub fn new() -> (r: Self)
        ensures
            r.view() == (ModelV::Button { name: "Button"@ }),
    {
        Button { base: DataModelBase::new("Button".to_owned()) }
    }
}

} // verus!
