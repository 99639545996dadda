use vstd::prelude::*;

use crate::model::predicate::Cond;
use crate::model::bit_array::BitArray;
use crate::model::context::{Children, Context, FrameV};
use crate::model::{Named, name_of, with_name, DataModel, DataModelBase, ModelV, ParseError, lemma_parse_bits, result_view, spec_parse};

verus! {

/// A child that matches only where a condition on it holds.
#[derive(Debug)]
pub struct Constraint {
    pub(crate) base: DataModelBase,
    pub(crate) child: Box<DataModel>,
    pub(crate) constraint_fn: Cond,
}

impl Constraint {
    pub open(crate) spec fn view(&self) -> ModelV
        decreases self,
    {
        ModelV::Constraint {
            name: self.base.view(),
            child: Box::new((*self.child).view()),
            pred: self.constraint_fn@,
        }
    }
}

impl Constraint {
    pub fn clone(&self) -> (r: Self)
        ensures
            r.view() == self.view(),
        decreases self,
    {
        Constraint {
            base: self.base.clone(),
            child: Box::new((*self.child).clone()),
            constraint_fn: self.constraint_fn.clone(),
        }
    }
}

impl Constraint {
    /// Parses the child, then holds the condition against the context with
    /// the parsed child as its innermost level.
    pub fn parse(&self, input: &mut BitArray, ctx: &mut Context) -> (r: Result<DataModel, ParseError>)
        ensures
            result_view(r) == spec_parse(self.view(), old(ctx)@, old(input)@).result,
            final(input)@ == old(input)@.skip(spec_parse(self.view(), old(ctx)@, old(input)@).consumed as int),
            final(ctx)@ == old(ctx)@,
        decreases self,
    {
        let ghost input0 = input@;
        let ghost ctx0 = ctx@;
        let r = (*self.child).parse(input, ctx);
        proof {
            lemma_parse_bits((*self.child)@, ctx0, input0);
        }
        match r {
            Err(e) => Err(e),
            Ok(m) => {
                ctx.push(Children::Child(m));
                let c = self.constraint_fn.eval(ctx);
                let at = match c {
                    Some(true) => None,
                    _ => Some(ctx.clone()),
                };
                let back = ctx.pop();
                let m = match back {
                    Children::Child(m) => m,
                    _ => unreached(),
                };
                match c {
                    Some(true) => Ok(
                        DataModel::Constraint(
                            Constraint {
                                base: self.base.clone(),
                                child: Box::new(m),
                                constraint_fn: self.constraint_fn.clone(),
                            },
                        ),
                    ),
                    _ => match at {
                        Some(at) => Err(ParseError::Failed(at, input.clone())),
                        None => unreached(),
                    },
                }
            },
        }
    }
}

impl Named for Constraint {
    open spec fn model(&self) -> ModelV {
        self.view()
    }

    fn name(&self) -> (r: &String) {
        self.base.name()
    }

    fn set_name(&mut self, name: &str) {
        self.base = DataModelBase::new(name.to_owned());
        proof {
            assert(self.view() =~= with_name(old(self).view(), name@));
        }
    }
}

impl Constraint {
    /// `child`, where `constraint_fn` holds.
    pub fn new(child: DataModel, constraint_fn: Cond) -> (r: Self)
        ensures
            r.view() == (ModelV::Constraint {
                name: "Constraint"@,
                child: Box::new(child@),
                pred: constraint_fn@,
            }),
    {
        Constraint { base: DataModelBase::new("Constraint".to_owned()), child: Box::new(child), constraint_fn }
    }
}

} // verus!
