use vstd::prelude::*;

use crate::model::predicate::Selector;
use crate::model::bit_array::BitArray;
use crate::model::context::{Children, Context, FrameV};
use crate::model::{Named, name_of, with_name, DataModel, DataModelBase, ModelV, ParseError, clone_models, lemma_models_view, models_view, result_view, spec_parse, fuzzable, spec_fuzz, lemma_models_view_push, lemma_models_view_eq};

verus! {

/// One of several alternatives, picked from the context.
#[derive(Debug)]
pub struct Switch {
    pub(crate) base: DataModelBase,
    pub(crate) potential_children: Vec<DataModel>,
    pub(crate) child: Box<DataModel>,
    pub(crate) select_fn: Selector,
}

impl Switch {
    pub open(crate) spec fn view(&self) -> ModelV
        decreases self,
    {
        ModelV::Switch {
            name: self.base.view(),
            options: models_view(self.potential_children@),
            child: Box::new((*self.child).view()),
            select: self.select_fn@,
        }
    }
}

impl Switch {
    pub fn clone(&self) -> (r: Self)
        ensures
            r.view() == self.view(),
        decreases self,
    {
        let r = Switch {
            base: self.base.clone(),
            potential_children: clone_models(&self.potential_children),
            child: Box::new((*self.child).clone()),
            select_fn: self.select_fn.clone(),
        };
        assert forall|i: int| 0 <= i < r.potential_children@.len() implies r.potential_children@[i].view() == self.potential_children@[i].view() by {
            assert(r.potential_children@[i]@ == self.potential_children@[i]@);
        }
        assert(r.view()->Switch_options =~= self.view()->Switch_options);
        assert(r.view() =~= self.view());
        r
    }
}

impl Switch {
    /// Parses with the alternative that the selector picks in the context,
    /// one level further in; that alternative's result is the result.
    pub fn parse(&self, input: &mut BitArray, ctx: &mut Context) -> (r: Result<DataModel, ParseError>)
        ensures
            result_view(r) == spec_parse(self.view(), old(ctx)@, old(input)@).result,
            final(input)@ == old(input)@.skip(spec_parse(self.view(), old(ctx)@, old(input)@).consumed as int),
            final(ctx)@ == old(ctx)@,
        decreases self,
    {
        proof {
            lemma_models_view(self.potential_children@);
            assert(input@.skip(0) =~= input@);
        }
        match self.select_fn.eval(ctx) {
            Some(None) => {
                ctx.push(Children::Zilch);
                let r = (*self.select_fn.default).parse(input, ctx);
                let _ = ctx.pop();
                r
            },
            Some(Some(i)) => if i < self.potential_children.len() {
                proof {
                    broadcast use vstd::std_specs::vec::axiom_vec_index_decreases;
                    assert(decreases_to!(self.potential_children => self.potential_children[i as int]));
                }
                ctx.push(Children::Zilch);
                let r = self.potential_children[i].parse(input, ctx);
                let _ = ctx.pop();
                r
            } else {
                Err(ParseError::Failed(ctx.clone(), input.clone()))
            },
            None => Err(ParseError::Failed(ctx.clone(), input.clone())),
        }
    }
}

impl Named for Switch {
    open spec fn model(&self) -> ModelV {
        self.view()
    }

    fn name(&self) -> (r: &String) {
        self.base.name()
    }

    fn set_name(&mut self, name: &str) {
        self.base = DataModelBase::new(name.to_owned());
        proof {
            assert(self.view() =~= with_name(old(self).view(), name@));
        }
    }
}

impl Switch {
    /// The one of `potential_children` that `select_fn` picks; `child` is the
    /// one that stands for it before parsing.
    pub fn new_no_name(potential_children: Vec<DataModel>, child: DataModel, select_fn: Selector) -> (r: Self)
        ensures
            r.view() == (ModelV::Switch {
                name: "Switch"@,
                options: models_view(potential_children@),
                child: Box::new(child@),
                select: select_fn@,
            }),
    {
        Switch {
            base: DataModelBase::new("Switch".to_owned()),
            potential_children,
            child: Box::new(child),
            select_fn,
        }
    }

    /// A switch named `name` over `potential_children`, the first of which
    /// stands for it before parsing.
    pub fn new(name: &str, potential_children: Vec<DataModel>, select_fn: Selector) -> (r: DataModel)
        requires
            potential_children@.len() > 0,
        ensures
            r@ == (ModelV::Switch {
                name: name@,
                options: models_view(potential_children@),
                child: Box::new(potential_children@[0]@),
                select: select_fn@,
            }),
    {
        let child = potential_children[0].clone();
        let mut result = Self::new_no_name(potential_children, child, select_fn);
        result.set_name(name);
        DataModel::Switch(result)
    }
}

impl Switch {
    /// For each variant of the child, a copy of the switch with that child.
    pub fn fuzz(&self) -> (r: Vec<DataModel>)
        requires
            fuzzable(self.view()),
        ensures
            models_view(r@) == spec_fuzz(self.view()),
        decreases self,
    {
        let ghost name = self.base.view();
        let ghost options = models_view(self.potential_children@);
        let ghost select = self.select_fn@;
        assert(self.view() == ModelV::Switch { name, options, child: Box::new((*self.child)@), select });
        let muts = (*self.child).fuzz();
        let ghost variants = spec_fuzz(self.view());
        let mut result: Vec<DataModel> = Vec::new();
        proof {
            lemma_models_view(muts@);
            lemma_models_view(result@);
            assert(models_view(result@) =~= variants.take(0));
        }
        let mut j: usize = 0;
        while j < muts.len()
            invariant
                j <= muts@.len(),
                name == self.base.view(),
                options == models_view(self.potential_children@),
                select == self.select_fn@,
                models_view(muts@) == spec_fuzz((*self.child)@),
                muts@.len() == spec_fuzz((*self.child)@).len(),
                variants == spec_fuzz((*self.child)@).map_values(
                    |c: ModelV| ModelV::Switch { name, options, child: Box::new(c), select },
                ),
                models_view(result@) == variants.take(j as int),
            decreases muts@.len() - j,
        {
            let potential_children = clone_models(&self.potential_children);
            proof {
                lemma_models_view_eq(potential_children@, self.potential_children@);
            }
            let item = DataModel::Switch(
                Switch {
                    base: self.base.clone(),
                    potential_children,
                    child: Box::new(muts[j].clone()),
                    select_fn: self.select_fn.clone(),
                },
            );
            proof {
                lemma_models_view(muts@);
                lemma_models_view(self.potential_children@);
                assert(item@ == variants[j as int]);
                lemma_models_view_push(result@, item);
                assert(variants.take(j + 1) =~= variants.take(j as int).push(variants[j as int]));
            }
            result.push(item);
            j = j + 1;
        }
        proof {
            assert(variants.take(j as int) =~= variants);
        }
        result
    }
}

} // verus!
