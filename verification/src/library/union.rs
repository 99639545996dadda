use vstd::prelude::*;

use crate::model::bit_array::BitArray;
use crate::model::context::{Children, Context, FrameV};
use crate::model::{Named, name_of, with_name, DataModel, DataModelBase, ErrV, ModelV, ParseError, clone_models, first_ok, lemma_children_error_view, lemma_first_ok_skip, lemma_models_view, models_view, result_view, spec_parse, union_results};

verus! {

/// One of several alternatives: the first that matches.
#[derive(Debug)]
pub struct Union {
    pub(crate) base: DataModelBase,
    pub(crate) potential_children: Vec<DataModel>,
    pub(crate) child: Box<DataModel>,
}

impl Union {
    pub open(crate) spec fn view(&self) -> ModelV
        decreases self,
    {
        ModelV::Union {
            name: self.base.view(),
            options: models_view(self.potential_children@),
            child: Box::new((*self.child).view()),
        }
    }
}

impl Union {
    pub fn clone(&self) -> (r: Self)
        ensures
            r.view() == self.view(),
        decreases self,
    {
        let r = Union {
            base: self.base.clone(),
            potential_children: clone_models(&self.potential_children),
            child: Box::new((*self.child).clone()),
        };
        assert forall|i: int| 0 <= i < r.potential_children@.len() implies r.potential_children@[i].view() == self.potential_children@[i].view() by {
            assert(r.potential_children@[i]@ == self.potential_children@[i]@);
        }
        assert(r.view()->Union_options =~= self.view()->Union_options);
        assert(r.view() =~= self.view());
        r
    }
}

impl Union {
    /// Parses with every alternative, each on its own copy of the input and
    /// one level further in; the first that matches is the child, and the
    /// input loses what it took. Where none matches, the error holds why each failed.
    pub fn parse(&self, input: &mut BitArray, ctx: &mut Context) -> (r: Result<DataModel, ParseError>)
        ensures
            result_view(r) == spec_parse(self.view(), old(ctx)@, old(input)@).result,
            final(input)@ == old(input)@.skip(spec_parse(self.view(), old(ctx)@, old(input)@).consumed as int),
            final(ctx)@ == old(ctx)@,
        decreases self,
    {
        let ghost ctx0 = ctx@;
        let ghost input0 = input@;
        let ghost options = models_view(self.potential_children@);
        let ghost rs = union_results(options, ctx0, input0);
        proof {
            lemma_models_view(self.potential_children@);
        }
        ctx.push(Children::Zilch);
        let mut chosen: Option<(DataModel, BitArray)> = None;
        let mut errors: Vec<ParseError> = Vec::new();
        let ghost mut k: int = 0;
        let mut i: usize = 0;
        while i < self.potential_children.len()
            invariant
                i <= self.potential_children@.len(),
                options == models_view(self.potential_children@),
                options.len() == self.potential_children@.len(),
                rs == union_results(options, ctx0, input0),
                ctx@ == ctx0.push(FrameV::Zilch),
                input@ == input0,
                chosen is None ==> {
                    &&& forall|j: int| 0 <= j < i ==> !(#[trigger] rs[j].result is Ok)
                    &&& errors@.len() == i
                    &&& forall|j: int| 0 <= j < i ==> #[trigger] errors@[j]@ == rs[j].result->Err_0
                },
                chosen matches Some((m, rem)) ==> {
                    &&& 0 <= k < i
                    &&& first_ok(rs, 0) == Some(k)
                    &&& rs[k].result == Ok::<ModelV, ErrV>(m@)
                    &&& rem@ == input0.skip(rs[k].consumed as int)
                },
            decreases self.potential_children@.len() - i,
        {
            proof {
                broadcast use vstd::std_specs::vec::axiom_vec_index_decreases;
                assert(decreases_to!(self.potential_children => self.potential_children[i as int]));
                assert(options[i as int] == self.potential_children@[i as int]@);
            }
            let mut input_for_child = input.clone();
            let r = self.potential_children[i].parse(&mut input_for_child, ctx);
            match r {
                Ok(m) => {
                    if chosen.is_none() {
                        proof {
                            lemma_first_ok_skip(rs, i as int);
                            k = i as int;
                        }
                        chosen = Some((m, input_for_child));
                    }
                },
                Err(e) => {
                    if chosen.is_none() {
                        errors.push(e);
                    }
                },
            }
            i = i + 1;
        }
        let _ = ctx.pop();
        match chosen {
            Some((m, rem)) => {
                *input = rem;
                let r = Union {
                    base: self.base.clone(),
                    potential_children: clone_models(&self.potential_children),
                    child: Box::new(m),
                };
                proof {
                    assert forall|j: int| 0 <= j < r.potential_children@.len() implies r.potential_children@[j].view() == self.potential_children@[j].view() by {
                        assert(r.potential_children@[j]@ == self.potential_children@[j]@);
                    }
                    assert(r.view()->Union_options =~= self.view()->Union_options);
                }
                Ok(DataModel::Union(r))
            },
            None => {
                proof {
                    lemma_first_ok_skip(rs, rs.len() as int);
                    assert(errors@.len() == rs.len());
                    assert forall|j: int| 0 <= j < rs.len() implies #[trigger] errors@[j].view() == rs[j].result->Err_0 by {
                        assert(errors@[j]@ == rs[j].result->Err_0);
                    }
                    assert(input@.skip(0) =~= input@);
                }
                let e = ParseError::Children(errors);
                proof {
                    lemma_children_error_view(e);
                    assert(e@->Children_0 =~= Seq::new(rs.len(), |j: int| rs[j].result->Err_0));
                }
                Err(e)
            },
        }
    }
}

impl Named for Union {
    open spec fn model(&self) -> ModelV {
        self.view()
    }

    fn name(&self) -> (r: &String) {
        self.base.name()
    }

    fn set_name(&mut self, name: &str) {
        self.base = DataModelBase::new(name.to_owned());
        proof {
            assert(self.view() =~= with_name(old(self).view(), name@));
        }
    }
}

impl Union {
    /// The first of `potential_children` that matches; `child` is the one
    /// that stands for it before parsing.
    pub fn new(potential_children: Vec<DataModel>, child: DataModel) -> (r: Self)
        ensures
            r.view() == (ModelV::Union {
                name: "Union"@,
                options: models_view(potential_children@),
                child: Box::new(child@),
            }),
    {
        Union { base: DataModelBase::new("Union".to_owned()), potential_children, child: Box::new(child) }
    }
}

} // verus!
