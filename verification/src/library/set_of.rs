use vstd::prelude::*;

use crate::model::predicate::Cond;
use crate::model::bit_array::BitArray;
use crate::model::context::{Children, Context, FrameV};
use crate::model::{Named, name_of, with_name, DataModel, DataModelBase, ModelV, ParseError, clone_models, lemma_models_view, lemma_models_view_push, lemma_parse_bits, models_view, parse_set, result_view, spec_parse, fuzzable, spec_fuzz, child_variants, fuzz_children};

verus! {

/// Copies of one child, parsed one after the other until a condition on
/// those parsed so far holds.
#[derive(Debug)]
pub struct SetOf {
    pub(crate) base: DataModelBase,
    pub(crate) child_prototype: Box<DataModel>,
    pub(crate) children: Vec<DataModel>,
    pub(crate) predicate: Cond,
}

impl SetOf {
    pub open(crate) spec fn view(&self) -> ModelV
        decreases self,
    {
        ModelV::SetOf {
            name: self.base.view(),
            proto: Box::new((*self.child_prototype).view()),
            children: models_view(self.children@),
            pred: self.predicate@,
        }
    }
}

impl SetOf {
    pub fn clone(&self) -> (r: Self)
        ensures
            r.view() == self.view(),
        decreases self,
    {
        let r = SetOf {
            base: self.base.clone(),
            child_prototype: Box::new((*self.child_prototype).clone()),
            children: clone_models(&self.children),
            predicate: self.predicate.clone(),
        };
        assert forall|i: int| 0 <= i < r.children@.len() implies r.children@[i].view() == self.children@[i].view() by {
            assert(r.children@[i]@ == self.children@[i]@);
        }
        assert(r.view()->SetOf_children =~= self.view()->SetOf_children);
        assert(r.view() =~= self.view());
        r
    }
}

impl SetOf {
    /// Parses copies of the prototype, each one level further in, where that
    /// level holds the copies parsed before it, until the condition holds of
    /// that context. The parse fails where the count of copies would pass the
    /// largest `usize`.
    pub fn parse(&self, input: &mut BitArray, ctx: &mut Context) -> (r: Result<DataModel, ParseError>)
        ensures
            result_view(r) == spec_parse(self.view(), old(ctx)@, old(input)@).result,
            final(input)@ == old(input)@.skip(spec_parse(self.view(), old(ctx)@, old(input)@).consumed as int),
            final(ctx)@ == old(ctx)@,
        decreases self,
    {
        let ghost ctx0 = ctx@;
        let ghost input0 = input@;
        let ghost name = self.base.view();
        let ghost proto = (*self.child_prototype)@;
        let ghost pred = self.predicate@;
        let ghost whole = parse_set(name, proto, pred, Seq::empty(), ctx0, input0);
        assert(self.view() == ModelV::SetOf {
            name,
            proto: Box::new(proto),
            children: models_view(self.children@),
            pred,
        });
        let mut children: Vec<DataModel> = Vec::new();
        proof {
            lemma_models_view(children@);
            assert(models_view(children@) =~= Seq::<ModelV>::empty());
            assert(input0.skip(0) =~= input0);
        }
        loop
            invariant
                ctx@ == ctx0,
                ctx0 == old(ctx)@,
                input0 == old(input)@,
                name == self.base.view(),
                proto == (*self.child_prototype)@,
                pred == self.predicate@,
                whole == spec_parse(self.view(), ctx0, input0),
                input@.len() <= input0.len(),
                input@ == input0.skip(input0.len() - input@.len()),
                parse_set(name, proto, pred, models_view(children@), ctx0, input@).result == whole.result,
                whole.consumed == (input0.len() - input@.len()) + parse_set(
                    name,
                    proto,
                    pred,
                    models_view(children@),
                    ctx0,
                    input@,
                ).consumed,
            decreases input@.len(), usize::MAX - children@.len(),
        {
            let ghost before = input@;
            let ghost acc = models_view(children@);
            let count = children.len();
            ctx.push(Children::ChildList(children));
            assert(ctx@ == ctx0.push(FrameV::ChildList(acc)));
            let c = self.predicate.eval(ctx);
            match c {
                Some(true) => {
                    let back = ctx.pop();
                    let children = match back {
                        Children::ChildList(v) => v,
                        _ => unreached(),
                    };
                    let r = SetOf {
                        base: self.base.clone(),
                        child_prototype: Box::new((*self.child_prototype).clone()),
                        children,
                        predicate: self.predicate.clone(),
                    };
                    proof {
                        assert(input@ =~= input0.skip(whole.consumed as int));
                        assert(r.view() =~= ModelV::SetOf { name, proto: Box::new(proto), children: acc, pred });
                    }
                    return Ok(DataModel::SetOf(r));
                },
                None => {
                    let at = ctx.clone();
                    let _ = ctx.pop();
                    proof {
                        assert(input@ =~= input0.skip(whole.consumed as int));
                    }
                    return Err(ParseError::Failed(at, input.clone()));
                },
                Some(false) => {
                    if count == usize::MAX {
                        let at = ctx.clone();
                        let _ = ctx.pop();
                        proof {
                            assert(input@ =~= input0.skip(whole.consumed as int));
                        }
                        return Err(ParseError::Failed(at, input.clone()));
                    }
                    let r = (*self.child_prototype).parse(input, ctx);
                    let back = ctx.pop();
                    children = match back {
                        Children::ChildList(v) => v,
                        _ => unreached(),
                    };
                    proof {
                        lemma_parse_bits(proto, ctx0.push(FrameV::ChildList(acc)), before);
                        assert(input@ =~= input0.skip(input0.len() - input@.len()));
                    }
                    match r {
                        Err(e) => {
                            return Err(e);
                        },
                        Ok(m) => {
                            proof {
                                lemma_models_view_push(children@, m);
                            }
                            children.push(m);
                        },
                    }
                },
            }
        }
    }
}

impl Named for SetOf {
    open spec fn model(&self) -> ModelV {
        self.view()
    }

    fn name(&self) -> (r: &String) {
        self.base.name()
    }

    fn set_name(&mut self, name: &str) {
        self.base = DataModelBase::new(name.to_owned());
        proof {
            assert(self.view() =~= with_name(old(self).view(), name@));
        }
    }
}

impl SetOf {
    /// Copies of `child_prototype` until `predicate` holds; `children` are
    /// those there so far.
    pub fn new(child_prototype: DataModel, children: Vec<DataModel>, predicate: Cond) -> (r: Self)
        ensures
            r.view() == (ModelV::SetOf {
                name: "Set"@,
                proto: Box::new(child_prototype@),
                children: models_view(children@),
                pred: predicate@,
            }),
    {
        SetOf {
            base: DataModelBase::new("Set".to_owned()),
            child_prototype: Box::new(child_prototype),
            children,
            predicate,
        }
    }
}

impl SetOf {
    /// For each child in order, for each variant of it, a copy of the set
    /// with that child replaced by the variant.
    pub fn fuzz(&self) -> (r: Vec<DataModel>)
        requires
            fuzzable(self.view()),
        ensures
            models_view(r@) == spec_fuzz(self.view()),
        decreases self,
    {
        let ghost name = self.base.view();
        let ghost proto = (*self.child_prototype)@;
        let ghost children = models_view(self.children@);
        let ghost pred = self.predicate@;
        assert(self.view() == ModelV::SetOf { name, proto: Box::new(proto), children, pred });
        let mut result: Vec<DataModel> = Vec::new();
        proof {
            lemma_models_view(self.children@);
            lemma_models_view(result@);
            assert(models_view(result@) =~= fuzz_children(name, proto, children, pred, 0));
            reveal_with_fuel(fuzzable, 2);
            assert(fuzzable(ModelV::SetOf { name, proto: Box::new(proto), children, pred }));
            assert forall|k: int| 0 <= k < children.len() implies fuzzable(#[trigger] children[k]) by {
                let whole = self.view();
                assert(decreases_to!(whole => whole->SetOf_children));
                assert(decreases_to!(children => children[k]));
            }
        }
        let mut i: usize = 0;
        while i < self.children.len()
            invariant
                i <= self.children@.len(),
                name == self.base.view(),
                proto == (*self.child_prototype)@,
                pred == self.predicate@,
                children == models_view(self.children@),
                children.len() == self.children@.len(),
                forall|k: int| 0 <= k < children.len() ==> fuzzable(#[trigger] children[k]),
                models_view(result@) == fuzz_children(name, proto, children, pred, i as int),
            decreases self.children@.len() - i,
        {
            proof {
                broadcast use vstd::std_specs::vec::axiom_vec_index_decreases;
                assert(decreases_to!(self.children => self.children[i as int]));
                assert(children[i as int] == self.children@[i as int]@);
            }
            let muts = self.children[i].fuzz();
            let ghost variants = child_variants(name, proto, children, pred, i as int);
            let ghost before = models_view(result@);
            proof {
                lemma_models_view(muts@);
            }
            let mut j: usize = 0;
            while j < muts.len()
                invariant
                    i < self.children@.len(),
                    j <= muts@.len(),
                    name == self.base.view(),
                    proto == (*self.child_prototype)@,
                    pred == self.predicate@,
                    children == models_view(self.children@),
                    children.len() == self.children@.len(),
                    models_view(muts@) == spec_fuzz(children[i as int]),
                    muts@.len() == spec_fuzz(children[i as int]).len(),
                    variants == child_variants(name, proto, children, pred, i as int),
                    models_view(result@) == before + variants.take(j as int),
                decreases muts@.len() - j,
            {
                let mut copy = clone_models(&self.children);
                copy.set(i, muts[j].clone());
                let item = DataModel::SetOf(
                    SetOf {
                        base: self.base.clone(),
                        child_prototype: Box::new((*self.child_prototype).clone()),
                        children: copy,
                        predicate: self.predicate.clone(),
                    },
                );
                proof {
                    lemma_models_view(self.children@);
                    lemma_models_view(muts@);
                    lemma_models_view(copy@);
                    assert(models_view(copy@) =~= children.update(i as int, muts@[j as int]@));
                    assert(item@ == variants[j as int]);
                    lemma_models_view_push(result@, item);
                    assert(before + variants.take(j + 1) =~= (before + variants.take(j as int)).push(variants[j as int]));
                }
                result.push(item);
                j = j + 1;
            }
            proof {
                assert(variants.take(j as int) =~= variants);
            }
            i = i + 1;
        }
        result
    }
}

} // verus!
