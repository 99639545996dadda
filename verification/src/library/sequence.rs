use vstd::prelude::*;

use crate::model::bolts::ChildMap;
use crate::model::bit_array::BitArray;
use crate::model::context::{Children, Context, FrameV};
use crate::model::{Named, name_of, with_name, DataModel, DataModelBase, ErrV, ModelV, ParseError, lemma_models_view, lemma_models_view_push, lemma_parse_bits, models_view, parse_fields, result_view, spec_parse, fuzzable, spec_fuzz, field_variants, fuzz_fields};

verus! {

/// Named children, parsed one after the other.
#[derive(Debug)]
pub struct Sequence {
    pub(crate) base: DataModelBase,
    pub(crate) children: ChildMap,
}

impl Sequence {
    pub open(crate) spec fn view(&self) -> ModelV
        decreases self,
    {
        ModelV::Sequence {
            name: self.base.view(),
            keys: self.children.keys_view(),
            vals: models_view(self.children.vals@),
        }
    }
}

impl Sequence {
    pub fn clone(&self) -> (r: Self)
        ensures
            r.view() == self.view(),
        decreases self,
    {
        let r = Sequence { base: self.base.clone(), children: self.children.clone() };
        assert forall|i: int| 0 <= i < r.children.vals@.len() implies r.children.vals@[i].view() == self.children.vals@[i].view() by {
            assert(r.children.vals@[i]@ == self.children.vals@[i]@);
        }
        assert(r.view()->Sequence_keys =~= self.view()->Sequence_keys);
        assert(r.view()->Sequence_vals =~= self.view()->Sequence_vals);
        assert(r.view() =~= self.view());
        r
    }
}

impl Sequence {
    /// Parses the fields in order, each one level further in, where that
    /// level holds the names and the fields parsed before it.
    pub fn parse(&self, input: &mut BitArray, ctx: &mut Context) -> (r: Result<DataModel, ParseError>)
        ensures
            result_view(r) == spec_parse(self.view(), old(ctx)@, old(input)@).result,
            final(input)@ == old(input)@.skip(spec_parse(self.view(), old(ctx)@, old(input)@).consumed as int),
            final(ctx)@ == old(ctx)@,
        decreases self,
    {
        let ghost ctx0 = ctx@;
        let ghost input0 = input@;
        let ghost keys = self.children.keys_view();
        let ghost fields = models_view(self.children.vals@);
        let ghost whole = parse_fields(keys, fields, 0, Seq::empty(), ctx0, input0);
        assert(self.view() == ModelV::Sequence { name: self.base.view(), keys, vals: fields });
        assert(spec_parse(self.view(), ctx0, input0).consumed == whole.consumed);
        assert(whole.result matches Err(e) ==> spec_parse(self.view(), ctx0, input0).result == Err::<ModelV, ErrV>(e));
        assert(whole.result matches Ok(vs) ==> spec_parse(self.view(), ctx0, input0).result == Ok::<ModelV, ErrV>(
            ModelV::Sequence { name: self.base.view(), keys, vals: vs },
        ));
        let mut names = self.children.keys.clone();
        let mut parsed: Vec<DataModel> = Vec::new();
        let mut i: usize = 0;
        proof {
            lemma_models_view(self.children.vals@);
            lemma_models_view(parsed@);
            assert(models_view(parsed@) =~= Seq::<ModelV>::empty());
            assert(Seq::new(names@.len(), |j: int| names@[j]@) =~= keys);
            assert(input0.skip(0) =~= input0);
        }
        while i < self.children.vals.len()
            invariant
                i <= self.children.vals@.len(),
                ctx@ == ctx0,
                ctx0 == old(ctx)@,
                input0 == old(input)@,
                spec_parse(self.view(), ctx0, input0).consumed == whole.consumed,
                whole.result matches Err(e) ==> spec_parse(self.view(), ctx0, input0).result == Err::<ModelV, ErrV>(e),
                whole.result matches Ok(vs) ==> spec_parse(self.view(), ctx0, input0).result == Ok::<ModelV, ErrV>(
                    ModelV::Sequence { name: self.base.view(), keys, vals: vs },
                ),
                keys == self.children.keys_view(),
                fields == models_view(self.children.vals@),
                fields.len() == self.children.vals@.len(),
                Seq::new(names@.len(), |j: int| names@[j]@) == keys,
                input@.len() <= input0.len(),
                input@ == input0.skip(input0.len() - input@.len()),
                parse_fields(keys, fields, i as int, models_view(parsed@), ctx0, input@).result == whole.result,
                whole.consumed == (input0.len() - input@.len()) + parse_fields(
                    keys,
                    fields,
                    i as int,
                    models_view(parsed@),
                    ctx0,
                    input@,
                ).consumed,
            decreases self.children.vals@.len() - i,
        {
            proof {
                broadcast use vstd::std_specs::vec::axiom_vec_index_decreases;
                assert(decreases_to!(self.children.vals => self.children.vals[i as int]));
                assert(fields[i as int] == self.children.vals@[i as int]@);
            }
            let ghost before = input@;
            let ghost done_before = input0.len() - input@.len();
            let ghost parsed_before = models_view(parsed@);
            let frame = Children::ChildMap(ChildMap { keys: names, vals: parsed });
            assert(frame@ == FrameV::ChildMap(keys, parsed_before));
            ctx.push(frame);
            let r = self.children.vals[i].parse(input, ctx);
            let back = ctx.pop();
            let cm = match back {
                Children::ChildMap(cm) => cm,
                _ => unreached(),
            };
            names = cm.keys;
            parsed = cm.vals;
            proof {
                lemma_parse_bits(fields[i as int], ctx0.push(FrameV::ChildMap(keys, parsed_before)), before);
                assert(input@ =~= input0.skip(input0.len() - input@.len()));
            }
            match r {
                Ok(m) => {
                    proof {
                        lemma_models_view_push(parsed@, m);
                    }
                    parsed.push(m);
                },
                Err(e) => {
                    proof {
                        let rr = spec_parse(fields[i as int], ctx0.push(FrameV::ChildMap(keys, parsed_before)), before);
                        assert(rr.result == Err::<ModelV, ErrV>(e@));
                        assert(parse_fields(keys, fields, i as int, parsed_before, ctx0, before).result == Err::<Seq<ModelV>, ErrV>(e@));
                        assert(parse_fields(keys, fields, i as int, parsed_before, ctx0, before).consumed == rr.consumed);
                        assert(input@ =~= input0.skip(whole.consumed as int));
                    }
                    return Err(e);
                },
            }
            i = i + 1;
        }
        let r = Sequence {
            base: self.base.clone(),
            children: ChildMap { keys: names, vals: parsed },
        };
        proof {
            assert(input@ =~= input0.skip(whole.consumed as int));
        }
        Ok(DataModel::Sequence(r))
    }
}

impl Named for Sequence {
    open spec fn model(&self) -> ModelV {
        self.view()
    }

    fn name(&self) -> (r: &String) {
        self.base.name()
    }

    fn set_name(&mut self, name: &str) {
        self.base = DataModelBase::new(name.to_owned());
        proof {
            assert(self.view() =~= with_name(old(self).view(), name@));
        }
    }
}

impl Sequence {
    /// The named `children` one after the other.
    pub fn new(children: ChildMap) -> (r: Self)
        ensures
            r.view() == (ModelV::Sequence {
                name: "Sequence"@,
                keys: children.keys_view(),
                vals: children.vals_view(),
            }),
    {
        Sequence { base: DataModelBase::new("Sequence".to_owned()), children }
    }
}

impl Sequence {
    /// For each field in order, for each variant of it, a copy of the sequence
    /// with that field replaced by the variant.
    pub fn fuzz(&self) -> (r: Vec<DataModel>)
        requires
            fuzzable(self.view()),
        ensures
            models_view(r@) == spec_fuzz(self.view()),
        decreases self,
    {
        let ghost name = self.base.view();
        let ghost keys = self.children.keys_view();
        let ghost vals = models_view(self.children.vals@);
        assert(self.view() == ModelV::Sequence { name, keys, vals });
        let mut result: Vec<DataModel> = Vec::new();
        proof {
            lemma_models_view(self.children.vals@);
            lemma_models_view(result@);
            assert(models_view(result@) =~= fuzz_fields(name, keys, vals, 0));
            reveal_with_fuel(fuzzable, 2);
            assert(fuzzable(ModelV::Sequence { name, keys, vals }));
            assert forall|k: int| 0 <= k < vals.len() implies fuzzable(#[trigger] vals[k]) by {
                let whole = self.view();
                assert(decreases_to!(whole => whole->Sequence_vals));
                assert(decreases_to!(vals => vals[k]));
            }
        }
        let mut i: usize = 0;
        while i < self.children.vals.len()
            invariant
                i <= self.children.vals@.len(),
                name == self.base.view(),
                keys == self.children.keys_view(),
                vals == models_view(self.children.vals@),
                vals.len() == self.children.vals@.len(),
                forall|k: int| 0 <= k < vals.len() ==> fuzzable(#[trigger] vals[k]),
                models_view(result@) == fuzz_fields(name, keys, vals, i as int),
            decreases self.children.vals@.len() - i,
        {
            proof {
                broadcast use vstd::std_specs::vec::axiom_vec_index_decreases;
                assert(decreases_to!(self.children.vals => self.children.vals[i as int]));
                assert(vals[i as int] == self.children.vals@[i as int]@);
            }
            let muts = self.children.vals[i].fuzz();
            let ghost variants = field_variants(name, keys, vals, i as int);
            let ghost before = models_view(result@);
            proof {
                lemma_models_view(muts@);
            }
            let mut j: usize = 0;
            while j < muts.len()
                invariant
                    i < self.children.vals@.len(),
                    j <= muts@.len(),
                    name == self.base.view(),
                    keys == self.children.keys_view(),
                    vals == models_view(self.children.vals@),
                    vals.len() == self.children.vals@.len(),
                    models_view(muts@) == spec_fuzz(vals[i as int]),
                    muts@.len() == spec_fuzz(vals[i as int]).len(),
                    variants == field_variants(name, keys, vals, i as int),
                    models_view(result@) == before + variants.take(j as int),
                decreases muts@.len() - j,
            {
                let mut copy = self.children.clone();
                copy.set_ind(i, muts[j].clone());
                let item = DataModel::Sequence(Sequence { base: self.base.clone(), children: copy });
                proof {
                    lemma_models_view(self.children.vals@);
                    lemma_models_view(muts@);
                    assert(item@ == variants[j as int]);
                    lemma_models_view_push(result@, item);
                    assert(before + variants.take(j + 1) =~= (before + variants.take(j as int)).push(variants[j as int]));
                }
                result.push(item);
                j = j + 1;
            }
            proof {
                assert(variants.take(j as int) =~= variants);
            }
            i = i + 1;
        }
        result
    }
}

} // verus!
