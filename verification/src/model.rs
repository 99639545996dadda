use vstd::prelude::*;

pub mod bit_array;
pub mod bolts;
pub mod context;
pub mod feature_vector;
pub mod predicate;

use bolts::ChildMap;

use crate::library::button::Button;
use crate::library::constraint::Constraint;
use crate::library::sequence::Sequence;
use crate::library::set_of::SetOf;
use crate::library::switch::Switch;
use crate::library::u16::U16;
use crate::library::u8::U8;
use crate::library::union::Union;
use bit_array::{BitArray, bits_value, byte_bits, u16_bits};
use context::{Context, FrameV};
use predicate::{CondV, SelectV, Step, StepV, eval_cond, eval_expr, eval_select, first_case, int_of, step_model};

verus! {

/// What every node of a data model has: its name.
#[derive(Debug)]
pub struct DataModelBase {
    pub(crate) name: String,
}

impl DataModelBase {
    pub open(crate) spec fn view(&self) -> Seq<char> {
        self.name@
    }

    pub fn new(name: String) -> (r: Self)
        ensures
            r.view() == name@,
    {
        Self { name }
    }

    pub fn name(&self) -> (r: &String)
        ensures
            r@ == self.view(),
    {
        &self.name
    }

    pub fn clone(&self) -> (r: Self)
        ensures
            r.view() == self.view(),
    {
        Self { name: self.name.clone() }
    }
}

/// The mathematical value of a data model node and of all it holds.
#[verifier::ext_equal]
pub enum ModelV {
    U8 { name: Seq<char>, bits: Seq<bool> },
    U16 { name: Seq<char>, bits: Seq<bool> },
    Button { name: Seq<char> },
    Sequence { name: Seq<char>, keys: Seq<Seq<char>>, vals: Seq<ModelV> },
    SetOf { name: Seq<char>, proto: Box<ModelV>, children: Seq<ModelV>, pred: CondV },
    Union { name: Seq<char>, options: Seq<ModelV>, child: Box<ModelV> },
    Constraint { name: Seq<char>, child: Box<ModelV>, pred: CondV },
    Switch { name: Seq<char>, options: Seq<ModelV>, child: Box<ModelV>, select: SelectV },
}

/// A node of a grammar, and of the tree that parsing with it gives.
#[derive(Debug)]
pub enum DataModel {
    U8(U8),
    U16(U16),
    Button(Button),
    Sequence(Sequence),
    SetOf(SetOf),
    Union(Union),
    Constraint(Constraint),
    Switch(Switch),
}

impl DataModel {
    pub open spec fn view(&self) -> ModelV
        decreases self,
    {
        match self {
            DataModel::U8(m) => m.view(),
            DataModel::U16(m) => m.view(),
            DataModel::Button(m) => m.view(),
            DataModel::Sequence(m) => m.view(),
            DataModel::SetOf(m) => m.view(),
            DataModel::Union(m) => m.view(),
            DataModel::Constraint(m) => m.view(),
            DataModel::Switch(m) => m.view(),
        }
    }
}

/// The views of a list of data models.
pub open spec fn models_view(v: Seq<DataModel>) -> Seq<ModelV>
    decreases v,
{
    Seq::new(
        v.len(),
        |i: int|
            if 0 <= i < v.len() {
                v[i].view()
            } else {
                ModelV::Button { name: Seq::empty() }
            },
    )
}

/// Each node of the views of a list is the view of its node.
pub proof fn lemma_models_view(v: Seq<DataModel>)
    ensures
        models_view(v).len() == v.len(),
        forall|i: int| 0 <= i < v.len() ==> #[trigger] models_view(v)[i] == v[i]@,
{
}

/// Lists whose nodes have equal views have equal views.
pub proof fn lemma_models_view_eq(v: Seq<DataModel>, w: Seq<DataModel>)
    requires
        v.len() == w.len(),
        forall|i: int| 0 <= i < v.len() ==> #[trigger] v[i]@ == w[i]@,
    ensures
        models_view(v) == models_view(w),
{
    lemma_models_view(v);
    lemma_models_view(w);
    assert(models_view(v) =~= models_view(w));
}

/// Why a parse failed.
#[derive(Debug)]
pub enum ParseError {
    /// A node did not match; it holds the context it was parsed in (for a
    /// constraint, with the child it parsed as the innermost level) and the
    /// input that was left at that point.
    Failed(Context, BitArray),
    /// No alternative of a union matched; it holds why each failed.
    Children(Vec<ParseError>),
}

/// The mathematical value of a parse error.
#[verifier::ext_equal]
pub enum ErrV {
    Failed(Seq<FrameV>, Seq<bool>),
    Children(Seq<ErrV>),
}

impl ParseError {
    pub open spec fn view(&self) -> ErrV
        decreases self,
    {
        match self {
            ParseError::Failed(c, b) => ErrV::Failed(c@, b@),
            ParseError::Children(v) => ErrV::Children(
                Seq::new(v@.len(), |i: int| if 0 <= i < v@.len() {
                    v@[i].view()
                } else {
                    ErrV::Failed(Seq::empty(), Seq::empty())
                }),
            ),
        }
    }
}

/// The view of a union's error lists the views of the alternatives' errors.
pub proof fn lemma_children_error_view(e: ParseError)
    requires
        e is Children,
    ensures
        e@ is Children,
        e@->Children_0.len() == e->Children_0@.len(),
        forall|i: int| 0 <= i < e->Children_0@.len() ==> #[trigger] e@->Children_0[i] == e->Children_0@[i]@,
{
}

/// The bits that serialising a node writes.
pub open spec fn spec_bits(m: ModelV) -> Seq<bool>
    decreases m, 0int,
{
    match m {
        ModelV::U8 { bits, .. } => bits,
        ModelV::U16 { bits, .. } => bits,
        ModelV::Button { .. } => Seq::empty(),
        ModelV::Sequence { vals, .. } => bits_of_all(vals, vals.len() as int),
        ModelV::SetOf { children, .. } => bits_of_all(children, children.len() as int),
        ModelV::Union { child, .. } => spec_bits(*child),
        ModelV::Constraint { child, .. } => spec_bits(*child),
        ModelV::Switch { child, .. } => spec_bits(*child),
    }
}

/// The bits of the first `n` nodes of `s`, one after the other.
pub open spec fn bits_of_all(s: Seq<ModelV>, n: int) -> Seq<bool>
    decreases s, n,
{
    if n <= 0 || n > s.len() {
        Seq::empty()
    } else {
        bits_of_all(s, n - 1) + spec_bits(s[n - 1])
    }
}

/// What parsing gives: the parsed tree or why it failed, and how many bits
/// of the input it took (a failed parse may have taken some).
pub struct ParsedV {
    pub result: Result<ModelV, ErrV>,
    pub consumed: nat,
}

/// What parsing the fields of a sequence gives.
pub struct FieldsV {
    pub result: Result<Seq<ModelV>, ErrV>,
    pub consumed: nat,
}

/// The input left after its first `c` bits.
pub open spec fn rest(input: Seq<bool>, c: nat) -> Seq<bool> {
    if c <= input.len() {
        input.skip(c as int)
    } else {
        Seq::empty()
    }
}

/// A leaf that takes `n` bits, where there are that many.
pub open spec fn parse_leaf(m: ModelV, n: nat, ctx: Seq<FrameV>, input: Seq<bool>) -> ParsedV {
    if input.len() >= n {
        ParsedV { result: Ok(m), consumed: n }
    } else {
        ParsedV { result: Err(ErrV::Failed(ctx, input)), consumed: 0 }
    }
}

/// The first of the results from the `i`th on that is a success.
pub open spec fn first_ok(rs: Seq<ParsedV>, i: int) -> Option<int>
    decreases rs.len() - i,
{
    if i < 0 || i >= rs.len() {
        None
    } else if rs[i].result is Ok {
        Some(i)
    } else {
        first_ok(rs, i + 1)
    }
}

/// Parsing `input` with the grammar node `g` in the context `ctx`.
pub open spec fn spec_parse(g: ModelV, ctx: Seq<FrameV>, input: Seq<bool>) -> ParsedV
    decreases input.len(), g, 0int,
{
    match g {
        ModelV::U8 { name, .. } => parse_leaf(ModelV::U8 { name, bits: input.take(8) }, 8, ctx, input),
        ModelV::U16 { name, .. } => parse_leaf(ModelV::U16 { name, bits: input.take(16) }, 16, ctx, input),
        ModelV::Button { .. } => if input.len() == 0 {
            ParsedV { result: Ok(g), consumed: 0 }
        } else {
            ParsedV { result: Err(ErrV::Failed(ctx, input.skip(1))), consumed: 1 }
        },
        ModelV::Sequence { name, keys, vals } => {
            let r = parse_fields(keys, vals, 0, Seq::empty(), ctx, input);
            match r.result {
                Ok(parsed) => ParsedV {
                    result: Ok(ModelV::Sequence { name, keys, vals: parsed }),
                    consumed: r.consumed,
                },
                Err(e) => ParsedV { result: Err(e), consumed: r.consumed },
            }
        },
        ModelV::SetOf { name, proto, children, pred } => parse_set(
            name,
            *proto,
            pred,
            Seq::empty(),
            ctx,
            input,
        ),
        ModelV::Union { name, options, child } => {
            let rs = union_results(options, ctx, input);
            match first_ok(rs, 0) {
                Some(i) => ParsedV {
                    result: Ok(ModelV::Union { name, options, child: Box::new(rs[i].result->Ok_0) }),
                    consumed: rs[i].consumed,
                },
                None => ParsedV {
                    result: Err(ErrV::Children(Seq::new(rs.len(), |i: int| rs[i].result->Err_0))),
                    consumed: 0,
                },
            }
        },
        ModelV::Constraint { name, child, pred } => {
            let r = spec_parse(*child, ctx, input);
            match r.result {
                Ok(m) => if eval_cond(pred, ctx.push(FrameV::Child(m))) == Some(true) {
                    ParsedV {
                        result: Ok(ModelV::Constraint { name, child: Box::new(m), pred }),
                        consumed: r.consumed,
                    }
                } else {
                    ParsedV { result: Err(ErrV::Failed(ctx.push(FrameV::Child(m)), rest(input, r.consumed))), consumed: r.consumed }
                },
                Err(e) => r,
            }
        },
        ModelV::Switch { name, options, child, select } => match eval_select(select, ctx) {
            Some(Some(i)) => if i < options.len() {
                spec_parse(options[i as int], ctx.push(FrameV::Zilch), input)
            } else {
                ParsedV { result: Err(ErrV::Failed(ctx, input)), consumed: 0 }
            },
            Some(None) => spec_parse(*select.default, ctx.push(FrameV::Zilch), input),
            None => ParsedV { result: Err(ErrV::Failed(ctx, input)), consumed: 0 },
        },
    }
}

/// Parsing each alternative on the same input, one level further in.
pub open spec fn union_results(options: Seq<ModelV>, ctx: Seq<FrameV>, input: Seq<bool>) -> Seq<
    ParsedV,
>
    decreases input.len(), options, 1int,
{
    Seq::new(
        options.len(),
        |i: int|
            if 0 <= i < options.len() {
                spec_parse(options[i], ctx.push(FrameV::Zilch), input)
            } else {
                ParsedV { result: Err(ErrV::Failed(ctx, input)), consumed: 0 }
            },
    )
}

/// Parsing the fields of a sequence from the `i`th on, those before having
/// given `parsed`; each field sees the names and the fields parsed before it.
pub open spec fn parse_fields(
    keys: Seq<Seq<char>>,
    fields: Seq<ModelV>,
    i: int,
    parsed: Seq<ModelV>,
    ctx: Seq<FrameV>,
    input: Seq<bool>,
) -> FieldsV
    decreases input.len(), fields, fields.len() - i,
{
    if i < 0 || i >= fields.len() {
        FieldsV { result: Ok(parsed), consumed: 0 }
    } else {
        let r = spec_parse(fields[i], ctx.push(FrameV::ChildMap(keys, parsed)), input);
        match r.result {
            Err(e) => FieldsV { result: Err(e), consumed: r.consumed },
            Ok(m) => {
                let more = parse_fields(
                    keys,
                    fields,
                    i + 1,
                    parsed.push(m),
                    ctx,
                    rest(input, r.consumed),
                );
                FieldsV { result: more.result, consumed: r.consumed + more.consumed }
            },
        }
    }
}

/// Parsing copies of `proto` after those parsed so far, `acc`, until the
/// condition holds of the context with `acc` as its innermost level. A copy
/// may take no input; the count of copies is bounded by the largest `usize`,
/// at which the parse fails.
pub open spec fn parse_set(
    name: Seq<char>,
    proto: ModelV,
    pred: CondV,
    acc: Seq<ModelV>,
    ctx: Seq<FrameV>,
    input: Seq<bool>,
) -> ParsedV
    decreases input.len(), proto, usize::MAX + 1 - acc.len(),
{
    let inner = ctx.push(FrameV::ChildList(acc));
    match eval_cond(pred, inner) {
        Some(true) => ParsedV {
            result: Ok(ModelV::SetOf { name, proto: Box::new(proto), children: acc, pred }),
            consumed: 0,
        },
        Some(false) => if acc.len() < usize::MAX {
            let r = spec_parse(proto, inner, input);
            match r.result {
                Err(e) => r,
                Ok(m) => {
                    let more = parse_set(name, proto, pred, acc.push(m), ctx, rest(input, r.consumed));
                    ParsedV { result: more.result, consumed: r.consumed + more.consumed }
                },
            }
        } else {
            ParsedV { result: Err(ErrV::Failed(inner, input)), consumed: 0 }
        },
        None => ParsedV { result: Err(ErrV::Failed(inner, input)), consumed: 0 },
    }
}

/// The bits of a prefix of a list do not depend on what follows it.
pub proof fn lemma_bits_of_all_prefix(s: Seq<ModelV>, t: Seq<ModelV>, n: int)
    requires
        0 <= n <= s.len(),
        n <= t.len(),
        s.take(n) == t.take(n),
    ensures
        bits_of_all(s, n) == bits_of_all(t, n),
    decreases n,
{
    if n > 0 {
        assert(s.take(n - 1) =~= t.take(n - 1)) by {
            assert forall|k: int| 0 <= k < n - 1 implies #[trigger] s.take(n - 1)[k] == t.take(n - 1)[k] by {
                assert(s.take(n)[k] == t.take(n)[k]);
            }
        }
        assert(s[n - 1] == s.take(n)[n - 1]);
        assert(t[n - 1] == t.take(n)[n - 1]);
        lemma_bits_of_all_prefix(s, t, n - 1);
    }
}

/// The bits of a list with one more node are followed by that node's bits.
pub proof fn lemma_bits_of_all_push(s: Seq<ModelV>, m: ModelV)
    ensures
        bits_of_all(s.push(m), s.len() + 1int) == bits_of_all(s, s.len() as int) + spec_bits(m),
{
    assert(s.push(m).take(s.len() as int) =~= s.take(s.len() as int));
    lemma_bits_of_all_prefix(s.push(m), s, s.len() as int);
}

/// A parse takes no more bits than the input has, and what it parsed
/// serialises to exactly the bits it took.
pub proof fn lemma_parse_bits(g: ModelV, ctx: Seq<FrameV>, input: Seq<bool>)
    ensures
        spec_parse(g, ctx, input).consumed <= input.len(),
        spec_parse(g, ctx, input).result matches Ok(m) ==> spec_bits(m) == input.take(
            spec_parse(g, ctx, input).consumed as int,
        ),
    decreases input.len(), g, 0int,
{
    let r = spec_parse(g, ctx, input);
    match g {
        ModelV::U8 { .. } => {},
        ModelV::U16 { .. } => {},
        ModelV::Button { .. } => {
            assert(input.take(0) =~= Seq::<bool>::empty());
        },
        ModelV::Sequence { name, keys, vals } => {
            lemma_fields_bits(keys, vals, 0, Seq::empty(), ctx, input);
            assert(input.take(0) =~= Seq::<bool>::empty());
        },
        ModelV::SetOf { name, proto, children, pred } => {
            lemma_set_bits(name, *proto, pred, Seq::empty(), ctx, input);
        },
        ModelV::Union { name, options, child } => {
            let rs = union_results(options, ctx, input);
            lemma_first_ok(rs, 0);
            if let Some(i) = first_ok(rs, 0) {
                lemma_parse_bits(options[i], ctx.push(FrameV::Zilch), input);
            }
        },
        ModelV::Constraint { name, child, pred } => {
            lemma_parse_bits(*child, ctx, input);
        },
        ModelV::Switch { name, options, child, select } => {
            match eval_select(select, ctx) {
                Some(Some(i)) => if i < options.len() {
                    lemma_parse_bits(options[i as int], ctx.push(FrameV::Zilch), input);
                },
                Some(None) => {
                    lemma_parse_bits(*select.default, ctx.push(FrameV::Zilch), input);
                },
                None => {},
            }
        },
    }
}

proof fn lemma_first_ok(rs: Seq<ParsedV>, i: int)
    ensures
        first_ok(rs, i) matches Some(j) ==> i <= j < rs.len() && rs[j].result is Ok,
    decreases rs.len() - i,
{
    if 0 <= i < rs.len() && !(rs[i].result is Ok) {
        lemma_first_ok(rs, i + 1);
    }
}

proof fn lemma_fields_bits(
    keys: Seq<Seq<char>>,
    fields: Seq<ModelV>,
    i: int,
    parsed: Seq<ModelV>,
    ctx: Seq<FrameV>,
    input: Seq<bool>,
)
    requires
        0 <= i,
    ensures
        parse_fields(keys, fields, i, parsed, ctx, input).consumed <= input.len(),
        parse_fields(keys, fields, i, parsed, ctx, input).result matches Ok(vs) ==> {
            &&& vs.len() >= parsed.len()
            &&& vs.take(parsed.len() as int) == parsed
            &&& bits_of_all(vs, vs.len() as int) == bits_of_all(parsed, parsed.len() as int)
                + input.take(parse_fields(keys, fields, i, parsed, ctx, input).consumed as int)
        },
    decreases input.len(), fields, fields.len() - i,
{
    if i < fields.len() {
        let inner = ctx.push(FrameV::ChildMap(keys, parsed));
        let r = spec_parse(fields[i], inner, input);
        lemma_parse_bits(fields[i], inner, input);
        if let Ok(m) = r.result {
            let next = rest(input, r.consumed);
            lemma_fields_bits(keys, fields, i + 1, parsed.push(m), ctx, next);
            let more = parse_fields(keys, fields, i + 1, parsed.push(m), ctx, next);
            lemma_bits_of_all_push(parsed, m);
            if let Ok(vs) = more.result {
                assert(vs.take(parsed.len() as int) =~= parsed) by {
                    assert forall|k: int| 0 <= k < parsed.len() implies vs[k] == parsed[k] by {
                        assert(vs.take(parsed.len() + 1int)[k] == parsed.push(m)[k]);
                    }
                }
                assert(input.take((r.consumed + more.consumed) as int) =~= input.take(r.consumed as int)
                    + next.take(more.consumed as int));
            }
        }
    } else {
        assert(input.take(0) =~= Seq::<bool>::empty());
        assert(parsed.take(parsed.len() as int) =~= parsed);
    }
}

proof fn lemma_set_bits(
    name: Seq<char>,
    proto: ModelV,
    pred: CondV,
    acc: Seq<ModelV>,
    ctx: Seq<FrameV>,
    input: Seq<bool>,
)
    ensures
        parse_set(name, proto, pred, acc, ctx, input).consumed <= input.len(),
        parse_set(name, proto, pred, acc, ctx, input).result matches Ok(m) ==> (m matches ModelV::SetOf { children, .. } && {
            &&& children.len() >= acc.len()
            &&& children.take(acc.len() as int) == acc
            &&& bits_of_all(children, children.len() as int) == bits_of_all(acc, acc.len() as int)
                + input.take(parse_set(name, proto, pred, acc, ctx, input).consumed as int)
        }),
    decreases input.len(), proto, usize::MAX + 1 - acc.len(),
{
    let inner = ctx.push(FrameV::ChildList(acc));
    match eval_cond(pred, inner) {
        Some(true) => {
            assert(input.take(0) =~= Seq::<bool>::empty());
            assert(acc.take(acc.len() as int) =~= acc);
        },
        Some(false) => if acc.len() < usize::MAX {
            let r = spec_parse(proto, inner, input);
            lemma_parse_bits(proto, inner, input);
            if let Ok(m) = r.result {
                let next = rest(input, r.consumed);
                {
                    lemma_set_bits(name, proto, pred, acc.push(m), ctx, next);
                    let more = parse_set(name, proto, pred, acc.push(m), ctx, next);
                    lemma_bits_of_all_push(acc, m);
                    if let Ok(ModelV::SetOf { children, .. }) = more.result {
                        assert(children.take(acc.len() as int) =~= acc) by {
                            assert forall|k: int| 0 <= k < acc.len() implies children[k] == acc[k] by {
                                assert(children.take(acc.len() + 1int)[k] == acc.push(m)[k]);
                            }
                        }
                        assert(input.take((r.consumed + more.consumed) as int) =~= input.take(r.consumed as int)
                            + next.take(more.consumed as int));
                    }
                }
            }
        },
        None => {},
    }
}

impl DataModel {
    /// A copy of the node and of all it holds.
    pub fn clone(&self) -> (r: DataModel)
        ensures
            r@ == self@,
        decreases self,
    {
        match self {
            DataModel::U8(m) => DataModel::U8(m.clone()),
            DataModel::U16(m) => DataModel::U16(m.clone()),
            DataModel::Button(m) => DataModel::Button(m.clone()),
            DataModel::Sequence(m) => DataModel::Sequence(m.clone()),
            DataModel::SetOf(m) => DataModel::SetOf(m.clone()),
            DataModel::Union(m) => DataModel::Union(m.clone()),
            DataModel::Constraint(m) => DataModel::Constraint(m.clone()),
            DataModel::Switch(m) => DataModel::Switch(m.clone()),
        }
    }
}

/// Copies of the nodes of a list.
pub fn clone_models(v: &Vec<DataModel>) -> (r: Vec<DataModel>)
    ensures
        r@.len() == v@.len(),
        forall|i: int| 0 <= i < v@.len() ==> #[trigger] r@[i]@ == v@[i]@,
    decreases v,
{
    let mut r: Vec<DataModel> = Vec::new();
    let mut i: usize = 0;
    while i < v.len()
        invariant
            i <= v@.len(),
            r@.len() == i,
            forall|j: int| 0 <= j < i ==> #[trigger] r@[j]@ == v@[j]@,
        decreases v@.len() - i,
    {
        proof {
            broadcast use vstd::std_specs::vec::axiom_vec_index_decreases;
            assert(decreases_to!(*v => v[i as int]));
        }
        r.push(v[i].clone());
        i = i + 1;
    }
    r
}

/// The bits of the first `n` nodes take no more than those of the first `m`.
pub proof fn lemma_bits_of_all_len(s: Seq<ModelV>, n: int, m: int)
    requires
        0 <= n <= m <= s.len(),
    ensures
        bits_of_all(s, n).len() <= bits_of_all(s, m).len(),
    decreases m - n,
{
    if n < m {
        lemma_bits_of_all_len(s, n, m - 1);
    }
}

impl DataModel {
    /// A node's view is of the node's own kind.
    pub proof fn lemma_view_kind(&self)
        ensures
            self is U8 <==> self@ is U8,
            self is U16 <==> self@ is U16,
            self is Button <==> self@ is Button,
            self is Sequence <==> self@ is Sequence,
            self is SetOf <==> self@ is SetOf,
            self is Union <==> self@ is Union,
            self is Constraint <==> self@ is Constraint,
            self is Switch <==> self@ is Switch,
    {
        match self {
            DataModel::U8(m) => assert(self@ == m.view()),
            DataModel::U16(m) => assert(self@ == m.view()),
            DataModel::Button(m) => assert(self@ == m.view()),
            DataModel::Sequence(m) => assert(self@ == m.view()),
            DataModel::SetOf(m) => assert(self@ == m.view()),
            DataModel::Union(m) => assert(self@ == m.view()),
            DataModel::Constraint(m) => assert(self@ == m.view()),
            DataModel::Switch(m) => assert(self@ == m.view()),
        }
    }

    /// Where a step leads from this node.
    pub fn step<'a>(&'a self, s: &Step) -> (r: Option<&'a DataModel>)
        ensures
            match r {
                Some(m) => step_model(self@, s@) == Some(m@),
                None => step_model(self@, s@) is None,
            },
    {
        proof {
            self.lemma_view_kind();
        }
        match s {
            Step::Child => match self {
                DataModel::Union(u) => {
                    assert(u.view()->Union_child == (*u.child)@);
                    assert(self@ == u.view());
                    Some(&*u.child)
                },
                DataModel::Constraint(c) => {
                    assert(c.view()->Constraint_child == (*c.child)@);
                    assert(self@ == c.view());
                    Some(&*c.child)
                },
                DataModel::Switch(w) => {
                    assert(w.view()->Switch_child == (*w.child)@);
                    assert(self@ == w.view());
                    Some(&*w.child)
                },
                _ => {
                    None
                },
            },
            Step::Field(n) => match self {
                DataModel::Sequence(q) => {
                    assert(self@ == q.view());
                    q.children.get(n)
                },
                _ => None,
            },
            Step::Last => match self {
                DataModel::SetOf(t) => if t.children.len() > 0 {
                    proof {
                        lemma_models_view(t.children@);
                        assert(self@ == t.view());
                    }
                    Some(&t.children[t.children.len() - 1])
                } else {
                    None
                },
                _ => None,
            },
        }
    }

    /// The integer the node holds, where it is a `U8` or a `U16`.
    pub fn int_value(&self) -> (r: Option<i64>)
        ensures
            match r {
                Some(v) => int_of(self@) == Some(v as int),
                None => int_of(self@) is None,
            },
    {
        match self {
            DataModel::U8(u) => Some(u.value() as i64),
            DataModel::U16(u) => Some(u.value() as i64),
            _ => None,
        }
    }

    /// How many bits the node serialises to, where that fits a bit array.
    pub fn bit_len(&self) -> (r: Option<i32>)
        ensures
            match r {
                Some(n) => n == spec_bits(self@).len(),
                None => spec_bits(self@).len() > i32::MAX,
            },
        decreases self,
    {
        match self {
            DataModel::U8(u) => Some(u.data.len()),
            DataModel::U16(u) => Some(u.data.len()),
            DataModel::Button(_) => Some(0),
            DataModel::Sequence(q) => bit_len_all(&q.children.vals),
            DataModel::SetOf(t) => bit_len_all(&t.children),
            DataModel::Union(u) => (*u.child).bit_len(),
            DataModel::Constraint(c) => (*c.child).bit_len(),
            DataModel::Switch(w) => (*w.child).bit_len(),
        }
    }
}

/// How many bits the nodes of a list serialise to, where that fits a bit array.
pub fn bit_len_all(v: &Vec<DataModel>) -> (r: Option<i32>)
    ensures
        match r {
            Some(n) => n == bits_of_all(models_view(v@), v@.len() as int).len(),
            None => bits_of_all(models_view(v@), v@.len() as int).len() > i32::MAX,
        },
    decreases v,
{
    let ghost s = models_view(v@);
    proof {
        lemma_models_view(v@);
    }
    let mut total: i32 = 0;
    let mut i: usize = 0;
    while i < v.len()
        invariant
            i <= v@.len(),
            s == models_view(v@),
            s.len() == v@.len(),
            total == bits_of_all(s, i as int).len(),
        decreases v@.len() - i,
    {
        proof {
            broadcast use vstd::std_specs::vec::axiom_vec_index_decreases;
            assert(decreases_to!(*v => v[i as int]));
            assert(s[i as int] == v@[i as int]@);
        }
        match v[i].bit_len() {
            Some(n) => {
                if n > i32::MAX - total {
                    proof {
                        lemma_bits_of_all_len(s, i + 1, s.len() as int);
                    }
                    return None;
                }
                total = total + n;
            },
            None => {
                proof {
                    lemma_bits_of_all_len(s, i + 1, s.len() as int);
                }
                return None;
            },
        }
        i = i + 1;
    }
    Some(total)
}

/// The mathematical value of what a parse returned.
pub open spec fn result_view(r: Result<DataModel, ParseError>) -> Result<ModelV, ErrV> {
    match r {
        Ok(m) => Ok(m@),
        Err(e) => Err(e@),
    }
}

/// The views of a list with one more node.
pub proof fn lemma_models_view_push(v: Seq<DataModel>, m: DataModel)
    ensures
        models_view(v.push(m)) == models_view(v).push(m@),
{
    lemma_models_view(v);
    lemma_models_view(v.push(m));
    assert(models_view(v.push(m)) =~= models_view(v).push(m@));
}

impl DataModel {
    /// Parses the front of `input` with this grammar node in the context `ctx`:
    /// the input loses the bits the parse took, and the context is as it was.
    pub fn parse(&self, input: &mut BitArray, ctx: &mut Context) -> (r: Result<DataModel, ParseError>)
        ensures
            result_view(r) == spec_parse(self@, old(ctx)@, old(input)@).result,
            final(input)@ == old(input)@.skip(spec_parse(self@, old(ctx)@, old(input)@).consumed as int),
            final(ctx)@ == old(ctx)@,
        decreases self,
    {
        proof {
            self.lemma_view_kind();
        }
        match self {
            DataModel::U8(m) => {
                assert(self@ == m.view());
                m.parse(input, ctx)
            },
            DataModel::U16(m) => {
                assert(self@ == m.view());
                m.parse(input, ctx)
            },
            DataModel::Button(m) => {
                assert(self@ == m.view());
                m.parse(input, ctx)
            },
            DataModel::Sequence(m) => {
                assert(self@ == m.view());
                m.parse(input, ctx)
            },
            DataModel::SetOf(m) => {
                assert(self@ == m.view());
                m.parse(input, ctx)
            },
            DataModel::Union(m) => {
                assert(self@ == m.view());
                m.parse(input, ctx)
            },
            DataModel::Constraint(m) => {
                assert(self@ == m.view());
                m.parse(input, ctx)
            },
            DataModel::Switch(m) => {
                assert(self@ == m.view());
                m.parse(input, ctx)
            },
        }
    }
}

/// Where the results before the `i`th all failed, the first success is the
/// first one from the `i`th on.
pub proof fn lemma_first_ok_skip(rs: Seq<ParsedV>, i: int)
    requires
        0 <= i <= rs.len(),
        forall|j: int| 0 <= j < i ==> !(#[trigger] rs[j].result is Ok),
    ensures
        first_ok(rs, 0) == first_ok(rs, i),
    decreases i,
{
    if i > 0 {
        lemma_first_ok_skip(rs, i - 1);
    }
}

impl DataModel {
    /// Appends the node's bits to `ba`.
    pub fn do_serialization(&self, ba: &mut BitArray)
        requires
            old(ba)@.len() + spec_bits(self@).len() + 7 <= i32::MAX,
        ensures
            final(ba)@ == old(ba)@ + spec_bits(self@),
        decreases self,
    {
        proof {
            self.lemma_view_kind();
        }
        match self {
            DataModel::U8(m) => {
                assert(self@ == m.view());
                ba.extend(&m.data);
            },
            DataModel::U16(m) => {
                assert(self@ == m.view());
                ba.extend(&m.data);
            },
            DataModel::Button(m) => {
                assert(self@ == m.view());
                assert(old(ba)@ + spec_bits(self@) =~= old(ba)@);
            },
            DataModel::Sequence(m) => {
                assert(self@ == m.view());
                serialize_all(&m.children.vals, ba);
            },
            DataModel::SetOf(m) => {
                assert(self@ == m.view());
                serialize_all(&m.children, ba);
            },
            DataModel::Union(m) => {
                assert(self@ == m.view());
                (*m.child).do_serialization(ba);
            },
            DataModel::Constraint(m) => {
                assert(self@ == m.view());
                (*m.child).do_serialization(ba);
            },
            DataModel::Switch(m) => {
                assert(self@ == m.view());
                (*m.child).do_serialization(ba);
            },
        }
    }

    /// The node's bits.
    pub fn serialize(&self) -> (r: BitArray)
        requires
            spec_bits(self@).len() + 7 <= i32::MAX,
        ensures
            r@ == spec_bits(self@),
    {
        let mut ba = BitArray::fresh();
        self.do_serialization(&mut ba);
        assert(ba@ =~= spec_bits(self@));
        ba
    }
}

/// Appends the bits of the nodes of a list, in order, to `ba`.
pub fn serialize_all(v: &Vec<DataModel>, ba: &mut BitArray)
    requires
        old(ba)@.len() + bits_of_all(models_view(v@), v@.len() as int).len() + 7 <= i32::MAX,
    ensures
        final(ba)@ == old(ba)@ + bits_of_all(models_view(v@), v@.len() as int),
    decreases v,
{
    let ghost s = models_view(v@);
    let ghost b0 = ba@;
    proof {
        lemma_models_view(v@);
        assert(b0 + bits_of_all(s, 0) =~= b0);
    }
    let mut i: usize = 0;
    while i < v.len()
        invariant
            i <= v@.len(),
            s == models_view(v@),
            s.len() == v@.len(),
            b0.len() + bits_of_all(s, s.len() as int).len() + 7 <= i32::MAX,
            ba@ == b0 + bits_of_all(s, i as int),
        decreases v@.len() - i,
    {
        proof {
            broadcast use vstd::std_specs::vec::axiom_vec_index_decreases;
            assert(decreases_to!(*v => v[i as int]));
            assert(s[i as int] == v@[i as int]@);
            lemma_bits_of_all_len(s, i + 1, s.len() as int);
        }
        v[i].do_serialization(ba);
        assert(ba@ =~= b0 + bits_of_all(s, i + 1));
        i = i + 1;
    }
}

/// The name of a node.
pub open spec fn name_of(m: ModelV) -> Seq<char> {
    match m {
        ModelV::U8 { name, .. } => name,
        ModelV::U16 { name, .. } => name,
        ModelV::Button { name } => name,
        ModelV::Sequence { name, .. } => name,
        ModelV::SetOf { name, .. } => name,
        ModelV::Union { name, .. } => name,
        ModelV::Constraint { name, .. } => name,
        ModelV::Switch { name, .. } => name,
    }
}

/// The node with another name and all else the same.
pub open spec fn with_name(m: ModelV, n: Seq<char>) -> ModelV {
    match m {
        ModelV::U8 { bits, .. } => ModelV::U8 { name: n, bits },
        ModelV::U16 { bits, .. } => ModelV::U16 { name: n, bits },
        ModelV::Button { .. } => ModelV::Button { name: n },
        ModelV::Sequence { keys, vals, .. } => ModelV::Sequence { name: n, keys, vals },
        ModelV::SetOf { proto, children, pred, .. } => ModelV::SetOf { name: n, proto, children, pred },
        ModelV::Union { options, child, .. } => ModelV::Union { name: n, options, child },
        ModelV::Constraint { child, pred, .. } => ModelV::Constraint { name: n, child, pred },
        ModelV::Switch { options, child, select, .. } => ModelV::Switch { name: n, options, child, select },
    }
}

/// What has a name.
pub trait Named {
    spec fn model(&self) -> ModelV;

    fn name(&self) -> (r: &String)
        ensures
            r@ == name_of(self.model()),
    ;

    fn set_name(&mut self, name: &str)
        ensures
            final(self).model() == with_name(old(self).model(), name@),
    ;
}

impl Named for DataModel {
    open spec fn model(&self) -> ModelV {
        self@
    }

    fn name(&self) -> (r: &String) {
        proof {
            self.lemma_view_kind();
        }
        match self {
            DataModel::U8(m) => {
                assert(self@ == m.model());
                m.name()
            },
            DataModel::U16(m) => {
                assert(self@ == m.model());
                m.name()
            },
            DataModel::Button(m) => {
                assert(self@ == m.model());
                m.name()
            },
            DataModel::Sequence(m) => {
                assert(self@ == m.model());
                m.name()
            },
            DataModel::SetOf(m) => {
                assert(self@ == m.model());
                m.name()
            },
            DataModel::Union(m) => {
                assert(self@ == m.model());
                m.name()
            },
            DataModel::Constraint(m) => {
                assert(self@ == m.model());
                m.name()
            },
            DataModel::Switch(m) => {
                assert(self@ == m.model());
                m.name()
            },
        }
    }

    fn set_name(&mut self, name: &str) {
        match self {
            DataModel::U8(m) => m.set_name(name),
            DataModel::U16(m) => m.set_name(name),
            DataModel::Button(m) => m.set_name(name),
            DataModel::Sequence(m) => m.set_name(name),
            DataModel::SetOf(m) => m.set_name(name),
            DataModel::Union(m) => m.set_name(name),
            DataModel::Constraint(m) => m.set_name(name),
            DataModel::Switch(m) => m.set_name(name),
        }
    }
}

impl DataModel {
    /// The single child of a union, constraint or switch.
    pub fn child(&self) -> (r: &DataModel)
        requires
            self@ is Union || self@ is Constraint || self@ is Switch,
        ensures
            step_model(self@, StepV::Child) == Some(r@),
    {
        proof {
            self.lemma_view_kind();
        }
        match self {
            DataModel::Union(u) => {
                assert(self@ == u.view());
                &*u.child
            },
            DataModel::Constraint(c) => {
                assert(self@ == c.view());
                &*c.child
            },
            DataModel::Switch(w) => {
                assert(self@ == w.view());
                &*w.child
            },
            _ => unreached(),
        }
    }

    /// The named children of a sequence.
    pub fn map(&self) -> (r: &ChildMap)
        requires
            self@ is Sequence,
        ensures
            self@->Sequence_keys == r.keys_view(),
            self@->Sequence_vals == r.vals_view(),
    {
        proof {
            self.lemma_view_kind();
        }
        match self {
            DataModel::Sequence(q) => {
                assert(self@ == q.view());
                &q.children
            },
            _ => unreached(),
        }
    }
}

/// Whether fuzzing the node is defined: it reaches no union.
pub open spec fn fuzzable(m: ModelV) -> bool
    decreases m,
{
    match m {
        ModelV::Sequence { vals, .. } => forall|i: int| 0 <= i < vals.len() ==> fuzzable(#[trigger] vals[i]),
        ModelV::SetOf { children, .. } => forall|i: int|
            0 <= i < children.len() ==> fuzzable(#[trigger] children[i]),
        ModelV::Union { .. } => false,
        ModelV::Constraint { child, .. } => fuzzable(*child),
        ModelV::Switch { child, .. } => fuzzable(*child),
        _ => true,
    }
}

/// The variants of a node that fuzzing gives.
pub open spec fn spec_fuzz(m: ModelV) -> Seq<ModelV>
    decreases m, 0int,
{
    match m {
        ModelV::U8 { .. } => seq![
            ModelV::U8 { name: "U8"@, bits: byte_bits(0xFF) },
            ModelV::U8 { name: "U8"@, bits: byte_bits(0xAA) },
        ],
        ModelV::U16 { .. } => seq![
            ModelV::U16 { name: "U16"@, bits: u16_bits(0xFFFF) },
            ModelV::U16 { name: "U16"@, bits: u16_bits(0xAAAA) },
        ],
        ModelV::Button { .. } => Seq::empty(),
        ModelV::Sequence { name, keys, vals } => fuzz_fields(name, keys, vals, vals.len() as int),
        ModelV::SetOf { name, proto, children, pred } => fuzz_children(
            name,
            *proto,
            children,
            pred,
            children.len() as int,
        ),
        ModelV::Union { .. } => Seq::empty(),
        ModelV::Constraint { child, .. } => spec_fuzz(*child),
        ModelV::Switch { name, options, child, select } => spec_fuzz(*child).map_values(
            |c: ModelV| ModelV::Switch { name, options, child: Box::new(c), select },
        ),
    }
}

/// The sequence with the `i`th field replaced by each variant of it in turn.
pub open spec fn field_variants(name: Seq<char>, keys: Seq<Seq<char>>, vals: Seq<ModelV>, i: int) -> Seq<
    ModelV,
>
    decreases vals, 0int,
{
    if 0 <= i < vals.len() {
        spec_fuzz(vals[i]).map_values(
            |c: ModelV| ModelV::Sequence { name, keys, vals: vals.update(i, c) },
        )
    } else {
        Seq::empty()
    }
}

/// The variants of a sequence from its first `n` fields, field by field.
pub open spec fn fuzz_fields(name: Seq<char>, keys: Seq<Seq<char>>, vals: Seq<ModelV>, n: int) -> Seq<
    ModelV,
>
    decreases vals, n,
{
    if n <= 0 || n > vals.len() {
        Seq::empty()
    } else {
        fuzz_fields(name, keys, vals, n - 1) + field_variants(name, keys, vals, n - 1)
    }
}

/// The set with the `i`th child replaced by each variant of it in turn.
pub open spec fn child_variants(
    name: Seq<char>,
    proto: ModelV,
    children: Seq<ModelV>,
    pred: CondV,
    i: int,
) -> Seq<ModelV>
    decreases children, 0int,
{
    if 0 <= i < children.len() {
        spec_fuzz(children[i]).map_values(
            |c: ModelV|
                ModelV::SetOf { name, proto: Box::new(proto), children: children.update(i, c), pred },
        )
    } else {
        Seq::empty()
    }
}

/// The variants of a set from its first `n` children, child by child.
pub open spec fn fuzz_children(
    name: Seq<char>,
    proto: ModelV,
    children: Seq<ModelV>,
    pred: CondV,
    n: int,
) -> Seq<ModelV>
    decreases children, n,
{
    if n <= 0 || n > children.len() {
        Seq::empty()
    } else {
        fuzz_children(name, proto, children, pred, n - 1) + child_variants(name, proto, children, pred, n - 1)
    }
}

impl DataModel {
    /// Variants of the node, for fuzzing: each leaf of fixed size gives set
    /// values, and a node with children gives one variant for each variant of
    /// each child.
    pub fn fuzz(&self) -> (r: Vec<DataModel>)
        requires
            fuzzable(self@),
        ensures
            models_view(r@) == spec_fuzz(self@),
        decreases self,
    {
        proof {
            self.lemma_view_kind();
        }
        match self {
            DataModel::U8(m) => {
                assert(self@ == m.view());
                m.fuzz()
            },
            DataModel::U16(m) => {
                assert(self@ == m.view());
                m.fuzz()
            },
            DataModel::Button(m) => {
                assert(self@ == m.view());
                let r: Vec<DataModel> = Vec::new();
                proof {
                    lemma_models_view(r@);
                    assert(models_view(r@) =~= spec_fuzz(self@));
                }
                r
            },
            DataModel::Sequence(m) => {
                assert(self@ == m.view());
                m.fuzz()
            },
            DataModel::SetOf(m) => {
                assert(self@ == m.view());
                m.fuzz()
            },
            DataModel::Union(m) => {
                assert(self@ == m.view());
                unreached()
            },
            DataModel::Constraint(m) => {
                assert(self@ == m.view());
                assert(m.view()->Constraint_child == (*m.child)@);
                (*m.child).fuzz()
            },
            DataModel::Switch(m) => {
                assert(self@ == m.view());
                m.fuzz()
            },
        }
    }
}

/// The values of a list of strings.
pub open spec fn strings_view(v: Seq<String>) -> Seq<Seq<char>> {
    Seq::new(v.len(), |i: int| v[i]@)
}

/// The names that make up the features of a node: its own, then those of
/// every child it may hold (for a set, those of its prototype).
pub open spec fn feature_names(m: ModelV) -> Seq<Seq<char>>
    decreases m, 0int,
{
    match m {
        ModelV::Sequence { name, vals, .. } => seq![name] + features_of_all(vals, vals.len() as int),
        ModelV::SetOf { name, proto, .. } => seq![name] + feature_names(*proto),
        ModelV::Constraint { name, child, .. } => seq![name] + feature_names(*child),
        ModelV::Switch { name, options, .. } => seq![name] + features_of_all(options, options.len() as int),
        _ => seq![name_of(m)],
    }
}

/// The feature names of the first `n` nodes of `s`, one after the other.
pub open spec fn features_of_all(s: Seq<ModelV>, n: int) -> Seq<Seq<char>>
    decreases s, n,
{
    if n <= 0 || n > s.len() {
        Seq::empty()
    } else {
        features_of_all(s, n - 1) + feature_names(s[n - 1])
    }
}

/// The names a node tallies, in order: its own, then those of the children
/// it holds (for a union, none).
pub open spec fn tally_names(m: ModelV) -> Seq<Seq<char>>
    decreases m, 0int,
{
    match m {
        ModelV::Sequence { name, vals, .. } => seq![name] + tallies_of_all(vals, vals.len() as int),
        ModelV::SetOf { name, children, .. } => seq![name] + tallies_of_all(children, children.len() as int),
        ModelV::Constraint { name, child, .. } => seq![name] + tally_names(*child),
        ModelV::Switch { name, child, .. } => seq![name] + tally_names(*child),
        _ => seq![name_of(m)],
    }
}

/// The tallied names of the first `n` nodes of `s`, one after the other.
pub open spec fn tallies_of_all(s: Seq<ModelV>, n: int) -> Seq<Seq<char>>
    decreases s, n,
{
    if n <= 0 || n > s.len() {
        Seq::empty()
    } else {
        tallies_of_all(s, n - 1) + tally_names(s[n - 1])
    }
}

/// `names` with `n` added at the end, unless it holds `n` already: what a
/// set of names gains from `n`.
pub open spec fn add_name(names: Seq<Seq<char>>, n: Seq<char>) -> Seq<Seq<char>> {
    if names.contains(n) {
        names
    } else {
        names.push(n)
    }
}

/// `names` with each of `ns` added in turn.
pub open spec fn add_names(names: Seq<Seq<char>>, ns: Seq<Seq<char>>) -> Seq<Seq<char>>
    decreases ns.len(),
{
    if ns.len() == 0 {
        names
    } else {
        add_name(add_names(names, ns.drop_last()), ns.last())
    }
}

/// Adding two lists of names one after the other adds the two together.
pub proof fn lemma_add_names_concat(a: Seq<Seq<char>>, s: Seq<Seq<char>>, t: Seq<Seq<char>>)
    ensures
        add_names(add_names(a, s), t) == add_names(a, s + t),
    decreases t.len(),
{
    if t.len() == 0 {
        assert(s + t =~= s);
    } else {
        lemma_add_names_concat(a, s, t.drop_last());
        assert((s + t).drop_last() =~= s + t.drop_last());
        assert((s + t).last() == t.last());
    }
}

/// Adding names keeps a list free of repeats, and it then holds exactly the
/// names it held and those added: it is the set of them all.
pub proof fn lemma_add_names_set(a: Seq<Seq<char>>, ns: Seq<Seq<char>>)
    requires
        a.no_duplicates(),
    ensures
        add_names(a, ns).no_duplicates(),
        add_names(a, ns).to_set() == a.to_set() + ns.to_set(),
    decreases ns.len(),
{
    if ns.len() == 0 {
        assert(ns.to_set() =~= Set::empty());
        assert(a.to_set() + ns.to_set() =~= a.to_set());
    } else {
        let b = add_names(a, ns.drop_last());
        lemma_add_names_set(a, ns.drop_last());
        assert(ns =~= ns.drop_last().push(ns.last()));
        assert(ns.to_set() =~= ns.drop_last().to_set().insert(ns.last())) by {
            assert forall|x: Seq<char>| ns.to_set().contains(x) <==> ns.drop_last().to_set().insert(ns.last()).contains(x) by {
                if ns.contains(x) {
                    let k = choose|k: int| 0 <= k < ns.len() && ns[k] == x;
                    if k < ns.len() - 1 {
                        assert(ns.drop_last()[k] == x);
                    }
                }
                if ns.drop_last().contains(x) {
                    let k = choose|k: int| 0 <= k < ns.drop_last().len() && ns.drop_last()[k] == x;
                    assert(ns[k] == x);
                }
            }
        }
        if b.contains(ns.last()) {
            assert(b.to_set().contains(ns.last()));
            assert(b.to_set() =~= a.to_set() + ns.to_set());
        } else {
            let c = b.push(ns.last());
            assert(c.no_duplicates()) by {
                assert forall|i: int, j: int| 0 <= i < c.len() && 0 <= j < c.len() && i != j implies c[i] != c[j] by {
                    if i < b.len() && j < b.len() {
                        assert(c[i] == b[i] && c[j] == b[j]);
                    } else if i < b.len() {
                        assert(c[i] == b[i]);
                    } else {
                        assert(c[j] == b[j]);
                    }
                }
            }
            assert(c.to_set() =~= b.to_set().insert(ns.last())) by {
                assert forall|x: Seq<char>| c.to_set().contains(x) <==> b.to_set().insert(ns.last()).contains(x) by {
                    if c.contains(x) {
                        let k = choose|k: int| 0 <= k < c.len() && c[k] == x;
                        if k < b.len() {
                            assert(b[k] == x);
                        }
                    }
                    if b.contains(x) {
                        let k = choose|k: int| 0 <= k < b.len() && b[k] == x;
                        assert(c[k] == x);
                    }
                    if x == ns.last() {
                        assert(c[b.len() as int] == x);
                    }
                }
            }
            assert(c.to_set() =~= a.to_set() + ns.to_set());
        }
    }
}

/// Adds the name of `m` to `names` unless it holds that name already.
fn insert_name(m: &DataModel, names: &mut Vec<String>)
    ensures
        strings_view(final(names)@) == add_name(strings_view(old(names)@), name_of(m@)),
{
    let n = m.name();
    let ghost start = strings_view(names@);
    let mut i: usize = 0;
    while i < names.len()
        invariant
            i <= names@.len(),
            strings_view(names@) == start,
            n@ == name_of(m@),
            forall|j: int| 0 <= j < i ==> names@[j]@ != n@,
        decreases names@.len() - i,
    {
        if names[i] == *n {
            assert(start[i as int] == n@);
            assert(start.contains(n@));
            return;
        }
        i = i + 1;
    }
    assert(!start.contains(n@)) by {
        if start.contains(n@) {
            let k = choose|k: int| 0 <= k < start.len() && start[k] == n@;
            assert(names@[k]@ == n@);
        }
    }
    names.push(n.clone());
    assert(strings_view(names@) =~= start.push(n@));
}

fn push_name(m: &DataModel, names: &mut Vec<String>)
    ensures
        strings_view(final(names)@) == strings_view(old(names)@).push(name_of(m@)),
{
    let n = m.name().clone();
    names.push(n);
    assert(strings_view(names@) =~= strings_view(old(names)@).push(name_of(m@)));
}

impl DataModel {
    /// Adds the node's feature names to the set `features`, each that it
    /// does not hold yet at its end.
    pub fn do_features(&self, features: &mut Vec<String>)
        ensures
            strings_view(final(features)@) == add_names(strings_view(old(features)@), feature_names(self@)),
        decreases self,
    {
        proof {
            self.lemma_view_kind();
        }
        let ghost f0 = strings_view(features@);
        insert_name(self, features);
        let ghost f1 = strings_view(features@);
        let ghost one = seq![name_of(self@)];
        let ghost rest = feature_names(self@).skip(1);
        proof {
            assert(one.drop_last() =~= Seq::<Seq<char>>::empty());
            assert(add_names(f0, one.drop_last()) == f0);
            assert(add_names(f0, one) == f1);
            assert(feature_names(self@) =~= one + rest);
        }
        match self {
            DataModel::Sequence(m) => {
                assert(self@ == m.view());
                features_all(&m.children.vals, features);
                assert(rest =~= features_of_all(m.view()->Sequence_vals, m.view()->Sequence_vals.len() as int));
            },
            DataModel::SetOf(m) => {
                assert(self@ == m.view());
                (*m.child_prototype).do_features(features);
                assert(rest =~= feature_names(*m.view()->SetOf_proto));
            },
            DataModel::Constraint(m) => {
                assert(self@ == m.view());
                (*m.child).do_features(features);
                assert(rest =~= feature_names(*m.view()->Constraint_child));
            },
            DataModel::Switch(m) => {
                assert(self@ == m.view());
                features_all(&m.potential_children, features);
                assert(rest =~= features_of_all(m.view()->Switch_options, m.view()->Switch_options.len() as int));
            },
            DataModel::U8(m) => {
                assert(self@ == m.view());
                assert(rest =~= Seq::<Seq<char>>::empty());
            },
            DataModel::U16(m) => {
                assert(self@ == m.view());
                assert(rest =~= Seq::<Seq<char>>::empty());
            },
            DataModel::Button(m) => {
                assert(self@ == m.view());
                assert(rest =~= Seq::<Seq<char>>::empty());
            },
            DataModel::Union(m) => {
                assert(self@ == m.view());
                assert(rest =~= Seq::<Seq<char>>::empty());
            },
        }
        proof {
            lemma_add_names_concat(f0, one, rest);
        }
    }

    /// Appends the names the node tallies, in order, to `tallies`.
    pub fn do_vectorization(&self, tallies: &mut Vec<String>)
        ensures
            strings_view(final(tallies)@) == strings_view(old(tallies)@) + tally_names(self@),
        decreases self,
    {
        proof {
            self.lemma_view_kind();
        }
        let ghost t0 = strings_view(tallies@);
        push_name(self, tallies);
        match self {
            DataModel::Sequence(m) => {
                assert(self@ == m.view());
                tallies_all(&m.children.vals, tallies);
            },
            DataModel::SetOf(m) => {
                assert(self@ == m.view());
                tallies_all(&m.children, tallies);
            },
            DataModel::Constraint(m) => {
                assert(self@ == m.view());
                (*m.child).do_vectorization(tallies);
            },
            DataModel::Switch(m) => {
                assert(self@ == m.view());
                (*m.child).do_vectorization(tallies);
            },
            DataModel::U8(m) => {
                assert(self@ == m.view());
            },
            DataModel::U16(m) => {
                assert(self@ == m.view());
            },
            DataModel::Button(m) => {
                assert(self@ == m.view());
            },
            DataModel::Union(m) => {
                assert(self@ == m.view());
            },
        }
        assert(strings_view(tallies@) =~= t0 + tally_names(self@));
    }
}

/// Appends the feature names of the nodes of a list, in order.
fn features_all(v: &Vec<DataModel>, features: &mut Vec<String>)
    ensures
        strings_view(final(features)@) == add_names(
            strings_view(old(features)@),
            features_of_all(models_view(v@), v@.len() as int),
        ),
    decreases v,
{
    let ghost s = models_view(v@);
    let ghost f0 = strings_view(features@);
    proof {
        lemma_models_view(v@);
    }
    let mut i: usize = 0;
    while i < v.len()
        invariant
            i <= v@.len(),
            s == models_view(v@),
            s.len() == v@.len(),
            strings_view(features@) == add_names(f0, features_of_all(s, i as int)),
        decreases v@.len() - i,
    {
        proof {
            broadcast use vstd::std_specs::vec::axiom_vec_index_decreases;
            assert(decreases_to!(*v => v[i as int]));
            assert(s[i as int] == v@[i as int]@);
        }
        v[i].do_features(features);
        proof {
            lemma_add_names_concat(f0, features_of_all(s, i as int), feature_names(s[i as int]));
        }
        i = i + 1;
    }
}

/// Appends the tallied names of the nodes of a list, in order.
fn tallies_all(v: &Vec<DataModel>, tallies: &mut Vec<String>)
    ensures
        strings_view(final(tallies)@) == strings_view(old(tallies)@) + tallies_of_all(
            models_view(v@),
            v@.len() as int,
        ),
    decreases v,
{
    let ghost s = models_view(v@);
    let ghost t0 = strings_view(tallies@);
    proof {
        lemma_models_view(v@);
        assert(t0 + tallies_of_all(s, 0) =~= t0);
    }
    let mut i: usize = 0;
    while i < v.len()
        invariant
            i <= v@.len(),
            s == models_view(v@),
            s.len() == v@.len(),
            strings_view(tallies@) == t0 + tallies_of_all(s, i as int),
        decreases v@.len() - i,
    {
        proof {
            broadcast use vstd::std_specs::vec::axiom_vec_index_decreases;
            assert(decreases_to!(*v => v[i as int]));
            assert(s[i as int] == v@[i as int]@);
        }
        v[i].do_vectorization(tallies);
        assert(strings_view(tallies@) =~= t0 + tallies_of_all(s, i + 1));
        i = i + 1;
    }
}

/// Setting a name and then reading it gives that name, and setting back the
/// old name gives the node as it was: renaming changes nothing else.
pub proof fn lemma_set_name_then_name(m: ModelV, n: Seq<char>)
    ensures
        name_of(with_name(m, n)) == n,
        with_name(with_name(m, n), name_of(m)) == m,
{
}

/// A parse result with the parsed tree renamed to `n`.
pub open spec fn rename_result(r: Result<ModelV, ErrV>, n: Seq<char>) -> Result<ModelV, ErrV> {
    match r {
        Ok(t) => Ok(with_name(t, n)),
        Err(e) => Err(e),
    }
}

/// Renaming a node changes nothing but its name: it serialises to the same
/// bits, fuzzing it is allowed as before and gives as many variants, and
/// parsing with it takes the same bits and gives the same tree under the new
/// name (for a switch, whose result is that of its alternative, the same tree).
pub proof fn lemma_rename_keeps_behaviour(m: ModelV, n: Seq<char>, ctx: Seq<FrameV>, input: Seq<bool>)
    ensures
        spec_bits(with_name(m, n)) == spec_bits(m),
        fuzzable(with_name(m, n)) == fuzzable(m),
        spec_fuzz(with_name(m, n)).len() == spec_fuzz(m).len(),
        spec_parse(with_name(m, n), ctx, input).consumed == spec_parse(m, ctx, input).consumed,
        spec_parse(with_name(m, n), ctx, input).result == (if m is Switch {
            spec_parse(m, ctx, input).result
        } else {
            rename_result(spec_parse(m, ctx, input).result, n)
        }),
{
    match m {
        ModelV::Sequence { name, keys, vals } => {
            lemma_fuzz_fields_len(name, n, keys, vals, vals.len() as int);
        },
        ModelV::SetOf { name, proto, children, pred } => {
            lemma_fuzz_children_len(name, n, *proto, children, pred, children.len() as int);
            lemma_parse_set_rename(name, n, *proto, pred, Seq::empty(), ctx, input);
        },
        _ => {},
    }
}

proof fn lemma_fuzz_fields_len(name: Seq<char>, n: Seq<char>, keys: Seq<Seq<char>>, vals: Seq<ModelV>, k: int)
    ensures
        fuzz_fields(n, keys, vals, k).len() == fuzz_fields(name, keys, vals, k).len(),
    decreases k,
{
    if 0 < k <= vals.len() {
        lemma_fuzz_fields_len(name, n, keys, vals, k - 1);
        assert(field_variants(n, keys, vals, k - 1).len() == spec_fuzz(vals[k - 1]).len());
        assert(field_variants(name, keys, vals, k - 1).len() == spec_fuzz(vals[k - 1]).len());
    }
}

proof fn lemma_fuzz_children_len(
    name: Seq<char>,
    n: Seq<char>,
    proto: ModelV,
    children: Seq<ModelV>,
    pred: CondV,
    k: int,
)
    ensures
        fuzz_children(n, proto, children, pred, k).len() == fuzz_children(name, proto, children, pred, k).len(),
    decreases k,
{
    if 0 < k <= children.len() {
        lemma_fuzz_children_len(name, n, proto, children, pred, k - 1);
        assert(child_variants(n, proto, children, pred, k - 1).len() == spec_fuzz(children[k - 1]).len());
        assert(child_variants(name, proto, children, pred, k - 1).len() == spec_fuzz(children[k - 1]).len());
    }
}

proof fn lemma_parse_set_rename(
    name: Seq<char>,
    n: Seq<char>,
    proto: ModelV,
    pred: CondV,
    acc: Seq<ModelV>,
    ctx: Seq<FrameV>,
    input: Seq<bool>,
)
    ensures
        parse_set(n, proto, pred, acc, ctx, input).consumed == parse_set(name, proto, pred, acc, ctx, input).consumed,
        parse_set(n, proto, pred, acc, ctx, input).result == rename_result(
            parse_set(name, proto, pred, acc, ctx, input).result,
            n,
        ),
    decreases input.len(), usize::MAX + 1 - acc.len(),
{
    let inner = ctx.push(FrameV::ChildList(acc));
    if eval_cond(pred, inner) == Some(false) && acc.len() < usize::MAX {
        let r = spec_parse(proto, inner, input);
        if let Ok(m) = r.result {
            lemma_parse_bits(proto, inner, input);
            lemma_parse_set_rename(name, n, proto, pred, acc.push(m), ctx, rest(input, r.consumed));
        }
    }
}

/// A constraint that parsed holds of the child it parsed.
pub proof fn lemma_constraint_holds(
    name: Seq<char>,
    child: ModelV,
    pred: CondV,
    ctx: Seq<FrameV>,
    input: Seq<bool>,
)
    ensures
        spec_parse(ModelV::Constraint { name, child: Box::new(child), pred }, ctx, input).result matches Ok(m) ==> {
            &&& m is Constraint
            &&& eval_cond(pred, ctx.push(FrameV::Child(*m->Constraint_child))) == Some(true)
        },
{
}

/// A set that parsed ends with children of which its condition holds.
pub proof fn lemma_set_holds(
    name: Seq<char>,
    proto: ModelV,
    children: Seq<ModelV>,
    pred: CondV,
    ctx: Seq<FrameV>,
    input: Seq<bool>,
)
    ensures
        spec_parse(ModelV::SetOf { name, proto: Box::new(proto), children, pred }, ctx, input).result matches Ok(m) ==> {
            &&& m is SetOf
            &&& eval_cond(pred, ctx.push(FrameV::ChildList(m->SetOf_children))) == Some(true)
        },
{
    lemma_set_loop_holds(name, proto, pred, Seq::empty(), ctx, input);
}

proof fn lemma_set_loop_holds(
    name: Seq<char>,
    proto: ModelV,
    pred: CondV,
    acc: Seq<ModelV>,
    ctx: Seq<FrameV>,
    input: Seq<bool>,
)
    ensures
        parse_set(name, proto, pred, acc, ctx, input).result matches Ok(m) ==> {
            &&& m is SetOf
            &&& eval_cond(pred, ctx.push(FrameV::ChildList(m->SetOf_children))) == Some(true)
        },
    decreases input.len(), usize::MAX + 1 - acc.len(),
{
    let inner = ctx.push(FrameV::ChildList(acc));
    if eval_cond(pred, inner) == Some(false) && acc.len() < usize::MAX {
        let r = spec_parse(proto, inner, input);
        if let Ok(m) = r.result {
            let next = rest(input, r.consumed);
            lemma_set_loop_holds(name, proto, pred, acc.push(m), ctx, next);
        }
    }
}

/// A sequence that parsed has the grammar's name and names, and one parsed
/// field for each of the grammar's fields.
pub proof fn lemma_sequence_shape(
    name: Seq<char>,
    keys: Seq<Seq<char>>,
    vals: Seq<ModelV>,
    ctx: Seq<FrameV>,
    input: Seq<bool>,
)
    ensures
        spec_parse(ModelV::Sequence { name, keys, vals }, ctx, input).result matches Ok(m) ==> {
            &&& m is Sequence
            &&& m->Sequence_name == name
            &&& m->Sequence_keys == keys
            &&& m->Sequence_vals.len() == vals.len()
        },
{
    lemma_fields_count(keys, vals, 0, Seq::empty(), ctx, input);
}

proof fn lemma_fields_count(
    keys: Seq<Seq<char>>,
    fields: Seq<ModelV>,
    i: int,
    parsed: Seq<ModelV>,
    ctx: Seq<FrameV>,
    input: Seq<bool>,
)
    requires
        0 <= i <= fields.len(),
    ensures
        parse_fields(keys, fields, i, parsed, ctx, input).result matches Ok(vs) ==> vs.len() == parsed.len()
            + fields.len() - i,
    decreases fields.len() - i,
{
    if i < fields.len() {
        let r = spec_parse(fields[i], ctx.push(FrameV::ChildMap(keys, parsed)), input);
        if let Ok(m) = r.result {
            lemma_fields_count(keys, fields, i + 1, parsed.push(m), ctx, rest(input, r.consumed));
        }
    }
}

/// A sequence whose last field is a `Button` parses only the whole input: a
/// parse of it that succeeds takes every bit.
pub proof fn lemma_sequence_ending_in_button(
    name: Seq<char>,
    keys: Seq<Seq<char>>,
    vals: Seq<ModelV>,
    ctx: Seq<FrameV>,
    input: Seq<bool>,
)
    requires
        vals.len() > 0,
        vals.last() is Button,
    ensures
        spec_parse(ModelV::Sequence { name, keys, vals }, ctx, input).result is Ok ==> spec_parse(
            ModelV::Sequence { name, keys, vals },
            ctx,
            input,
        ).consumed == input.len(),
{
    lemma_fields_take_all(keys, vals, 0, Seq::empty(), ctx, input);
}

proof fn lemma_fields_take_all(
    keys: Seq<Seq<char>>,
    fields: Seq<ModelV>,
    i: int,
    parsed: Seq<ModelV>,
    ctx: Seq<FrameV>,
    input: Seq<bool>,
)
    requires
        0 <= i < fields.len(),
        fields.last() is Button,
    ensures
        parse_fields(keys, fields, i, parsed, ctx, input).result is Ok ==> parse_fields(
            keys,
            fields,
            i,
            parsed,
            ctx,
            input,
        ).consumed == input.len(),
    decreases fields.len() - i,
{
    let inner = ctx.push(FrameV::ChildMap(keys, parsed));
    let r = spec_parse(fields[i], inner, input);
    lemma_parse_bits(fields[i], inner, input);
    if let Ok(m) = r.result {
        let next = rest(input, r.consumed);
        if i + 1 < fields.len() {
            lemma_fields_take_all(keys, fields, i + 1, parsed.push(m), ctx, next);
        } else {
            assert(fields[i] is Button);
            assert(input.len() == 0);
        }
    }
}

proof fn lemma_lists_prefix(s: Seq<ModelV>, m: ModelV, n: int)
    requires
        0 <= n <= s.len(),
    ensures
        tallies_of_all(s.push(m), n) == tallies_of_all(s, n),
        features_of_all(s.push(m), n) == features_of_all(s, n),
        bits_of_all(s.push(m), n) == bits_of_all(s, n),
    decreases n,
{
    if n > 0 {
        lemma_lists_prefix(s, m, n - 1);
        assert(s.push(m)[n - 1] == s[n - 1]);
    }
}

proof fn lemma_lists_push(s: Seq<ModelV>, m: ModelV)
    ensures
        tallies_of_all(s.push(m), s.len() + 1int) == tallies_of_all(s, s.len() as int) + tally_names(m),
        features_of_all(s.push(m), s.len() + 1int) == features_of_all(s, s.len() as int) + feature_names(m),
        bits_of_all(s.push(m), s.len() + 1int) == bits_of_all(s, s.len() as int) + spec_bits(m),
{
    lemma_lists_prefix(s, m, s.len() as int);
    assert(s.push(m)[s.len() as int] == m);
}

/// Serialising writes exactly what a node holds: a leaf its own bits, a
/// button none, a union, constraint or switch the bits of the child it holds,
/// and a sequence or set the bits of its children one after the other (one
/// more child at the end adds its bits at the end, and none gives none).
pub proof fn lemma_serialize_shape(m: ModelV, v: ModelV)
    ensures
        m matches ModelV::U8 { bits, .. } ==> spec_bits(m) == bits,
        m matches ModelV::U16 { bits, .. } ==> spec_bits(m) == bits,
        m is Button ==> spec_bits(m) == Seq::<bool>::empty(),
        m matches ModelV::Union { child, .. } ==> spec_bits(m) == spec_bits(*child),
        m matches ModelV::Constraint { child, .. } ==> spec_bits(m) == spec_bits(*child),
        m matches ModelV::Switch { child, .. } ==> spec_bits(m) == spec_bits(*child),
        m matches ModelV::Sequence { name, keys, vals } ==> {
            &&& spec_bits(ModelV::Sequence { name, keys, vals: vals.push(v) }) == spec_bits(m) + spec_bits(v)
            &&& spec_bits(ModelV::Sequence { name, keys, vals: Seq::empty() }) == Seq::<bool>::empty()
        },
        m matches ModelV::SetOf { name, proto, children, pred } ==> {
            &&& spec_bits(ModelV::SetOf { name, proto, children: children.push(v), pred }) == spec_bits(m) + spec_bits(v)
            &&& spec_bits(ModelV::SetOf { name, proto, children: Seq::empty(), pred }) == Seq::<bool>::empty()
        },
{
    match m {
        ModelV::Sequence { name, keys, vals } => {
            lemma_lists_push(vals, v);
            assert(vals.push(v).len() == vals.len() + 1);
            assert(spec_bits(ModelV::Sequence { name, keys, vals: vals.push(v) }) == bits_of_all(
                vals.push(v),
                vals.len() + 1int,
            ));
            assert(Seq::<ModelV>::empty().len() == 0);
            assert(bits_of_all(Seq::<ModelV>::empty(), 0) =~= Seq::<bool>::empty());
            assert(spec_bits(ModelV::Sequence { name, keys, vals: Seq::empty() }) =~= Seq::<bool>::empty());
        },
        ModelV::SetOf { name, proto, children, pred } => {
            lemma_lists_push(children, v);
            assert(children.push(v).len() == children.len() + 1);
            assert(spec_bits(ModelV::SetOf { name, proto, children: children.push(v), pred }) == bits_of_all(
                children.push(v),
                children.len() + 1int,
            ));
            assert(Seq::<ModelV>::empty().len() == 0);
            assert(bits_of_all(Seq::<ModelV>::empty(), 0) =~= Seq::<bool>::empty());
            assert(spec_bits(ModelV::SetOf { name, proto, children: Seq::empty(), pred }) =~= Seq::<bool>::empty());
        },
        _ => {},
    }
}

/// Tallying visits a node and then, in order, what it holds: a leaf, a button
/// or a union only itself; a constraint or switch itself and then the child it
/// holds; a sequence or set itself and then its children one after the other
/// (one more child at the end adds its tallies at the end).
pub proof fn lemma_tally_shape(m: ModelV, v: ModelV)
    ensures
        tally_names(m).len() >= 1,
        tally_names(m)[0] == name_of(m),
        m is U8 || m is U16 || m is Button || m is Union ==> tally_names(m) == seq![name_of(m)],
        m matches ModelV::Constraint { name, child, .. } ==> tally_names(m) == seq![name] + tally_names(*child),
        m matches ModelV::Switch { name, child, .. } ==> tally_names(m) == seq![name] + tally_names(*child),
        m matches ModelV::Sequence { name, keys, vals } ==> {
            &&& tally_names(ModelV::Sequence { name, keys, vals: vals.push(v) }) == tally_names(m) + tally_names(v)
            &&& tally_names(ModelV::Sequence { name, keys, vals: Seq::empty() }) == seq![name]
        },
        m matches ModelV::SetOf { name, proto, children, pred } ==> {
            &&& tally_names(ModelV::SetOf { name, proto, children: children.push(v), pred }) == tally_names(m)
                + tally_names(v)
            &&& tally_names(ModelV::SetOf { name, proto, children: Seq::empty(), pred }) == seq![name]
        },
{
    match m {
        ModelV::Sequence { name, keys, vals } => {
            lemma_lists_push(vals, v);
            assert(seq![name] + (tallies_of_all(vals, vals.len() as int) + tally_names(v)) =~= seq![name]
                + tallies_of_all(vals, vals.len() as int) + tally_names(v));
            assert(seq![name] + tallies_of_all(Seq::<ModelV>::empty(), 0) =~= seq![name]);
        },
        ModelV::SetOf { name, children, .. } => {
            lemma_lists_push(children, v);
            assert(seq![name] + (tallies_of_all(children, children.len() as int) + tally_names(v)) =~= seq![name]
                + tallies_of_all(children, children.len() as int) + tally_names(v));
            assert(seq![name] + tallies_of_all(Seq::<ModelV>::empty(), 0) =~= seq![name]);
        },
        _ => {},
    }
}

/// The feature names of a node are its own name and then those of what it may
/// hold: for a set, its prototype; for a constraint, its child; for a switch,
/// every alternative in turn; for a sequence, every field in turn (one more
/// at the end adds its names at the end); a leaf, button or union has only its
/// own.
pub proof fn lemma_features_shape(m: ModelV, v: ModelV)
    ensures
        feature_names(m).len() >= 1,
        feature_names(m)[0] == name_of(m),
        m is U8 || m is U16 || m is Button || m is Union ==> feature_names(m) == seq![name_of(m)],
        m matches ModelV::Constraint { name, child, .. } ==> feature_names(m) == seq![name] + feature_names(*child),
        m matches ModelV::SetOf { name, proto, .. } ==> feature_names(m) == seq![name] + feature_names(*proto),
        m matches ModelV::Sequence { name, keys, vals } ==> {
            &&& feature_names(ModelV::Sequence { name, keys, vals: vals.push(v) }) == feature_names(m) + feature_names(v)
            &&& feature_names(ModelV::Sequence { name, keys, vals: Seq::empty() }) == seq![name]
        },
        m matches ModelV::Switch { name, options, child, select } ==> {
            &&& feature_names(ModelV::Switch { name, options: options.push(v), child, select }) == feature_names(m)
                + feature_names(v)
            &&& feature_names(ModelV::Switch { name, options: Seq::empty(), child, select }) == seq![name]
        },
{
    match m {
        ModelV::Sequence { name, keys, vals } => {
            lemma_lists_push(vals, v);
            assert(seq![name] + (features_of_all(vals, vals.len() as int) + feature_names(v)) =~= seq![name]
                + features_of_all(vals, vals.len() as int) + feature_names(v));
            assert(seq![name] + features_of_all(Seq::<ModelV>::empty(), 0) =~= seq![name]);
        },
        ModelV::Switch { name, options, .. } => {
            lemma_lists_push(options, v);
            assert(seq![name] + (features_of_all(options, options.len() as int) + feature_names(v)) =~= seq![name]
                + features_of_all(options, options.len() as int) + feature_names(v));
            assert(seq![name] + features_of_all(Seq::<ModelV>::empty(), 0) =~= seq![name]);
        },
        _ => {},
    }
}

proof fn lemma_first_ok_before(rs: Seq<ParsedV>, k: int)
    requires
        0 <= k,
    ensures
        first_ok(rs, k) matches Some(i) ==> (k <= i < rs.len() && rs[i].result is Ok && forall|j: int|
            k <= j < i ==> (#[trigger] rs[j]).result is Err),
        first_ok(rs, k) is None ==> forall|j: int| k <= j < rs.len() ==> (#[trigger] rs[j]).result is Err,
    decreases rs.len() - k,
{
    if k < rs.len() && !(rs[k].result is Ok) {
        lemma_first_ok_before(rs, k + 1);
    }
}

/// A union parses as the first of its alternatives that parses, each tried
/// one level further in on the same input: where the union parses, it holds
/// what some alternative `i` parsed to, taking as many bits, and every
/// alternative before `i` fails; where it fails, every alternative fails, no
/// bits are taken, and the error lists the alternatives' errors in order.
pub proof fn lemma_union_first_match(
    name: Seq<char>,
    options: Seq<ModelV>,
    child: ModelV,
    ctx: Seq<FrameV>,
    input: Seq<bool>,
)
    ensures
        spec_parse(ModelV::Union { name, options, child: Box::new(child) }, ctx, input).result matches Ok(t) ==> {
            &&& t is Union
            &&& t->Union_name == name
            &&& t->Union_options == options
            &&& exists|i: int|
                0 <= i < options.len() && #[trigger] spec_parse(options[i], ctx.push(FrameV::Zilch), input).result
                    == Ok::<ModelV, ErrV>(*t->Union_child) && spec_parse(options[i], ctx.push(FrameV::Zilch), input).consumed
                    == spec_parse(ModelV::Union { name, options, child: Box::new(child) }, ctx, input).consumed
                    && forall|j: int|
                    0 <= j < i ==> (#[trigger] spec_parse(options[j], ctx.push(FrameV::Zilch), input)).result is Err
        },
        spec_parse(ModelV::Union { name, options, child: Box::new(child) }, ctx, input).result is Err ==> {
            &&& spec_parse(ModelV::Union { name, options, child: Box::new(child) }, ctx, input).consumed == 0
            &&& forall|j: int|
                0 <= j < options.len() ==> (#[trigger] spec_parse(options[j], ctx.push(FrameV::Zilch), input)).result is Err
            &&& spec_parse(ModelV::Union { name, options, child: Box::new(child) }, ctx, input).result->Err_0
                == ErrV::Children(
                Seq::new(
                    options.len(),
                    |j: int| spec_parse(options[j], ctx.push(FrameV::Zilch), input).result->Err_0,
                ),
            )
        },
{
    let rs = union_results(options, ctx, input);
    let inner = ctx.push(FrameV::Zilch);
    lemma_first_ok_before(rs, 0);
    assert forall|j: int| 0 <= j < options.len() implies rs[j] == spec_parse(options[j], inner, input) by {}
    match first_ok(rs, 0) {
        Some(i) => {
            assert(rs[i] == spec_parse(options[i], inner, input));
            assert forall|j: int| 0 <= j < i implies (#[trigger] spec_parse(options[j], inner, input)).result is Err by {
                assert(rs[j] == spec_parse(options[j], inner, input));
            }
        },
        None => {
            assert forall|j: int| 0 <= j < options.len() implies (#[trigger] spec_parse(options[j], inner, input)).result is Err by {
                assert(rs[j] == spec_parse(options[j], inner, input));
            }
            let e = Seq::new(rs.len(), |i: int| rs[i].result->Err_0);
            assert(e =~= Seq::new(options.len(), |j: int| spec_parse(options[j], inner, input).result->Err_0));
        },
    }
}

/// A switch parses as what its selector picks, one level further in, and the
/// result is that parse's own: the alternative of the first case whose value
/// the key has, or the selector's default where no case has it; where the key
/// has no value, or a case names no alternative, the switch fails and takes
/// no bits.
pub proof fn lemma_switch_parses_pick(
    name: Seq<char>,
    options: Seq<ModelV>,
    child: ModelV,
    select: SelectV,
    ctx: Seq<FrameV>,
    input: Seq<bool>,
)
    ensures
        eval_expr(select.key, ctx) matches Some(v) ==> (first_case(select.cases, v, 0) matches Some(i) ==> (i
            < options.len() ==> spec_parse(
            ModelV::Switch { name, options, child: Box::new(child), select },
            ctx,
            input,
        ) == spec_parse(options[i as int], ctx.push(FrameV::Zilch), input))),
        eval_expr(select.key, ctx) matches Some(v) ==> (first_case(select.cases, v, 0) matches Some(i) ==> (i
            >= options.len() ==> spec_parse(
            ModelV::Switch { name, options, child: Box::new(child), select },
            ctx,
            input,
        ).result is Err && spec_parse(ModelV::Switch { name, options, child: Box::new(child), select }, ctx, input).consumed == 0)),
        eval_expr(select.key, ctx) matches Some(v) ==> (first_case(select.cases, v, 0) is None ==> spec_parse(
            ModelV::Switch { name, options, child: Box::new(child), select },
            ctx,
            input,
        ) == spec_parse(*select.default, ctx.push(FrameV::Zilch), input)),
        eval_expr(select.key, ctx) is None ==> spec_parse(
            ModelV::Switch { name, options, child: Box::new(child), select },
            ctx,
            input,
        ).result is Err && spec_parse(ModelV::Switch { name, options, child: Box::new(child), select }, ctx, input).consumed == 0,
{
}

/// Fuzzing a leaf gives fixed values whatever it holds: a byte gives the
/// bytes 0xFF and then 0xAA, a 16-bit integer 0xFFFF and then 0xAAAA; a button
/// and a union give nothing.
pub proof fn lemma_fuzz_leaves(m: ModelV)
    ensures
        m is U8 ==> spec_fuzz(m).len() == 2 && int_of(spec_fuzz(m)[0]) == Some(0xFFint) && int_of(spec_fuzz(m)[1])
            == Some(0xAAint) && spec_fuzz(m)[0] is U8 && spec_fuzz(m)[1] is U8,
        m is U16 ==> spec_fuzz(m).len() == 2 && int_of(spec_fuzz(m)[0]) == Some(0xFFFFint) && int_of(
            spec_fuzz(m)[1],
        ) == Some(0xAAAAint) && spec_fuzz(m)[0] is U16 && spec_fuzz(m)[1] is U16,
        m is Button || m is Union ==> spec_fuzz(m).len() == 0,
{
    crate::library::u8::lemma_from_u8_value(0xFF, "U8"@);
    crate::library::u8::lemma_from_u8_value(0xAA, "U8"@);
    crate::library::u16::lemma_from_u16_value(0xFFFF, "U16"@);
    crate::library::u16::lemma_from_u16_value(0xAAAA, "U16"@);
}

/// Parsing a leaf: a byte parses exactly where at least eight bits are left,
/// takes eight and holds the number they write; a 16-bit integer likewise with
/// sixteen; a button parses exactly where no bit is left, and takes none.
pub proof fn lemma_leaf_parse(m: ModelV, ctx: Seq<FrameV>, input: Seq<bool>)
    ensures
        m is U8 ==> (spec_parse(m, ctx, input).result is Ok <==> input.len() >= 8),
        m is U8 ==> (spec_parse(m, ctx, input).result matches Ok(t) ==> spec_parse(m, ctx, input).consumed == 8
            && int_of(t) == Some(bits_value(input.take(8)) as int)),
        m is U16 ==> (spec_parse(m, ctx, input).result is Ok <==> input.len() >= 16),
        m is U16 ==> (spec_parse(m, ctx, input).result matches Ok(t) ==> spec_parse(m, ctx, input).consumed == 16
            && int_of(t) == Some(bits_value(input.take(16)) as int)),
        m is Button ==> (spec_parse(m, ctx, input).result is Ok <==> input.len() == 0),
        m is Button ==> (spec_parse(m, ctx, input).result is Ok ==> spec_parse(m, ctx, input).consumed == 0),
{
}

/// How many variants fuzzing the first `n` nodes of `s` gives, all together.
pub open spec fn variants_before(s: Seq<ModelV>, n: int) -> int
    decreases n,
{
    if n <= 0 {
        0
    } else {
        variants_before(s, n - 1) + spec_fuzz(s[n - 1]).len()
    }
}

proof fn lemma_variants_before_mono(s: Seq<ModelV>, i: int, j: int)
    requires
        0 <= i <= j,
    ensures
        variants_before(s, i) <= variants_before(s, j),
    decreases j - i,
{
    if i < j {
        lemma_variants_before_mono(s, i, j - 1);
    }
}

/// Fuzzing a set gives, child by child in order and for each variant of that
/// child in order, the set with that one child replaced by the variant: the
/// variant `k` of child `i` stands after all the variants of the children
/// before `i`, and nothing else is given.
pub proof fn lemma_fuzz_set_variants(name: Seq<char>, proto: ModelV, children: Seq<ModelV>, pred: CondV)
    ensures
        spec_fuzz(ModelV::SetOf { name, proto: Box::new(proto), children, pred }).len() == variants_before(
            children,
            children.len() as int,
        ),
        forall|i: int, k: int|
            0 <= i < children.len() && 0 <= k < spec_fuzz(children[i]).len() ==> spec_fuzz(
                ModelV::SetOf { name, proto: Box::new(proto), children, pred },
            )[variants_before(children, i) + k] == (ModelV::SetOf {
                name,
                proto: Box::new(proto),
                children: children.update(i, #[trigger] spec_fuzz(children[i])[k]),
                pred,
            }),
{
    lemma_fuzz_children_index(name, proto, children, pred, children.len() as int);
}

proof fn lemma_fuzz_children_index(name: Seq<char>, proto: ModelV, children: Seq<ModelV>, pred: CondV, n: int)
    requires
        0 <= n <= children.len(),
    ensures
        fuzz_children(name, proto, children, pred, n).len() == variants_before(children, n),
        forall|i: int, k: int|
            0 <= i < n && 0 <= k < spec_fuzz(children[i]).len() ==> fuzz_children(name, proto, children, pred, n)[
                variants_before(children, i) + k
            ] == (ModelV::SetOf {
                name,
                proto: Box::new(proto),
                children: children.update(i, #[trigger] spec_fuzz(children[i])[k]),
                pred,
            }),
    decreases n,
{
    if n > 0 {
        lemma_fuzz_children_index(name, proto, children, pred, n - 1);
        let a = fuzz_children(name, proto, children, pred, n - 1);
        let b = child_variants(name, proto, children, pred, n - 1);
        assert(fuzz_children(name, proto, children, pred, n) == a + b);
        assert forall|i: int, k: int| 0 <= i < n && 0 <= k < spec_fuzz(children[i]).len() implies (a + b)[
            variants_before(children, i) + k
        ] == (ModelV::SetOf {
            name,
            proto: Box::new(proto),
            children: children.update(i, #[trigger] spec_fuzz(children[i])[k]),
            pred,
        }) by {
            let idx = variants_before(children, i) + k;
            if i < n - 1 {
                lemma_variants_before_mono(children, i + 1, n - 1);
                lemma_variants_before_mono(children, 0, i);
                assert(variants_before(children, i + 1) == variants_before(children, i) + spec_fuzz(children[i]).len());
                assert((a + b)[idx] == a[idx]);
            } else {
                assert(idx - a.len() == k);
                assert((a + b)[idx] == b[k]);
            }
        }
    }
}

/// Fuzzing a sequence gives, field by field in order and for each variant of
/// that field in order, the sequence with that one field replaced by the
/// variant: the variant `k` of field `i` stands after all the variants of the
/// fields before `i`, and nothing else is given.
pub proof fn lemma_fuzz_sequence_variants(name: Seq<char>, keys: Seq<Seq<char>>, vals: Seq<ModelV>)
    ensures
        spec_fuzz(ModelV::Sequence { name, keys, vals }).len() == variants_before(vals, vals.len() as int),
        forall|i: int, k: int|
            0 <= i < vals.len() && 0 <= k < spec_fuzz(vals[i]).len() ==> spec_fuzz(
                ModelV::Sequence { name, keys, vals },
            )[variants_before(vals, i) + k] == (ModelV::Sequence {
                name,
                keys,
                vals: vals.update(i, #[trigger] spec_fuzz(vals[i])[k]),
            }),
{
    lemma_fuzz_fields_index(name, keys, vals, vals.len() as int);
}

proof fn lemma_fuzz_fields_index(name: Seq<char>, keys: Seq<Seq<char>>, vals: Seq<ModelV>, n: int)
    requires
        0 <= n <= vals.len(),
    ensures
        fuzz_fields(name, keys, vals, n).len() == variants_before(vals, n),
        forall|i: int, k: int|
            0 <= i < n && 0 <= k < spec_fuzz(vals[i]).len() ==> fuzz_fields(name, keys, vals, n)[variants_before(
                vals,
                i,
            ) + k] == (ModelV::Sequence { name, keys, vals: vals.update(i, #[trigger] spec_fuzz(vals[i])[k]) }),
    decreases n,
{
    if n > 0 {
        lemma_fuzz_fields_index(name, keys, vals, n - 1);
        let a = fuzz_fields(name, keys, vals, n - 1);
        let b = field_variants(name, keys, vals, n - 1);
        assert(fuzz_fields(name, keys, vals, n) == a + b);
        assert forall|i: int, k: int| 0 <= i < n && 0 <= k < spec_fuzz(vals[i]).len() implies (a + b)[variants_before(
            vals,
            i,
        ) + k] == (ModelV::Sequence { name, keys, vals: vals.update(i, #[trigger] spec_fuzz(vals[i])[k]) }) by {
            let idx = variants_before(vals, i) + k;
            if i < n - 1 {
                lemma_variants_before_mono(vals, i + 1, n - 1);
                lemma_variants_before_mono(vals, 0, i);
                assert(variants_before(vals, i + 1) == variants_before(vals, i) + spec_fuzz(vals[i]).len());
                assert((a + b)[idx] == a[idx]);
            } else {
                assert(idx - a.len() == k);
                assert((a + b)[idx] == b[k]);
            }
        }
    }
}

/// Fuzzing a switch gives, for each variant of the child it holds, in order,
/// the switch holding that variant; fuzzing a constraint gives its child's
/// variants.
pub proof fn lemma_fuzz_wrappers(m: ModelV)
    ensures
        m matches ModelV::Switch { name, options, child, select } ==> {
            &&& spec_fuzz(m).len() == spec_fuzz(*child).len()
            &&& forall|k: int|
                0 <= k < spec_fuzz(*child).len() ==> #[trigger] spec_fuzz(m)[k] == (ModelV::Switch {
                    name,
                    options,
                    child: Box::new(spec_fuzz(*child)[k]),
                    select,
                })
        },
        m matches ModelV::Constraint { child, .. } ==> spec_fuzz(m) == spec_fuzz(*child),
{
}

/// Each variant that fuzzing a sequence gives is the sequence, with its name
/// and names, where one field is replaced.
pub proof fn lemma_fuzz_sequence_shape(name: Seq<char>, keys: Seq<Seq<char>>, vals: Seq<ModelV>)
    ensures
        forall|j: int|
            0 <= j < spec_fuzz(ModelV::Sequence { name, keys, vals }).len() ==> {
                let v = #[trigger] spec_fuzz(ModelV::Sequence { name, keys, vals })[j];
                &&& v is Sequence
                &&& v->Sequence_name == name
                &&& v->Sequence_keys == keys
                &&& exists|i: int| 0 <= i < vals.len() && v->Sequence_vals == vals.update(i, v->Sequence_vals[i])
            },
{
    lemma_fuzz_fields_shape(name, keys, vals, vals.len() as int);
}

proof fn lemma_fuzz_fields_shape(name: Seq<char>, keys: Seq<Seq<char>>, vals: Seq<ModelV>, n: int)
    requires
        0 <= n <= vals.len(),
    ensures
        forall|j: int|
            0 <= j < fuzz_fields(name, keys, vals, n).len() ==> {
                let v = #[trigger] fuzz_fields(name, keys, vals, n)[j];
                &&& v is Sequence
                &&& v->Sequence_name == name
                &&& v->Sequence_keys == keys
                &&& exists|i: int| 0 <= i < vals.len() && v->Sequence_vals == vals.update(i, v->Sequence_vals[i])
            },
    decreases n,
{
    if n > 0 {
        lemma_fuzz_fields_shape(name, keys, vals, n - 1);
        let a = fuzz_fields(name, keys, vals, n - 1);
        let b = field_variants(name, keys, vals, n - 1);
        assert(fuzz_fields(name, keys, vals, n) == a + b);
        assert forall|j: int| 0 <= j < (a + b).len() implies {
            let v = #[trigger] (a + b)[j];
            &&& v is Sequence
            &&& v->Sequence_name == name
            &&& v->Sequence_keys == keys
            &&& exists|i: int| 0 <= i < vals.len() && v->Sequence_vals == vals.update(i, v->Sequence_vals[i])
        } by {
            if j < a.len() {
                assert((a + b)[j] == a[j]);
            } else {
                let v = b[j - a.len()];
                assert((a + b)[j] == v);
                assert(v->Sequence_vals[n - 1] == spec_fuzz(vals[n - 1])[j - a.len()]);
                assert(v->Sequence_vals == vals.update(n - 1, v->Sequence_vals[n - 1]));
            }
        }
    }
}

/// The upper-case hexadecimal digit for `d`.
pub open spec fn hex_digit(d: nat) -> char {
    if d < 10 {
        (48 + d) as char
    } else {
        (55 + d) as char
    }
}

/// The upper-case hexadecimal numeral for `n`, with no leading zeros.
pub open spec fn hex_numeral(n: nat) -> Seq<char>
    decreases n,
{
    if n < 16 {
        seq![hex_digit(n)]
    } else {
        hex_numeral(n / 16) + seq![hex_digit(n % 16)]
    }
}

/// The value of a hexadecimal digit, upper case.
pub open spec fn hex_digit_value(c: char) -> int {
    if '0' <= c && c <= '9' {
        c as int - '0' as int
    } else {
        c as int - 'A' as int + 10
    }
}

/// The number a hexadecimal numeral, most significant digit first, writes.
pub open spec fn hex_value(s: Seq<char>) -> int
    decreases s.len(),
{
    if s.len() == 0 {
        0
    } else {
        16 * hex_value(s.drop_last()) + hex_digit_value(s.last())
    }
}

proof fn lemma_hex_digit(d: nat)
    requires
        d < 16,
    ensures
        hex_digit_value(hex_digit(d)) == d,
        ('0' <= hex_digit(d) <= '9') || ('A' <= hex_digit(d) <= 'F'),
        d > 0 ==> hex_digit(d) != '0',
{
    let c = hex_digit(d);
    if d < 10 {
        assert(c as int == 48 + d);
    } else {
        assert(c as int == 55 + d);
    }
}

/// The text a number shows is a numeral for it: read back as hexadecimal it
/// gives the number, every character is a digit `0`-`9` or `A`-`F`, and it
/// starts with `0` only where it is the numeral of zero.
pub proof fn lemma_hex_numeral_reads_back(n: nat)
    ensures
        hex_value(hex_numeral(n)) == n,
        hex_numeral(n).len() >= 1,
        forall|i: int|
            0 <= i < hex_numeral(n).len() ==> ('0' <= #[trigger] hex_numeral(n)[i] <= '9') || ('A'
                <= hex_numeral(n)[i] <= 'F'),
        n > 0 ==> hex_numeral(n)[0] != '0',
    decreases n,
{
    if n < 16 {
        lemma_hex_digit(n);
        let s = hex_numeral(n);
        assert(s.drop_last() =~= Seq::<char>::empty());
        assert(hex_value(s.drop_last()) == 0);
    } else {
        lemma_hex_digit(n % 16);
        lemma_hex_numeral_reads_back(n / 16);
        let s = hex_numeral(n);
        let a = hex_numeral(n / 16);
        assert(s.drop_last() =~= a);
        assert(s.last() == hex_digit(n % 16));
        assert(s[0] == a[0]);
        assert forall|i: int| 0 <= i < s.len() implies ('0' <= #[trigger] s[i] <= '9') || ('A' <= s[i] <= 'F') by {
            if i < a.len() {
                assert(s[i] == a[i]);
            }
        }
    }
}

/// The text a node shows of itself: a button and a constraint their kind, an
/// integer its value in upper-case hexadecimal, the others nothing.
pub open spec fn debug_text(m: ModelV) -> Seq<char> {
    match m {
        ModelV::Button { .. } => "Button"@,
        ModelV::Constraint { .. } => "Constraint"@,
        ModelV::U8 { .. } => match int_of(m) {
            Some(v) => hex_numeral(v as nat),
            None => Seq::empty(),
        },
        ModelV::U16 { .. } => match int_of(m) {
            Some(v) => hex_numeral(v as nat),
            None => Seq::empty(),
        },
        _ => Seq::empty(),
    }
}

/// An integer node shows its value: its text, read back as hexadecimal, is
/// the integer it holds; a button and a constraint show their kind.
pub proof fn lemma_debug_shows_value(m: ModelV)
    ensures
        (m is U8 || m is U16) ==> (int_of(m) matches Some(v) ==> hex_value(debug_text(m)) == v),
        m is Button ==> debug_text(m) == "Button"@,
        m is Constraint ==> debug_text(m) == "Constraint"@,
{
    if m is U8 || m is U16 {
        if let Some(v) = int_of(m) {
            lemma_hex_numeral_reads_back(v as nat);
        }
    }
}

/// The digits of `n` in upper-case hexadecimal.
fn hex_chars(n: u16) -> (r: Vec<char>)
    ensures
        r@ == hex_numeral(n as nat),
    decreases n,
{
    let d = (n % 16) as u8;
    let c = if d < 10 {
        (48 + d) as char
    } else {
        (55 + d) as char
    };
    if n < 16 {
        vec![c]
    } else {
        let mut r = hex_chars(n / 16);
        r.push(c);
        r
    }
}

/// The string of the characters `cs`, in their order.
///
/// Trusted: the body collects the characters with std's `Iterator::collect`
/// into a `String` (its `FromIterator<char>` impl), which std documents as
/// appending each character in turn. The contract claims exactly that: the
/// resulting string's characters are those of `cs`. vstd gives `String` no
/// verified way to append a single character, so this is not proved here.
#[verifier::external_body]
fn string_from_chars(cs: &Vec<char>) -> (r: String)
    ensures
        r@ == cs@,
{
    cs.iter().collect()
}

impl DataModel {
    /// The text the node shows of itself.
    pub fn debug(&self) -> (r: String)
        ensures
            r@ == debug_text(self@),
    {
        proof {
            self.lemma_view_kind();
        }
        match self {
            DataModel::Button(m) => {
                assert(self@ == m.view());
                "Button".to_owned()
            },
            DataModel::Constraint(m) => {
                assert(self@ == m.view());
                "Constraint".to_owned()
            },
            DataModel::U8(m) => {
                assert(self@ == m.view());
                string_from_chars(&hex_chars(m.value() as u16))
            },
            DataModel::U16(m) => {
                assert(self@ == m.view());
                string_from_chars(&hex_chars(m.value()))
            },
            _ => {
                let r = String::new();
                assert(r@ =~= debug_text(self@));
                r
            },
        }
    }

    /// A child bred from this node and `other`: a button or a constraint
    /// gives a copy of itself.
    pub fn breed(&self, other: DataModel) -> (r: DataModel)
        requires
            self@ is Button || self@ is Constraint,
        ensures
            r@ == self@,
    {
        self.clone()
    }
}

} // verus!
