use vstd::prelude::*;

use super::bit_array::bits_value;
use super::bolts::field_of;
use super::context::FrameV;
use super::context::{Children, Context};
use super::{DataModel, ModelV, lemma_models_view, models_view, spec_bits};

verus! {

/// One step of a path through the parsed tree.
#[derive(Debug)]
pub enum Step {
    /// The single child: of a `Child` level, or of a union, constraint or switch.
    Child,
    /// The child under a name: of a `ChildMap` level, or of a sequence.
    Field(String),
    /// The last child: of a `ChildList` level, or of a set.
    Last,
}

/// A node found from a context: go `up` levels from the innermost, then take
/// the steps, the first at that level and the others from node to node.
#[derive(Debug)]
pub struct Path {
    pub up: usize,
    pub steps: Vec<Step>,
}

/// A number computed from a context.
#[derive(Debug)]
pub enum Expr {
    Const(i64),
    /// The integer that a `U8` or `U16` node holds.
    Int(Path),
    /// How many children the `ChildList` level `up` levels out holds.
    Count(usize),
    /// How many whole bytes a node serialises to.
    Bytes(Path),
    /// The sum of `Bytes` over the children of the `ChildMap` level `up` levels out.
    FieldBytes(usize),
    Add(Box<Expr>, Box<Expr>),
    Sub(Box<Expr>, Box<Expr>),
    /// The remainder of a number that is not negative by one that is positive.
    Rem(Box<Expr>, Box<Expr>),
}

/// A condition on a context.
#[derive(Debug)]
pub enum Cond {
    Always(bool),
    Eq(Expr, Expr),
    Lt(Expr, Expr),
    /// Whether the path leads to a node.
    Present(Path),
    Not(Box<Cond>),
    And(Box<Cond>, Box<Cond>),
    Or(Box<Cond>, Box<Cond>),
}

/// Picks what a switch parses: the alternative of the first case whose value
/// the key has, else the node `default`, which need not be one of the
/// switch's alternatives.
#[derive(Debug)]
pub struct Selector {
    pub key: Expr,
    pub cases: Vec<(i64, usize)>,
    pub default: Box<DataModel>,
}

pub enum StepV {
    Child,
    Field(Seq<char>),
    Last,
}

pub struct PathV {
    pub up: nat,
    pub steps: Seq<StepV>,
}

pub enum ExprV {
    Const(int),
    Int(PathV),
    Count(nat),
    Bytes(PathV),
    FieldBytes(nat),
    Add(Box<ExprV>, Box<ExprV>),
    Sub(Box<ExprV>, Box<ExprV>),
    Rem(Box<ExprV>, Box<ExprV>),
}

pub enum CondV {
    Always(bool),
    Eq(ExprV, ExprV),
    Lt(ExprV, ExprV),
    Present(PathV),
    Not(Box<CondV>),
    And(Box<CondV>, Box<CondV>),
    Or(Box<CondV>, Box<CondV>),
}

pub struct SelectV {
    pub key: ExprV,
    pub cases: Seq<(int, nat)>,
    pub default: Box<ModelV>,
}

impl View for Step {
    type V = StepV;

    open spec fn view(&self) -> StepV {
        match self {
            Step::Child => StepV::Child,
            Step::Field(n) => StepV::Field(n@),
            Step::Last => StepV::Last,
        }
    }
}

impl View for Path {
    type V = PathV;

    open spec fn view(&self) -> PathV {
        PathV { up: self.up as nat, steps: Seq::new(self.steps@.len(), |i: int| self.steps@[i]@) }
    }
}

impl Expr {
    pub open spec fn view(&self) -> ExprV
        decreases self,
    {
        match self {
            Expr::Const(c) => ExprV::Const(*c as int),
            Expr::Int(p) => ExprV::Int(p@),
            Expr::Count(up) => ExprV::Count(*up as nat),
            Expr::Bytes(p) => ExprV::Bytes(p@),
            Expr::FieldBytes(up) => ExprV::FieldBytes(*up as nat),
            Expr::Add(a, b) => ExprV::Add(Box::new(a.view()), Box::new(b.view())),
            Expr::Sub(a, b) => ExprV::Sub(Box::new(a.view()), Box::new(b.view())),
            Expr::Rem(a, b) => ExprV::Rem(Box::new(a.view()), Box::new(b.view())),
        }
    }
}

impl Cond {
    pub open spec fn view(&self) -> CondV
        decreases self,
    {
        match self {
            Cond::Always(b) => CondV::Always(*b),
            Cond::Eq(a, b) => CondV::Eq(a@, b@),
            Cond::Lt(a, b) => CondV::Lt(a@, b@),
            Cond::Present(p) => CondV::Present(p@),
            Cond::Not(c) => CondV::Not(Box::new(c.view())),
            Cond::And(a, b) => CondV::And(Box::new(a.view()), Box::new(b.view())),
            Cond::Or(a, b) => CondV::Or(Box::new(a.view()), Box::new(b.view())),
        }
    }
}

impl Selector {
    pub open spec fn view(&self) -> SelectV
        decreases self,
    {
        SelectV {
            key: self.key@,
            cases: Seq::new(
                self.cases@.len(),
                |i: int| (self.cases@[i].0 as int, self.cases@[i].1 as nat),
            ),
            default: Box::new((*self.default).view()),
        }
    }
}

impl Step {
    pub fn clone(&self) -> (r: Step)
        ensures
            r@ == self@,
    {
        match self {
            Step::Child => Step::Child,
            Step::Field(n) => Step::Field(n.clone()),
            Step::Last => Step::Last,
        }
    }
}

impl Path {
    /// A path that goes `up` levels out, then takes `steps`.
    pub fn new(up: usize, steps: Vec<Step>) -> (r: Path)
        ensures
            r.up == up,
            r.steps@ == steps@,
    {
        Path { up, steps }
    }

    pub fn clone(&self) -> (r: Path)
        ensures
            r@ == self@,
    {
        let mut steps: Vec<Step> = Vec::new();
        let mut i: usize = 0;
        while i < self.steps.len()
            invariant
                i <= self.steps@.len(),
                steps@.len() == i,
                forall|j: int| 0 <= j < i ==> #[trigger] steps@[j]@ == self.steps@[j]@,
            decreases self.steps@.len() - i,
        {
            steps.push(self.steps[i].clone());
            i = i + 1;
        }
        let r = Path { up: self.up, steps };
        assert(r@.steps =~= self@.steps);
        r
    }
}

impl Expr {
    pub fn clone(&self) -> (r: Expr)
        ensures
            r@ == self@,
        decreases self,
    {
        match self {
            Expr::Const(c) => Expr::Const(*c),
            Expr::Int(p) => Expr::Int(p.clone()),
            Expr::Count(up) => Expr::Count(*up),
            Expr::Bytes(p) => Expr::Bytes(p.clone()),
            Expr::FieldBytes(up) => Expr::FieldBytes(*up),
            Expr::Add(a, b) => Expr::Add(Box::new((**a).clone()), Box::new((**b).clone())),
            Expr::Sub(a, b) => Expr::Sub(Box::new((**a).clone()), Box::new((**b).clone())),
            Expr::Rem(a, b) => Expr::Rem(Box::new((**a).clone()), Box::new((**b).clone())),
        }
    }
}

impl Cond {
    pub fn clone(&self) -> (r: Cond)
        ensures
            r@ == self@,
        decreases self,
    {
        match self {
            Cond::Always(b) => Cond::Always(*b),
            Cond::Eq(a, b) => Cond::Eq(a.clone(), b.clone()),
            Cond::Lt(a, b) => Cond::Lt(a.clone(), b.clone()),
            Cond::Present(p) => Cond::Present(p.clone()),
            Cond::Not(a) => Cond::Not(Box::new((**a).clone())),
            Cond::And(a, b) => Cond::And(Box::new((**a).clone()), Box::new((**b).clone())),
            Cond::Or(a, b) => Cond::Or(Box::new((**a).clone()), Box::new((**b).clone())),
        }
    }
}

impl Selector {
    pub fn clone(&self) -> (r: Selector)
        ensures
            r@ == self@,
        decreases self,
    {
        let mut cases: Vec<(i64, usize)> = Vec::new();
        let mut i: usize = 0;
        while i < self.cases.len()
            invariant
                i <= self.cases@.len(),
                cases@ == self.cases@.take(i as int),
            decreases self.cases@.len() - i,
        {
            let c = self.cases[i];
            cases.push(c);
            i = i + 1;
            assert(cases@ =~= self.cases@.take(i as int));
        }
        assert(cases@ =~= self.cases@);
        let r = Selector { key: self.key.clone(), cases, default: Box::new((*self.default).clone()) };
        assert(r@.cases =~= self@.cases);
        r
    }
}

/// The level `up` levels out from the innermost one.
pub open spec fn frame_at(ctx: Seq<FrameV>, up: nat) -> Option<FrameV> {
    if up < ctx.len() {
        Some(ctx[ctx.len() - 1 - up])
    } else {
        None
    }
}

/// Where a step leads from a level of a context.
pub open spec fn step_frame(f: FrameV, s: StepV) -> Option<ModelV> {
    match s {
        StepV::Child => match f {
            FrameV::Child(m) => Some(m),
            _ => None,
        },
        StepV::Field(n) => match f {
            FrameV::ChildMap(k, v) => field_of(k, v, n),
            _ => None,
        },
        StepV::Last => match f {
            FrameV::ChildList(v) => if v.len() > 0 {
                Some(v.last())
            } else {
                None
            },
            _ => None,
        },
    }
}

/// Where a step leads from a node.
pub open spec fn step_model(m: ModelV, s: StepV) -> Option<ModelV> {
    match s {
        StepV::Child => match m {
            ModelV::Union { child, .. } => Some(*child),
            ModelV::Constraint { child, .. } => Some(*child),
            ModelV::Switch { child, .. } => Some(*child),
            _ => None,
        },
        StepV::Field(n) => match m {
            ModelV::Sequence { keys, vals, .. } => field_of(keys, vals, n),
            _ => None,
        },
        StepV::Last => match m {
            ModelV::SetOf { children, .. } => if children.len() > 0 {
                Some(children.last())
            } else {
                None
            },
            _ => None,
        },
    }
}

/// Where the steps from the `i`th on lead from `m`.
pub open spec fn walk(m: ModelV, steps: Seq<StepV>, i: int) -> Option<ModelV>
    decreases steps.len() - i,
{
    if i < 0 || i >= steps.len() {
        Some(m)
    } else {
        match step_model(m, steps[i]) {
            Some(n) => walk(n, steps, i + 1),
            None => None,
        }
    }
}

/// The node a path leads to in a context, where there is one.
pub open spec fn resolve(p: PathV, ctx: Seq<FrameV>) -> Option<ModelV> {
    if p.steps.len() == 0 {
        None
    } else {
        match frame_at(ctx, p.up) {
            Some(f) => match step_frame(f, p.steps[0]) {
                Some(m) => walk(m, p.steps, 1),
                None => None,
            },
            None => None,
        }
    }
}

/// The integer a node holds: that of the bits of a `U8` or `U16`.
pub open spec fn int_of(m: ModelV) -> Option<int> {
    match m {
        ModelV::U8 { bits, .. } => if bits.len() == 8 {
            Some(bits_value(bits) as int)
        } else {
            None
        },
        ModelV::U16 { bits, .. } => if bits.len() == 16 {
            Some(bits_value(bits) as int)
        } else {
            None
        },
        _ => None,
    }
}

pub open spec fn in_i64(x: int) -> Option<int> {
    if i64::MIN <= x <= i64::MAX {
        Some(x)
    } else {
        None
    }
}

/// How many whole bytes a node serialises to, where it fits a bit array.
pub open spec fn byte_len(m: ModelV) -> Option<int> {
    if spec_bits(m).len() <= i32::MAX {
        Some((spec_bits(m).len() / 8) as int)
    } else {
        None
    }
}

/// The sum of `byte_len` over the first `n` nodes of `v`.
pub open spec fn sum_byte_lens(v: Seq<ModelV>, n: int) -> Option<int>
    decreases n,
{
    if n <= 0 {
        Some(0)
    } else {
        match (sum_byte_lens(v, n - 1), byte_len(v[n - 1])) {
            (Some(a), Some(b)) => in_i64(a + b),
            _ => None,
        }
    }
}

/// The value of an expression in a context; `None` where a path leads nowhere,
/// a node holds no integer or a value leaves `i64`.
pub open spec fn eval_expr(e: ExprV, ctx: Seq<FrameV>) -> Option<int>
    decreases e,
{
    match e {
        ExprV::Const(c) => Some(c),
        ExprV::Int(p) => match resolve(p, ctx) {
            Some(m) => int_of(m),
            None => None,
        },
        ExprV::Count(up) => match frame_at(ctx, up) {
            Some(FrameV::ChildList(v)) => in_i64(v.len() as int),
            _ => None,
        },
        ExprV::Bytes(p) => match resolve(p, ctx) {
            Some(m) => byte_len(m),
            None => None,
        },
        ExprV::FieldBytes(up) => match frame_at(ctx, up) {
            Some(FrameV::ChildMap(k, v)) => sum_byte_lens(v, v.len() as int),
            _ => None,
        },
        ExprV::Add(a, b) => match (eval_expr(*a, ctx), eval_expr(*b, ctx)) {
            (Some(x), Some(y)) => in_i64(x + y),
            _ => None,
        },
        ExprV::Sub(a, b) => match (eval_expr(*a, ctx), eval_expr(*b, ctx)) {
            (Some(x), Some(y)) => in_i64(x - y),
            _ => None,
        },
        ExprV::Rem(a, b) => match (eval_expr(*a, ctx), eval_expr(*b, ctx)) {
            (Some(x), Some(y)) => if x >= 0 && y > 0 {
                Some(x % y)
            } else {
                None
            },
            _ => None,
        },
    }
}

/// The value of a condition in a context; `None` where a value it needs is.
/// `And` and `Or` look at their second part only where the first does not decide.
pub open spec fn eval_cond(c: CondV, ctx: Seq<FrameV>) -> Option<bool>
    decreases c,
{
    match c {
        CondV::Always(b) => Some(b),
        CondV::Eq(a, b) => match (eval_expr(a, ctx), eval_expr(b, ctx)) {
            (Some(x), Some(y)) => Some(x == y),
            _ => None,
        },
        CondV::Lt(a, b) => match (eval_expr(a, ctx), eval_expr(b, ctx)) {
            (Some(x), Some(y)) => Some(x < y),
            _ => None,
        },
        CondV::Present(p) => Some(resolve(p, ctx) is Some),
        CondV::Not(a) => match eval_cond(*a, ctx) {
            Some(b) => Some(!b),
            None => None,
        },
        CondV::And(a, b) => match eval_cond(*a, ctx) {
            Some(true) => eval_cond(*b, ctx),
            other => other,
        },
        CondV::Or(a, b) => match eval_cond(*a, ctx) {
            Some(false) => eval_cond(*b, ctx),
            other => other,
        },
    }
}

/// The arithmetic of expressions: a sum, a difference and a remainder have the
/// value of that operation on the values of their parts, where both parts
/// have one (and, for a sum or difference, where it fits an `i64`); a sum does
/// not depend on the order of its parts, and taking away what was added gives
/// back what it was added to (where that fits an `i64`).
pub proof fn lemma_expr_arithmetic(a: ExprV, b: ExprV, ctx: Seq<FrameV>)
    ensures
        eval_expr(ExprV::Add(Box::new(a), Box::new(b)), ctx) == eval_expr(ExprV::Add(Box::new(b), Box::new(a)), ctx),
        eval_expr(a, ctx) is None || eval_expr(b, ctx) is None ==> {
            &&& eval_expr(ExprV::Add(Box::new(a), Box::new(b)), ctx) is None
            &&& eval_expr(ExprV::Sub(Box::new(a), Box::new(b)), ctx) is None
            &&& eval_expr(ExprV::Rem(Box::new(a), Box::new(b)), ctx) is None
        },
        eval_expr(a, ctx) matches Some(x) ==> eval_expr(b, ctx) matches Some(y) ==> {
            &&& (i64::MIN <= x + y <= i64::MAX ==> eval_expr(ExprV::Add(Box::new(a), Box::new(b)), ctx) == Some(x + y))
            &&& (!(i64::MIN <= x + y <= i64::MAX) ==> eval_expr(ExprV::Add(Box::new(a), Box::new(b)), ctx) is None)
            &&& (i64::MIN <= x - y <= i64::MAX ==> eval_expr(ExprV::Sub(Box::new(a), Box::new(b)), ctx) == Some(x - y))
            &&& (!(i64::MIN <= x - y <= i64::MAX) ==> eval_expr(ExprV::Sub(Box::new(a), Box::new(b)), ctx) is None)
            &&& (x >= 0 && y > 0 ==> (eval_expr(ExprV::Rem(Box::new(a), Box::new(b)), ctx) matches Some(r) && 0 <= r < y
                && x == (x / y) * y + r))
            &&& (!(x >= 0 && y > 0) ==> eval_expr(ExprV::Rem(Box::new(a), Box::new(b)), ctx) is None)
        },
        eval_expr(a, ctx) matches Some(x) ==> (eval_expr(ExprV::Add(Box::new(a), Box::new(b)), ctx) is Some
            && i64::MIN <= x <= i64::MAX ==> eval_expr(
            ExprV::Sub(Box::new(ExprV::Add(Box::new(a), Box::new(b))), Box::new(b)),
            ctx,
        ) == Some(x)),
{
    reveal_with_fuel(eval_expr, 2);
    if let (Some(x), Some(y)) = (eval_expr(a, ctx), eval_expr(b, ctx)) {
        if x >= 0 && y > 0 {
            let r = x % y;
            assert(x == (x / y) * y + r) by (nonlinear_arith)
                requires
                    y > 0,
                    r == x % y,
            ;
            assert(0 <= r < y) by (nonlinear_arith)
                requires
                    y > 0,
                    r == x % y,
            ;
        }
    }
}

/// A constant has its own value.
pub proof fn lemma_const_value(c: int, ctx: Seq<FrameV>)
    ensures
        eval_expr(ExprV::Const(c), ctx) == Some(c),
{
}

/// The logic of conditions: a comparison holds exactly where the values
/// compare so, `Not` turns a condition round, and where both parts have a
/// value, `And` holds where both do and `Or` where either does.
pub proof fn lemma_cond_logic(a: ExprV, b: ExprV, p: CondV, q: CondV, ctx: Seq<FrameV>)
    ensures
        eval_expr(a, ctx) matches Some(x) ==> eval_expr(b, ctx) matches Some(y) ==> {
            &&& eval_cond(CondV::Eq(a, b), ctx) == Some(x == y)
            &&& eval_cond(CondV::Lt(a, b), ctx) == Some(x < y)
        },
        eval_expr(a, ctx) is None || eval_expr(b, ctx) is None ==> {
            &&& eval_cond(CondV::Eq(a, b), ctx) is None
            &&& eval_cond(CondV::Lt(a, b), ctx) is None
        },
        eval_cond(p, ctx) matches Some(u) ==> eval_cond(CondV::Not(Box::new(p)), ctx) == Some(!u),
        eval_cond(p, ctx) is None ==> eval_cond(CondV::Not(Box::new(p)), ctx) is None,
        eval_cond(p, ctx) matches Some(u) ==> eval_cond(q, ctx) matches Some(v) ==> {
            &&& eval_cond(CondV::And(Box::new(p), Box::new(q)), ctx) == Some(u && v)
            &&& eval_cond(CondV::Or(Box::new(p), Box::new(q)), ctx) == Some(u || v)
        },
        eval_cond(p, ctx) == Some(false) ==> eval_cond(CondV::And(Box::new(p), Box::new(q)), ctx) == Some(false),
        eval_cond(p, ctx) == Some(true) ==> eval_cond(CondV::Or(Box::new(p), Box::new(q)), ctx) == Some(true),
{
}

/// The alternative of the first case from the `i`th on whose value is `v`.
pub open spec fn first_case(cases: Seq<(int, nat)>, v: int, i: int) -> Option<nat>
    decreases cases.len() - i,
{
    if i < 0 || i >= cases.len() {
        None
    } else if cases[i].0 == v {
        Some(cases[i].1)
    } else {
        first_case(cases, v, i + 1)
    }
}

/// A selector's case lookup finds the first case with the value: where it
/// gives `i`, some case `k` holds the value and `i`, and no case before `k`
/// holds the value; where it gives nothing, no case holds the value.
pub proof fn lemma_first_case(cases: Seq<(int, nat)>, v: int)
    ensures
        first_case(cases, v, 0) matches Some(i) ==> exists|k: int|
            0 <= k < cases.len() && #[trigger] cases[k] == (v, i) && forall|j: int| 0 <= j < k ==> (#[trigger] cases[j]).0 != v,
        first_case(cases, v, 0) is None ==> forall|j: int| 0 <= j < cases.len() ==> (#[trigger] cases[j]).0 != v,
{
    lemma_first_case_from(cases, v, 0);
}

proof fn lemma_first_case_from(cases: Seq<(int, nat)>, v: int, m: int)
    requires
        0 <= m,
    ensures
        first_case(cases, v, m) matches Some(i) ==> exists|k: int|
            m <= k < cases.len() && #[trigger] cases[k] == (v, i) && forall|j: int| m <= j < k ==> (#[trigger] cases[j]).0 != v,
        first_case(cases, v, m) is None ==> forall|j: int| m <= j < cases.len() ==> (#[trigger] cases[j]).0 != v,
    decreases cases.len() - m,
{
    if m < cases.len() {
        if cases[m].0 == v {
            assert(cases[m] == (v, cases[m].1));
        } else {
            lemma_first_case_from(cases, v, m + 1);
            if let Some(i) = first_case(cases, v, m + 1) {
                let k = choose|k: int|
                    m + 1 <= k < cases.len() && #[trigger] cases[k] == (v, i) && forall|j: int|
                        m + 1 <= j < k ==> (#[trigger] cases[j]).0 != v;
                assert(forall|j: int| m <= j < k ==> (#[trigger] cases[j]).0 != v);
            }
        }
    }
}

/// What a selector picks in a context: `Some(Some(i))` for the `i`th
/// alternative, `Some(None)` for its default, `None` where the key has no value.
pub open spec fn eval_select(s: SelectV, ctx: Seq<FrameV>) -> Option<Option<nat>> {
    match eval_expr(s.key, ctx) {
        Some(v) => Some(first_case(s.cases, v, 0)),
        None => None,
    }
}

proof fn lemma_sum_none(v: Seq<ModelV>, k: int, n: int)
    requires
        0 <= k <= n,
        sum_byte_lens(v, k) is None,
    ensures
        sum_byte_lens(v, n) is None,
    decreases n - k,
{
    if k < n {
        lemma_sum_none(v, k, n - 1);
    }
}

/// The sum of the whole bytes the nodes of a list serialise to.
fn sum_byte_lens_of(v: &Vec<DataModel>) -> (r: Option<i64>)
    ensures
        match r {
            Some(x) => sum_byte_lens(models_view(v@), v@.len() as int) == Some(x as int),
            None => sum_byte_lens(models_view(v@), v@.len() as int) is None,
        },
{
    let ghost s = models_view(v@);
    proof {
        lemma_models_view(v@);
    }
    let mut total: i64 = 0;
    let mut i: usize = 0;
    while i < v.len()
        invariant
            i <= v@.len(),
            s == models_view(v@),
            s.len() == v@.len(),
            sum_byte_lens(s, i as int) == Some(total as int),
        decreases v@.len() - i,
    {
        assert(s[i as int] == v@[i as int]@);
        let n = match v[i].bit_len() {
            Some(n) => n,
            None => {
                proof {
                    lemma_sum_none(s, i + 1, s.len() as int);
                }
                return None;
            },
        };
        let bytes = (n / 8) as i64;
        match total.checked_add(bytes) {
            Some(t) => total = t,
            None => {
                proof {
                    lemma_sum_none(s, i + 1, s.len() as int);
                }
                return None;
            },
        }
        i = i + 1;
    }
    Some(total)
}

impl Path {
    /// The node the path leads to in `ctx`, where there is one.
    pub fn resolve<'a>(&self, ctx: &'a Context) -> (r: Option<&'a DataModel>)
        ensures
            match r {
                Some(m) => resolve(self@, ctx@) == Some(m@),
                None => resolve(self@, ctx@) is None,
            },
    {
        if self.steps.len() == 0 {
            return None;
        }
        let f = match ctx.frame(self.up) {
            Some(f) => f,
            None => return None,
        };
        let mut cur = match f.step(&self.steps[0]) {
            Some(m) => m,
            None => return None,
        };
        let mut i: usize = 1;
        while i < self.steps.len()
            invariant
                1 <= i <= self.steps@.len(),
                walk(cur@, self@.steps, i as int) == resolve(self@, ctx@),
            decreases self.steps@.len() - i,
        {
            match cur.step(&self.steps[i]) {
                Some(n) => {
                    cur = n;
                },
                None => {
                    return None;
                },
            }
            i = i + 1;
        }
        Some(cur)
    }
}

impl Expr {
    /// The value of the expression in `ctx`.
    pub fn eval(&self, ctx: &Context) -> (r: Option<i64>)
        ensures
            match r {
                Some(v) => eval_expr(self@, ctx@) == Some(v as int),
                None => eval_expr(self@, ctx@) is None,
            },
        decreases self,
    {
        match self {
            Expr::Const(c) => Some(*c),
            Expr::Int(p) => match p.resolve(ctx) {
                Some(m) => m.int_value(),
                None => None,
            },
            Expr::Count(up) => match ctx.frame(*up) {
                Some(Children::ChildList(v)) => {
                    proof {
                        lemma_models_view(v@);
                    }
                    if (v.len() as u64) <= (i64::MAX as u64) {
                        Some(v.len() as i64)
                    } else {
                        None
                    }
                },
                _ => None,
            },
            Expr::Bytes(p) => match p.resolve(ctx) {
                Some(m) => match m.bit_len() {
                    Some(n) => Some((n / 8) as i64),
                    None => None,
                },
                None => None,
            },
            Expr::FieldBytes(up) => match ctx.frame(*up) {
                Some(Children::ChildMap(cm)) => sum_byte_lens_of(&cm.vals),
                _ => None,
            },
            Expr::Add(a, b) => match ((**a).eval(ctx), (**b).eval(ctx)) {
                (Some(x), Some(y)) => x.checked_add(y),
                _ => None,
            },
            Expr::Sub(a, b) => match ((**a).eval(ctx), (**b).eval(ctx)) {
                (Some(x), Some(y)) => x.checked_sub(y),
                _ => None,
            },
            Expr::Rem(a, b) => match ((**a).eval(ctx), (**b).eval(ctx)) {
                (Some(x), Some(y)) => if x >= 0 && y > 0 {
                    Some(x % y)
                } else {
                    None
                },
                _ => None,
            },
        }
    }
}

impl Cond {
    /// The value of the condition in `ctx`.
    pub fn eval(&self, ctx: &Context) -> (r: Option<bool>)
        ensures
            r == eval_cond(self@, ctx@),
        decreases self,
    {
        match self {
            Cond::Always(b) => Some(*b),
            Cond::Eq(a, b) => match (a.eval(ctx), b.eval(ctx)) {
                (Some(x), Some(y)) => Some(x == y),
                _ => None,
            },
            Cond::Lt(a, b) => match (a.eval(ctx), b.eval(ctx)) {
                (Some(x), Some(y)) => Some(x < y),
                _ => None,
            },
            Cond::Present(p) => Some(p.resolve(ctx).is_some()),
            Cond::Not(a) => match (**a).eval(ctx) {
                Some(b) => Some(!b),
                None => None,
            },
            Cond::And(a, b) => match (**a).eval(ctx) {
                Some(true) => (**b).eval(ctx),
                other => other,
            },
            Cond::Or(a, b) => match (**a).eval(ctx) {
                Some(false) => (**b).eval(ctx),
                other => other,
            },
        }
    }
}

impl Selector {
    /// What the selector picks in `ctx`: `Some(Some(i))` for the `i`th
    /// alternative, `Some(None)` for its default.
    pub fn eval(&self, ctx: &Context) -> (r: Option<Option<usize>>)
        ensures
            match r {
                Some(Some(i)) => eval_select(self@, ctx@) == Some(Some(i as nat)),
                Some(None) => eval_select(self@, ctx@) == Some(None::<nat>),
                None => eval_select(self@, ctx@) is None,
            },
    {
        let v = match self.key.eval(ctx) {
            Some(v) => v,
            None => return None,
        };
        let mut i: usize = 0;
        while i < self.cases.len()
            invariant
                i <= self.cases@.len(),
                first_case(self@.cases, v as int, 0) == first_case(self@.cases, v as int, i as int),
                eval_expr(self@.key, ctx@) == Some(v as int),
            decreases self.cases@.len() - i,
        {
            assert(self@.cases[i as int] == (self.cases@[i as int].0 as int, self.cases@[i as int].1 as nat));
            if self.cases[i].0 == v {
                assert(first_case(self@.cases, v as int, i as int) == Some(self.cases@[i as int].1 as nat));
                return Some(Some(self.cases[i].1));
            }
            i = i + 1;
        }
        Some(None)
    }
}

} // verus!
