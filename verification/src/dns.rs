use vstd::prelude::*;

use crate::library::button::Button;
use crate::library::constraint::Constraint;
use crate::library::sequence::Sequence;
use crate::library::set_of::SetOf;
use crate::library::switch::Switch;
use crate::library::u16::U16;
use crate::library::u8::U8;
use crate::library::union::Union;
use crate::model::bolts::ChildMap;
use crate::model::bit_array::{byte_bits, u16_bits};
use crate::model::predicate::{eval_expr, eval_select, first_case, Cond, CondV, Expr, ExprV, Path, PathV, Selector, SelectV, Step, StepV};
use crate::model::context::FrameV;
use crate::model::{DataModel, ModelV, Named, name_of, lemma_models_view, lemma_sequence_ending_in_button, models_view, spec_parse};

verus! {

/// A byte field.
pub open spec fn byte_v() -> ModelV {
    ModelV::U8 { name: "U8"@, bits: byte_bits(0) }
}

/// A 16-bit field.
pub open spec fn word_v() -> ModelV {
    ModelV::U16 { name: "U16"@, bits: u16_bits(0) }
}

/// The views of a list of steps.
pub open spec fn steps_v(steps: Seq<Step>) -> Seq<StepV> {
    Seq::new(steps.len(), |i: int| steps[i]@)
}

/// The integer found `up` levels out by `steps`.
pub open spec fn int_at_v(up: nat, steps: Seq<StepV>) -> ExprV {
    ExprV::Int(PathV { up, steps })
}

/// The integer held by the single child at the innermost level.
pub open spec fn child_int_v() -> ExprV {
    int_at_v(0, seq![StepV::Child])
}

/// The child at the innermost level holds `k`.
pub open spec fn child_is_v(k: int) -> CondV {
    CondV::Eq(child_int_v(), ExprV::Const(k))
}

/// The number of children so far equals the integer under `key`, `up` levels out.
pub open spec fn count_is_field_v(up: nat, key: Seq<char>) -> CondV {
    CondV::Eq(ExprV::Count(0), int_at_v(up, seq![StepV::Field(key)]))
}

/// A sequence named `name` of the named `fields`.
pub open spec fn sequence_v(name: Seq<char>, fields: Seq<(Seq<char>, ModelV)>) -> ModelV {
    ModelV::Sequence {
        name,
        keys: Seq::new(fields.len(), |i: int| fields[i].0),
        vals: Seq::new(fields.len(), |i: int| fields[i].1),
    }
}

/// A sequence named `name` of one byte under each of `keys`.
pub open spec fn bytes_sequence_v(name: Seq<char>, keys: Seq<Seq<char>>) -> ModelV {
    ModelV::Sequence { name, keys, vals: Seq::new(keys.len(), |i: int| byte_v()) }
}

/// Copies of `proto` named `name` until `pred` holds, none parsed yet.
pub open spec fn set_of_v(name: Seq<char>, proto: ModelV, pred: CondV) -> ModelV {
    ModelV::SetOf { name, proto: Box::new(proto), children: Seq::empty(), pred }
}

/// `child` named `name`, where `pred` holds.
pub open spec fn constraint_v(name: Seq<char>, child: ModelV, pred: CondV) -> ModelV {
    ModelV::Constraint { name, child: Box::new(child), pred }
}

/// The first of `options` that matches, named `name`.
pub open spec fn union_v(name: Seq<char>, options: Seq<ModelV>, child: ModelV) -> ModelV {
    ModelV::Union { name, options, child: Box::new(child) }
}

/// A 16-bit type field that holds `k`.
pub open spec fn type_is_v(name: Seq<char>, k: int) -> ModelV {
    constraint_v(name, word_v(), child_is_v(k))
}

/// Four bytes.
pub open spec fn u32_v() -> ModelV {
    bytes_sequence_v("u32_sequence"@, seq!["b0"@, "b1"@, "b2"@, "b3"@])
}

/// A step to the child named `name`.
fn field(name: &str) -> (r: Step)
    ensures
        r@ == StepV::Field(name@),
{
    Step::Field(name.to_owned())
}

/// The integer found `up` levels out by `steps`.
fn int_at(up: usize, steps: Vec<Step>) -> (r: Expr)
    ensures
        r@ == int_at_v(up as nat, steps_v(steps@)),
{
    Expr::Int(Path::new(up, steps))
}

/// The integer held by the single child at the innermost level.
fn child_int() -> (r: Expr)
    ensures
        r@ == child_int_v(),
{
    let r = int_at(0, vec![Step::Child]);
    assert(r@->Int_0.steps =~= seq![StepV::Child]);
    r
}

/// How many children the innermost level holds.
fn count() -> (r: Expr)
    ensures
        r@ == ExprV::Count(0),
{
    Expr::Count(0)
}

fn eq(a: Expr, b: Expr) -> (r: Cond)
    ensures
        r@ == CondV::Eq(a@, b@),
{
    Cond::Eq(a, b)
}

fn lt(a: Expr, b: Expr) -> (r: Cond)
    ensures
        r@ == CondV::Lt(a@, b@),
{
    Cond::Lt(a, b)
}

fn not(c: Cond) -> (r: Cond)
    ensures
        r@ == CondV::Not(Box::new(c@)),
{
    Cond::Not(Box::new(c))
}

fn and(a: Cond, b: Cond) -> (r: Cond)
    ensures
        r@ == CondV::And(Box::new(a@), Box::new(b@)),
{
    Cond::And(Box::new(a), Box::new(b))
}

fn or(a: Cond, b: Cond) -> (r: Cond)
    ensures
        r@ == CondV::Or(Box::new(a@), Box::new(b@)),
{
    Cond::Or(Box::new(a), Box::new(b))
}

/// Whether the child at the innermost level holds `k`.
fn child_is(k: i64) -> (r: Cond)
    ensures
        r@ == child_is_v(k as int),
{
    eq(child_int(), Expr::Const(k))
}

fn byte() -> (r: DataModel)
    ensures
        r@ == byte_v(),
{
    DataModel::U8(U8::new())
}

fn word() -> (r: DataModel)
    ensures
        r@ == word_v(),
{
    DataModel::U16(U16::new())
}

/// A sequence named `name` of the named `fields`.
fn sequence(name: &str, fields: Vec<(&str, DataModel)>) -> (r: DataModel)
    requires
        Seq::new(fields@.len(), |i: int| fields@[i].0@).no_duplicates(),
    ensures
        r@ == sequence_v(name@, Seq::new(fields@.len(), |i: int| (fields@[i].0@, fields@[i].1@))),
{
    let mut s = Sequence::new(ChildMap::from(fields));
    s.set_name(name);
    let r = DataModel::Sequence(s);
    let ghost want = sequence_v(name@, Seq::new(fields@.len(), |i: int| (fields@[i].0@, fields@[i].1@)));
    assert(r@->Sequence_keys =~= want->Sequence_keys);
    assert(r@->Sequence_vals =~= want->Sequence_vals);
    r
}

/// A sequence named `name` of the one field `val` under `key`.
fn sequence1(name: &str, key: &str, val: DataModel) -> (r: DataModel)
    ensures
        r@ == sequence_v(name@, seq![(key@, val@)]),
{
    let ghost v = val@;
    let fields = vec![(key, val)];
    assert(Seq::new(fields@.len(), |i: int| (fields@[i].0@, fields@[i].1@)) =~= seq![(key@, v)]);
    assert(Seq::new(fields@.len(), |i: int| fields@[i].0@) =~= seq![key@]);
    sequence(name, fields)
}

/// A sequence named `name` of `a` under `ka`, then `b` under `kb`.
fn sequence2(name: &str, ka: &str, a: DataModel, kb: &str, b: DataModel) -> (r: DataModel)
    requires
        ka@ != kb@,
    ensures
        r@ == sequence_v(name@, seq![(ka@, a@), (kb@, b@)]),
{
    let ghost (av, bv) = (a@, b@);
    let fields = vec![(ka, a), (kb, b)];
    assert(Seq::new(fields@.len(), |i: int| (fields@[i].0@, fields@[i].1@)) =~= seq![(ka@, av), (kb@, bv)]);
    assert(Seq::new(fields@.len(), |i: int| fields@[i].0@) =~= seq![ka@, kb@]);
    sequence(name, fields)
}

/// A sequence named `name` of one byte under each of `keys`.
fn bytes_sequence(name: &str, keys: Vec<&str>) -> (r: DataModel)
    requires
        Seq::new(keys@.len(), |i: int| keys@[i]@).no_duplicates(),
    ensures
        r@ == bytes_sequence_v(name@, Seq::new(keys@.len(), |i: int| keys@[i]@)),
{
    let mut fields: Vec<(&str, DataModel)> = Vec::new();
    let mut i: usize = 0;
    while i < keys.len()
        invariant
            i <= keys@.len(),
            fields@.len() == i,
            forall|j: int| 0 <= j < i ==> #[trigger] fields@[j].0 == keys@[j] && fields@[j].1@ == byte_v(),
        decreases keys@.len() - i,
    {
        fields.push((keys[i], byte()));
        i = i + 1;
    }
    assert(Seq::new(fields@.len(), |i: int| fields@[i].0@) =~= Seq::new(keys@.len(), |i: int| keys@[i]@));
    let r = sequence(name, fields);
    let ghost want = bytes_sequence_v(name@, Seq::new(keys@.len(), |i: int| keys@[i]@));
    assert(r@->Sequence_keys =~= want->Sequence_keys);
    assert(r@->Sequence_vals =~= want->Sequence_vals);
    r
}

/// Copies of `proto` named `name` until `pred` holds.
fn set_of(name: &str, proto: DataModel, pred: Cond) -> (r: DataModel)
    ensures
        r@ == set_of_v(name@, proto@, pred@),
{
    let mut s = SetOf::new(proto, Vec::new(), pred);
    s.set_name(name);
    let r = DataModel::SetOf(s);
    assert(r@->SetOf_children =~= Seq::<ModelV>::empty());
    r
}

/// `child` named `name`, where `pred` holds.
fn constraint(name: &str, child: DataModel, pred: Cond) -> (r: DataModel)
    ensures
        r@ == constraint_v(name@, child@, pred@),
{
    let mut c = Constraint::new(child, pred);
    c.set_name(name);
    DataModel::Constraint(c)
}

/// The first of `options` that matches, named `name`.
fn union_of(name: &str, options: Vec<DataModel>, child: DataModel) -> (r: DataModel)
    ensures
        r@ == union_v(name@, models_view(options@), child@),
{
    let mut u = Union::new(options, child);
    u.set_name(name);
    DataModel::Union(u)
}

/// A 16-bit type field that holds `k`.
fn type_is(name: &str, k: i64) -> (r: DataModel)
    ensures
        r@ == type_is_v(name@, k as int),
{
    constraint(name, word(), child_is(k))
}

/// The integer under `key`, `up` levels out.
fn field_int(up: usize, key: &str) -> (r: Expr)
    ensures
        r@ == int_at_v(up as nat, seq![StepV::Field(key@)]),
{
    let r = int_at(up, vec![field(key)]);
    assert(r@->Int_0.steps =~= seq![StepV::Field(key@)]);
    r
}

fn plus(a: Expr, b: Expr) -> (r: Expr)
    ensures
        r@ == ExprV::Add(Box::new(a@), Box::new(b@)),
{
    Expr::Add(Box::new(a), Box::new(b))
}

fn minus(a: Expr, b: Expr) -> (r: Expr)
    ensures
        r@ == ExprV::Sub(Box::new(a@), Box::new(b@)),
{
    Expr::Sub(Box::new(a), Box::new(b))
}

/// The number of children so far equals the integer under `key`, `up` levels out.
fn count_is_field(up: usize, key: &str) -> (r: Cond)
    ensures
        r@ == count_is_field_v(up as nat, key@),
{
    eq(count(), field_int(up, key))
}

/// Four bytes.
fn u32_sequence() -> (r: DataModel)
    ensures
        r@ == u32_v(),
{
    let keys = vec!["b0", "b1", "b2", "b3"];
    assert(Seq::new(keys@.len(), |i: int| keys@[i]@) =~= seq!["b0"@, "b1"@, "b2"@, "b3"@]);
    proof {
        reveal_strlit("b0");
        reveal_strlit("b1");
        reveal_strlit("b2");
        reveal_strlit("b3");
        assert("b0"@[1] == '0');
        assert("b1"@[1] == '1');
        assert("b2"@[1] == '2');
        assert("b3"@[1] == '3');
        assert(seq!["b0"@, "b1"@, "b2"@, "b3"@].no_duplicates());
    }
    let r = bytes_sequence("u32_sequence", keys);
    r
}

/// The label of a domain name: a length below 0xc0 and that many letters, or
/// a pointer marker and its target.
pub open spec fn label_v() -> ModelV {
    let letter_set = set_of_v(
        "letter_set"@,
        byte_v(),
        CondV::Eq(ExprV::Count(0), int_at_v(1, seq![StepV::Field("length"@), StepV::Child])),
    );
    let length_constraint = constraint_v(
        "length_constraint"@,
        byte_v(),
        CondV::Lt(child_int_v(), ExprV::Const(0xc0)),
    );
    let length_sequence = sequence_v(
        "length_sequence"@,
        seq![("length"@, length_constraint), ("letters"@, letter_set)],
    );
    let marker_constraint = constraint_v(
        "marker_constraint"@,
        byte_v(),
        CondV::Not(Box::new(CondV::Lt(child_int_v(), ExprV::Const(0xc0)))),
    );
    let marker_sequence = sequence_v("marker_sequence"@, seq![("marker"@, marker_constraint), ("ref"@, byte_v())]);
    union_v("label"@, seq![length_sequence, marker_sequence], byte_v())
}

/// A domain name ends after a label of length zero, or after a pointer.
pub open spec fn domain_end_v() -> CondV {
    CondV::And(
        Box::new(CondV::Lt(ExprV::Const(0), ExprV::Count(0))),
        Box::new(
            CondV::Or(
                Box::new(
                    CondV::Not(
                        Box::new(
                            CondV::Present(
                                PathV { up: 0, steps: seq![StepV::Last, StepV::Child, StepV::Field("length"@)] },
                            ),
                        ),
                    ),
                ),
                Box::new(
                    CondV::Eq(
                        int_at_v(0, seq![StepV::Last, StepV::Child, StepV::Field("length"@), StepV::Child]),
                        ExprV::Const(0),
                    ),
                ),
            ),
        ),
    )
}

/// A domain name: labels until one ends it; it starts out holding one label.
pub open spec fn domain_v() -> ModelV {
    ModelV::SetOf { name: "domain"@, proto: Box::new(label_v()), children: seq![label_v()], pred: domain_end_v() }
}

/// The label of a domain name.
fn label() -> (r: DataModel)
    ensures
        r@ == label_v(),
{
    let letters_key = int_at(1, vec![field("length"), Step::Child]);
    assert(letters_key@->Int_0.steps =~= seq![StepV::Field("length"@), StepV::Child]);
    let letter_set = set_of("letter_set", byte(), eq(count(), letters_key));
    let length_constraint = constraint("length_constraint", byte(), lt(child_int(), Expr::Const(0xc0)));
    proof {
        reveal_strlit("length");
        reveal_strlit("letters");
        reveal_strlit("marker");
        reveal_strlit("ref");
        assert("length"@.len() == 6);
        assert("letters"@.len() == 7);
        assert("length"@ != "letters"@);
        assert("marker"@[0] == 'm');
        assert("ref"@[0] == 'r');
        assert("marker"@ != "ref"@);
    }
    let length_sequence = sequence2("length_sequence", "length", length_constraint, "letters", letter_set);
    let marker_constraint = constraint("marker_constraint", byte(), not(lt(child_int(), Expr::Const(0xc0))));
    let marker_sequence = sequence2("marker_sequence", "marker", marker_constraint, "ref", byte());
    let options = vec![length_sequence, marker_sequence];
    proof {
        lemma_models_view(options@);
    }
    assert(models_view(options@) =~= seq![length_sequence@, marker_sequence@]);
    union_of("label", options, byte())
}

/// A domain name: labels until an empty one or a pointer.
fn domain() -> (r: DataModel)
    ensures
        r@ == domain_v(),
{
    let label = label();
    // the last label has a length of zero, or is a pointer
    let last_length = Path::new(0, vec![Step::Last, Step::Child, field("length")]);
    assert(last_length@.steps =~= seq![StepV::Last, StepV::Child, StepV::Field("length"@)]);
    let last_length_value = int_at(0, vec![Step::Last, Step::Child, field("length"), Step::Child]);
    assert(last_length_value@->Int_0.steps =~= seq![
        StepV::Last,
        StepV::Child,
        StepV::Field("length"@),
        StepV::Child,
    ]);
    let domain_predicate = and(
        lt(Expr::Const(0), count()),
        or(not(Cond::Present(last_length)), eq(last_length_value, Expr::Const(0))),
    );
    let children = vec![label.clone()];
    proof {
        lemma_models_view(children@);
    }
    assert(models_view(children@) =~= seq![label_v()]);
    let mut domain_set = SetOf::new(label, children, domain_predicate);
    domain_set.set_name("domain");
    DataModel::SetOf(domain_set)
}

/// The alternatives of the type field of a question, the last one any type.
pub open spec fn query_types_v() -> Seq<ModelV> {
    seq![
        type_is_v("rr_type_a"@, 1),
        type_is_v("rr_type_ns"@, 2),
        type_is_v("rr_type_cname"@, 5),
        type_is_v("rr_type_soa"@, 6),
        type_is_v("rr_type_ptr"@, 12),
        type_is_v("rr_type_mx"@, 15),
        type_is_v("rr_type_txt"@, 16),
        type_is_v("rr_type_aaaa"@, 28),
        type_is_v("rr_type_opt"@, 41),
        type_is_v("rr_type_ds"@, 43),
        type_is_v("rr_type_sig"@, 46),
        type_is_v("rr_type_key"@, 48),
        type_is_v("rr_type_nsec3"@, 50),
        type_is_v("rr_type_tsig"@, 250),
        type_is_v("query_type_axfr"@, 252),
        type_is_v("query_type_mailb"@, 253),
        type_is_v("query_type_maila"@, 254),
        type_is_v("query_type_all"@, 255),
        constraint_v("rr_type_default"@, word_v(), CondV::Always(true)),
    ]
}

/// The alternatives of the type field of a resource record, the last one any type.
pub open spec fn rr_types_v() -> Seq<ModelV> {
    seq![
        type_is_v("rr_type_a"@, 1),
        type_is_v("rr_type_ns"@, 2),
        type_is_v("rr_type_cname"@, 5),
        type_is_v("rr_type_soa"@, 6),
        type_is_v("rr_type_ptr"@, 12),
        type_is_v("rr_type_mx"@, 15),
        type_is_v("rr_type_txt"@, 16),
        type_is_v("rr_type_aaaa"@, 28),
        type_is_v("rr_type_opt"@, 41),
        type_is_v("rr_type_ds"@, 43),
        type_is_v("rr_type_sig"@, 46),
        type_is_v("rr_type_key"@, 48),
        type_is_v("rr_type_nsec3"@, 50),
        type_is_v("rr_type_tsig"@, 250),
        constraint_v("rr_type_default"@, word_v(), CondV::Always(true)),
    ]
}

/// The type field of a question.
fn query_type() -> (r: DataModel)
    ensures
        r@ == union_v("query_type"@, query_types_v(), byte_v()),
{
    let options = vec![
        type_is("rr_type_a", 1),
        type_is("rr_type_ns", 2),
        type_is("rr_type_cname", 5),
        type_is("rr_type_soa", 6),
        type_is("rr_type_ptr", 12),
        type_is("rr_type_mx", 15),
        type_is("rr_type_txt", 16),
        type_is("rr_type_aaaa", 28),
        type_is("rr_type_opt", 41),
        type_is("rr_type_ds", 43),
        type_is("rr_type_sig", 46),
        type_is("rr_type_key", 48),
        type_is("rr_type_nsec3", 50),
        type_is("rr_type_tsig", 250),
        type_is("query_type_axfr", 252),
        type_is("query_type_mailb", 253),
        type_is("query_type_maila", 254),
        type_is("query_type_all", 255),
        constraint("rr_type_default", word(), Cond::Always(true)),
    ];
    proof {
        lemma_models_view(options@);
    }
    assert(models_view(options@) =~= query_types_v());
    union_of("query_type", options, byte())
}

/// The type field of a resource record.
fn rr_type_field() -> (r: DataModel)
    ensures
        r@ == union_v("rr_type_field"@, rr_types_v(), word_v()),
{
    let options = vec![
        type_is("rr_type_a", 1),
        type_is("rr_type_ns", 2),
        type_is("rr_type_cname", 5),
        type_is("rr_type_soa", 6),
        type_is("rr_type_ptr", 12),
        type_is("rr_type_mx", 15),
        type_is("rr_type_txt", 16),
        type_is("rr_type_aaaa", 28),
        type_is("rr_type_opt", 41),
        type_is("rr_type_ds", 43),
        type_is("rr_type_sig", 46),
        type_is("rr_type_key", 48),
        type_is("rr_type_nsec3", 50),
        type_is("rr_type_tsig", 250),
        constraint("rr_type_default", word(), Cond::Always(true)),
    ];
    proof {
        lemma_models_view(options@);
    }
    assert(models_view(options@) =~= rr_types_v());
    union_of("rr_type_field", options, word())
}

/// The body of a signature record; its signature takes the bytes left of
/// the body length, which the record holds four levels out.
pub open spec fn rr_sig_v(domain: ModelV) -> ModelV {
    let signature = set_of_v(
        "rr_sig_signature"@,
        byte_v(),
        CondV::Eq(
            ExprV::Add(Box::new(ExprV::FieldBytes(1)), Box::new(ExprV::Count(0))),
            int_at_v(4, seq![StepV::Field("body_length"@)]),
        ),
    );
    sequence_v(
        "rr_sig"@,
        seq![
            ("type_cov"@, word_v()),
            ("alg"@, byte_v()),
            ("labels"@, byte_v()),
            ("origTimeToLive"@, u32_v()),
            ("sigExp"@, u32_v()),
            ("sigInception"@, u32_v()),
            ("keyTag"@, word_v()),
            ("signName"@, domain),
            ("signature"@, signature),
        ],
    )
}

/// The body of an NSEC3 record.
pub open spec fn rr_nsec3_v() -> ModelV {
    let type_map = sequence_v(
        "rr_nsec3_type_map"@,
        seq![
            ("map_num"@, byte_v()),
            ("length"@, byte_v()),
            ("map_bits"@, set_of_v("rr_nsec3_type_map_blob"@, byte_v(), count_is_field_v(1, "length"@))),
        ],
    );
    sequence_v(
        "rr_nsec3"@,
        seq![
            ("alg"@, byte_v()),
            ("flags"@, byte_v()),
            ("iterations"@, word_v()),
            ("salt_length"@, byte_v()),
            ("salt"@, set_of_v("rr_nsec3_salt_blob"@, byte_v(), count_is_field_v(1, "salt_length"@))),
            ("hash_length"@, byte_v()),
            ("next_hash"@, set_of_v("rr_nsec3_hash_blob"@, byte_v(), count_is_field_v(1, "hash_length"@))),
            ("type_map"@, type_map),
        ],
    )
}

/// The body of a transaction signature record.
pub open spec fn rr_tsig_v(domain: ModelV) -> ModelV {
    sequence_v(
        "rr_tsig"@,
        seq![
            ("algorithm"@, domain),
            ("time_signed"@, bytes_sequence_v("u48_sequence"@, seq!["b0"@, "b1"@, "b2"@, "b3"@, "b4"@, "b5"@])),
            ("fudge"@, word_v()),
            ("mac_size"@, word_v()),
            ("mac"@, set_of_v("mac"@, byte_v(), count_is_field_v(1, "mac_size"@))),
            ("original_id"@, word_v()),
            ("error"@, word_v()),
            ("other_data_length"@, word_v()),
            ("other_data"@, set_of_v("other_data"@, byte_v(), count_is_field_v(1, "other_data_length"@))),
        ],
    )
}

/// The body of a signature record.
fn rr_sig(domain: DataModel) -> (r: DataModel)
    ensures
        r@ == rr_sig_v(domain@),
{
    let ghost d = domain@;
    let rr_sig_signature = set_of(
        "rr_sig_signature",
        byte(),
        eq(plus(Expr::FieldBytes(1), count()), field_int(4, "body_length")),
    );
    let fields = vec![
        ("type_cov", word()),
        ("alg", byte()),
        ("labels", byte()),
        ("origTimeToLive", u32_sequence()),
        ("sigExp", u32_sequence()),
        ("sigInception", u32_sequence()),
        ("keyTag", word()),
        ("signName", domain),
        ("signature", rr_sig_signature),
    ];
    assert(Seq::new(fields@.len(), |i: int| (fields@[i].0@, fields@[i].1@)) =~= seq![
        ("type_cov"@, word_v()),
        ("alg"@, byte_v()),
        ("labels"@, byte_v()),
        ("origTimeToLive"@, u32_v()),
        ("sigExp"@, u32_v()),
        ("sigInception"@, u32_v()),
        ("keyTag"@, word_v()),
        ("signName"@, d),
        ("signature"@, rr_sig_signature@),
    ]);
    proof {
        reveal_strlit("type_cov");
        reveal_strlit("alg");
        reveal_strlit("labels");
        reveal_strlit("origTimeToLive");
        reveal_strlit("sigExp");
        reveal_strlit("sigInception");
        reveal_strlit("keyTag");
        reveal_strlit("signName");
        reveal_strlit("signature");
        assert("type_cov"@[0] == 't');
        assert("type_cov"@.len() == 8);
        assert("alg"@.len() == 3);
        assert("labels"@[0] == 'l');
        assert("labels"@.len() == 6);
        assert("origTimeToLive"@.len() == 14);
        assert("sigExp"@[0] == 's');
        assert("sigExp"@.len() == 6);
        assert("sigInception"@.len() == 12);
        assert("keyTag"@[0] == 'k');
        assert("keyTag"@.len() == 6);
        assert("signName"@[0] == 's');
        assert("signName"@.len() == 8);
        assert("signature"@.len() == 9);
        assert(seq!["type_cov"@, "alg"@, "labels"@, "origTimeToLive"@, "sigExp"@, "sigInception"@, "keyTag"@, "signName"@, "signature"@].no_duplicates());
        assert(Seq::new(fields@.len(), |i: int| fields@[i].0@) =~= seq!["type_cov"@, "alg"@, "labels"@, "origTimeToLive"@, "sigExp"@, "sigInception"@, "keyTag"@, "signName"@, "signature"@]);
    }
    sequence("rr_sig", fields)
}

/// The body of an NSEC3 record.
fn rr_nsec3() -> (r: DataModel)
    ensures
        r@ == rr_nsec3_v(),
{
    let rr_nsec3_salt_blob = set_of("rr_nsec3_salt_blob", byte(), count_is_field(1, "salt_length"));
    let rr_nsec3_hash_blob = set_of("rr_nsec3_hash_blob", byte(), count_is_field(1, "hash_length"));
    let rr_nsec3_type_map_blob = set_of("rr_nsec3_type_map_blob", byte(), count_is_field(1, "length"));
    let map_fields = vec![("map_num", byte()), ("length", byte()), ("map_bits", rr_nsec3_type_map_blob)];
    assert(Seq::new(map_fields@.len(), |i: int| (map_fields@[i].0@, map_fields@[i].1@)) =~= seq![
        ("map_num"@, byte_v()),
        ("length"@, byte_v()),
        ("map_bits"@, rr_nsec3_type_map_blob@),
    ]);
    proof {
        reveal_strlit("map_num");
        reveal_strlit("length");
        reveal_strlit("map_bits");
        assert("map_num"@.len() == 7);
        assert("length"@.len() == 6);
        assert("map_bits"@.len() == 8);
        assert(seq!["map_num"@, "length"@, "map_bits"@].no_duplicates());
        assert(Seq::new(map_fields@.len(), |i: int| map_fields@[i].0@) =~= seq!["map_num"@, "length"@, "map_bits"@]);
    }
    let rr_nsec3_type_map = sequence("rr_nsec3_type_map", map_fields);
    let fields = vec![
        ("alg", byte()),
        ("flags", byte()),
        ("iterations", word()),
        ("salt_length", byte()),
        ("salt", rr_nsec3_salt_blob),
        ("hash_length", byte()),
        ("next_hash", rr_nsec3_hash_blob),
        ("type_map", rr_nsec3_type_map),
    ];
    assert(Seq::new(fields@.len(), |i: int| (fields@[i].0@, fields@[i].1@)) =~= seq![
        ("alg"@, byte_v()),
        ("flags"@, byte_v()),
        ("iterations"@, word_v()),
        ("salt_length"@, byte_v()),
        ("salt"@, rr_nsec3_salt_blob@),
        ("hash_length"@, byte_v()),
        ("next_hash"@, rr_nsec3_hash_blob@),
        ("type_map"@, rr_nsec3_type_map@),
    ]);
    proof {
        reveal_strlit("alg");
        reveal_strlit("flags");
        reveal_strlit("iterations");
        reveal_strlit("salt_length");
        reveal_strlit("salt");
        reveal_strlit("hash_length");
        reveal_strlit("next_hash");
        reveal_strlit("type_map");
        assert("alg"@.len() == 3);
        assert("flags"@.len() == 5);
        assert("iterations"@.len() == 10);
        assert("salt_length"@[0] == 's');
        assert("salt_length"@.len() == 11);
        assert("salt"@.len() == 4);
        assert("hash_length"@[0] == 'h');
        assert("hash_length"@.len() == 11);
        assert("next_hash"@.len() == 9);
        assert("type_map"@.len() == 8);
        assert(seq!["alg"@, "flags"@, "iterations"@, "salt_length"@, "salt"@, "hash_length"@, "next_hash"@, "type_map"@].no_duplicates());
        assert(Seq::new(fields@.len(), |i: int| fields@[i].0@) =~= seq!["alg"@, "flags"@, "iterations"@, "salt_length"@, "salt"@, "hash_length"@, "next_hash"@, "type_map"@]);
    }
    sequence("rr_nsec3", fields)
}

/// The body of a transaction signature record.
fn rr_tsig(domain: DataModel) -> (r: DataModel)
    ensures
        r@ == rr_tsig_v(domain@),
{
    let ghost d = domain@;
    let keys = vec!["b0", "b1", "b2", "b3", "b4", "b5"];
    assert(Seq::new(keys@.len(), |i: int| keys@[i]@) =~= seq!["b0"@, "b1"@, "b2"@, "b3"@, "b4"@, "b5"@]);
    proof {
        reveal_strlit("b0");
        reveal_strlit("b1");
        reveal_strlit("b2");
        reveal_strlit("b3");
        reveal_strlit("b4");
        reveal_strlit("b5");
        assert("b0"@[1] == '0');
        assert("b1"@[1] == '1');
        assert("b2"@[1] == '2');
        assert("b3"@[1] == '3');
        assert("b4"@[1] == '4');
        assert("b5"@[1] == '5');
        assert(seq!["b0"@, "b1"@, "b2"@, "b3"@, "b4"@, "b5"@].no_duplicates());
        assert(Seq::new(keys@.len(), |i: int| keys@[i]@) =~= seq!["b0"@, "b1"@, "b2"@, "b3"@, "b4"@, "b5"@]);
    }
    let uint48 = bytes_sequence("u48_sequence", keys);
    let mac = set_of("mac", byte(), count_is_field(1, "mac_size"));
    let other_data = set_of("other_data", byte(), count_is_field(1, "other_data_length"));
    let fields = vec![
        ("algorithm", domain),
        ("time_signed", uint48),
        ("fudge", word()),
        ("mac_size", word()),
        ("mac", mac),
        ("original_id", word()),
        ("error", word()),
        ("other_data_length", word()),
        ("other_data", other_data),
    ];
    assert(Seq::new(fields@.len(), |i: int| (fields@[i].0@, fields@[i].1@)) =~= seq![
        ("algorithm"@, d),
        ("time_signed"@, uint48@),
        ("fudge"@, word_v()),
        ("mac_size"@, word_v()),
        ("mac"@, mac@),
        ("original_id"@, word_v()),
        ("error"@, word_v()),
        ("other_data_length"@, word_v()),
        ("other_data"@, other_data@),
    ]);
    proof {
        reveal_strlit("algorithm");
        reveal_strlit("time_signed");
        reveal_strlit("fudge");
        reveal_strlit("mac_size");
        reveal_strlit("mac");
        reveal_strlit("original_id");
        reveal_strlit("error");
        reveal_strlit("other_data_length");
        reveal_strlit("other_data");
        assert("algorithm"@.len() == 9);
        assert("time_signed"@[0] == 't');
        assert("time_signed"@.len() == 11);
        assert("fudge"@[0] == 'f');
        assert("fudge"@.len() == 5);
        assert("mac_size"@.len() == 8);
        assert("mac"@.len() == 3);
        assert("original_id"@[0] == 'o');
        assert("original_id"@.len() == 11);
        assert("error"@[0] == 'e');
        assert("error"@.len() == 5);
        assert("other_data_length"@.len() == 17);
        assert("other_data"@.len() == 10);
        assert(seq!["algorithm"@, "time_signed"@, "fudge"@, "mac_size"@, "mac"@, "original_id"@, "error"@, "other_data_length"@, "other_data"@].no_duplicates());
        assert(Seq::new(fields@.len(), |i: int| fields@[i].0@) =~= seq!["algorithm"@, "time_signed"@, "fudge"@, "mac_size"@, "mac"@, "original_id"@, "error"@, "other_data_length"@, "other_data"@]);
    }
    sequence("rr_tsig", fields)
}

/// The bytes of a record's body, as many as its body length, which the
/// record holds four levels out of a field of the body.
pub open spec fn rr_body_blob_v() -> ModelV {
    set_of_v("rr_body_blob"@, byte_v(), count_is_field_v(4, "body_length"@))
}

/// The body of a start-of-authority record.
pub open spec fn rr_soa_v(domain: ModelV) -> ModelV {
    sequence_v(
        "rr_soa"@,
        seq![
            ("primaryNameServer"@, domain),
            ("reponsibleAuthority"@, domain),
            ("serialNumber"@, u32_v()),
            ("refreshInterval"@, u32_v()),
            ("retryInterval"@, u32_v()),
            ("expireLimit"@, u32_v()),
            ("minimumTTL"@, u32_v()),
        ],
    )
}

/// The body of an IPv6 address record.
pub open spec fn rr_aaaa_v() -> ModelV {
    sequence_v(
        "rr_aaaa"@,
        seq![
            (
                "ipv6_address"@,
                bytes_sequence_v(
                    "u128_sequence"@,
                    seq![
                        "b0"@, "b1"@, "b2"@, "b3"@, "b4"@, "b5"@, "b6"@, "b7"@, "b8"@, "b9"@, "b10"@, "b11"@,
                        "b12"@, "b13"@, "b14"@, "b15"@,
                    ],
                ),
            ),
        ],
    )
}

/// The body of a delegation signer record.
pub open spec fn rr_ds_v() -> ModelV {
    sequence_v(
        "rr_ds"@,
        seq![
            ("keyid"@, word_v()),
            ("alg"@, byte_v()),
            ("digestType"@, byte_v()),
            (
                "digest"@,
                bytes_sequence_v(
                    "u256_sequence"@,
                    seq![
                        "b0"@, "b1"@, "b2"@, "b3"@, "b4"@, "b5"@, "b6"@, "b7"@, "b8"@, "b9"@, "b10"@, "b11"@,
                        "b12"@, "b13"@, "b14"@, "b15"@, "b16"@, "b17"@, "b18"@, "b19"@, "b20"@, "b21"@,
                        "b22"@, "b23"@, "b24"@, "b25"@, "b26"@, "b27"@, "b28"@, "b29"@, "b30"@, "b31"@,
                    ],
                ),
            ),
        ],
    )
}

/// The body of a key record; its key takes the body length less four bytes.
pub open spec fn rr_key_v() -> ModelV {
    sequence_v(
        "rr_key"@,
        seq![
            ("flags"@, word_v()),
            ("protocol"@, byte_v()),
            ("algorithm"@, byte_v()),
            (
                "key"@,
                set_of_v(
                    "rr_key_blob"@,
                    byte_v(),
                    CondV::Eq(
                        ExprV::Count(0),
                        ExprV::Sub(
                            Box::new(int_at_v(4, seq![StepV::Field("body_length"@)])),
                            Box::new(ExprV::Const(4)),
                        ),
                    ),
                ),
            ),
        ],
    )
}

/// The alternatives for a record body, one for each known type, in the order
/// of the cases of `body_selector_v`.
pub open spec fn record_bodies_v(domain: ModelV) -> Seq<ModelV> {
    seq![
        sequence_v("rr_a"@, seq![("ipv4_address"@, u32_v())]),
        sequence_v("rr_ns"@, seq![("nameServer"@, domain)]),
        sequence_v("rr_cname"@, seq![("cname"@, domain)]),
        rr_soa_v(domain),
        sequence_v("rr_ptr"@, seq![("domainName"@, domain)]),
        sequence_v("rr_mx"@, seq![("preference"@, word_v()), ("mailExchange"@, domain)]),
        sequence_v("rr_txt"@, seq![("text"@, rr_body_blob_v())]),
        rr_aaaa_v(),
        sequence_v("rr_opt"@, seq![("opt_records"@, rr_body_blob_v())]),
        rr_ds_v(),
        rr_sig_v(domain),
        rr_key_v(),
        rr_nsec3_v(),
        rr_tsig_v(domain),
    ]
}

/// Picks a record's body by the type field, one level out: the record's type
/// union, its constraint, then the integer; for a type it does not know, a
/// byte that always fails.
pub open spec fn body_selector_v() -> SelectV {
    SelectV {
        key: int_at_v(1, seq![StepV::Field("type"@), StepV::Child, StepV::Child]),
        cases: seq![
            (1int, 0nat),
            (2int, 1nat),
            (5int, 2nat),
            (6int, 3nat),
            (12int, 4nat),
            (15int, 5nat),
            (16int, 6nat),
            (28int, 7nat),
            (41int, 8nat),
            (43int, 9nat),
            (46int, 10nat),
            (48int, 11nat),
            (50int, 12nat),
            (250int, 13nat),
        ],
        default: Box::new(constraint_v("fail"@, byte_v(), CondV::Always(false))),
    }
}

/// The body that each record type known here has, by its type code: A (1),
/// NS (2), CNAME (5), SOA (6), PTR (12), MX (15), TXT (16), AAAA (28),
/// OPT (41), DS (43), SIG (46), KEY (48), NSEC3 (50) and TSIG (250).
pub open spec fn rr_body_name(t: int) -> Option<Seq<char>> {
    if t == 1 {
        Some("rr_a"@)
    } else if t == 2 {
        Some("rr_ns"@)
    } else if t == 5 {
        Some("rr_cname"@)
    } else if t == 6 {
        Some("rr_soa"@)
    } else if t == 12 {
        Some("rr_ptr"@)
    } else if t == 15 {
        Some("rr_mx"@)
    } else if t == 16 {
        Some("rr_txt"@)
    } else if t == 28 {
        Some("rr_aaaa"@)
    } else if t == 41 {
        Some("rr_opt"@)
    } else if t == 43 {
        Some("rr_ds"@)
    } else if t == 46 {
        Some("rr_sig"@)
    } else if t == 48 {
        Some("rr_key"@)
    } else if t == 50 {
        Some("rr_nsec3"@)
    } else if t == 250 {
        Some("rr_tsig"@)
    } else {
        None
    }
}

/// A record's body is picked by its type: where the type field holds a known
/// type code, the selector picks the body alternative for that type; for any
/// other code it picks its default, a body that fails to parse on any input.
pub proof fn lemma_body_selector_by_type(domain: ModelV, ctx: Seq<FrameV>, t: int, input: Seq<bool>)
    requires
        eval_expr(body_selector_v().key, ctx) == Some(t),
    ensures
        rr_body_name(t) matches Some(n) ==> (eval_select(body_selector_v(), ctx) matches Some(Some(i)) && i
            < record_bodies_v(domain).len() && name_of(record_bodies_v(domain)[i as int]) == n),
        rr_body_name(t) is None ==> eval_select(body_selector_v(), ctx) == Some(None::<nat>),
        name_of(*body_selector_v().default) == "fail"@,
        spec_parse(*body_selector_v().default, ctx, input).result is Err,
{
    reveal_with_fuel(first_case, 16);
    let bodies = record_bodies_v(domain);
    assert(bodies.len() == 14);
    assert(name_of(bodies[0]) == "rr_a"@);
    assert(name_of(bodies[1]) == "rr_ns"@);
    assert(name_of(bodies[2]) == "rr_cname"@);
    assert(name_of(bodies[3]) == "rr_soa"@);
    assert(name_of(bodies[4]) == "rr_ptr"@);
    assert(name_of(bodies[5]) == "rr_mx"@);
    assert(name_of(bodies[6]) == "rr_txt"@);
    assert(name_of(bodies[7]) == "rr_aaaa"@);
    assert(name_of(bodies[8]) == "rr_opt"@);
    assert(name_of(bodies[9]) == "rr_ds"@);
    assert(name_of(bodies[10]) == "rr_sig"@);
    assert(name_of(bodies[11]) == "rr_key"@);
    assert(name_of(bodies[12]) == "rr_nsec3"@);
    assert(name_of(bodies[13]) == "rr_tsig"@);
}

/// A resource record: its owner's name, type, class, time to live, body
/// length and body.
pub open spec fn resource_record_v(domain: ModelV) -> ModelV {
    sequence_v(
        "resource_record"@,
        seq![
            ("name"@, domain),
            ("type"@, union_v("rr_type_field"@, rr_types_v(), word_v())),
            ("class"@, word_v()),
            ("ttl"@, u32_v()),
            ("body_length"@, word_v()),
            ("rr_body"@, rr_body_v(domain)),
        ],
    )
}

/// The body of a resource record: the body for its type where that takes the
/// body length, and otherwise that many bytes.
pub open spec fn rr_body_v(domain: ModelV) -> ModelV {
    let switch = ModelV::Switch {
        name: "rr_body_switch"@,
        options: record_bodies_v(domain),
        child: Box::new(record_bodies_v(domain)[0]),
        select: body_selector_v(),
    };
    let body_constraint = constraint_v(
        "rr_body_constraint"@,
        switch,
        CondV::Eq(
            ExprV::Bytes(PathV { up: 0, steps: seq![StepV::Child] }),
            int_at_v(2, seq![StepV::Field("body_length"@)]),
        ),
    );
    let body_unknown = set_of_v("rr_body_unknown"@, byte_v(), count_is_field_v(2, "body_length"@));
    union_v("rr_body_or_unknown"@, seq![body_constraint, body_unknown], byte_v())
}

/// The grammar of a DNS message: the header, then the questions, answers,
/// authority and additional records, each as many as the header says, then
/// the end of the input.
pub open spec fn dns_grammar() -> ModelV {
    let query = sequence_v(
        "query"@,
        seq![
            ("name"@, domain_v()),
            ("type"@, union_v("query_type"@, query_types_v(), byte_v())),
            ("class"@, word_v()),
        ],
    );
    let record = resource_record_v(domain_v());
    sequence_v(
        "result"@,
        seq![
            ("transactionId"@, word_v()),
            ("flags"@, word_v()),
            ("numQuestion"@, word_v()),
            ("numAnswer"@, word_v()),
            ("numAuthority"@, word_v()),
            ("numAdditional"@, word_v()),
            ("question"@, set_of_v("question_set"@, query, count_is_field_v(1, "numQuestion"@))),
            ("answer"@, set_of_v("answer_set"@, record, count_is_field_v(1, "numAnswer"@))),
            ("authority"@, set_of_v("authority_set"@, record, count_is_field_v(1, "numAuthority"@))),
            ("additional"@, set_of_v("additional_set"@, record, count_is_field_v(1, "numAdditional"@))),
            ("end"@, ModelV::Button { name: "Button"@ }),
        ],
    )
}

/// The body of a start-of-authority record.
fn rr_soa(domain: &DataModel) -> (r: DataModel)
    ensures
        r@ == rr_soa_v(domain@),
{
    let ghost d = domain@;
    let soa_fields = vec![
        ("primaryNameServer", domain.clone()),
        ("reponsibleAuthority", domain.clone()),
        ("serialNumber", u32_sequence()),
        ("refreshInterval", u32_sequence()),
        ("retryInterval", u32_sequence()),
        ("expireLimit", u32_sequence()),
        ("minimumTTL", u32_sequence()),
    ];
    assert(Seq::new(soa_fields@.len(), |i: int| (soa_fields@[i].0@, soa_fields@[i].1@)) =~= seq![
        ("primaryNameServer"@, d),
        ("reponsibleAuthority"@, d),
        ("serialNumber"@, u32_v()),
        ("refreshInterval"@, u32_v()),
        ("retryInterval"@, u32_v()),
        ("expireLimit"@, u32_v()),
        ("minimumTTL"@, u32_v()),
    ]);
    proof {
        reveal_strlit("primaryNameServer");
        reveal_strlit("reponsibleAuthority");
        reveal_strlit("serialNumber");
        reveal_strlit("refreshInterval");
        reveal_strlit("retryInterval");
        reveal_strlit("expireLimit");
        reveal_strlit("minimumTTL");
        assert("primaryNameServer"@.len() == 17);
        assert("reponsibleAuthority"@.len() == 19);
        assert("serialNumber"@.len() == 12);
        assert("refreshInterval"@.len() == 15);
        assert("retryInterval"@.len() == 13);
        assert("expireLimit"@.len() == 11);
        assert("minimumTTL"@.len() == 10);
        assert(seq!["primaryNameServer"@, "reponsibleAuthority"@, "serialNumber"@, "refreshInterval"@, "retryInterval"@, "expireLimit"@, "minimumTTL"@].no_duplicates());
        assert(Seq::new(soa_fields@.len(), |i: int| soa_fields@[i].0@) =~= seq!["primaryNameServer"@, "reponsibleAuthority"@, "serialNumber"@, "refreshInterval"@, "retryInterval"@, "expireLimit"@, "minimumTTL"@]);
    }
    sequence("rr_soa", soa_fields)
}

/// The body of an IPv6 address record.
fn rr_aaaa() -> (r: DataModel)
    ensures
        r@ == rr_aaaa_v(),
{
    let keys16 = vec!["b0", "b1", "b2", "b3", "b4", "b5", "b6", "b7", "b8", "b9", "b10", "b11", "b12", "b13", "b14", "b15"];
    assert(Seq::new(keys16@.len(), |i: int| keys16@[i]@) =~= seq![
        "b0"@, "b1"@, "b2"@, "b3"@, "b4"@, "b5"@, "b6"@, "b7"@, "b8"@, "b9"@, "b10"@, "b11"@,
        "b12"@, "b13"@, "b14"@, "b15"@,
    ]);
    proof {
        reveal_strlit("b0");
        reveal_strlit("b1");
        reveal_strlit("b2");
        reveal_strlit("b3");
        reveal_strlit("b4");
        reveal_strlit("b5");
        reveal_strlit("b6");
        reveal_strlit("b7");
        reveal_strlit("b8");
        reveal_strlit("b9");
        reveal_strlit("b10");
        reveal_strlit("b11");
        reveal_strlit("b12");
        reveal_strlit("b13");
        reveal_strlit("b14");
        reveal_strlit("b15");
        assert("b0"@[1] == '0');
        assert("b0"@.len() == 2);
        assert("b1"@[1] == '1');
        assert("b1"@.len() == 2);
        assert("b2"@[1] == '2');
        assert("b2"@.len() == 2);
        assert("b3"@[1] == '3');
        assert("b3"@.len() == 2);
        assert("b4"@[1] == '4');
        assert("b4"@.len() == 2);
        assert("b5"@[1] == '5');
        assert("b5"@.len() == 2);
        assert("b6"@[1] == '6');
        assert("b6"@.len() == 2);
        assert("b7"@[1] == '7');
        assert("b7"@.len() == 2);
        assert("b8"@[1] == '8');
        assert("b8"@.len() == 2);
        assert("b9"@[1] == '9');
        assert("b9"@.len() == 2);
        assert("b10"@[2] == '0');
        assert("b10"@.len() == 3);
        assert("b11"@[2] == '1');
        assert("b11"@.len() == 3);
        assert("b12"@[2] == '2');
        assert("b12"@.len() == 3);
        assert("b13"@[2] == '3');
        assert("b13"@.len() == 3);
        assert("b14"@[2] == '4');
        assert("b14"@.len() == 3);
        assert("b15"@[2] == '5');
        assert("b15"@.len() == 3);
        assert(seq!["b0"@, "b1"@, "b2"@, "b3"@, "b4"@, "b5"@, "b6"@, "b7"@, "b8"@, "b9"@, "b10"@, "b11"@, "b12"@, "b13"@, "b14"@, "b15"@].no_duplicates());
        assert(Seq::new(keys16@.len(), |i: int| keys16@[i]@) =~= seq!["b0"@, "b1"@, "b2"@, "b3"@, "b4"@, "b5"@, "b6"@, "b7"@, "b8"@, "b9"@, "b10"@, "b11"@, "b12"@, "b13"@, "b14"@, "b15"@]);
    }
    let u128_seq = bytes_sequence("u128_sequence", keys16);
    sequence1("rr_aaaa", "ipv6_address", u128_seq)
}

/// The body of a delegation signer record.
fn rr_ds() -> (r: DataModel)
    ensures
        r@ == rr_ds_v(),
{
    let keys32 = vec![
        "b0", "b1", "b2", "b3", "b4", "b5", "b6", "b7", "b8", "b9", "b10", "b11", "b12", "b13", "b14", "b15",
        "b16", "b17", "b18", "b19", "b20", "b21", "b22", "b23", "b24", "b25", "b26", "b27", "b28", "b29",
        "b30", "b31",
    ];
    assert(Seq::new(keys32@.len(), |i: int| keys32@[i]@) =~= seq![
        "b0"@, "b1"@, "b2"@, "b3"@, "b4"@, "b5"@, "b6"@, "b7"@, "b8"@, "b9"@, "b10"@, "b11"@,
        "b12"@, "b13"@, "b14"@, "b15"@, "b16"@, "b17"@, "b18"@, "b19"@, "b20"@, "b21"@,
        "b22"@, "b23"@, "b24"@, "b25"@, "b26"@, "b27"@, "b28"@, "b29"@, "b30"@, "b31"@,
    ]);
    proof {
        reveal_strlit("b0");
        reveal_strlit("b1");
        reveal_strlit("b2");
        reveal_strlit("b3");
        reveal_strlit("b4");
        reveal_strlit("b5");
        reveal_strlit("b6");
        reveal_strlit("b7");
        reveal_strlit("b8");
        reveal_strlit("b9");
        reveal_strlit("b10");
        reveal_strlit("b11");
        reveal_strlit("b12");
        reveal_strlit("b13");
        reveal_strlit("b14");
        reveal_strlit("b15");
        reveal_strlit("b16");
        reveal_strlit("b17");
        reveal_strlit("b18");
        reveal_strlit("b19");
        reveal_strlit("b20");
        reveal_strlit("b21");
        reveal_strlit("b22");
        reveal_strlit("b23");
        reveal_strlit("b24");
        reveal_strlit("b25");
        reveal_strlit("b26");
        reveal_strlit("b27");
        reveal_strlit("b28");
        reveal_strlit("b29");
        reveal_strlit("b30");
        reveal_strlit("b31");
        assert("b0"@[1] == '0');
        assert("b0"@.len() == 2);
        assert("b1"@[1] == '1');
        assert("b1"@.len() == 2);
        assert("b2"@[1] == '2');
        assert("b2"@.len() == 2);
        assert("b3"@[1] == '3');
        assert("b3"@.len() == 2);
        assert("b4"@[1] == '4');
        assert("b4"@.len() == 2);
        assert("b5"@[1] == '5');
        assert("b5"@.len() == 2);
        assert("b6"@[1] == '6');
        assert("b6"@.len() == 2);
        assert("b7"@[1] == '7');
        assert("b7"@.len() == 2);
        assert("b8"@[1] == '8');
        assert("b8"@.len() == 2);
        assert("b9"@[1] == '9');
        assert("b9"@.len() == 2);
        assert("b10"@[1] == '1');
        assert("b10"@[2] == '0');
        assert("b10"@.len() == 3);
        assert("b11"@[1] == '1');
        assert("b11"@[2] == '1');
        assert("b11"@.len() == 3);
        assert("b12"@[1] == '1');
        assert("b12"@[2] == '2');
        assert("b12"@.len() == 3);
        assert("b13"@[1] == '1');
        assert("b13"@[2] == '3');
        assert("b13"@.len() == 3);
        assert("b14"@[1] == '1');
        assert("b14"@[2] == '4');
        assert("b14"@.len() == 3);
        assert("b15"@[1] == '1');
        assert("b15"@[2] == '5');
        assert("b15"@.len() == 3);
        assert("b16"@[1] == '1');
        assert("b16"@[2] == '6');
        assert("b16"@.len() == 3);
        assert("b17"@[1] == '1');
        assert("b17"@[2] == '7');
        assert("b17"@.len() == 3);
        assert("b18"@[1] == '1');
        assert("b18"@[2] == '8');
        assert("b18"@.len() == 3);
        assert("b19"@[1] == '1');
        assert("b19"@[2] == '9');
        assert("b19"@.len() == 3);
        assert("b20"@[1] == '2');
        assert("b20"@[2] == '0');
        assert("b20"@.len() == 3);
        assert("b21"@[1] == '2');
        assert("b21"@[2] == '1');
        assert("b21"@.len() == 3);
        assert("b22"@[1] == '2');
        assert("b22"@[2] == '2');
        assert("b22"@.len() == 3);
        assert("b23"@[1] == '2');
        assert("b23"@[2] == '3');
        assert("b23"@.len() == 3);
        assert("b24"@[1] == '2');
        assert("b24"@[2] == '4');
        assert("b24"@.len() == 3);
        assert("b25"@[1] == '2');
        assert("b25"@[2] == '5');
        assert("b25"@.len() == 3);
        assert("b26"@[1] == '2');
        assert("b26"@[2] == '6');
        assert("b26"@.len() == 3);
        assert("b27"@[1] == '2');
        assert("b27"@[2] == '7');
        assert("b27"@.len() == 3);
        assert("b28"@[1] == '2');
        assert("b28"@[2] == '8');
        assert("b28"@.len() == 3);
        assert("b29"@[1] == '2');
        assert("b29"@[2] == '9');
        assert("b29"@.len() == 3);
        assert("b30"@[1] == '3');
        assert("b30"@[2] == '0');
        assert("b30"@.len() == 3);
        assert("b31"@[1] == '3');
        assert("b31"@[2] == '1');
        assert("b31"@.len() == 3);
        assert(seq!["b0"@, "b1"@, "b2"@, "b3"@, "b4"@, "b5"@, "b6"@, "b7"@, "b8"@, "b9"@, "b10"@, "b11"@, "b12"@, "b13"@, "b14"@, "b15"@, "b16"@, "b17"@, "b18"@, "b19"@, "b20"@, "b21"@, "b22"@, "b23"@, "b24"@, "b25"@, "b26"@, "b27"@, "b28"@, "b29"@, "b30"@, "b31"@].no_duplicates());
        assert(Seq::new(keys32@.len(), |i: int| keys32@[i]@) =~= seq!["b0"@, "b1"@, "b2"@, "b3"@, "b4"@, "b5"@, "b6"@, "b7"@, "b8"@, "b9"@, "b10"@, "b11"@, "b12"@, "b13"@, "b14"@, "b15"@, "b16"@, "b17"@, "b18"@, "b19"@, "b20"@, "b21"@, "b22"@, "b23"@, "b24"@, "b25"@, "b26"@, "b27"@, "b28"@, "b29"@, "b30"@, "b31"@]);
    }
    let u256_seq = bytes_sequence("u256_sequence", keys32);
    let ds_fields = vec![("keyid", word()), ("alg", byte()), ("digestType", byte()), ("digest", u256_seq)];
    assert(Seq::new(ds_fields@.len(), |i: int| (ds_fields@[i].0@, ds_fields@[i].1@)) =~= seq![
        ("keyid"@, word_v()),
        ("alg"@, byte_v()),
        ("digestType"@, byte_v()),
        ("digest"@, u256_seq@),
    ]);
    proof {
        reveal_strlit("keyid");
        reveal_strlit("alg");
        reveal_strlit("digestType");
        reveal_strlit("digest");
        assert("keyid"@.len() == 5);
        assert("alg"@.len() == 3);
        assert("digestType"@.len() == 10);
        assert("digest"@.len() == 6);
        assert(seq!["keyid"@, "alg"@, "digestType"@, "digest"@].no_duplicates());
        assert(Seq::new(ds_fields@.len(), |i: int| ds_fields@[i].0@) =~= seq!["keyid"@, "alg"@, "digestType"@, "digest"@]);
    }
    sequence("rr_ds", ds_fields)
}

/// The body of a key record.
fn rr_key() -> (r: DataModel)
    ensures
        r@ == rr_key_v(),
{
    let rr_key_blob = set_of(
        "rr_key_blob",
        byte(),
        eq(count(), minus(field_int(4, "body_length"), Expr::Const(4))),
    );
    let key_fields = vec![("flags", word()), ("protocol", byte()), ("algorithm", byte()), ("key", rr_key_blob)];
    assert(Seq::new(key_fields@.len(), |i: int| (key_fields@[i].0@, key_fields@[i].1@)) =~= seq![
        ("flags"@, word_v()),
        ("protocol"@, byte_v()),
        ("algorithm"@, byte_v()),
        ("key"@, rr_key_blob@),
    ]);
    proof {
        reveal_strlit("flags");
        reveal_strlit("protocol");
        reveal_strlit("algorithm");
        reveal_strlit("key");
        assert("flags"@.len() == 5);
        assert("protocol"@.len() == 8);
        assert("algorithm"@.len() == 9);
        assert("key"@.len() == 3);
        assert(seq!["flags"@, "protocol"@, "algorithm"@, "key"@].no_duplicates());
        assert(Seq::new(key_fields@.len(), |i: int| key_fields@[i].0@) =~= seq!["flags"@, "protocol"@, "algorithm"@, "key"@]);
    }
    sequence("rr_key", key_fields)
}

/// The alternatives for a record body.
fn record_bodies(domain: &DataModel) -> (r: Vec<DataModel>)
    ensures
        models_view(r@) == record_bodies_v(domain@),
{
    let ghost d = domain@;
    let rr_body_blob = set_of("rr_body_blob", byte(), count_is_field(4, "body_length"));
    let rr_a = sequence1("rr_a", "ipv4_address", u32_sequence());
    let rr_ns = sequence1("rr_ns", "nameServer", domain.clone());
    let rr_cname = sequence1("rr_cname", "cname", domain.clone());
    let rr_soa = rr_soa(domain);
    let rr_ptr = sequence1("rr_ptr", "domainName", domain.clone());
    proof {
        reveal_strlit("preference");
        reveal_strlit("mailExchange");
        assert("preference"@.len() == 10);
        assert("mailExchange"@.len() == 12);
    }
    let rr_mx = sequence2("rr_mx", "preference", word(), "mailExchange", domain.clone());
    let rr_txt = sequence1("rr_txt", "text", rr_body_blob.clone());
    let rr_aaaa = rr_aaaa();
    let rr_opt = sequence1("rr_opt", "opt_records", rr_body_blob);
    let rr_ds = rr_ds();
    let rr_key = rr_key();
    let r = vec![
        rr_a,
        rr_ns,
        rr_cname,
        rr_soa,
        rr_ptr,
        rr_mx,
        rr_txt,
        rr_aaaa,
        rr_opt,
        rr_ds,
        rr_sig(domain.clone()),
        rr_key,
        rr_nsec3(),
        rr_tsig(domain.clone()),
    ];
    proof {
        lemma_models_view(r@);
    }
    assert(models_view(r@) =~= record_bodies_v(d));
    r
}

/// Picks a record's body by the type field.
fn body_selector() -> (r: Selector)
    ensures
        r@ == body_selector_v(),
{
    let key = int_at(1, vec![field("type"), Step::Child, Step::Child]);
    assert(key@->Int_0.steps =~= seq![StepV::Field("type"@), StepV::Child, StepV::Child]);
    let r = Selector {
        key,
        cases: vec![
            (1, 0),
            (2, 1),
            (5, 2),
            (6, 3),
            (12, 4),
            (15, 5),
            (16, 6),
            (28, 7),
            (41, 8),
            (43, 9),
            (46, 10),
            (48, 11),
            (50, 12),
            (250, 13),
        ],
        default: Box::new(constraint("fail", byte(), Cond::Always(false))),
    };
    assert(r@.cases =~= body_selector_v().cases);
    r
}

/// The body of a resource record.
fn rr_body(domain: &DataModel) -> (r: DataModel)
    ensures
        r@ == rr_body_v(domain@),
{
    let bodies = record_bodies(domain);
    proof {
        lemma_models_view(bodies@);
    }
    let rr_body_switch = Switch::new("rr_body_switch", bodies, body_selector());
    let whole_body = Path::new(0, vec![Step::Child]);
    assert(whole_body@.steps =~= seq![StepV::Child]);
    let rr_body_constraint = constraint(
        "rr_body_constraint",
        rr_body_switch,
        eq(Expr::Bytes(whole_body), field_int(2, "body_length")),
    );
    let rr_body_unknown = set_of("rr_body_unknown", byte(), count_is_field(2, "body_length"));
    let options = vec![rr_body_constraint, rr_body_unknown];
    proof {
        lemma_models_view(options@);
    }
    assert(models_view(options@) =~= seq![rr_body_constraint@, rr_body_unknown@]);
    union_of("rr_body_or_unknown", options, byte())
}

/// A resource record.
fn resource_record(domain: DataModel) -> (r: DataModel)
    ensures
        r@ == resource_record_v(domain@),
{
    let ghost d = domain@;
    let body = rr_body(&domain);
    let fields = vec![
        ("name", domain),
        ("type", rr_type_field()),
        ("class", word()),
        ("ttl", u32_sequence()),
        ("body_length", word()),
        ("rr_body", body),
    ];
    assert(Seq::new(fields@.len(), |i: int| (fields@[i].0@, fields@[i].1@)) =~= seq![
        ("name"@, d),
        ("type"@, union_v("rr_type_field"@, rr_types_v(), word_v())),
        ("class"@, word_v()),
        ("ttl"@, u32_v()),
        ("body_length"@, word_v()),
        ("rr_body"@, rr_body_v(d)),
    ]);
    proof {
        reveal_strlit("name");
        reveal_strlit("type");
        reveal_strlit("class");
        reveal_strlit("ttl");
        reveal_strlit("body_length");
        reveal_strlit("rr_body");
        assert("name"@[0] == 'n');
        assert("name"@.len() == 4);
        assert("type"@[0] == 't');
        assert("type"@.len() == 4);
        assert("class"@.len() == 5);
        assert("ttl"@.len() == 3);
        assert("body_length"@.len() == 11);
        assert("rr_body"@.len() == 7);
        assert(seq!["name"@, "type"@, "class"@, "ttl"@, "body_length"@, "rr_body"@].no_duplicates());
        assert(Seq::new(fields@.len(), |i: int| fields@[i].0@) =~= seq!["name"@, "type"@, "class"@, "ttl"@, "body_length"@, "rr_body"@]);
    }
    sequence("resource_record", fields)
}

/// A DNS message parses only as a whole: a parse with the grammar that
/// succeeds takes every bit of the input.
pub proof fn lemma_dns_takes_all(ctx: Seq<FrameV>, input: Seq<bool>)
    ensures
        spec_parse(dns_grammar(), ctx, input).result is Ok ==> spec_parse(dns_grammar(), ctx, input).consumed
            == input.len(),
{
    let g = dns_grammar();
    assert(g->Sequence_vals.len() == 11);
    assert(g->Sequence_vals.last() is Button);
    lemma_sequence_ending_in_button(g->Sequence_name, g->Sequence_keys, g->Sequence_vals, ctx, input);
}

/// The grammar of a DNS message.
pub fn dns() -> (r: DataModel)
    ensures
        r@ == dns_grammar(),
{
    let domain = domain();
    let query_fields = vec![("name", domain.clone()), ("type", query_type()), ("class", word())];
    assert(Seq::new(query_fields@.len(), |i: int| (query_fields@[i].0@, query_fields@[i].1@)) =~= seq![
        ("name"@, domain_v()),
        ("type"@, union_v("query_type"@, query_types_v(), byte_v())),
        ("class"@, word_v()),
    ]);
    proof {
        reveal_strlit("name");
        reveal_strlit("type");
        reveal_strlit("class");
        assert("name"@[0] == 'n');
        assert("name"@.len() == 4);
        assert("type"@[0] == 't');
        assert("type"@.len() == 4);
        assert("class"@.len() == 5);
        assert(seq!["name"@, "type"@, "class"@].no_duplicates());
        assert(Seq::new(query_fields@.len(), |i: int| query_fields@[i].0@) =~= seq!["name"@, "type"@, "class"@]);
    }
    let query = sequence("query", query_fields);
    let record = resource_record(domain);
    let question_set = set_of("question_set", query, count_is_field(1, "numQuestion"));
    let answer_set = set_of("answer_set", record.clone(), count_is_field(1, "numAnswer"));
    let authority_set = set_of("authority_set", record.clone(), count_is_field(1, "numAuthority"));
    let additional_set = set_of("additional_set", record, count_is_field(1, "numAdditional"));
    let header = vec![
        ("transactionId", word()),
        ("flags", word()),
        ("numQuestion", word()),
        ("numAnswer", word()),
        ("numAuthority", word()),
        ("numAdditional", word()),
        ("question", question_set),
        ("answer", answer_set),
        ("authority", authority_set),
        ("additional", additional_set),
        ("end", DataModel::Button(Button::new())),
    ];
    assert(Seq::new(header@.len(), |i: int| (header@[i].0@, header@[i].1@)) =~= seq![
        ("transactionId"@, word_v()),
        ("flags"@, word_v()),
        ("numQuestion"@, word_v()),
        ("numAnswer"@, word_v()),
        ("numAuthority"@, word_v()),
        ("numAdditional"@, word_v()),
        ("question"@, question_set@),
        ("answer"@, answer_set@),
        ("authority"@, authority_set@),
        ("additional"@, additional_set@),
        ("end"@, ModelV::Button { name: "Button"@ }),
    ]);
    proof {
        reveal_strlit("transactionId");
        reveal_strlit("flags");
        reveal_strlit("numQuestion");
        reveal_strlit("numAnswer");
        reveal_strlit("numAuthority");
        reveal_strlit("numAdditional");
        reveal_strlit("question");
        reveal_strlit("answer");
        reveal_strlit("authority");
        reveal_strlit("additional");
        reveal_strlit("end");
        assert("transactionId"@[0] == 't');
        assert("transactionId"@.len() == 13);
        assert("flags"@.len() == 5);
        assert("numQuestion"@.len() == 11);
        assert("numAnswer"@[0] == 'n');
        assert("numAnswer"@.len() == 9);
        assert("numAuthority"@.len() == 12);
        assert("numAdditional"@[0] == 'n');
        assert("numAdditional"@.len() == 13);
        assert("question"@.len() == 8);
        assert("answer"@.len() == 6);
        assert("authority"@[0] == 'a');
        assert("authority"@.len() == 9);
        assert("additional"@.len() == 10);
        assert("end"@.len() == 3);
        assert(seq!["transactionId"@, "flags"@, "numQuestion"@, "numAnswer"@, "numAuthority"@, "numAdditional"@, "question"@, "answer"@, "authority"@, "additional"@, "end"@].no_duplicates());
        assert(Seq::new(header@.len(), |i: int| header@[i].0@) =~= seq!["transactionId"@, "flags"@, "numQuestion"@, "numAnswer"@, "numAuthority"@, "numAdditional"@, "question"@, "answer"@, "authority"@, "additional"@, "end"@]);
    }
    sequence("result", header)
}

} // verus!
