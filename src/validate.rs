//! The validator of a checked shape, and the error tree of one run.
use vstd::prelude::*;
use crate::errors::{finish, finish_spec, lemma_fields_empty, lemma_list_empty, tree_is_empty, ErrorTree};
use crate::field::Field;

verus! {

/// The fields of an enum variant.
#[derive(Debug)]
pub enum VariantKind {
    Unit,
    Struct(Vec<Field>),
    Tuple(Vec<Field>),
}

#[derive(Debug)]
pub struct Variant {
    pub ident: String,
    pub kind: VariantKind,
}

/// The checked shape: a record, a tuple or a tagged union.
#[derive(Debug)]
pub enum InputKind {
    FieldStruct(Vec<Field>),
    TupleStruct(Vec<Field>),
    Enum(Vec<Variant>),
}

/// The validator of one shape: its name, its context type (the unit type
/// when `None`) and its checked fields.
#[derive(Debug)]
pub struct Validation {
    pub ident: String,
    pub context: Option<String>,
    pub inner: InputKind,
}

/// What a run observed of one field of the instance.
#[derive(Debug)]
pub enum Observed {
    /// For a field with rules: what each rule returned, in the field's rule
    /// order; `Some(message)` where the rule failed.
    Rules(Vec<Option<String>>),
    /// For a delegated field: what the nested value's own validation returned.
    Nested(Result<(), ErrorTree>),
}

/// One run's view of an instance: the active variant (for a union) and what
/// was observed of each of its fields, in declaration order.
#[derive(Debug)]
pub struct Instance {
    pub variant: usize,
    pub fields: Vec<Observed>,
}

/// The key of a named field: its `rename` key, else its name.
pub open spec fn key_of(f: Field) -> Seq<char> {
    match f.rename {
        Some(r) => r@,
        None => match f.name {
            Some(n) => n@,
            None => Seq::empty(),
        },
    }
}

/// The messages of the failing rules, in rule order.
pub open spec fn violations(rs: Seq<Option<String>>) -> Seq<String>
    decreases rs.len(),
{
    if rs.len() == 0 {
        Seq::empty()
    } else {
        match rs.last() {
            Some(m) => violations(rs.drop_last()).push(m),
            None => violations(rs.drop_last()),
        }
    }
}

/// The entry of one field: the violations of its rules, or the nested tree
/// itself for a delegated field.
pub open spec fn entry_matches(o: Observed, t: ErrorTree) -> bool {
    match o {
        Observed::Rules(rs) => t is Simple && t->Simple_0@ == violations(rs@),
        Observed::Nested(Ok(())) => t is Empty,
        Observed::Nested(Err(n)) => t == n,
    }
}

/// Whether an observation has the form that the field asks for.
pub open spec fn field_fits(f: Field, o: Observed) -> bool {
    if f.dive {
        o is Nested
    } else {
        o is Rules && o->Rules_0@.len() == f.rules@.len()
    }
}

pub open spec fn fields_fit(fs: Seq<Field>, os: Seq<Observed>) -> bool {
    &&& fs.len() == os.len()
    &&& forall|i: int| 0 <= i < fs.len() ==> field_fits(#[trigger] fs[i], os[i])
}

/// A record's tree: one entry per field, keyed, in declaration order.
pub open spec fn record_matches(fs: Seq<Field>, os: Seq<Observed>, t: ErrorTree) -> bool {
    &&& t is Fields
    &&& os.len() == fs.len()
    &&& t->Fields_0@.len() == fs.len()
    &&& forall|i: int|
        0 <= i < fs.len() ==> {
            &&& (#[trigger] t->Fields_0@[i]).0@ == key_of(fs[i])
            &&& entry_matches(os[i], t->Fields_0@[i].1)
        }
}

/// A tuple's tree: one entry per field, by position.
pub open spec fn list_matches(os: Seq<Observed>, t: ErrorTree) -> bool {
    &&& t is List
    &&& t->List_0@.len() == os.len()
    &&& forall|i: int| 0 <= i < os.len() ==> entry_matches(os[i], #[trigger] t->List_0@[i])
}

pub open spec fn variant_matches(k: VariantKind, os: Seq<Observed>, t: ErrorTree) -> bool {
    match k {
        VariantKind::Unit => t is Empty,
        VariantKind::Struct(fs) => record_matches(fs@, os, t),
        VariantKind::Tuple(_) => list_matches(os, t),
    }
}

pub open spec fn variant_fits(k: VariantKind, os: Seq<Observed>) -> bool {
    match k {
        VariantKind::Unit => os.len() == 0,
        VariantKind::Struct(fs) => fields_fit(fs@, os),
        VariantKind::Tuple(fs) => fields_fit(fs@, os),
    }
}

/// Whether the instance has the form that the shape asks for.
pub open spec fn instance_fits(k: InputKind, inst: Instance) -> bool {
    match k {
        InputKind::FieldStruct(fs) => fields_fit(fs@, inst.fields@),
        InputKind::TupleStruct(fs) => fields_fit(fs@, inst.fields@),
        InputKind::Enum(vs) => inst.variant < vs@.len() && variant_fits(
            vs@[inst.variant as int].kind,
            inst.fields@,
        ),
    }
}

/// The tree of a run over the instance.
pub open spec fn tree_matches(k: InputKind, inst: Instance, t: ErrorTree) -> bool {
    match k {
        InputKind::FieldStruct(fs) => record_matches(fs@, inst.fields@, t),
        InputKind::TupleStruct(_) => list_matches(inst.fields@, t),
        InputKind::Enum(vs) => variant_matches(vs@[inst.variant as int].kind, inst.fields@, t),
    }
}

/// Whether an observation holds no violation.
pub open spec fn entry_passes(o: Observed) -> bool {
    match o {
        Observed::Rules(rs) => forall|i: int| 0 <= i < rs@.len() ==> (#[trigger] rs@[i]) is None,
        Observed::Nested(Ok(())) => true,
        Observed::Nested(Err(n)) => tree_is_empty(n),
    }
}

/// Whether nothing observed of the instance is a violation.
pub open spec fn all_pass(os: Seq<Observed>) -> bool {
    forall|i: int| 0 <= i < os.len() ==> entry_passes(#[trigger] os[i])
}

proof fn lemma_violations_empty(rs: Seq<Option<String>>)
    ensures
        violations(rs).len() == 0 <==> forall|i: int| 0 <= i < rs.len() ==> (#[trigger] rs[i]) is None,
    decreases rs.len(),
{
    if rs.len() > 0 {
        lemma_violations_empty(rs.drop_last());
        if violations(rs).len() == 0 {
            assert forall|i: int| 0 <= i < rs.len() implies (#[trigger] rs[i]) is None by {
                if i < rs.len() - 1 {
                    assert(rs.drop_last()[i] == rs[i]);
                }
            }
        } else {
            if violations(rs.drop_last()).len() != 0 {
                let j = choose|j: int| 0 <= j < rs.drop_last().len() && !(#[trigger] rs.drop_last()[j] is None);
                assert(rs[j] == rs.drop_last()[j]);
            }
        }
    }
}

/// An entry is empty exactly when its observation holds no violation.
proof fn lemma_entry_empty(o: Observed, t: ErrorTree)
    requires
        entry_matches(o, t),
    ensures
        tree_is_empty(t) <==> entry_passes(o),
{
    if let Observed::Rules(rs) = o {
        lemma_violations_empty(rs@);
    }
}

/// Builds the `Simple` entry of a field with rules.
fn simple_entry(rs: Vec<Option<String>>) -> (t: ErrorTree)
    ensures
        t is Simple,
        t->Simple_0@ == violations(rs@),
{
    let mut out: Vec<String> = Vec::new();
    let mut i: usize = 0;
    while i < rs.len()
        invariant
            i <= rs@.len(),
            out@ == violations(rs@.subrange(0, i as int)),
        decreases rs@.len() - i,
    {
        proof {
            assert(rs@.subrange(0, i as int + 1).drop_last() =~= rs@.subrange(0, i as int));
        }
        match &rs[i] {
            Some(m) => out.push(m.clone()),
            None => {},
        }
        i = i + 1;
    }
    proof {
        assert(rs@.subrange(0, rs@.len() as int) =~= rs@);
    }
    ErrorTree::Simple(out)
}

/// The entry of one field. A delegated field's entry is the nested tree
/// itself, with no layer added; a field with rules gets one violation per
/// failing rule.
pub fn field_entry(o: Observed) -> (t: ErrorTree)
    ensures
        entry_matches(o, t),
        tree_is_empty(t) <==> entry_passes(o),
{
    proof {
        reveal_with_fuel(tree_is_empty, 1);
    }
    let t = match o {
        Observed::Rules(rs) => simple_entry(rs),
        Observed::Nested(Ok(())) => ErrorTree::Empty,
        Observed::Nested(Err(n)) => n,
    };
    proof {
        lemma_entry_empty(o, t);
    }
    t
}

/// The key under which a named field's entry stands.
pub fn field_key(f: &Field) -> (r: String)
    ensures
        r@ == key_of(*f),
{
    match &f.rename {
        Some(r) => r.clone(),
        None => match &f.name {
            Some(n) => n.clone(),
            None => String::new(),
        },
    }
}

/// The tree of a record: every field is evaluated, whatever the others gave.
pub fn record_errors(fs: &Vec<Field>, os: Vec<Observed>) -> (t: ErrorTree)
    requires
        fs@.len() == os@.len(),
    ensures
        record_matches(fs@, os@, t),
        tree_is_empty(t) <==> all_pass(os@),
{
    let ghost all = os@;
    let mut rest = os;
    let mut entries: Vec<(String, ErrorTree)> = Vec::new();
    let mut i: usize = 0;
    while i < fs.len()
        invariant
            fs@.len() == all.len(),
            i <= fs@.len(),
            rest@ == all.subrange(i as int, all.len() as int),
            entries@.len() == i,
            forall|j: int|
                0 <= j < i ==> {
                    &&& (#[trigger] entries@[j]).0@ == key_of(fs@[j])
                    &&& entry_matches(all[j], entries@[j].1)
                },
        decreases fs@.len() - i,
    {
        let o = rest.remove(0);
        let e = field_entry(o);
        entries.push((field_key(&fs[i]), e));
        i = i + 1;
    }
    let t = ErrorTree::Fields(entries);
    proof {
        lemma_record_empty(fs@, all, t);
    }
    t
}

/// The tree of a tuple: every field is evaluated, whatever the others gave.
pub fn list_errors(os: Vec<Observed>) -> (t: ErrorTree)
    ensures
        list_matches(os@, t),
        tree_is_empty(t) <==> all_pass(os@),
{
    let ghost all = os@;
    let n = os.len();
    let mut rest = os;
    let mut items: Vec<ErrorTree> = Vec::new();
    let mut i: usize = 0;
    while i < n
        invariant
            n == all.len(),
            i <= n,
            rest@ == all.subrange(i as int, all.len() as int),
            items@.len() == i,
            forall|j: int|
                0 <= j < i ==> {
                    &&& entry_matches(all[j], #[trigger] items@[j])
                },
        decreases n - i,
    {
        let o = rest.remove(0);
        let e = field_entry(o);
        items.push(e);
        i = i + 1;
    }
    let t = ErrorTree::List(items);
    proof {
        lemma_list_matches_empty(all, t);
    }
    t
}

impl Validation {
    /// The error tree of one run: a record gives `Fields`, a tuple `List`,
    /// a union the tree of its active variant, `Empty` for a unit variant.
    pub fn errors(&self, inst: Instance) -> (t: ErrorTree)
        requires
            instance_fits(self.inner, inst),
        ensures
            tree_matches(self.inner, inst, t),
            tree_is_empty(t) <==> all_pass(inst.fields@),
    {
        match &self.inner {
            InputKind::FieldStruct(fs) => record_errors(fs, inst.fields),
            InputKind::TupleStruct(_) => list_errors(inst.fields),
            InputKind::Enum(vs) => match &vs[inst.variant].kind {
                VariantKind::Unit => {
                    proof {
                        reveal_with_fuel(tree_is_empty, 1);
                    }
                    ErrorTree::Empty
                },
                VariantKind::Struct(fs) => record_errors(fs, inst.fields),
                VariantKind::Tuple(_) => list_errors(inst.fields),
            },
        }
    }

    /// Validates one instance: `Ok` exactly when nothing observed of it is
    /// a violation, else the whole error tree of the run.
    pub fn validate(&self, inst: Instance) -> (r: Result<(), ErrorTree>)
        requires
            instance_fits(self.inner, inst),
        ensures
            r is Ok <==> all_pass(inst.fields@),
            r matches Err(t) ==> tree_matches(self.inner, inst, t),
    {
        let t = self.errors(inst);
        finish(t)
    }
}

/// A record's tree is empty exactly when nothing observed is a violation.
proof fn lemma_record_empty(fs: Seq<Field>, os: Seq<Observed>, t: ErrorTree)
    requires
        record_matches(fs, os, t),
    ensures
        tree_is_empty(t) <==> all_pass(os),
{
    lemma_fields_empty(t);
    assert forall|j: int| 0 <= j < os.len() implies (tree_is_empty(t->Fields_0@[j].1)
        <==> entry_passes(#[trigger] os[j])) by {
        assert(entry_matches(os[j], t->Fields_0@[j].1));
        lemma_entry_empty(os[j], t->Fields_0@[j].1);
    }
    if all_pass(os) {
        assert forall|j: int| 0 <= j < t->Fields_0@.len() implies tree_is_empty(
            #[trigger] t->Fields_0@[j].1,
        ) by {
            assert(entry_passes(os[j]));
        }
    }
    if tree_is_empty(t) {
        assert forall|j: int| 0 <= j < os.len() implies entry_passes(#[trigger] os[j]) by {
            assert(tree_is_empty(t->Fields_0@[j].1));
        }
    }
}

/// A tuple's tree is empty exactly when nothing observed is a violation.
proof fn lemma_list_matches_empty(os: Seq<Observed>, t: ErrorTree)
    requires
        list_matches(os, t),
    ensures
        tree_is_empty(t) <==> all_pass(os),
{
    lemma_list_empty(t);
    assert forall|j: int| 0 <= j < os.len() implies (tree_is_empty(t->List_0@[j])
        <==> entry_passes(#[trigger] os[j])) by {
        assert(entry_matches(os[j], t->List_0@[j]));
        lemma_entry_empty(os[j], t->List_0@[j]);
    }
    if all_pass(os) {
        assert forall|j: int| 0 <= j < t->List_0@.len() implies tree_is_empty(
            #[trigger] t->List_0@[j],
        ) by {
            assert(entry_passes(os[j]));
        }
    }
    if tree_is_empty(t) {
        assert forall|j: int| 0 <= j < os.len() implies entry_passes(#[trigger] os[j]) by {
            assert(tree_is_empty(t->List_0@[j]));
        }
    }
}

/// The tree of any run is empty exactly when nothing observed is a violation.
pub proof fn lemma_tree_empty_iff_pass(k: InputKind, inst: Instance, t: ErrorTree)
    requires
        instance_fits(k, inst),
        tree_matches(k, inst, t),
    ensures
        tree_is_empty(t) <==> all_pass(inst.fields@),
{
    reveal_with_fuel(tree_is_empty, 1);
    match k {
        InputKind::FieldStruct(fs) => lemma_record_empty(fs@, inst.fields@, t),
        InputKind::TupleStruct(_) => lemma_list_matches_empty(inst.fields@, t),
        InputKind::Enum(vs) => match vs@[inst.variant as int].kind {
            VariantKind::Unit => {},
            VariantKind::Struct(fs) => lemma_record_empty(fs@, inst.fields@, t),
            VariantKind::Tuple(_) => lemma_list_matches_empty(inst.fields@, t),
        },
    }
}

/// Validating the same instance twice gives the same outcome, and a valid
/// instance is accepted both times: a run depends on nothing but the shape
/// and what is observed of the instance.
pub proof fn lemma_validation_repeatable(k: InputKind, inst: Instance, t1: ErrorTree, t2: ErrorTree)
    requires
        instance_fits(k, inst),
        tree_matches(k, inst, t1),
        tree_matches(k, inst, t2),
    ensures
        tree_is_empty(t1) == tree_is_empty(t2),
        finish_spec(t1) is Ok == finish_spec(t2) is Ok,
        all_pass(inst.fields@) ==> finish_spec(t1) == Ok::<(), ErrorTree>(()) && finish_spec(t2)
            == Ok::<(), ErrorTree>(()),
{
    lemma_tree_empty_iff_pass(k, inst, t1);
    lemma_tree_empty_iff_pass(k, inst, t2);
}

/// A delegated field of a record contributes the nested tree unmodified
/// under its key.
pub proof fn lemma_delegation_transparent(
    fs: Seq<Field>,
    os: Seq<Observed>,
    t: ErrorTree,
    i: int,
    nested: ErrorTree,
)
    requires
        record_matches(fs, os, t),
        0 <= i < fs.len(),
        os[i] == Observed::Nested(Err(nested)),
    ensures
        t->Fields_0@[i].0@ == key_of(fs[i]),
        t->Fields_0@[i].1 == nested,
{
    assert(entry_matches(os[i], t->Fields_0@[i].1));
}

/// A delegated positional field contributes the nested tree unmodified at
/// its position.
pub proof fn lemma_delegation_transparent_list(
    os: Seq<Observed>,
    t: ErrorTree,
    i: int,
    nested: ErrorTree,
)
    requires
        list_matches(os, t),
        0 <= i < os.len(),
        os[i] == Observed::Nested(Err(nested)),
    ensures
        t->List_0@[i] == nested,
{
    assert(entry_matches(os[i], t->List_0@[i]));
}

} // verus!
