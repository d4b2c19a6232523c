//! Definition checks on one field's annotation.
use vstd::prelude::*;
use crate::annotation::{Expr, Meta, str_eq};
use crate::rule::{
    kind_from_name, kind_named, parse_error_message, parse_rule, rule_of, Rule, RuleKind,
    RuleParseError,
};

verus! {

/// A marker that may appear at most once on a field.
#[derive(Clone, Copy, Debug, PartialEq, Eq, Structural)]
pub enum Marker {
    Rename,
    Dive,
    Skip,
    Context,
}

/// What is wrong with a field's annotation.
#[derive(Clone, Copy, Debug, PartialEq, Eq, Structural)]
pub enum FieldError {
    /// An item names no rule or marker, or a rule with ill-shaped arguments.
    InvalidRule(RuleParseError),
    /// Two rules of one kind on the field.
    DuplicateRule(RuleKind),
    /// A rule on a field that is also delegated.
    RuleWithDive(RuleKind),
    /// A marker given twice.
    DuplicateAttribute(Marker),
    /// A marker in the wrong form (`dive(..)`, `rename` without a string).
    MalformedAttribute(Marker),
    /// Neither rules, nor `dive`, nor `skip`.
    NoValidation,
    /// A shape-level item other than `context`.
    UnrecognizedAttribute,
    /// The shape is an untagged union.
    UnionNotSupported,
}

/// A checked field: either delegated with no rules, or with at least one
/// rule, its rules of pairwise distinct kinds in priority order.
#[derive(Debug)]
pub struct Field {
    /// The declared name; `None` for a positional field.
    pub name: Option<String>,
    /// The key given by `rename`, if any.
    pub rename: Option<String>,
    /// The field's value type, as source text.
    pub ty: String,
    /// The field's place among the declared fields, skipped ones included.
    pub position: usize,
    pub dive: bool,
    pub rules: Vec<Rule>,
}

/// The state of a scan over a field's items: skip, dive, rename, the rules
/// accepted in the order met, and the errors found.
pub type Scan = (bool, bool, Option<String>, Seq<Rule>, Seq<FieldError>);

pub open spec fn has_kind(rs: Seq<Rule>, k: RuleKind) -> bool {
    exists|i: int| 0 <= i < rs.len() && (#[trigger] rs[i]).spec_kind() == k
}

pub open spec fn marker_named(n: Seq<char>) -> Option<Marker> {
    if n == "rename"@ {
        Some(Marker::Rename)
    } else if n == "dive"@ {
        Some(Marker::Dive)
    } else if n == "skip"@ {
        Some(Marker::Skip)
    } else {
        None
    }
}

/// One item of the scan. An item whose name is a rule kind is a rule; else
/// it must be one of the markers.
pub open spec fn scan_step(st: Scan, m: Meta) -> Scan {
    let (skip, dive, rename, rules, errors) = st;
    if kind_named(m.spec_name()) is Some {
        match rule_of(m) {
            Err(e) => (skip, dive, rename, rules, errors.push(FieldError::InvalidRule(e))),
            Ok(r) => if has_kind(rules, r.spec_kind()) {
                (skip, dive, rename, rules, errors.push(FieldError::DuplicateRule(r.spec_kind())))
            } else {
                (skip, dive, rename, rules.push(r), errors)
            },
        }
    } else {
        match marker_named(m.spec_name()) {
            None | Some(Marker::Context) => (
                skip,
                dive,
                rename,
                rules,
                errors.push(FieldError::InvalidRule(RuleParseError::Unrecognized)),
            ),
            Some(Marker::Rename) => if m is NameValue && m->NameValue_1 is Str {
                if rename is Some {
                    (skip, dive, rename, rules, errors.push(FieldError::DuplicateAttribute(Marker::Rename)))
                } else {
                    (skip, dive, Some(m->NameValue_1->Str_0), rules, errors)
                }
            } else {
                (skip, dive, rename, rules, errors.push(FieldError::MalformedAttribute(Marker::Rename)))
            },
            Some(Marker::Dive) => if !(m is Word) {
                (skip, dive, rename, rules, errors.push(FieldError::MalformedAttribute(Marker::Dive)))
            } else if dive {
                (skip, dive, rename, rules, errors.push(FieldError::DuplicateAttribute(Marker::Dive)))
            } else {
                (skip, true, rename, rules, errors)
            },
            Some(Marker::Skip) => if !(m is Word) {
                (skip, dive, rename, rules, errors.push(FieldError::MalformedAttribute(Marker::Skip)))
            } else if skip {
                (skip, dive, rename, rules, errors.push(FieldError::DuplicateAttribute(Marker::Skip)))
            } else {
                (true, dive, rename, rules, errors)
            },
        }
    }
}

/// The scan over all items, from left to right.
pub open spec fn scan(items: Seq<Meta>) -> Scan
    decreases items.len(),
{
    if items.len() == 0 {
        (false, false, None, Seq::empty(), Seq::empty())
    } else {
        scan_step(scan(items.drop_last()), items.last())
    }
}

/// One error for each rule of a delegated field.
pub open spec fn dive_errors(rs: Seq<Rule>) -> Seq<FieldError> {
    rs.map_values(|r: Rule| FieldError::RuleWithDive(r.spec_kind()))
}

/// Every error of a field's annotation, in the order found.
pub open spec fn field_errors(items: Seq<Meta>) -> Seq<FieldError> {
    let (skip, dive, rename, rules, errors) = scan(items);
    errors + (if dive {
        dive_errors(rules)
    } else {
        Seq::empty()
    }) + (if !dive && rules.len() == 0 && !skip {
        seq![FieldError::NoValidation]
    } else {
        Seq::empty()
    })
}

/// The rules of priority `p`, in the order given.
pub open spec fn with_priority(rs: Seq<Rule>, p: u8) -> Seq<Rule>
    decreases rs.len(),
{
    if rs.len() == 0 {
        Seq::empty()
    } else if rs.last().spec_kind().spec_priority() == p {
        with_priority(rs.drop_last(), p).push(rs.last())
    } else {
        with_priority(rs.drop_last(), p)
    }
}

/// The rules ordered by priority, from priority `p` on.
pub open spec fn by_priority_from(rs: Seq<Rule>, p: nat) -> Seq<Rule>
    decreases 16 - p,
{
    if p >= 16 {
        Seq::empty()
    } else {
        with_priority(rs, p as u8) + by_priority_from(rs, p + 1)
    }
}

/// The rules ordered by priority.
pub open spec fn by_priority(rs: Seq<Rule>) -> Seq<Rule> {
    by_priority_from(rs, 0)
}

/// A field as declared: its name, its type and its annotation items.
#[derive(Debug)]
pub struct FieldDesc {
    /// The declared name; `None` for a positional field.
    pub name: Option<String>,
    /// The field's value type, as source text.
    pub ty: String,
    pub annotations: Vec<Meta>,
}

fn contains_kind(rs: &Vec<Rule>, k: RuleKind) -> (r: bool)
    ensures
        r == has_kind(rs@, k),
{
    let mut i: usize = 0;
    while i < rs.len()
        invariant
            i <= rs@.len(),
            forall|j: int| 0 <= j < i ==> (#[trigger] rs@[j]).spec_kind() != k,
        decreases rs@.len() - i,
    {
        if rs[i].kind() == k {
            return true;
        }
        i = i + 1;
    }
    false
}

/// Orders rules by priority; rules of one priority keep their order.
pub fn order_by_priority(rs: &Vec<Rule>) -> (r: Vec<Rule>)
    ensures
        r@ == by_priority(rs@),
{
    let mut out: Vec<Rule> = Vec::new();
    let mut p: u8 = 0;
    while p < 16
        invariant
            p <= 16,
            out@ + by_priority_from(rs@, p as nat) == by_priority(rs@),
        decreases 16 - p,
    {
        let ghost before = out@;
        let mut i: usize = 0;
        while i < rs.len()
            invariant
                p < 16,
                i <= rs@.len(),
                out@ == before + with_priority(rs@.subrange(0, i as int), p),
            decreases rs@.len() - i,
        {
            proof {
                assert(rs@.subrange(0, i as int + 1).drop_last() =~= rs@.subrange(0, i as int));
            }
            if rs[i].kind().priority() == p {
                out.push(rs[i].copy());
            }
            i = i + 1;
        }
        proof {
            assert(rs@.subrange(0, rs@.len() as int) =~= rs@);
            assert(by_priority_from(rs@, p as nat) == with_priority(rs@, p) + by_priority_from(
                rs@,
                p as nat + 1,
            ));
            assert(out@ + by_priority_from(rs@, p as nat + 1) =~= before + by_priority_from(
                rs@,
                p as nat,
            ));
        }
        p = p + 1;
    }
    proof {
        assert(out@ + by_priority_from(rs@, 16) =~= out@);
    }
    out
}

/// Checks one field's annotation. Every error is reported; a field with no
/// error is dropped when it is skipped, and is kept with its rules in
/// priority order otherwise.
pub fn check_field(d: &FieldDesc, position: usize) -> (r: Result<Option<Field>, Vec<FieldError>>)
    ensures
        r is Err <==> field_errors(d.annotations@).len() > 0,
        r matches Err(es) ==> es@ == field_errors(d.annotations@),
        r matches Ok(o) ==> (o is None <==> scan(d.annotations@).0),
        r matches Ok(Some(f)) ==> {
            &&& f.name == d.name
            &&& f.ty == d.ty
            &&& f.position == position
            &&& f.rename == scan(d.annotations@).2
            &&& f.dive == scan(d.annotations@).1
            &&& f.rules@ == by_priority(scan(d.annotations@).3)
        },
{
    let items = &d.annotations;
    let mut skip = false;
    let mut dive = false;
    let mut rename: Option<String> = None;
    let mut rules: Vec<Rule> = Vec::new();
    let mut errors: Vec<FieldError> = Vec::new();
    let mut i: usize = 0;
    while i < items.len()
        invariant
            i <= items@.len(),
            scan(items@.subrange(0, i as int)) == (skip, dive, rename, rules@, errors@),
        decreases items@.len() - i,
    {
        proof {
            assert(items@.subrange(0, i as int + 1).drop_last() =~= items@.subrange(0, i as int));
        }
        let m = &items[i];
        let name = m.name();
        if kind_from_name(name).is_some() {
            match parse_rule(m) {
                Err(e) => errors.push(FieldError::InvalidRule(e)),
                Ok(r) => {
                    let k = r.kind();
                    if contains_kind(&rules, k) {
                        errors.push(FieldError::DuplicateRule(k));
                    } else {
                        rules.push(r);
                    }
                },
            }
        } else if str_eq(name, "rename") {
            let mut value: Option<String> = None;
            if let Meta::NameValue(_, Expr::Str(s)) = m {
                value = Some(s.clone());
            }
            match value {
                None => errors.push(FieldError::MalformedAttribute(Marker::Rename)),
                Some(v) => if rename.is_some() {
                    errors.push(FieldError::DuplicateAttribute(Marker::Rename));
                } else {
                    rename = Some(v);
                },
            }
        } else if str_eq(name, "dive") {
            if !matches!(m, Meta::Word(_)) {
                errors.push(FieldError::MalformedAttribute(Marker::Dive));
            } else if dive {
                errors.push(FieldError::DuplicateAttribute(Marker::Dive));
            } else {
                dive = true;
            }
        } else if str_eq(name, "skip") {
            if !matches!(m, Meta::Word(_)) {
                errors.push(FieldError::MalformedAttribute(Marker::Skip));
            } else if skip {
                errors.push(FieldError::DuplicateAttribute(Marker::Skip));
            } else {
                skip = true;
            }
        } else {
            errors.push(FieldError::InvalidRule(RuleParseError::Unrecognized));
        }
        i = i + 1;
    }
    proof {
        assert(items@.subrange(0, items@.len() as int) =~= items@);
    }
    let ghost scanned = errors@;
    if dive {
        let mut j: usize = 0;
        while j < rules.len()
            invariant
                dive,
                j <= rules@.len(),
                errors@ == scanned + dive_errors(rules@.subrange(0, j as int)),
            decreases rules@.len() - j,
        {
            proof {
                assert(dive_errors(rules@.subrange(0, j as int + 1)) =~= dive_errors(
                    rules@.subrange(0, j as int),
                ).push(FieldError::RuleWithDive(rules@[j as int].spec_kind())));
            }
            errors.push(FieldError::RuleWithDive(rules[j].kind()));
            j = j + 1;
        }
        proof {
            assert(rules@.subrange(0, rules@.len() as int) =~= rules@);
        }
    }
    if !dive && rules.len() == 0 && !skip {
        errors.push(FieldError::NoValidation);
    }
    proof {
        assert(errors@ =~= field_errors(items@));
    }
    if errors.len() > 0 {
        return Err(errors);
    }
    if skip {
        return Ok(None);
    }
    let ordered = order_by_priority(&rules);
    Ok(Some(Field { name: d.name.clone(), rename, ty: d.ty.clone(), position, dive, rules: ordered }))
}

/// Two rules of one kind on a field, whatever their arguments, give exactly
/// one error: a duplicate of that kind.
pub proof fn lemma_duplicate_rule(a: Meta, b: Meta)
    requires
        rule_of(a) is Ok,
        rule_of(b) is Ok,
        rule_of(a)->Ok_0.spec_kind() == rule_of(b)->Ok_0.spec_kind(),
    ensures
        field_errors(seq![a, b]) == seq![FieldError::DuplicateRule(rule_of(a)->Ok_0.spec_kind())],
{
    let items = seq![a, b];
    assert(items.drop_last() =~= seq![a]);
    assert(seq![a].drop_last() =~= Seq::<Meta>::empty());
    let ra = rule_of(a)->Ok_0;
    assert(seq![a].last() == a);
    assert(items.last() == b);
    assert(scan(Seq::<Meta>::empty()) == (false, false, None::<String>, Seq::<Rule>::empty(), Seq::<FieldError>::empty()));
    assert(!has_kind(Seq::<Rule>::empty(), ra.spec_kind()));
    assert(scan(seq![a]).3 =~= seq![ra]);
    assert(scan(seq![a]).4 =~= Seq::<FieldError>::empty());
    assert(has_kind(seq![ra], ra.spec_kind())) by {
        assert(seq![ra][0].spec_kind() == ra.spec_kind());
    }
    assert(field_errors(items) =~= seq![FieldError::DuplicateRule(ra.spec_kind())]);
}

/// `dive` is no rule name.
proof fn lemma_dive_is_no_rule()
    ensures
        kind_named("dive"@) is None,
        marker_named("dive"@) == Some(Marker::Dive),
{
    reveal_strlit("dive");
    reveal_strlit("rename");
    assert("dive"@ != "rename"@) by {
        assert("dive"@.len() != "rename"@.len());
    }
    reveal_strlit("ascii");
    assert("dive"@ != "ascii"@) by {
        assert("dive"@.len() != "ascii"@.len());
    }
    reveal_strlit("alphanumeric");
    assert("dive"@ != "alphanumeric"@) by {
        assert("dive"@.len() != "alphanumeric"@.len());
    }
    reveal_strlit("email");
    assert("dive"@ != "email"@) by {
        assert("dive"@.len() != "email"@.len());
    }
    reveal_strlit("url");
    assert("dive"@ != "url"@) by {
        assert("dive"@.len() != "url"@.len());
    }
    reveal_strlit("ip");
    assert("dive"@ != "ip"@) by {
        assert("dive"@.len() != "ip"@.len());
    }
    reveal_strlit("ipv4");
    assert("dive"@ != "ipv4"@) by {
        assert("dive"@[0] != "ipv4"@[0]);
    }
    reveal_strlit("ipv6");
    assert("dive"@ != "ipv6"@) by {
        assert("dive"@[0] != "ipv6"@[0]);
    }
    reveal_strlit("credit_card");
    assert("dive"@ != "credit_card"@) by {
        assert("dive"@.len() != "credit_card"@.len());
    }
    reveal_strlit("phone_number");
    assert("dive"@ != "phone_number"@) by {
        assert("dive"@.len() != "phone_number"@.len());
    }
    reveal_strlit("length");
    assert("dive"@ != "length"@) by {
        assert("dive"@.len() != "length"@.len());
    }
    reveal_strlit("range");
    assert("dive"@ != "range"@) by {
        assert("dive"@.len() != "range"@.len());
    }
    reveal_strlit("contains");
    assert("dive"@ != "contains"@) by {
        assert("dive"@.len() != "contains"@.len());
    }
    reveal_strlit("prefix");
    assert("dive"@ != "prefix"@) by {
        assert("dive"@.len() != "prefix"@.len());
    }
    reveal_strlit("suffix");
    assert("dive"@ != "suffix"@) by {
        assert("dive"@.len() != "suffix"@.len());
    }
    reveal_strlit("pattern");
    assert("dive"@ != "pattern"@) by {
        assert("dive"@.len() != "pattern"@.len());
    }
    reveal_strlit("custom");
    assert("dive"@ != "custom"@) by {
        assert("dive"@.len() != "custom"@.len());
    }
}

/// A rule after `dive` on the same field is an error naming the rule.
pub proof fn lemma_rule_with_dive(d: Meta, r: Meta)
    requires
        d is Word,
        d.spec_name() == "dive"@,
        rule_of(r) is Ok,
    ensures
        field_errors(seq![d, r]) == seq![FieldError::RuleWithDive(rule_of(r)->Ok_0.spec_kind())],
{
    lemma_dive_is_no_rule();
    let items = seq![d, r];
    assert(items.drop_last() =~= seq![d]);
    assert(seq![d].drop_last() =~= Seq::<Meta>::empty());
    let rr = rule_of(r)->Ok_0;
    assert(seq![d].last() == d);
    assert(items.last() == r);
    assert(scan(Seq::<Meta>::empty()) == (false, false, None::<String>, Seq::<Rule>::empty(), Seq::<FieldError>::empty()));
    assert(scan(seq![d]).1);
    assert(scan(seq![d]).4 =~= Seq::<FieldError>::empty());
    assert(scan(seq![d]).3 =~= Seq::<Rule>::empty());
    assert(!has_kind(Seq::<Rule>::empty(), rr.spec_kind()));
    assert(scan(items).3 =~= seq![rr]);
    assert(dive_errors(seq![rr]) =~= seq![FieldError::RuleWithDive(rr.spec_kind())]);
    assert(field_errors(items) =~= seq![FieldError::RuleWithDive(rr.spec_kind())]);
}

/// A field with no rule, no `dive` and no `skip` is an error: the last
/// error reported for it says it has no validation.
pub proof fn lemma_no_validation(items: Seq<Meta>)
    requires
        scan(items).3.len() == 0,
        !scan(items).1,
        !scan(items).0,
    ensures
        field_errors(items).len() > 0,
        field_errors(items).last() == FieldError::NoValidation,
{
}

/// The kind of priority `p`.
pub open spec fn kind_at(p: nat) -> RuleKind {
    if p == 0 {
        RuleKind::Ascii
    } else if p == 1 {
        RuleKind::Alphanumeric
    } else if p == 2 {
        RuleKind::Email
    } else if p == 3 {
        RuleKind::Url
    } else if p == 4 {
        RuleKind::Ip
    } else if p == 5 {
        RuleKind::IpV4
    } else if p == 6 {
        RuleKind::IpV6
    } else if p == 7 {
        RuleKind::CreditCard
    } else if p == 8 {
        RuleKind::PhoneNumber
    } else if p == 9 {
        RuleKind::Length
    } else if p == 10 {
        RuleKind::Range
    } else if p == 11 {
        RuleKind::Contains
    } else if p == 12 {
        RuleKind::Prefix
    } else if p == 13 {
        RuleKind::Suffix
    } else if p == 14 {
        RuleKind::Pattern
    } else {
        RuleKind::Custom
    }
}

/// The kinds of a set, in priority order, from priority `p` on.
pub open spec fn kinds_in_order_from(ks: Set<RuleKind>, p: nat) -> Seq<RuleKind>
    decreases 16 - p,
{
    if p >= 16 {
        Seq::empty()
    } else {
        (if ks.contains(kind_at(p)) {
            seq![kind_at(p)]
        } else {
            Seq::empty()
        }) + kinds_in_order_from(ks, p + 1)
    }
}

pub open spec fn kinds_of(rs: Seq<Rule>) -> Seq<RuleKind> {
    rs.map_values(|r: Rule| r.spec_kind())
}

/// The kinds of the items that are well-formed rules.
pub open spec fn rule_kinds(items: Seq<Meta>) -> Set<RuleKind> {
    Set::new(
        |k: RuleKind|
            exists|i: int| 0 <= i < items.len() && (#[trigger] rule_of(items[i])) is Ok && rule_of(
                items[i],
            )->Ok_0.spec_kind() == k,
    )
}

pub open spec fn distinct_kinds(rs: Seq<Rule>) -> bool {
    forall|i: int, j: int|
        0 <= i < j < rs.len() ==> (#[trigger] rs[i]).spec_kind() != (#[trigger] rs[j]).spec_kind()
}

proof fn lemma_kind_at(k: RuleKind)
    ensures
        kind_at(k.spec_priority() as nat) == k,
        k.spec_priority() < 16,
{
}

/// The rules accepted by a scan have distinct kinds, one for each kind of
/// the well-formed rule items.
proof fn lemma_scan_rules(items: Seq<Meta>)
    ensures
        distinct_kinds(scan(items).3),
        forall|k: RuleKind| has_kind(scan(items).3, k) <==> #[trigger] rule_kinds(items).contains(k),
    decreases items.len(),
{
    if items.len() > 0 {
        let pre = items.drop_last();
        let m = items.last();
        lemma_scan_rules(pre);
        let rs0 = scan(pre).3;
        let rs = scan(items).3;
        assert forall|k: RuleKind| has_kind(rs, k) <==> #[trigger] rule_kinds(items).contains(k) by {
            if has_kind(rs, k) {
                let i = choose|i: int| 0 <= i < rs.len() && (#[trigger] rs[i]).spec_kind() == k;
                if i < rs0.len() {
                    assert(rs[i] == rs0[i]);
                    assert(has_kind(rs0, k));
                    assert(rule_kinds(pre).contains(k));
                    let j = choose|j: int| 0 <= j < pre.len() && (#[trigger] rule_of(pre[j])) is Ok
                        && rule_of(pre[j])->Ok_0.spec_kind() == k;
                    assert(items[j] == pre[j]);
                } else {
                    assert(rule_of(items[items.len() - 1]) is Ok);
                }
            }
            if rule_kinds(items).contains(k) {
                let j = choose|j: int| 0 <= j < items.len() && (#[trigger] rule_of(items[j])) is Ok
                    && rule_of(items[j])->Ok_0.spec_kind() == k;
                if j < pre.len() {
                    assert(pre[j] == items[j]);
                    assert(rule_kinds(pre).contains(k));
                    let i = choose|i: int| 0 <= i < rs0.len() && (#[trigger] rs0[i]).spec_kind() == k;
                    assert(rs[i] == rs0[i]);
                } else {
                    assert(m == items[j]);
                    if !has_kind(rs0, k) {
                        assert(rs[rs.len() - 1].spec_kind() == k);
                    } else {
                        let i = choose|i: int| 0 <= i < rs0.len() && (#[trigger] rs0[i]).spec_kind() == k;
                        assert(rs[i] == rs0[i]);
                    }
                }
            }
        }
        assert forall|i: int, j: int| 0 <= i < j < rs.len() implies (#[trigger] rs[i]).spec_kind()
            != (#[trigger] rs[j]).spec_kind() by {
            if j < rs0.len() {
                assert(rs[i] == rs0[i] && rs[j] == rs0[j]);
            } else {
                assert(rs[i] == rs0[i]);
            }
        }
    }
}

/// With distinct kinds, each priority holds at most the one rule of its kind.
proof fn lemma_with_priority_kinds(rs: Seq<Rule>, p: nat)
    requires
        distinct_kinds(rs),
        p < 16,
    ensures
        kinds_of(with_priority(rs, p as u8)) == (if has_kind(rs, kind_at(p)) {
            seq![kind_at(p)]
        } else {
            Seq::empty()
        }),
    decreases rs.len(),
{
    if rs.len() > 0 {
        let pre = rs.drop_last();
        assert forall|i: int, j: int| 0 <= i < j < pre.len() implies (#[trigger] pre[i]).spec_kind()
            != (#[trigger] pre[j]).spec_kind() by {
            assert(pre[i] == rs[i] && pre[j] == rs[j]);
        }
        lemma_with_priority_kinds(pre, p);
        lemma_kind_at(rs.last().spec_kind());
        if rs.last().spec_kind().spec_priority() == p as u8 {
            if has_kind(pre, kind_at(p)) {
                let i = choose|i: int| 0 <= i < pre.len() && (#[trigger] pre[i]).spec_kind() == kind_at(p);
                assert(rs[i] == pre[i]);
                assert(false);
            }
            assert(kinds_of(with_priority(rs, p as u8)) =~= seq![kind_at(p)]);
            assert(rs[rs.len() - 1].spec_kind() == kind_at(p));
        } else {
            assert(kinds_of(with_priority(rs, p as u8)) == kinds_of(with_priority(pre, p as u8)));
            if has_kind(rs, kind_at(p)) {
                let i = choose|i: int| 0 <= i < rs.len() && (#[trigger] rs[i]).spec_kind() == kind_at(p);
                lemma_kind_at(rs[i].spec_kind());
                assert(i != rs.len() - 1);
                assert(pre[i] == rs[i]);
            }
            if has_kind(pre, kind_at(p)) {
                let i = choose|i: int| 0 <= i < pre.len() && (#[trigger] pre[i]).spec_kind() == kind_at(p);
                assert(rs[i] == pre[i]);
            }
        }
    }
}

proof fn lemma_by_priority_kinds(rs: Seq<Rule>, p: nat)
    requires
        distinct_kinds(rs),
    ensures
        kinds_of(by_priority_from(rs, p)) == kinds_in_order_from(
            Set::new(|k: RuleKind| has_kind(rs, k)),
            p,
        ),
    decreases 16 - p,
{
    if p < 16 {
        lemma_by_priority_kinds(rs, p + 1);
        lemma_with_priority_kinds(rs, p);
        let ks = Set::new(|k: RuleKind| has_kind(rs, k));
        assert(ks.contains(kind_at(p)) == has_kind(rs, kind_at(p)));
        assert(kinds_of(by_priority_from(rs, p)) =~= kinds_of(with_priority(rs, p as u8)) + kinds_of(
            by_priority_from(rs, p + 1),
        ));
    } else {
        assert(kinds_of(by_priority_from(rs, p)) =~= Seq::<RuleKind>::empty());
    }
}

/// The rules that a field ends up with do not depend on the order in which
/// its items are written: the same items in any order give rules of the
/// same kinds, in the same (priority) order.
pub proof fn lemma_order_independent(a: Seq<Meta>, b: Seq<Meta>)
    requires
        a.to_multiset() == b.to_multiset(),
    ensures
        kinds_of(by_priority(scan(a).3)) == kinds_of(by_priority(scan(b).3)),
{
    broadcast use vstd::seq_lib::to_multiset_contains;

    lemma_scan_rules(a);
    lemma_scan_rules(b);
    lemma_by_priority_kinds(scan(a).3, 0);
    lemma_by_priority_kinds(scan(b).3, 0);
    assert forall|k: RuleKind| rule_kinds(a).contains(k) implies rule_kinds(b).contains(k) by {
        let i = choose|i: int| 0 <= i < a.len() && (#[trigger] rule_of(a[i])) is Ok
            && rule_of(a[i])->Ok_0.spec_kind() == k;
        assert(a.contains(a[i]));
        assert(a.to_multiset().count(a[i]) > 0);
        assert(b.to_multiset().count(a[i]) > 0);
        assert(b.contains(a[i]));
        let j = choose|j: int| 0 <= j < b.len() && b[j] == a[i];
        assert(rule_of(b[j]) is Ok);
    }
    assert forall|k: RuleKind| rule_kinds(b).contains(k) implies rule_kinds(a).contains(k) by {
        let i = choose|i: int| 0 <= i < b.len() && (#[trigger] rule_of(b[i])) is Ok
            && rule_of(b[i])->Ok_0.spec_kind() == k;
        assert(b.contains(b[i]));
        assert(b.to_multiset().count(b[i]) > 0);
        assert(a.to_multiset().count(b[i]) > 0);
        assert(a.contains(b[i]));
        let j = choose|j: int| 0 <= j < a.len() && a[j] == b[i];
        assert(rule_of(a[j]) is Ok);
    }
    assert forall|k: RuleKind| has_kind(scan(a).3, k) == has_kind(scan(b).3, k) by {
        assert(rule_kinds(a).contains(k) == rule_kinds(b).contains(k));
    }
    assert(Set::new(|k: RuleKind| has_kind(scan(a).3, k)) =~= Set::new(
        |k: RuleKind| has_kind(scan(b).3, k),
    ));
}

pub open spec fn marker_text(m: Marker) -> Seq<char> {
    match m {
        Marker::Rename => "rename"@,
        Marker::Dive => "dive"@,
        Marker::Skip => "skip"@,
        Marker::Context => "context"@,
    }
}

impl Marker {
    /// The name under which the marker is written.
    pub fn name(&self) -> (r: &'static str)
        ensures
            r@ == marker_text(*self),
    {
        match self {
            Marker::Rename => "rename",
            Marker::Dive => "dive",
            Marker::Skip => "skip",
            Marker::Context => "context",
        }
    }
}

/// The message reported for a definition error.
pub open spec fn error_message(e: FieldError) -> Seq<char> {
    match e {
        FieldError::InvalidRule(p) => parse_error_message(p),
        FieldError::DuplicateRule(k) => "duplicate rule `"@ + k.spec_name() + "`"@,
        FieldError::RuleWithDive(k) => "`"@ + k.spec_name() + "` may not be used together with `dive`"@,
        FieldError::DuplicateAttribute(m) => "duplicate attribute `"@ + marker_text(m) + "`"@,
        FieldError::MalformedAttribute(m) => "malformed attribute `"@ + marker_text(m) + "`"@,
        FieldError::NoValidation => "field has no validation, use `#[garde(skip)]` if this is intentional"@,
        FieldError::UnrecognizedAttribute => "unrecognized attribute"@,
        FieldError::UnionNotSupported => "unions are not supported"@,
    }
}

/// `prefix`, then `name`, then `suffix`.
fn framed(prefix: &str, name: &str, suffix: &str) -> (r: String)
    ensures
        r@ == prefix@ + name@ + suffix@,
{
    let mut r = String::from_str(prefix);
    r.append(name);
    r.append(suffix);
    r
}

impl FieldError {
    /// The message reported for this error.
    pub fn message(&self) -> (r: String)
        ensures
            r@ == error_message(*self),
    {
        match self {
            FieldError::InvalidRule(p) => p.message(),
            FieldError::DuplicateRule(k) => framed("duplicate rule `", k.name(), "`"),
            FieldError::RuleWithDive(k) => framed("`", k.name(), "` may not be used together with `dive`"),
            FieldError::DuplicateAttribute(m) => framed("duplicate attribute `", m.name(), "`"),
            FieldError::MalformedAttribute(m) => framed("malformed attribute `", m.name(), "`"),
            FieldError::NoValidation => String::from_str(
                "field has no validation, use `#[garde(skip)]` if this is intentional",
            ),
            FieldError::UnrecognizedAttribute => String::from_str("unrecognized attribute"),
            FieldError::UnionNotSupported => String::from_str("unions are not supported"),
        }
    }
}

/// Whether `r` is the rule of one of the items.
pub open spec fn rule_of_some(items: Seq<Meta>, r: Rule) -> bool {
    exists|j: int| 0 <= j < items.len() && rule_of(#[trigger] items[j]) == Ok::<Rule, RuleParseError>(r)
}

/// Whether no two well-formed rule items are of the same kind.
pub open spec fn rule_kinds_distinct(items: Seq<Meta>) -> bool {
    forall|i: int, j: int|
        0 <= i < j < items.len() && (#[trigger] rule_of(items[i])) is Ok && (#[trigger] rule_of(
            items[j],
        )) is Ok ==> rule_of(items[i])->Ok_0.spec_kind() != rule_of(items[j])->Ok_0.spec_kind()
}

/// Each rule a scan accepts is the rule of one of the items; when no two
/// rule items share a kind, the rule of every well-formed rule item is
/// accepted.
proof fn lemma_scan_rule_values(items: Seq<Meta>)
    ensures
        forall|i: int| 0 <= i < scan(items).3.len() ==> rule_of_some(items, #[trigger] scan(items).3[i]),
        rule_kinds_distinct(items) ==> forall|j: int|
            0 <= j < items.len() && (#[trigger] rule_of(items[j])) is Ok ==> scan(items).3.contains(
                rule_of(items[j])->Ok_0,
            ),
    decreases items.len(),
{
    if items.len() > 0 {
        let pre = items.drop_last();
        lemma_scan_rule_values(pre);
        lemma_scan_rules(pre);
        if rule_kinds_distinct(items) {
            assert forall|i: int, j: int|
                0 <= i < j < pre.len() && (#[trigger] rule_of(pre[i])) is Ok && (#[trigger] rule_of(
                    pre[j],
                )) is Ok implies rule_of(pre[i])->Ok_0.spec_kind() != rule_of(pre[j])->Ok_0.spec_kind() by {
                assert(pre[i] == items[i] && pre[j] == items[j]);
                assert(rule_of(items[i]) is Ok && rule_of(items[j]) is Ok);
            }
        }
        let rs0 = scan(pre).3;
        let rs = scan(items).3;
        assert forall|i: int| 0 <= i < rs.len() implies rule_of_some(items, #[trigger] rs[i]) by {
            if i < rs0.len() {
                assert(rs[i] == rs0[i]);
                assert(rule_of_some(pre, rs0[i]));
                let j = choose|j: int|
                    0 <= j < pre.len() && rule_of(#[trigger] pre[j]) == Ok::<Rule, RuleParseError>(rs0[i]);
                assert(items[j] == pre[j]);
            } else {
                assert(rule_of(items[items.len() - 1]) == Ok::<Rule, RuleParseError>(rs[i]));
            }
        }
        if rule_kinds_distinct(items) {
            assert forall|j: int| 0 <= j < items.len() && (#[trigger] rule_of(items[j])) is Ok implies rs.contains(
                rule_of(items[j])->Ok_0,
            ) by {
                if j < pre.len() {
                    assert(pre[j] == items[j]);
                    assert(rs0.contains(rule_of(pre[j])->Ok_0));
                    let k = choose|k: int| 0 <= k < rs0.len() && rs0[k] == rule_of(pre[j])->Ok_0;
                    assert(rs[k] == rs0[k]);
                } else {
                    let m = items.last();
                    assert(items[j] == m);
                    let k = rule_of(m)->Ok_0.spec_kind();
                    if has_kind(rs0, k) {
                        assert(rule_kinds(pre).contains(k));
                        let i = choose|i: int| 0 <= i < pre.len() && (#[trigger] rule_of(pre[i])) is Ok
                            && rule_of(pre[i])->Ok_0.spec_kind() == k;
                        assert(pre[i] == items[i]);
                        assert(rule_of(items[i]) is Ok && rule_of(items[j]) is Ok);
                        assert(false);
                    }
                    assert(rs[rs.len() - 1] == rule_of(items[j])->Ok_0);
                }
            }
        }
    }
}

/// With distinct kinds, the rules of priority `p` are at most one, and are
/// those of the sequence that have that priority.
proof fn lemma_with_priority_values(rs: Seq<Rule>, p: u8)
    requires
        distinct_kinds(rs),
    ensures
        with_priority(rs, p).len() <= 1,
        forall|r: Rule|
            with_priority(rs, p).contains(r) <==> (rs.contains(r) && r.spec_kind().spec_priority() == p),
    decreases rs.len(),
{
    if rs.len() > 0 {
        let pre = rs.drop_last();
        assert forall|i: int, j: int| 0 <= i < j < pre.len() implies (#[trigger] pre[i]).spec_kind()
            != (#[trigger] pre[j]).spec_kind() by {
            assert(pre[i] == rs[i] && pre[j] == rs[j]);
        }
        lemma_with_priority_values(pre, p);
        let last = rs.last();
        if last.spec_kind().spec_priority() == p {
            if with_priority(pre, p).len() > 0 {
                let r = with_priority(pre, p)[0];
                assert(with_priority(pre, p).contains(r));
                assert(pre.contains(r));
                let i = choose|i: int| 0 <= i < pre.len() && pre[i] == r;
                assert(rs[i] == pre[i]);
                lemma_kind_at(r.spec_kind());
                lemma_kind_at(last.spec_kind());
                assert(rs[i].spec_kind() != rs[rs.len() - 1].spec_kind());
                assert(false);
            }
        }
        assert forall|r: Rule| with_priority(rs, p).contains(r) <==> (rs.contains(r)
            && r.spec_kind().spec_priority() == p) by {
            if rs.contains(r) && r.spec_kind().spec_priority() == p {
                let i = choose|i: int| 0 <= i < rs.len() && rs[i] == r;
                if i < pre.len() {
                    assert(pre[i] == rs[i]);
                    assert(pre.contains(r));
                } else {
                    assert(with_priority(rs, p) == with_priority(pre, p).push(last));
                    assert(with_priority(rs, p)[with_priority(pre, p).len() as int] == r);
                }
            }
            if with_priority(rs, p).contains(r) {
                let i = choose|i: int| 0 <= i < with_priority(rs, p).len() && with_priority(rs, p)[i] == r;
                if last.spec_kind().spec_priority() == p && i == with_priority(pre, p).len() {
                    assert(rs[rs.len() - 1] == r);
                } else {
                    assert(with_priority(pre, p)[i] == r);
                    assert(with_priority(pre, p).contains(r));
                    assert(pre.contains(r));
                    let k = choose|k: int| 0 <= k < pre.len() && pre[k] == r;
                    assert(rs[k] == pre[k]);
                }
            }
        }
    }
}

proof fn lemma_by_priority_same(ra: Seq<Rule>, rb: Seq<Rule>, p: nat)
    requires
        distinct_kinds(ra),
        distinct_kinds(rb),
        forall|r: Rule| ra.contains(r) <==> rb.contains(r),
    ensures
        by_priority_from(ra, p) == by_priority_from(rb, p),
    decreases 16 - p,
{
    if p < 16 {
        lemma_by_priority_same(ra, rb, p + 1);
        lemma_with_priority_values(ra, p as u8);
        lemma_with_priority_values(rb, p as u8);
        let wa = with_priority(ra, p as u8);
        let wb = with_priority(rb, p as u8);
        if wa.len() == 1 {
            assert(wa.contains(wa[0]));
            assert(ra.contains(wa[0]));
            assert(rb.contains(wa[0]));
            assert(wb.contains(wa[0]));
            assert(wb.len() == 1);
        } else if wb.len() == 1 {
            assert(wb.contains(wb[0]));
            assert(rb.contains(wb[0]));
            assert(ra.contains(wb[0]));
            assert(wa.contains(wb[0]));
        }
        assert(wa =~= wb);
    }
}

/// When a field's rule items are of distinct kinds, writing the same items
/// in another order gives the very same rules in the same order, so the
/// validators built from the two make the same evaluator calls in the same
/// order.
pub proof fn lemma_order_independent_rules(a: Seq<Meta>, b: Seq<Meta>)
    requires
        a.to_multiset() == b.to_multiset(),
        rule_kinds_distinct(a),
        rule_kinds_distinct(b),
    ensures
        by_priority(scan(a).3) == by_priority(scan(b).3),
{
    broadcast use vstd::seq_lib::to_multiset_contains;

    lemma_scan_rules(a);
    lemma_scan_rules(b);
    lemma_scan_rule_values(a);
    lemma_scan_rule_values(b);
    let ra = scan(a).3;
    let rb = scan(b).3;
    assert forall|r: Rule| ra.contains(r) implies rb.contains(r) by {
        let i = choose|i: int| 0 <= i < ra.len() && ra[i] == r;
        assert(rule_of_some(a, ra[i]));
        let j = choose|j: int| 0 <= j < a.len() && rule_of(#[trigger] a[j]) == Ok::<Rule, RuleParseError>(ra[i]);
        assert(a.contains(a[j]));
        assert(a.to_multiset().count(a[j]) > 0);
        assert(b.contains(a[j]));
        let k = choose|k: int| 0 <= k < b.len() && b[k] == a[j];
        assert(rule_of(b[k]) is Ok);
    }
    assert forall|r: Rule| rb.contains(r) implies ra.contains(r) by {
        let i = choose|i: int| 0 <= i < rb.len() && rb[i] == r;
        assert(rule_of_some(b, rb[i]));
        let j = choose|j: int| 0 <= j < b.len() && rule_of(#[trigger] b[j]) == Ok::<Rule, RuleParseError>(rb[i]);
        assert(b.contains(b[j]));
        assert(b.to_multiset().count(b[j]) > 0);
        assert(a.contains(b[j]));
        let k = choose|k: int| 0 <= k < a.len() && a[k] == b[j];
        assert(rule_of(a[k]) is Ok);
    }
    lemma_by_priority_same(ra, rb, 0);
}

} // verus!
