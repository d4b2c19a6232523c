//! Definition checks on a whole shape: every error of every field is
//! collected before any is reported.
use vstd::prelude::*;
use crate::annotation::{Arg, Expr, Meta, str_eq};
use crate::field::{by_priority, check_field, field_errors, scan, Field, FieldDesc, FieldError, Marker};
use crate::validate::{InputKind, Validation, Variant, VariantKind};

verus! {

/// The fields of a declared struct or variant.
#[derive(Debug)]
pub enum FieldsDesc {
    Named(Vec<FieldDesc>),
    Unnamed(Vec<FieldDesc>),
    Unit,
}

#[derive(Debug)]
pub struct VariantDesc {
    pub ident: String,
    pub fields: FieldsDesc,
}

#[derive(Debug)]
pub enum DataDesc {
    Struct(FieldsDesc),
    Enum(Vec<VariantDesc>),
    Union,
}

/// A declared shape: its name, its shape-level annotation items and its data.
#[derive(Debug)]
pub struct ShapeDesc {
    pub ident: String,
    pub attrs: Vec<Meta>,
    pub data: DataDesc,
}

/// Where a definition error was found.
#[derive(Clone, Copy, Debug, PartialEq, Eq, Structural)]
pub enum Location {
    /// On the shape itself.
    Container,
    /// On a field, given by its position (and its variant's, in a union).
    Field { variant: Option<usize>, index: usize },
}

#[derive(Clone, Copy, Debug, PartialEq, Eq, Structural)]
pub struct DefinitionError {
    pub at: Location,
    pub error: FieldError,
}

pub open spec fn located(es: Seq<FieldError>, at: Location) -> Seq<DefinitionError> {
    es.map_values(|e: FieldError| DefinitionError { at: at, error: e })
}

/// The errors of each field in turn.
pub open spec fn fields_errors(ds: Seq<FieldDesc>, variant: Option<usize>) -> Seq<DefinitionError>
    decreases ds.len(),
{
    if ds.len() == 0 {
        Seq::empty()
    } else {
        fields_errors(ds.drop_last(), variant) + located(
            field_errors(ds.last().annotations@),
            Location::Field { variant: variant, index: (ds.len() - 1) as usize },
        )
    }
}

/// The positions of the fields that reach the validator: those without
/// error and not skipped.
pub open spec fn kept(ds: Seq<FieldDesc>) -> Seq<int>
    decreases ds.len(),
{
    if ds.len() == 0 {
        Seq::empty()
    } else if field_errors(ds.last().annotations@).len() == 0 && !scan(ds.last().annotations@).0 {
        kept(ds.drop_last()).push(ds.len() - 1)
    } else {
        kept(ds.drop_last())
    }
}

/// The checked field made from a declared one.
pub open spec fn field_from(d: FieldDesc, f: Field) -> bool {
    &&& f.name == d.name
    &&& f.ty == d.ty
    &&& f.rename == scan(d.annotations@).2
    &&& f.dive == scan(d.annotations@).1
    &&& f.rules@ == by_priority(scan(d.annotations@).3)
}

pub open spec fn checked_fields(ds: Seq<FieldDesc>, fs: Seq<Field>) -> bool {
    &&& fs.len() == kept(ds).len()
    &&& forall|i: int|
        0 <= i < fs.len() ==> {
            &&& 0 <= kept(ds)[i] < ds.len()
            &&& field_from(ds[kept(ds)[i]], #[trigger] fs[i])
            &&& fs[i].position == kept(ds)[i]
        }
}

proof fn lemma_located_push(es: Seq<FieldError>, at: Location, e: FieldError)
    ensures
        located(es.push(e), at) == located(es, at).push(DefinitionError { at: at, error: e }),
{
    assert(located(es.push(e), at) =~= located(es, at).push(DefinitionError { at: at, error: e }));
}

/// Checks each field, adding its errors to `errors`; returns the fields
/// that reach the validator.
pub fn check_fields(
    ds: &Vec<FieldDesc>,
    variant: Option<usize>,
    errors: &mut Vec<DefinitionError>,
) -> (fs: Vec<Field>)
    ensures
        final(errors)@ == old(errors)@ + fields_errors(ds@, variant),
        checked_fields(ds@, fs@),
{
    let mut out: Vec<Field> = Vec::new();
    let mut i: usize = 0;
    while i < ds.len()
        invariant
            i <= ds@.len(),
            errors@ == old(errors)@ + fields_errors(ds@.subrange(0, i as int), variant),
            checked_fields(ds@.subrange(0, i as int), out@),
        decreases ds@.len() - i,
    {
        let ghost pre = ds@.subrange(0, i as int);
        let ghost cur = ds@.subrange(0, i as int + 1);
        proof {
            assert(cur.drop_last() =~= pre);
            assert(cur.last() == ds@[i as int]);
        }
        let at = Location::Field { variant, index: i };
        match check_field(&ds[i], i) {
            Err(es) => {
                let ghost before = errors@;
                let mut j: usize = 0;
                while j < es.len()
                    invariant
                        j <= es@.len(),
                        errors@ == before + located(es@.subrange(0, j as int), at),
                    decreases es@.len() - j,
                {
                    proof {
                        assert(es@.subrange(0, j as int + 1) =~= es@.subrange(0, j as int).push(
                            es@[j as int],
                        ));
                        lemma_located_push(es@.subrange(0, j as int), at, es@[j as int]);
                    }
                    errors.push(DefinitionError { at, error: es[j] });
                    j = j + 1;
                }
                proof {
                    assert(es@.subrange(0, es@.len() as int) =~= es@);
                    assert(errors@ =~= old(errors)@ + fields_errors(cur, variant));
                    assert(kept(cur) == kept(pre));
                    assert forall|k: int| 0 <= k < out@.len() implies {
                        &&& 0 <= kept(cur)[k] < cur.len()
                        &&& field_from(cur[kept(cur)[k]], #[trigger] out@[k])
                        &&& out@[k].position == kept(cur)[k]
                    } by {
                        assert(cur[kept(pre)[k]] == pre[kept(pre)[k]]);
                    }
                }
            },
            Ok(o) => {
                proof {
                    assert(located(Seq::<FieldError>::empty(), at) =~= Seq::<DefinitionError>::empty());
                    assert(errors@ =~= old(errors)@ + fields_errors(cur, variant));
                }
                match o {
                    None => {
                        assert(kept(cur) == kept(pre));
                        assert forall|k: int| 0 <= k < out@.len() implies {
                            &&& 0 <= kept(cur)[k] < cur.len()
                            &&& field_from(cur[kept(cur)[k]], #[trigger] out@[k])
                            &&& out@[k].position == kept(cur)[k]
                        } by {
                            assert(cur[kept(pre)[k]] == pre[kept(pre)[k]]);
                        }
                    },
                    Some(f) => {
                        let ghost prev = out@;
                        out.push(f);
                        proof {
                            assert(kept(cur) == kept(pre).push(i as int));
                            assert forall|k: int| 0 <= k < out@.len() implies {
                                &&& 0 <= kept(cur)[k] < cur.len()
                                &&& field_from(cur[kept(cur)[k]], #[trigger] out@[k])
                                &&& out@[k].position == kept(cur)[k]
                            } by {
                                if k < out@.len() - 1 {
                                    assert(out@[k] == prev[k]);
                                    assert(kept(cur)[k] == kept(pre)[k]);
                                    assert(cur[kept(pre)[k]] == pre[kept(pre)[k]]);
                                }
                            }
                        }
                    },
                }
            },
        }
        i = i + 1;
    }
    proof {
        assert(ds@.subrange(0, ds@.len() as int) =~= ds@);
    }
    out
}

/// The source text of an expression.
pub open spec fn expr_text(e: Expr) -> String {
    match e {
        Expr::Int(s) => s,
        Expr::Str(s) => s,
        Expr::Path(s) => s,
        Expr::Closure(s) => s,
        Expr::Other(s) => s,
    }
}

/// One shape-level item: `context(Type)` declares the context type.
pub open spec fn context_step(acc: (Option<String>, Seq<FieldError>), m: Meta) -> (
    Option<String>,
    Seq<FieldError>,
) {
    if m.spec_name() == "context"@ {
        if m is List && m->List_1@.len() == 1 && m->List_1@[0] is Positional {
            (Some(expr_text(m->List_1@[0]->Positional_0)), acc.1)
        } else {
            (acc.0, acc.1.push(FieldError::MalformedAttribute(Marker::Context)))
        }
    } else {
        (acc.0, acc.1.push(FieldError::UnrecognizedAttribute))
    }
}

/// The context type (the last one declared) and the errors of the
/// shape-level items.
pub open spec fn context_scan(items: Seq<Meta>) -> (Option<String>, Seq<FieldError>)
    decreases items.len(),
{
    if items.len() == 0 {
        (None, Seq::empty())
    } else {
        context_step(context_scan(items.drop_last()), items.last())
    }
}

pub open spec fn desc_fields_errors(f: FieldsDesc, variant: Option<usize>) -> Seq<DefinitionError> {
    match f {
        FieldsDesc::Named(ds) => fields_errors(ds@, variant),
        FieldsDesc::Unnamed(ds) => fields_errors(ds@, variant),
        FieldsDesc::Unit => Seq::empty(),
    }
}

pub open spec fn variants_errors(vs: Seq<VariantDesc>) -> Seq<DefinitionError>
    decreases vs.len(),
{
    if vs.len() == 0 {
        Seq::empty()
    } else {
        variants_errors(vs.drop_last()) + desc_fields_errors(
            vs.last().fields,
            Some((vs.len() - 1) as usize),
        )
    }
}

/// Every definition error of a shape, in the order found.
pub open spec fn shape_errors(d: ShapeDesc) -> Seq<DefinitionError> {
    located(context_scan(d.attrs@).1, Location::Container) + match d.data {
        DataDesc::Struct(f) => desc_fields_errors(f, None),
        DataDesc::Enum(vs) => variants_errors(vs@),
        DataDesc::Union => seq![
            DefinitionError { at: Location::Container, error: FieldError::UnionNotSupported },
        ],
    }
}

pub open spec fn variant_checked(d: FieldsDesc, k: VariantKind) -> bool {
    match d {
        FieldsDesc::Named(ds) => k is Struct && checked_fields(ds@, k->Struct_0@),
        FieldsDesc::Unnamed(ds) => k is Tuple && checked_fields(ds@, k->Tuple_0@),
        FieldsDesc::Unit => k is Unit,
    }
}

pub open spec fn variants_checked(vs: Seq<VariantDesc>, ws: Seq<Variant>) -> bool {
    &&& ws.len() == vs.len()
    &&& forall|i: int|
        0 <= i < vs.len() ==> {
            &&& (#[trigger] ws[i]).ident == vs[i].ident
            &&& variant_checked(vs[i].fields, ws[i].kind)
        }
}

/// The checked shape made from a declared one. A unit struct is a tuple
/// with no fields.
pub open spec fn input_checked(d: DataDesc, k: InputKind) -> bool {
    match d {
        DataDesc::Struct(FieldsDesc::Named(ds)) => k is FieldStruct && checked_fields(
            ds@,
            k->FieldStruct_0@,
        ),
        DataDesc::Struct(FieldsDesc::Unnamed(ds)) => k is TupleStruct && checked_fields(
            ds@,
            k->TupleStruct_0@,
        ),
        DataDesc::Struct(FieldsDesc::Unit) => k is TupleStruct && k->TupleStruct_0@.len() == 0,
        DataDesc::Enum(vs) => k is Enum && variants_checked(vs@, k->Enum_0@),
        DataDesc::Union => false,
    }
}

fn expr_source(e: &Expr) -> (r: String)
    ensures
        r == expr_text(*e),
{
    match e {
        Expr::Int(s) => s.clone(),
        Expr::Str(s) => s.clone(),
        Expr::Path(s) => s.clone(),
        Expr::Closure(s) => s.clone(),
        Expr::Other(s) => s.clone(),
    }
}

/// Reads the context type from the shape-level items, adding their errors
/// to `errors`.
pub fn parse_context(attrs: &Vec<Meta>, errors: &mut Vec<DefinitionError>) -> (r: Option<String>)
    ensures
        r == context_scan(attrs@).0,
        final(errors)@ == old(errors)@ + located(context_scan(attrs@).1, Location::Container),
{
    let mut inner: Option<String> = None;
    let ghost errs: Seq<FieldError> = Seq::empty();
    let mut i: usize = 0;
    while i < attrs.len()
        invariant
            i <= attrs@.len(),
            context_scan(attrs@.subrange(0, i as int)) == (inner, errs),
            errors@ == old(errors)@ + located(errs, Location::Container),
        decreases attrs@.len() - i,
    {
        proof {
            assert(attrs@.subrange(0, i as int + 1).drop_last() =~= attrs@.subrange(0, i as int));
        }
        let m = &attrs[i];
        if str_eq(m.name(), "context") {
            let mut ty: Option<String> = None;
            if let Meta::List(_, args) = m {
                if args.len() == 1 {
                    if let Arg::Positional(e) = &args[0] {
                        ty = Some(expr_source(e));
                    }
                }
            }
            match ty {
                Some(t) => inner = Some(t),
                None => {
                    proof {
                        lemma_located_push(errs, Location::Container, FieldError::MalformedAttribute(Marker::Context));
                        errs = errs.push(FieldError::MalformedAttribute(Marker::Context));
                    }
                    errors.push(
                        DefinitionError {
                            at: Location::Container,
                            error: FieldError::MalformedAttribute(Marker::Context),
                        },
                    );
                },
            }
        } else {
            proof {
                lemma_located_push(errs, Location::Container, FieldError::UnrecognizedAttribute);
                errs = errs.push(FieldError::UnrecognizedAttribute);
            }
            errors.push(
                DefinitionError { at: Location::Container, error: FieldError::UnrecognizedAttribute },
            );
        }
        i = i + 1;
    }
    proof {
        assert(attrs@.subrange(0, attrs@.len() as int) =~= attrs@);
    }
    inner
}

fn parse_variant_fields(
    f: &FieldsDesc,
    variant: usize,
    errors: &mut Vec<DefinitionError>,
) -> (k: VariantKind)
    ensures
        final(errors)@ == old(errors)@ + desc_fields_errors(*f, Some(variant)),
        variant_checked(*f, k),
{
    match f {
        FieldsDesc::Named(ds) => VariantKind::Struct(check_fields(ds, Some(variant), errors)),
        FieldsDesc::Unnamed(ds) => VariantKind::Tuple(check_fields(ds, Some(variant), errors)),
        FieldsDesc::Unit => {
            assert(errors@ =~= old(errors)@ + desc_fields_errors(*f, Some(variant)));
            VariantKind::Unit
        },
    }
}

/// Checks the fields of every variant of a union.
pub fn parse_variants(vs: &Vec<VariantDesc>, errors: &mut Vec<DefinitionError>) -> (ws: Vec<Variant>)
    ensures
        final(errors)@ == old(errors)@ + variants_errors(vs@),
        variants_checked(vs@, ws@),
{
    let mut out: Vec<Variant> = Vec::new();
    let mut i: usize = 0;
    while i < vs.len()
        invariant
            i <= vs@.len(),
            errors@ == old(errors)@ + variants_errors(vs@.subrange(0, i as int)),
            variants_checked(vs@.subrange(0, i as int), out@),
        decreases vs@.len() - i,
    {
        proof {
            assert(vs@.subrange(0, i as int + 1).drop_last() =~= vs@.subrange(0, i as int));
        }
        let ghost mid = errors@;
        let kind = parse_variant_fields(&vs[i].fields, i, errors);
        out.push(Variant { ident: vs[i].ident.clone(), kind });
        proof {
            assert(errors@ =~= old(errors)@ + variants_errors(vs@.subrange(0, i as int + 1)));
            assert(vs@.subrange(0, i as int + 1)[i as int] == vs@[i as int]);
        }
        i = i + 1;
        proof {
            assert forall|k: int| 0 <= k < i implies {
                &&& (#[trigger] out@[k]).ident == vs@.subrange(0, i as int)[k].ident
                &&& variant_checked(vs@.subrange(0, i as int)[k].fields, out@[k].kind)
            } by {
                if k < i - 1 {
                    assert(vs@.subrange(0, i as int)[k] == vs@.subrange(0, i - 1)[k]);
                }
            }
        }
    }
    proof {
        assert(vs@.subrange(0, vs@.len() as int) =~= vs@);
    }
    out
}

/// Checks the data of a shape, adding the errors of its fields to `errors`.
/// A union is refused: its error is handed back, and `errors` is left as it
/// was.
pub fn parse_input_kind(d: &DataDesc, errors: &mut Vec<DefinitionError>) -> (r: Result<
    InputKind,
    DefinitionError,
>)
    ensures
        r is Err <==> d is Union,
        r matches Err(e) ==> e == (DefinitionError {
            at: Location::Container,
            error: FieldError::UnionNotSupported,
        }),
        r matches Ok(k) ==> input_checked(*d, k),
        final(errors)@ == old(errors)@ + match *d {
            DataDesc::Struct(f) => desc_fields_errors(f, None),
            DataDesc::Enum(vs) => variants_errors(vs@),
            DataDesc::Union => Seq::empty(),
        },
{
    match d {
        DataDesc::Struct(FieldsDesc::Named(ds)) => Ok(InputKind::FieldStruct(check_fields(ds, None, errors))),
        DataDesc::Struct(FieldsDesc::Unnamed(ds)) => Ok(InputKind::TupleStruct(check_fields(ds, None, errors))),
        DataDesc::Struct(FieldsDesc::Unit) => {
            assert(errors@ =~= old(errors)@ + Seq::<DefinitionError>::empty());
            Ok(InputKind::TupleStruct(Vec::new()))
        },
        DataDesc::Enum(vs) => Ok(InputKind::Enum(parse_variants(vs, errors))),
        DataDesc::Union => {
            assert(errors@ =~= old(errors)@ + Seq::<DefinitionError>::empty());
            Err(DefinitionError { at: Location::Container, error: FieldError::UnionNotSupported })
        },
    }
}

/// Checks a whole shape. Every definition error is collected and reported
/// together; only a shape with none gets a validator.
pub fn check_shape(d: &ShapeDesc) -> (r: Result<Validation, Vec<DefinitionError>>)
    ensures
        r is Err <==> shape_errors(*d).len() > 0,
        r matches Err(es) ==> es@ == shape_errors(*d),
        r matches Ok(v) ==> {
            &&& v.ident == d.ident
            &&& v.context == context_scan(d.attrs@).0
            &&& input_checked(d.data, v.inner)
        },
{
    let mut errors: Vec<DefinitionError> = Vec::new();
    let context = parse_context(&d.attrs, &mut errors);
    match parse_input_kind(&d.data, &mut errors) {
        Ok(inner) => {
            proof {
                assert(errors@ =~= shape_errors(*d));
            }
            if errors.len() == 0 {
                Ok(Validation { ident: d.ident.clone(), context, inner })
            } else {
                Err(errors)
            }
        },
        Err(e) => {
            errors.push(e);
            proof {
                assert(errors@ =~= shape_errors(*d));
            }
            Err(errors)
        },
    }
}

proof fn lemma_fields_errors_nonempty(ds: Seq<FieldDesc>, variant: Option<usize>, i: int)
    requires
        0 <= i < ds.len(),
        field_errors(ds[i].annotations@).len() > 0,
    ensures
        fields_errors(ds, variant).len() > 0,
    decreases ds.len(),
{
    if i < ds.len() - 1 {
        assert(ds.drop_last()[i] == ds[i]);
        lemma_fields_errors_nonempty(ds.drop_last(), variant, i);
    }
}

/// A single erroneous field of a struct keeps the whole shape from getting
/// a validator.
pub proof fn lemma_field_error_blocks_shape(d: ShapeDesc, i: int)
    requires
        d.data matches DataDesc::Struct(FieldsDesc::Named(ds)) && 0 <= i < ds@.len()
            && field_errors(ds@[i].annotations@).len() > 0,
    ensures
        shape_errors(d).len() > 0,
{
    if let DataDesc::Struct(FieldsDesc::Named(ds)) = d.data {
        lemma_fields_errors_nonempty(ds@, None, i);
    }
}

} // verus!
