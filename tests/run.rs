use garde_derive::annotation::{Arg, Expr, Meta};
use garde_derive::errors::{finish, ErrorTree};
use garde_derive::field::FieldDesc;
use garde_derive::shape::{check_shape, DataDesc, FieldsDesc, ShapeDesc, VariantDesc};
use garde_derive::validate::{field_entry, Instance, Observed, Validation};

fn s(v: &str) -> String {
    v.to_string()
}

fn bounds(name: &str, min: Option<&str>, max: Option<&str>) -> Meta {
    let mut args = vec![];
    if let Some(v) = min {
        args.push(Arg::Named(s("min"), Expr::Int(s(v))));
    }
    if let Some(v) = max {
        args.push(Arg::Named(s("max"), Expr::Int(s(v))));
    }
    Meta::List(s(name), args)
}

fn named(name: &str, ty: &str, annotations: Vec<Meta>) -> FieldDesc {
    FieldDesc { name: Some(s(name)), ty: s(ty), annotations }
}

fn positional(ty: &str, annotations: Vec<Meta>) -> FieldDesc {
    FieldDesc { name: None, ty: s(ty), annotations }
}

fn build(ident: &str, data: DataDesc) -> Validation {
    check_shape(&ShapeDesc { ident: s(ident), attrs: vec![], data }).unwrap()
}

fn person() -> Validation {
    build(
        "Person",
        DataDesc::Struct(FieldsDesc::Named(vec![
            named("name", "String", vec![bounds("length", Some("1"), Some("64"))]),
            named("age", "u8", vec![bounds("range", None, Some("150"))]),
        ])),
    )
}

fn fail(m: &str) -> Option<String> {
    Some(s(m))
}

#[test]
fn record_collects_every_leaf() {
    let v = person();
    let inst = Instance {
        variant: 0,
        fields: vec![
            Observed::Rules(vec![fail("length is lower than 1")]),
            Observed::Rules(vec![fail("greater than 150")]),
        ],
    };
    let expected = ErrorTree::Fields(vec![
        (s("name"), ErrorTree::Simple(vec![s("length is lower than 1")])),
        (s("age"), ErrorTree::Simple(vec![s("greater than 150")])),
    ]);
    assert_eq!(v.validate(inst), Err(expected));
}

#[test]
fn record_with_one_failure_keeps_every_entry() {
    let v = person();
    let inst = Instance { variant: 0, fields: vec![Observed::Rules(vec![None]), Observed::Rules(vec![fail("too old")])] };
    let expected = ErrorTree::Fields(vec![
        (s("name"), ErrorTree::Simple(vec![])),
        (s("age"), ErrorTree::Simple(vec![s("too old")])),
    ]);
    assert_eq!(v.validate(inst), Err(expected));
}

#[test]
fn tuple_gives_positional_list() {
    let v = build(
        "Point",
        DataDesc::Struct(FieldsDesc::Unnamed(vec![
            positional("i32", vec![bounds("range", Some("0"), None)]),
            positional("i32", vec![bounds("range", Some("0"), None)]),
        ])),
    );
    let inst = Instance {
        variant: 0,
        fields: vec![Observed::Rules(vec![fail("lower than 0")]), Observed::Rules(vec![fail("lower than 0")])],
    };
    let expected = ErrorTree::List(vec![
        ErrorTree::Simple(vec![s("lower than 0")]),
        ErrorTree::Simple(vec![s("lower than 0")]),
    ]);
    assert_eq!(v.validate(inst), Err(expected));
}

fn shape_union() -> Validation {
    build(
        "Shape",
        DataDesc::Enum(vec![
            VariantDesc {
                ident: s("Circle"),
                fields: FieldsDesc::Named(vec![named(
                    "radius",
                    "f64",
                    vec![Meta::List(s("range"), vec![Arg::Named(s("min"), Expr::Other(s("0.0")))])],
                )]),
            },
            VariantDesc { ident: s("Dot"), fields: FieldsDesc::Unit },
        ]),
    )
}

#[test]
fn union_dispatches_on_the_active_variant() {
    let v = shape_union();
    let circle = Instance { variant: 0, fields: vec![Observed::Rules(vec![fail("lower than 0.0")])] };
    let expected = ErrorTree::Fields(vec![(s("radius"), ErrorTree::Simple(vec![s("lower than 0.0")]))]);
    assert_eq!(v.validate(circle), Err(expected));
    let dot = Instance { variant: 1, fields: vec![] };
    assert_eq!(v.errors(Instance { variant: 1, fields: vec![] }), ErrorTree::Empty);
    assert_eq!(v.validate(dot), Ok(()));
}

#[test]
fn delegated_field_takes_nested_tree_as_is() {
    let v = build(
        "Outer",
        DataDesc::Struct(FieldsDesc::Named(vec![
            named("inner", "Inner", vec![Meta::Word(s("dive"))]),
            named("tag", "String", vec![Meta::Word(s("ascii"))]),
        ])),
    );
    let nested = ErrorTree::Fields(vec![(s("x"), ErrorTree::Simple(vec![s("bad")]))]);
    let inst = Instance {
        variant: 0,
        fields: vec![
            Observed::Nested(Err(ErrorTree::Fields(vec![(s("x"), ErrorTree::Simple(vec![s("bad")]))]))),
            Observed::Rules(vec![None]),
        ],
    };
    let expected = ErrorTree::Fields(vec![(s("inner"), nested), (s("tag"), ErrorTree::Simple(vec![]))]);
    assert_eq!(v.validate(inst), Err(expected));
    let ok = Instance { variant: 0, fields: vec![Observed::Nested(Ok(())), Observed::Rules(vec![None])] };
    assert_eq!(
        v.errors(ok),
        ErrorTree::Fields(vec![(s("inner"), ErrorTree::Empty), (s("tag"), ErrorTree::Simple(vec![]))])
    );
}

#[test]
fn renamed_field_is_keyed_by_its_rename() {
    let v = build(
        "R",
        DataDesc::Struct(FieldsDesc::Named(vec![named(
            "first_name",
            "String",
            vec![Meta::NameValue(s("rename"), Expr::Str(s("firstName"))), Meta::Word(s("ascii"))],
        )])),
    );
    let inst = Instance { variant: 0, fields: vec![Observed::Rules(vec![fail("not ascii")])] };
    let expected = ErrorTree::Fields(vec![(s("firstName"), ErrorTree::Simple(vec![s("not ascii")]))]);
    assert_eq!(v.validate(inst), Err(expected));
}

#[test]
fn valid_instance_twice_is_ok_twice() {
    let v = person();
    let make = || Instance { variant: 0, fields: vec![Observed::Rules(vec![None]), Observed::Rules(vec![None])] };
    assert_eq!(v.validate(make()), Ok(()));
    assert_eq!(v.validate(make()), Ok(()));
}

#[test]
fn leaf_collects_every_failing_rule_in_order() {
    let e = field_entry(Observed::Rules(vec![fail("a"), None, fail("c")]));
    assert_eq!(e, ErrorTree::Simple(vec![s("a"), s("c")]));
    assert_eq!(field_entry(Observed::Nested(Ok(()))), ErrorTree::Empty);
}

#[test]
fn emptiness_looks_at_every_leaf() {
    assert!(ErrorTree::Empty.is_empty());
    assert!(ErrorTree::Simple(vec![]).is_empty());
    assert!(!ErrorTree::Simple(vec![s("x")]).is_empty());
    let deep = ErrorTree::List(vec![
        ErrorTree::Empty,
        ErrorTree::Fields(vec![(s("a"), ErrorTree::Simple(vec![])), (s("b"), ErrorTree::List(vec![ErrorTree::Simple(vec![s("x")])]))]),
    ]);
    assert!(!deep.is_empty());
    let clean = ErrorTree::List(vec![ErrorTree::Fields(vec![(s("a"), ErrorTree::Simple(vec![]))])]);
    assert!(clean.is_empty());
    assert_eq!(finish(clean), Ok(()));
    assert_eq!(finish(ErrorTree::Simple(vec![s("x")])), Err(ErrorTree::Simple(vec![s("x")])));
}

#[test]
fn nested_error_that_is_empty_counts_as_pass() {
    let v = build("W", DataDesc::Struct(FieldsDesc::Unnamed(vec![positional("Inner", vec![Meta::Word(s("dive"))])])));
    let inst = Instance { variant: 0, fields: vec![Observed::Nested(Err(ErrorTree::Simple(vec![])))] };
    assert_eq!(v.validate(inst), Ok(()));
}
