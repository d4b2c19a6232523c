use garde_derive::annotation::{Arg, Expr, Meta};
use garde_derive::field::{check_field, FieldDesc, FieldError, Marker};
use garde_derive::rule::{
    kind_from_name, parse_rule, parse_usize, Bound, IpKind, Rule, RuleEmit, RuleKind,
    RuleParseError,
};
use garde_derive::shape::{
    check_shape, parse_input_kind, DataDesc, DefinitionError, FieldsDesc, Location, ShapeDesc,
    VariantDesc,
};
use garde_derive::validate::{InputKind, VariantKind};

fn s(v: &str) -> String {
    v.to_string()
}

fn word(n: &str) -> Meta {
    Meta::Word(s(n))
}

fn list(n: &str, args: Vec<Arg>) -> Meta {
    Meta::List(s(n), args)
}

fn named_int(n: &str, v: &str) -> Arg {
    Arg::Named(s(n), Expr::Int(s(v)))
}

fn str_arg(v: &str) -> Arg {
    Arg::Positional(Expr::Str(s(v)))
}

fn field(name: &str, ty: &str, annotations: Vec<Meta>) -> FieldDesc {
    FieldDesc { name: Some(s(name)), ty: s(ty), annotations }
}

fn kinds(rules: &[Rule]) -> Vec<RuleKind> {
    rules.iter().map(|r| r.kind()).collect()
}

#[test]
fn duplicate_length_gives_one_error() {
    let f = field(
        "name",
        "String",
        vec![list("length", vec![named_int("min", "1")]), list("length", vec![named_int("max", "10")])],
    );
    let errs = check_field(&f, 0).unwrap_err();
    assert_eq!(errs, vec![FieldError::DuplicateRule(RuleKind::Length)]);
    assert_eq!(errs[0].message(), "duplicate rule `length`");
    let shape = ShapeDesc { ident: s("S"), attrs: vec![], data: DataDesc::Struct(FieldsDesc::Named(vec![f])) };
    let errs = check_shape(&shape).unwrap_err();
    assert_eq!(
        errs,
        vec![DefinitionError {
            at: Location::Field { variant: None, index: 0 },
            error: FieldError::DuplicateRule(RuleKind::Length)
        }]
    );
}

#[test]
fn rule_with_dive_is_refused() {
    let f = field("inner", "Inner", vec![word("dive"), list("length", vec![named_int("min", "1")])]);
    let errs = check_field(&f, 0).unwrap_err();
    assert_eq!(errs, vec![FieldError::RuleWithDive(RuleKind::Length)]);
    assert_eq!(errs[0].message(), "`length` may not be used together with `dive`");
}

#[test]
fn rule_before_dive_is_refused_too() {
    let f = field("inner", "Inner", vec![word("ascii"), word("dive")]);
    assert_eq!(check_field(&f, 0).unwrap_err(), vec![FieldError::RuleWithDive(RuleKind::Ascii)]);
}

#[test]
fn field_without_validation_is_refused() {
    let f = field("x", "u8", vec![]);
    let errs = check_field(&f, 0).unwrap_err();
    assert_eq!(errs, vec![FieldError::NoValidation]);
    assert!(errs[0].message().starts_with("field has no validation"));
    let renamed = field("x", "u8", vec![Meta::NameValue(s("rename"), Expr::Str(s("y")))]);
    assert_eq!(check_field(&renamed, 0).unwrap_err(), vec![FieldError::NoValidation]);
}

#[test]
fn skipped_field_is_dropped() {
    let f = field("x", "u8", vec![word("skip")]);
    assert!(check_field(&f, 0).unwrap().is_none());
    let f = field("x", "u8", vec![word("skip"), word("ascii")]);
    assert!(check_field(&f, 0).unwrap().is_none());
}

#[test]
fn rules_are_ordered_by_priority_whatever_the_order_written() {
    let a = field(
        "x",
        "String",
        vec![word("url"), list("contains", vec![str_arg("a")]), word("ascii"), list("length", vec![named_int("max", "3")])],
    );
    let b = field(
        "x",
        "String",
        vec![list("length", vec![named_int("max", "3")]), word("ascii"), list("contains", vec![str_arg("a")]), word("url")],
    );
    let fa = check_field(&a, 0).unwrap().unwrap();
    let fb = check_field(&b, 0).unwrap().unwrap();
    let expected = vec![RuleKind::Ascii, RuleKind::Url, RuleKind::Length, RuleKind::Contains];
    assert_eq!(kinds(&fa.rules), expected);
    assert_eq!(kinds(&fb.rules), expected);
    assert_eq!(fa.rules, fb.rules);
}

#[test]
fn every_error_of_every_field_is_reported() {
    let shape = ShapeDesc {
        ident: s("S"),
        attrs: vec![],
        data: DataDesc::Struct(FieldsDesc::Named(vec![
            field("a", "u8", vec![]),
            field("b", "u8", vec![word("dive"), word("dive"), word("email")]),
            field("c", "u8", vec![word("nonsense"), word("skip"), word("skip")]),
            field("d", "u8", vec![word("ascii")]),
        ])),
    };
    let errs = check_shape(&shape).unwrap_err();
    let at = |i: usize| Location::Field { variant: None, index: i };
    assert_eq!(
        errs,
        vec![
            DefinitionError { at: at(0), error: FieldError::NoValidation },
            DefinitionError { at: at(1), error: FieldError::DuplicateAttribute(Marker::Dive) },
            DefinitionError { at: at(1), error: FieldError::RuleWithDive(RuleKind::Email) },
            DefinitionError { at: at(2), error: FieldError::InvalidRule(RuleParseError::Unrecognized) },
            DefinitionError { at: at(2), error: FieldError::DuplicateAttribute(Marker::Skip) },
        ]
    );
}

#[test]
fn marker_errors() {
    let f = field(
        "x",
        "u8",
        vec![
            Meta::NameValue(s("rename"), Expr::Str(s("a"))),
            Meta::NameValue(s("rename"), Expr::Str(s("b"))),
            Meta::NameValue(s("rename"), Expr::Int(s("1"))),
            list("dive", vec![]),
            Meta::NameValue(s("skip"), Expr::Str(s("x"))),
            word("ascii"),
        ],
    );
    let errs = check_field(&f, 0).unwrap_err();
    assert_eq!(
        errs,
        vec![
            FieldError::DuplicateAttribute(Marker::Rename),
            FieldError::MalformedAttribute(Marker::Rename),
            FieldError::MalformedAttribute(Marker::Dive),
            FieldError::MalformedAttribute(Marker::Skip),
        ]
    );
    assert_eq!(errs[0].message(), "duplicate attribute `rename`");
}

#[test]
fn checked_field_keeps_name_type_rename() {
    let f = field("x", "u8", vec![Meta::NameValue(s("rename"), Expr::Str(s("why"))), word("dive")]);
    let c = check_field(&f, 0).unwrap().unwrap();
    assert_eq!(c.name, Some(s("x")));
    assert_eq!(c.rename, Some(s("why")));
    assert_eq!(c.ty, s("u8"));
    assert!(c.dive);
    assert!(c.rules.is_empty());
}

#[test]
fn context_and_container_errors() {
    let ok = ShapeDesc {
        ident: s("S"),
        attrs: vec![list("context", vec![Arg::Positional(Expr::Path(s("Ctx")))])],
        data: DataDesc::Struct(FieldsDesc::Unit),
    };
    let v = check_shape(&ok).unwrap();
    assert_eq!(v.context, Some(s("Ctx")));
    assert!(matches!(v.inner, InputKind::TupleStruct(ref fs) if fs.is_empty()));
    let none = ShapeDesc { ident: s("S"), attrs: vec![], data: DataDesc::Struct(FieldsDesc::Unit) };
    assert_eq!(check_shape(&none).unwrap().context, None);
    let bad = ShapeDesc {
        ident: s("S"),
        attrs: vec![word("context"), word("other")],
        data: DataDesc::Union,
    };
    let errs = check_shape(&bad).unwrap_err();
    let e = |error| DefinitionError { at: Location::Container, error };
    assert_eq!(
        errs,
        vec![
            e(FieldError::MalformedAttribute(Marker::Context)),
            e(FieldError::UnrecognizedAttribute),
            e(FieldError::UnionNotSupported),
        ]
    );
    assert_eq!(errs[2].error.message(), "unions are not supported");
    assert_eq!(errs[1].error.message(), "unrecognized attribute");
}

#[test]
fn union_variants_are_checked_in_turn() {
    let shape = ShapeDesc {
        ident: s("Shape"),
        attrs: vec![],
        data: DataDesc::Enum(vec![
            VariantDesc { ident: s("Circle"), fields: FieldsDesc::Named(vec![field("radius", "f64", vec![])]) },
            VariantDesc { ident: s("Dot"), fields: FieldsDesc::Unit },
            VariantDesc {
                ident: s("Pair"),
                fields: FieldsDesc::Unnamed(vec![FieldDesc { name: None, ty: s("u8"), annotations: vec![word("ip"), word("ip")] }]),
            },
        ]),
    };
    assert_eq!(
        check_shape(&shape).unwrap_err(),
        vec![
            DefinitionError { at: Location::Field { variant: Some(0), index: 0 }, error: FieldError::NoValidation },
            DefinitionError {
                at: Location::Field { variant: Some(2), index: 0 },
                error: FieldError::DuplicateRule(RuleKind::Ip)
            },
        ]
    );
}

#[test]
fn valid_union_is_checked() {
    let shape = ShapeDesc {
        ident: s("Shape"),
        attrs: vec![],
        data: DataDesc::Enum(vec![
            VariantDesc { ident: s("Dot"), fields: FieldsDesc::Unit },
            VariantDesc {
                ident: s("Pair"),
                fields: FieldsDesc::Unnamed(vec![FieldDesc { name: None, ty: s("String"), annotations: vec![word("email")] }]),
            },
        ]),
    };
    let v = check_shape(&shape).unwrap();
    match v.inner {
        InputKind::Enum(vs) => {
            assert_eq!(vs.len(), 2);
            assert_eq!(vs[0].ident, "Dot");
            assert!(matches!(vs[0].kind, VariantKind::Unit));
            match &vs[1].kind {
                VariantKind::Tuple(fs) => assert_eq!(fs[0].rules, vec![Rule::Email]),
                _ => panic!("expected a tuple variant"),
            }
        }
        _ => panic!("expected a union"),
    }
}

#[test]
fn rule_names() {
    assert_eq!(kind_from_name("credit_card"), Some(RuleKind::CreditCard));
    assert_eq!(kind_from_name("range"), Some(RuleKind::Range));
    assert_eq!(kind_from_name("bogus"), None);
    assert_eq!(RuleKind::PhoneNumber.name(), "phone_number");
    assert_eq!(Rule::IpV6.name(), "ipv6");
    assert_eq!(RuleKind::Ascii.priority(), 0);
    assert_eq!(RuleKind::Custom.priority(), 15);
    assert!(Rule::Contains(s("a")).same_rule(&Rule::Contains(s("b"))));
    assert!(!Rule::Ascii.same_rule(&Rule::Alphanumeric));
}

#[test]
fn parse_rules_without_arguments() {
    assert_eq!(parse_rule(&word("ascii")), Ok(Rule::Ascii));
    assert_eq!(parse_rule(&word("ipv4")), Ok(Rule::IpV4));
    assert_eq!(parse_rule(&list("email", vec![])), Err(RuleParseError::UnexpectedArgs(RuleKind::Email)));
    assert_eq!(parse_rule(&word("length")), Err(RuleParseError::ExpectedArgs(RuleKind::Length)));
    assert_eq!(parse_rule(&word("nope")), Err(RuleParseError::Unrecognized));
    assert_eq!(RuleParseError::Unrecognized.message(), "unrecognized rule");
}

#[test]
fn parse_length_rules() {
    assert_eq!(
        parse_rule(&list("length", vec![named_int("min", "1"), named_int("max", "64")])),
        Ok(Rule::Length { min: Some(1), max: Some(64) })
    );
    assert_eq!(parse_rule(&list("length", vec![named_int("max", "10")])), Ok(Rule::Length { min: None, max: Some(10) }));
    assert_eq!(
        parse_rule(&list("length", vec![named_int("min", "5"), named_int("max", "5")])),
        Err(RuleParseError::MinNotBelowMax)
    );
    assert_eq!(parse_rule(&list("length", vec![])), Err(RuleParseError::MissingBounds));
    assert_eq!(
        parse_rule(&list("length", vec![named_int("min", "1"), named_int("min", "2")])),
        Err(RuleParseError::DuplicateBound)
    );
    assert_eq!(parse_rule(&list("length", vec![named_int("mid", "1")])), Err(RuleParseError::UnexpectedArg));
    assert_eq!(parse_rule(&list("length", vec![str_arg("x")])), Err(RuleParseError::UnexpectedArg));
    assert_eq!(
        parse_rule(&list("length", vec![Arg::Named(s("min"), Expr::Other(s("a + b")))])),
        Err(RuleParseError::InvalidUsize)
    );
    assert_eq!(
        parse_rule(&list("length", vec![named_int("max", "99999999999999999999999")])),
        Err(RuleParseError::InvalidUsize)
    );
}

#[test]
fn parse_range_rules() {
    let r = parse_rule(&list("range", vec![Arg::Named(s("max"), Expr::Int(s("150")))])).unwrap();
    assert_eq!(r, Rule::Range { min: None, max: Some(Expr::Int(s("150"))) });
    let r = parse_rule(&list("range", vec![Arg::Named(s("min"), Expr::Other(s("-1.5")))])).unwrap();
    assert_eq!(r, Rule::Range { min: Some(Expr::Other(s("-1.5"))), max: None });
    assert_eq!(parse_rule(&list("range", vec![])), Err(RuleParseError::MissingBounds));
}

#[test]
fn parse_string_rules() {
    assert_eq!(parse_rule(&list("contains", vec![str_arg("ab")])), Ok(Rule::Contains(s("ab"))));
    assert_eq!(parse_rule(&list("prefix", vec![str_arg("ab")])), Ok(Rule::Prefix(s("ab"))));
    assert_eq!(parse_rule(&list("suffix", vec![str_arg("ab")])), Ok(Rule::Suffix(s("ab"))));
    assert_eq!(parse_rule(&list("suffix", vec![str_arg("")])), Err(RuleParseError::EmptyString));
    assert_eq!(parse_rule(&list("prefix", vec![str_arg("a"), str_arg("b")])), Err(RuleParseError::ExpectedString));
    assert_eq!(
        parse_rule(&list("contains", vec![Arg::Positional(Expr::Int(s("1")))])),
        Err(RuleParseError::ExpectedString)
    );
}

#[test]
fn parse_pattern_rules() {
    assert_eq!(parse_rule(&list("pattern", vec![str_arg("^[a-z]+$")])), Ok(Rule::Pattern(s("^[a-z]+$"))));
    assert_eq!(parse_rule(&list("pattern", vec![str_arg("(unclosed")])), Err(RuleParseError::InvalidPattern));
    assert_eq!(parse_rule(&list("pattern", vec![str_arg("")])), Err(RuleParseError::EmptyString));
}

#[test]
fn parse_custom_rules() {
    let path = Expr::Path(s("check_name"));
    assert_eq!(parse_rule(&list("custom", vec![Arg::Positional(Expr::Path(s("check_name")))])), Ok(Rule::Custom(path)));
    let closure = Expr::Closure(s("|v, _| Ok(())"));
    assert_eq!(
        parse_rule(&list("custom", vec![Arg::Positional(Expr::Closure(s("|v, _| Ok(())")))])),
        Ok(Rule::Custom(closure))
    );
    assert_eq!(
        parse_rule(&list("custom", vec![Arg::Positional(Expr::Int(s("1")))])),
        Err(RuleParseError::InvalidCustom)
    );
}

#[test]
fn digits_are_read_exactly() {
    assert_eq!(parse_usize("0"), Some(0));
    assert_eq!(parse_usize("150"), Some(150));
    assert_eq!(parse_usize(""), None);
    assert_eq!(parse_usize("1x"), None);
    assert_eq!(parse_usize(&usize::MAX.to_string()), Some(usize::MAX));
    assert_eq!(parse_usize(&format!("{}0", usize::MAX)), None);
}

#[test]
fn emitted_calls_fill_in_defaults() {
    assert_eq!(Rule::Length { min: None, max: Some(10) }.emit(), RuleEmit::Length(0, 10));
    assert_eq!(Rule::Length { min: Some(2), max: None }.emit(), RuleEmit::Length(2, usize::MAX));
    assert_eq!(
        Rule::Range { min: None, max: Some(Expr::Int(s("9"))) }.emit(),
        RuleEmit::Range(Bound::TypeMin, Bound::Given(Expr::Int(s("9"))))
    );
    assert_eq!(
        Rule::Range { min: Some(Expr::Int(s("1"))), max: None }.emit(),
        RuleEmit::Range(Bound::Given(Expr::Int(s("1"))), Bound::TypeMax)
    );
    assert_eq!(Rule::IpV4.emit(), RuleEmit::Ip(IpKind::V4));
    assert_eq!(Rule::Ip.emit(), RuleEmit::Ip(IpKind::Any));
    assert_eq!(Rule::Pattern(s("a+")).emit(), RuleEmit::Pattern(s("a+")));
}

#[test]
fn positions_survive_skipped_fields() {
    let shape = ShapeDesc {
        ident: s("T"),
        attrs: vec![],
        data: DataDesc::Struct(FieldsDesc::Unnamed(vec![
            FieldDesc { name: None, ty: s("u8"), annotations: vec![word("skip")] },
            FieldDesc { name: None, ty: s("String"), annotations: vec![word("ascii")] },
        ])),
    };
    match check_shape(&shape).unwrap().inner {
        InputKind::TupleStruct(fs) => {
            assert_eq!(fs.len(), 1);
            assert_eq!(fs[0].position, 1);
            assert_eq!(fs[0].ty, "String");
        }
        _ => panic!("expected a tuple"),
    }
}

#[test]
fn argument_messages_name_the_rule() {
    for (name, kind) in [
        ("ascii", RuleKind::Ascii),
        ("alphanumeric", RuleKind::Alphanumeric),
        ("email", RuleKind::Email),
        ("url", RuleKind::Url),
        ("ip", RuleKind::Ip),
        ("ipv4", RuleKind::IpV4),
        ("ipv6", RuleKind::IpV6),
        ("credit_card", RuleKind::CreditCard),
        ("phone_number", RuleKind::PhoneNumber),
    ] {
        let e = parse_rule(&list(name, vec![Arg::Positional(Expr::Int(s("1")))])).unwrap_err();
        assert_eq!(e, RuleParseError::UnexpectedArgs(kind));
        assert_eq!(e.message(), format!("{name} does not accept any args"));
    }
    for (name, kind) in [
        ("length", RuleKind::Length),
        ("range", RuleKind::Range),
        ("contains", RuleKind::Contains),
        ("prefix", RuleKind::Prefix),
        ("suffix", RuleKind::Suffix),
        ("pattern", RuleKind::Pattern),
        ("custom", RuleKind::Custom),
    ] {
        let e = parse_rule(&word(name)).unwrap_err();
        assert_eq!(e, RuleParseError::ExpectedArgs(kind));
        assert_eq!(e.message(), format!("{name} expects arguments"));
    }
    assert_eq!(
        FieldError::InvalidRule(RuleParseError::UnexpectedArgs(RuleKind::Email)).message(),
        "email does not accept any args"
    );
    assert_eq!(RuleParseError::MinNotBelowMax.message(), "min must be smaller than max");
}

#[test]
fn union_error_is_handed_back() {
    let mut errors = vec![];
    let r = parse_input_kind(&DataDesc::Union, &mut errors);
    assert_eq!(
        r.unwrap_err(),
        DefinitionError { at: Location::Container, error: FieldError::UnionNotSupported }
    );
    assert!(errors.is_empty());
    let mut errors = vec![];
    let r = parse_input_kind(&DataDesc::Struct(FieldsDesc::Named(vec![field("a", "u8", vec![])])), &mut errors);
    assert!(r.is_ok());
    assert_eq!(
        errors,
        vec![DefinitionError { at: Location::Field { variant: None, index: 0 }, error: FieldError::NoValidation }]
    );
}
