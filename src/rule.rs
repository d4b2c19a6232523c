//! The closed catalog of rule kinds and the parser of one rule.
use vstd::prelude::*;
use crate::annotation::{Arg, Expr, Meta, str_eq};
use crate::pattern::{pattern_compiles, pattern_is_valid};

verus! {

/// The kind of a rule. Each kind has a fixed priority, which orders the
/// rules of a field and decides when two rules are the same rule.
#[derive(Clone, Copy, Debug, PartialEq, Eq, Structural)]
pub enum RuleKind {
    Ascii,
    Alphanumeric,
    Email,
    Url,
    Ip,
    IpV4,
    IpV6,
    CreditCard,
    PhoneNumber,
    Length,
    Range,
    Contains,
    Prefix,
    Suffix,
    Pattern,
    Custom,
}

impl RuleKind {
    pub open spec fn spec_priority(self) -> u8 {
        match self {
            RuleKind::Ascii => 0,
            RuleKind::Alphanumeric => 1,
            RuleKind::Email => 2,
            RuleKind::Url => 3,
            RuleKind::Ip => 4,
            RuleKind::IpV4 => 5,
            RuleKind::IpV6 => 6,
            RuleKind::CreditCard => 7,
            RuleKind::PhoneNumber => 8,
            RuleKind::Length => 9,
            RuleKind::Range => 10,
            RuleKind::Contains => 11,
            RuleKind::Prefix => 12,
            RuleKind::Suffix => 13,
            RuleKind::Pattern => 14,
            RuleKind::Custom => 15,
        }
    }

    #[verifier::when_used_as_spec(spec_priority)]
    pub fn priority(self) -> (r: u8)
        ensures
            r == self.spec_priority(),
    {
        match self {
            RuleKind::Ascii => 0,
            RuleKind::Alphanumeric => 1,
            RuleKind::Email => 2,
            RuleKind::Url => 3,
            RuleKind::Ip => 4,
            RuleKind::IpV4 => 5,
            RuleKind::IpV6 => 6,
            RuleKind::CreditCard => 7,
            RuleKind::PhoneNumber => 8,
            RuleKind::Length => 9,
            RuleKind::Range => 10,
            RuleKind::Contains => 11,
            RuleKind::Prefix => 12,
            RuleKind::Suffix => 13,
            RuleKind::Pattern => 14,
            RuleKind::Custom => 15,
        }
    }

    pub open spec fn spec_name(self) -> Seq<char> {
        match self {
            RuleKind::Ascii => "ascii"@,
            RuleKind::Alphanumeric => "alphanumeric"@,
            RuleKind::Email => "email"@,
            RuleKind::Url => "url"@,
            RuleKind::Ip => "ip"@,
            RuleKind::IpV4 => "ipv4"@,
            RuleKind::IpV6 => "ipv6"@,
            RuleKind::CreditCard => "credit_card"@,
            RuleKind::PhoneNumber => "phone_number"@,
            RuleKind::Length => "length"@,
            RuleKind::Range => "range"@,
            RuleKind::Contains => "contains"@,
            RuleKind::Prefix => "prefix"@,
            RuleKind::Suffix => "suffix"@,
            RuleKind::Pattern => "pattern"@,
            RuleKind::Custom => "custom"@,
        }
    }

    /// The name under which the kind is written in an annotation.
    pub fn name(self) -> (r: &'static str)
        ensures
            r@ == self.spec_name(),
    {
        match self {
            RuleKind::Ascii => "ascii",
            RuleKind::Alphanumeric => "alphanumeric",
            RuleKind::Email => "email",
            RuleKind::Url => "url",
            RuleKind::Ip => "ip",
            RuleKind::IpV4 => "ipv4",
            RuleKind::IpV6 => "ipv6",
            RuleKind::CreditCard => "credit_card",
            RuleKind::PhoneNumber => "phone_number",
            RuleKind::Length => "length",
            RuleKind::Range => "range",
            RuleKind::Contains => "contains",
            RuleKind::Prefix => "prefix",
            RuleKind::Suffix => "suffix",
            RuleKind::Pattern => "pattern",
            RuleKind::Custom => "custom",
        }
    }

    /// Whether rules of this kind take a parenthesized argument list.
    pub open spec fn takes_args(self) -> bool {
        self.spec_priority() >= 9
    }
}

/// The kind that an annotation name denotes, if any.
pub open spec fn kind_named(n: Seq<char>) -> Option<RuleKind> {
    if n == "ascii"@ {
        Some(RuleKind::Ascii)
    } else if n == "alphanumeric"@ {
        Some(RuleKind::Alphanumeric)
    } else if n == "email"@ {
        Some(RuleKind::Email)
    } else if n == "url"@ {
        Some(RuleKind::Url)
    } else if n == "ip"@ {
        Some(RuleKind::Ip)
    } else if n == "ipv4"@ {
        Some(RuleKind::IpV4)
    } else if n == "ipv6"@ {
        Some(RuleKind::IpV6)
    } else if n == "credit_card"@ {
        Some(RuleKind::CreditCard)
    } else if n == "phone_number"@ {
        Some(RuleKind::PhoneNumber)
    } else if n == "length"@ {
        Some(RuleKind::Length)
    } else if n == "range"@ {
        Some(RuleKind::Range)
    } else if n == "contains"@ {
        Some(RuleKind::Contains)
    } else if n == "prefix"@ {
        Some(RuleKind::Prefix)
    } else if n == "suffix"@ {
        Some(RuleKind::Suffix)
    } else if n == "pattern"@ {
        Some(RuleKind::Pattern)
    } else if n == "custom"@ {
        Some(RuleKind::Custom)
    } else {
        None
    }
}

/// The kind that an annotation name denotes, if any.
pub fn kind_from_name(n: &str) -> (r: Option<RuleKind>)
    ensures
        r == kind_named(n@),
{
    if str_eq(n, "ascii") {
        Some(RuleKind::Ascii)
    } else if str_eq(n, "alphanumeric") {
        Some(RuleKind::Alphanumeric)
    } else if str_eq(n, "email") {
        Some(RuleKind::Email)
    } else if str_eq(n, "url") {
        Some(RuleKind::Url)
    } else if str_eq(n, "ip") {
        Some(RuleKind::Ip)
    } else if str_eq(n, "ipv4") {
        Some(RuleKind::IpV4)
    } else if str_eq(n, "ipv6") {
        Some(RuleKind::IpV6)
    } else if str_eq(n, "credit_card") {
        Some(RuleKind::CreditCard)
    } else if str_eq(n, "phone_number") {
        Some(RuleKind::PhoneNumber)
    } else if str_eq(n, "length") {
        Some(RuleKind::Length)
    } else if str_eq(n, "range") {
        Some(RuleKind::Range)
    } else if str_eq(n, "contains") {
        Some(RuleKind::Contains)
    } else if str_eq(n, "prefix") {
        Some(RuleKind::Prefix)
    } else if str_eq(n, "suffix") {
        Some(RuleKind::Suffix)
    } else if str_eq(n, "pattern") {
        Some(RuleKind::Pattern)
    } else if str_eq(n, "custom") {
        Some(RuleKind::Custom)
    } else {
        None
    }
}

/// One rule with its arguments.
#[derive(Debug, PartialEq, Eq)]
#[allow(inconsistent_fields)]
pub enum Rule {
    Ascii,
    Alphanumeric,
    Email,
    Url,
    Ip,
    IpV4,
    IpV6,
    CreditCard,
    PhoneNumber,
    Length { min: Option<usize>, max: Option<usize> },
    Range { min: Option<Expr>, max: Option<Expr> },
    Contains(String),
    Prefix(String),
    Suffix(String),
    Pattern(String),
    Custom(Expr),
}

impl Rule {
    pub open spec fn spec_kind(&self) -> RuleKind {
        match self {
            Rule::Ascii => RuleKind::Ascii,
            Rule::Alphanumeric => RuleKind::Alphanumeric,
            Rule::Email => RuleKind::Email,
            Rule::Url => RuleKind::Url,
            Rule::Ip => RuleKind::Ip,
            Rule::IpV4 => RuleKind::IpV4,
            Rule::IpV6 => RuleKind::IpV6,
            Rule::CreditCard => RuleKind::CreditCard,
            Rule::PhoneNumber => RuleKind::PhoneNumber,
            Rule::Length { .. } => RuleKind::Length,
            Rule::Range { .. } => RuleKind::Range,
            Rule::Contains(_) => RuleKind::Contains,
            Rule::Prefix(_) => RuleKind::Prefix,
            Rule::Suffix(_) => RuleKind::Suffix,
            Rule::Pattern(_) => RuleKind::Pattern,
            Rule::Custom(_) => RuleKind::Custom,
        }
    }

    #[verifier::when_used_as_spec(spec_kind)]
    pub fn kind(&self) -> (r: RuleKind)
        ensures
            r == self.spec_kind(),
    {
        match self {
            Rule::Ascii => RuleKind::Ascii,
            Rule::Alphanumeric => RuleKind::Alphanumeric,
            Rule::Email => RuleKind::Email,
            Rule::Url => RuleKind::Url,
            Rule::Ip => RuleKind::Ip,
            Rule::IpV4 => RuleKind::IpV4,
            Rule::IpV6 => RuleKind::IpV6,
            Rule::CreditCard => RuleKind::CreditCard,
            Rule::PhoneNumber => RuleKind::PhoneNumber,
            Rule::Length { .. } => RuleKind::Length,
            Rule::Range { .. } => RuleKind::Range,
            Rule::Contains(_) => RuleKind::Contains,
            Rule::Prefix(_) => RuleKind::Prefix,
            Rule::Suffix(_) => RuleKind::Suffix,
            Rule::Pattern(_) => RuleKind::Pattern,
            Rule::Custom(_) => RuleKind::Custom,
        }
    }

    /// The name of the rule's kind, as used in messages.
    pub fn name(&self) -> (r: &'static str)
        ensures
            r@ == self.spec_kind().spec_name(),
    {
        self.kind().name()
    }

    /// A copy equal to `self`.
    pub fn copy(&self) -> (r: Rule)
        ensures
            r == *self,
    {
        match self {
            Rule::Ascii => Rule::Ascii,
            Rule::Alphanumeric => Rule::Alphanumeric,
            Rule::Email => Rule::Email,
            Rule::Url => Rule::Url,
            Rule::Ip => Rule::Ip,
            Rule::IpV4 => Rule::IpV4,
            Rule::IpV6 => Rule::IpV6,
            Rule::CreditCard => Rule::CreditCard,
            Rule::PhoneNumber => Rule::PhoneNumber,
            Rule::Length { min, max } => Rule::Length { min: *min, max: *max },
            Rule::Range { min, max } => Rule::Range {
                min: match min {
                    Some(e) => Some(e.copy()),
                    None => None,
                },
                max: match max {
                    Some(e) => Some(e.copy()),
                    None => None,
                },
            },
            Rule::Contains(s) => Rule::Contains(s.clone()),
            Rule::Prefix(s) => Rule::Prefix(s.clone()),
            Rule::Suffix(s) => Rule::Suffix(s.clone()),
            Rule::Pattern(s) => Rule::Pattern(s.clone()),
            Rule::Custom(e) => Rule::Custom(e.copy()),
        }
    }

    /// Two rules are the same rule when their kinds match, whatever their
    /// arguments.
    pub fn same_rule(&self, other: &Rule) -> (r: bool)
        ensures
            r == (self.spec_kind() == other.spec_kind()),
            r == (self.spec_kind().spec_priority() == other.spec_kind().spec_priority()),
    {
        self.kind().priority() == other.kind().priority()
    }
}

/// Why one annotation item is not a well-formed rule.
#[derive(Clone, Copy, Debug, PartialEq, Eq, Structural)]
pub enum RuleParseError {
    /// The name is no rule kind.
    Unrecognized,
    /// A kind without arguments was given some.
    UnexpectedArgs(RuleKind),
    /// A kind with arguments was given none.
    ExpectedArgs(RuleKind),
    /// `min` or `max` appears twice.
    DuplicateBound,
    /// An argument other than `min = ..` or `max = ..`.
    UnexpectedArg,
    /// Neither `min` nor `max` is given.
    MissingBounds,
    /// A length bound is not an integer literal that fits in `usize`.
    InvalidUsize,
    /// Both length bounds are given and `min` is not below `max`.
    MinNotBelowMax,
    /// The arguments are not exactly one string literal.
    ExpectedString,
    /// The string literal is empty.
    EmptyString,
    /// The pattern does not compile.
    InvalidPattern,
    /// The argument of `custom` is neither a closure nor a path.
    InvalidCustom,
}

pub open spec fn parse_error_message(e: RuleParseError) -> Seq<char> {
    match e {
        RuleParseError::Unrecognized => "unrecognized rule"@,
        RuleParseError::UnexpectedArgs(k) => k.spec_name() + " does not accept any args"@,
        RuleParseError::ExpectedArgs(k) => k.spec_name() + " expects arguments"@,
        RuleParseError::DuplicateBound => "duplicate attribute"@,
        RuleParseError::UnexpectedArg => "unexpected argument, expected `min` or `max`"@,
        RuleParseError::MissingBounds => "please provide at least one of: `min`, `max`"@,
        RuleParseError::InvalidUsize => "value must be a valid `usize`"@,
        RuleParseError::MinNotBelowMax => "min must be smaller than max"@,
        RuleParseError::ExpectedString => "expected a string literal"@,
        RuleParseError::EmptyString => "string must not be empty"@,
        RuleParseError::InvalidPattern => "invalid regex"@,
        RuleParseError::InvalidCustom => "custom rule must be a closure or a path to a function"@,
    }
}

/// `name`, then `suffix`.
fn named_message(name: &str, suffix: &str) -> (r: String)
    ensures
        r@ == name@ + suffix@,
{
    let mut r = String::from_str(name);
    r.append(suffix);
    r
}

impl RuleParseError {
    /// The message reported for this error; it names the rule's kind where
    /// the error carries one.
    pub fn message(&self) -> (r: String)
        ensures
            r@ == parse_error_message(*self),
    {
        match self {
            RuleParseError::Unrecognized => String::from_str("unrecognized rule"),
            RuleParseError::UnexpectedArgs(k) => named_message(k.name(), " does not accept any args"),
            RuleParseError::ExpectedArgs(k) => named_message(k.name(), " expects arguments"),
            RuleParseError::DuplicateBound => String::from_str("duplicate attribute"),
            RuleParseError::UnexpectedArg => String::from_str(
                "unexpected argument, expected `min` or `max`",
            ),
            RuleParseError::MissingBounds => String::from_str(
                "please provide at least one of: `min`, `max`",
            ),
            RuleParseError::InvalidUsize => String::from_str("value must be a valid `usize`"),
            RuleParseError::MinNotBelowMax => String::from_str("min must be smaller than max"),
            RuleParseError::ExpectedString => String::from_str("expected a string literal"),
            RuleParseError::EmptyString => String::from_str("string must not be empty"),
            RuleParseError::InvalidPattern => String::from_str("invalid regex"),
            RuleParseError::InvalidCustom => String::from_str(
                "custom rule must be a closure or a path to a function",
            ),
        }
    }
}

pub open spec fn is_digit(c: char) -> bool {
    '0' <= c <= '9'
}

/// The number that a string of decimal digits denotes.
pub open spec fn digits_value(s: Seq<char>) -> int
    decreases s.len(),
{
    if s.len() == 0 {
        0
    } else {
        digits_value(s.drop_last()) * 10 + (s.last() as int - '0' as int)
    }
}

/// The value of a non-empty string of decimal digits, when it fits in `usize`.
pub open spec fn usize_of_digits(s: Seq<char>) -> Option<usize> {
    if s.len() > 0 && (forall|i: int| 0 <= i < s.len() ==> is_digit(#[trigger] s[i]))
        && digits_value(s) <= usize::MAX {
        Some(digits_value(s) as usize)
    } else {
        None
    }
}

proof fn lemma_digits_value_nonneg(s: Seq<char>)
    requires
        forall|i: int| 0 <= i < s.len() ==> is_digit(#[trigger] s[i]),
    ensures
        digits_value(s) >= 0,
    decreases s.len(),
{
    if s.len() > 0 {
        lemma_digits_value_nonneg(s.drop_last());
    }
}

/// Reads a non-empty string of decimal digits as a `usize`.
pub fn parse_usize(s: &str) -> (r: Option<usize>)
    ensures
        r == usize_of_digits(s@),
{
    let n = s.unicode_len();
    if n == 0 {
        return None;
    }
    let mut v: usize = 0;
    let mut i: usize = 0;
    while i < n
        invariant
            n == s@.len(),
            i <= n,
            v as int == digits_value(s@.subrange(0, i as int)),
            forall|j: int| 0 <= j < i ==> is_digit(#[trigger] s@[j]),
        decreases n - i,
    {
        let c = s.get_char(i);
        assert(s@.subrange(0, i as int + 1).drop_last() =~= s@.subrange(0, i as int));
        if !('0' <= c && c <= '9') {
            assert(!is_digit(s@[i as int]));
            return None;
        }
        let d: usize = (c as u32 - '0' as u32) as usize;
        if v > (usize::MAX - d) / 10 {
            proof {
                if forall|j: int| 0 <= j < s@.len() ==> is_digit(#[trigger] s@[j]) {
                    lemma_digits_prefix_grows(s@, i as int + 1);
                    assert(v * 10 + d > usize::MAX) by (nonlinear_arith)
                        requires v > (usize::MAX - d) / 10, d <= 9;
                }
            }
            return None;
        }
        assert(v * 10 + d <= usize::MAX) by (nonlinear_arith)
            requires v <= (usize::MAX - d) / 10, d <= 9;
        v = v * 10 + d;
        i = i + 1;
    }
    assert(s@.subrange(0, n as int) =~= s@);
    Some(v)
}

/// A prefix of a digit string denotes no more than the whole string.
proof fn lemma_digits_prefix_grows(s: Seq<char>, k: int)
    requires
        0 <= k <= s.len(),
        forall|i: int| 0 <= i < s.len() ==> is_digit(#[trigger] s[i]),
    ensures
        digits_value(s.subrange(0, k)) <= digits_value(s),
    decreases s.len() - k,
{
    if k < s.len() {
        lemma_digits_prefix_grows(s, k + 1);
        let p = s.subrange(0, k + 1);
        assert(p.drop_last() =~= s.subrange(0, k));
        lemma_digits_value_nonneg(s.subrange(0, k));
        assert(is_digit(p.last()));
    } else {
        assert(s.subrange(0, k) =~= s);
    }
}

/// The `min` and `max` arguments seen so far, or the first error among them.
pub type Bounds = Result<(Option<Expr>, Option<Expr>), RuleParseError>;

pub open spec fn bounds_step(acc: Bounds, a: Arg) -> Bounds {
    match acc {
        Err(e) => Err(e),
        Ok((mn, mx)) => match a {
            Arg::Named(n, v) => if n@ == "min"@ {
                if mn is Some {
                    Err(RuleParseError::DuplicateBound)
                } else {
                    Ok((Some(v), mx))
                }
            } else if n@ == "max"@ {
                if mx is Some {
                    Err(RuleParseError::DuplicateBound)
                } else {
                    Ok((mn, Some(v)))
                }
            } else {
                Err(RuleParseError::UnexpectedArg)
            },
            Arg::Positional(_) => Err(RuleParseError::UnexpectedArg),
        },
    }
}

/// The bounds named by an argument list, read from left to right.
pub open spec fn collect_bounds(args: Seq<Arg>) -> Bounds
    decreases args.len(),
{
    if args.len() == 0 {
        Ok((None, None))
    } else {
        bounds_step(collect_bounds(args.drop_last()), args.last())
    }
}

/// The bounds of a `length` or `range` rule: at least one must be given.
pub open spec fn bounds_of(args: Seq<Arg>) -> Bounds {
    match collect_bounds(args) {
        Ok((None, None)) => Err(RuleParseError::MissingBounds),
        other => other,
    }
}

/// A `length` bound as a number.
pub open spec fn length_bound(b: Option<Expr>) -> Result<Option<usize>, RuleParseError> {
    match b {
        None => Ok(None),
        Some(Expr::Int(d)) => match usize_of_digits(d@) {
            Some(v) => Ok(Some(v)),
            None => Err(RuleParseError::InvalidUsize),
        },
        Some(_) => Err(RuleParseError::InvalidUsize),
    }
}

pub open spec fn length_rule(args: Seq<Arg>) -> Result<Rule, RuleParseError> {
    match bounds_of(args) {
        Err(e) => Err(e),
        Ok((mn, mx)) => match (length_bound(mn), length_bound(mx)) {
            (Err(e), _) => Err(e),
            (_, Err(e)) => Err(e),
            (Ok(a), Ok(b)) => if a is Some && b is Some && a->0 >= b->0 {
                Err(RuleParseError::MinNotBelowMax)
            } else {
                Ok(Rule::Length { min: a, max: b })
            },
        },
    }
}

/// The single non-empty string literal of an argument list.
pub open spec fn string_arg(args: Seq<Arg>) -> Result<String, RuleParseError> {
    if args.len() == 1 && args[0] is Positional && args[0]->Positional_0 is Str {
        let s = args[0]->Positional_0->Str_0;
        if s@.len() == 0 {
            Err(RuleParseError::EmptyString)
        } else {
            Ok(s)
        }
    } else {
        Err(RuleParseError::ExpectedString)
    }
}

pub open spec fn custom_rule(args: Seq<Arg>) -> Result<Rule, RuleParseError> {
    if args.len() == 1 && args[0] is Positional && (args[0]->Positional_0 is Path
        || args[0]->Positional_0 is Closure) {
        Ok(Rule::Custom(args[0]->Positional_0))
    } else {
        Err(RuleParseError::InvalidCustom)
    }
}

/// The rule of a kind that takes an argument list.
pub open spec fn rule_with_args(k: RuleKind, args: Seq<Arg>) -> Result<Rule, RuleParseError> {
    match k {
        RuleKind::Length => length_rule(args),
        RuleKind::Range => match bounds_of(args) {
            Ok((mn, mx)) => Ok(Rule::Range { min: mn, max: mx }),
            Err(e) => Err(e),
        },
        RuleKind::Contains => match string_arg(args) {
            Ok(s) => Ok(Rule::Contains(s)),
            Err(e) => Err(e),
        },
        RuleKind::Prefix => match string_arg(args) {
            Ok(s) => Ok(Rule::Prefix(s)),
            Err(e) => Err(e),
        },
        RuleKind::Suffix => match string_arg(args) {
            Ok(s) => Ok(Rule::Suffix(s)),
            Err(e) => Err(e),
        },
        RuleKind::Pattern => match string_arg(args) {
            Ok(s) => if pattern_compiles(s@) {
                Ok(Rule::Pattern(s))
            } else {
                Err(RuleParseError::InvalidPattern)
            },
            Err(e) => Err(e),
        },
        RuleKind::Custom => custom_rule(args),
        _ => Err(RuleParseError::Unrecognized),
    }
}

/// The rule of a kind that takes no arguments.
pub open spec fn bare_rule(k: RuleKind) -> Rule {
    match k {
        RuleKind::Ascii => Rule::Ascii,
        RuleKind::Alphanumeric => Rule::Alphanumeric,
        RuleKind::Email => Rule::Email,
        RuleKind::Url => Rule::Url,
        RuleKind::Ip => Rule::Ip,
        RuleKind::IpV4 => Rule::IpV4,
        RuleKind::IpV6 => Rule::IpV6,
        RuleKind::CreditCard => Rule::CreditCard,
        _ => Rule::PhoneNumber,
    }
}

/// The rule that an annotation item denotes, or why it denotes none.
pub open spec fn rule_of(m: Meta) -> Result<Rule, RuleParseError> {
    match kind_named(m.spec_name()) {
        None => Err(RuleParseError::Unrecognized),
        Some(k) => if !k.takes_args() {
            if m is Word {
                Ok(bare_rule(k))
            } else {
                Err(RuleParseError::UnexpectedArgs(k))
            }
        } else {
            match m {
                Meta::List(_, args) => rule_with_args(k, args@),
                _ => Err(RuleParseError::ExpectedArgs(k)),
            }
        },
    }
}

proof fn lemma_bounds_error_stays(args: Seq<Arg>, k: int)
    requires
        0 <= k <= args.len(),
        collect_bounds(args.subrange(0, k)) is Err,
    ensures
        collect_bounds(args) == collect_bounds(args.subrange(0, k)),
    decreases args.len() - k,
{
    if k < args.len() {
        assert(args.subrange(0, k + 1).drop_last() =~= args.subrange(0, k));
        lemma_bounds_error_stays(args, k + 1);
    } else {
        assert(args.subrange(0, k) =~= args);
    }
}

fn parse_bounds(args: &Vec<Arg>) -> (r: Bounds)
    ensures
        r == bounds_of(args@),
{
    let mut mn: Option<Expr> = None;
    let mut mx: Option<Expr> = None;
    let mut i: usize = 0;
    while i < args.len()
        invariant
            i <= args@.len(),
            collect_bounds(args@.subrange(0, i as int)) == Ok::<_, RuleParseError>((mn, mx)),
        decreases args@.len() - i,
    {
        proof {
            assert(args@.subrange(0, i as int + 1).drop_last() =~= args@.subrange(0, i as int));
        }
        let step: Bounds = match &args[i] {
            Arg::Named(n, v) => if str_eq(n.as_str(), "min") {
                if mn.is_some() {
                    Err(RuleParseError::DuplicateBound)
                } else {
                    Ok((Some(v.copy()), mx))
                }
            } else if str_eq(n.as_str(), "max") {
                if mx.is_some() {
                    Err(RuleParseError::DuplicateBound)
                } else {
                    Ok((mn, Some(v.copy())))
                }
            } else {
                Err(RuleParseError::UnexpectedArg)
            },
            Arg::Positional(_) => Err(RuleParseError::UnexpectedArg),
        };
        match step {
            Ok((a, b)) => {
                mn = a;
                mx = b;
            },
            Err(e) => {
                proof {
                    lemma_bounds_error_stays(args@, i as int + 1);
                }
                return Err(e);
            },
        }
        i = i + 1;
    }
    proof {
        assert(args@.subrange(0, args@.len() as int) =~= args@);
    }
    match (mn, mx) {
        (None, None) => Err(RuleParseError::MissingBounds),
        (a, b) => Ok((a, b)),
    }
}

fn parse_length_bound(b: Option<Expr>) -> (r: Result<Option<usize>, RuleParseError>)
    ensures
        r == length_bound(b),
{
    match b {
        None => Ok(None),
        Some(Expr::Int(d)) => match parse_usize(d.as_str()) {
            Some(v) => Ok(Some(v)),
            None => Err(RuleParseError::InvalidUsize),
        },
        Some(_) => Err(RuleParseError::InvalidUsize),
    }
}

fn parse_length(args: &Vec<Arg>) -> (r: Result<Rule, RuleParseError>)
    ensures
        r == length_rule(args@),
{
    match parse_bounds(args) {
        Err(e) => Err(e),
        Ok((mn, mx)) => match (parse_length_bound(mn), parse_length_bound(mx)) {
            (Err(e), _) => Err(e),
            (_, Err(e)) => Err(e),
            (Ok(a), Ok(b)) => {
                let bad = match (a, b) {
                    (Some(x), Some(y)) => x >= y,
                    _ => false,
                };
                if bad {
                    Err(RuleParseError::MinNotBelowMax)
                } else {
                    Ok(Rule::Length { min: a, max: b })
                }
            },
        },
    }
}

fn parse_string_arg(args: &Vec<Arg>) -> (r: Result<String, RuleParseError>)
    ensures
        r == string_arg(args@),
{
    if args.len() == 1 {
        if let Arg::Positional(Expr::Str(s)) = &args[0] {
            if s.as_str().unicode_len() == 0 {
                return Err(RuleParseError::EmptyString);
            }
            return Ok(s.clone());
        }
    }
    Err(RuleParseError::ExpectedString)
}

fn parse_custom(args: &Vec<Arg>) -> (r: Result<Rule, RuleParseError>)
    ensures
        r == custom_rule(args@),
{
    if args.len() == 1 {
        if let Arg::Positional(e) = &args[0] {
            match e {
                Expr::Path(_) | Expr::Closure(_) => return Ok(Rule::Custom(e.copy())),
                _ => {},
            }
        }
    }
    Err(RuleParseError::InvalidCustom)
}

fn parse_with_args(k: RuleKind, args: &Vec<Arg>) -> (r: Result<Rule, RuleParseError>)
    ensures
        r == rule_with_args(k, args@),
{
    match k {
        RuleKind::Length => parse_length(args),
        RuleKind::Range => match parse_bounds(args) {
            Ok((mn, mx)) => Ok(Rule::Range { min: mn, max: mx }),
            Err(e) => Err(e),
        },
        RuleKind::Contains => match parse_string_arg(args) {
            Ok(s) => Ok(Rule::Contains(s)),
            Err(e) => Err(e),
        },
        RuleKind::Prefix => match parse_string_arg(args) {
            Ok(s) => Ok(Rule::Prefix(s)),
            Err(e) => Err(e),
        },
        RuleKind::Suffix => match parse_string_arg(args) {
            Ok(s) => Ok(Rule::Suffix(s)),
            Err(e) => Err(e),
        },
        RuleKind::Pattern => match parse_string_arg(args) {
            Ok(s) => if pattern_is_valid(s.as_str()) {
                Ok(Rule::Pattern(s))
            } else {
                Err(RuleParseError::InvalidPattern)
            },
            Err(e) => Err(e),
        },
        RuleKind::Custom => parse_custom(args),
        _ => Err(RuleParseError::Unrecognized),
    }
}

/// Parses one annotation item as a rule: the name picks the kind, and the
/// arguments must have that kind's shape. A pattern is compiled here, so a
/// pattern that does not compile is an error of the definition rather than
/// of its first use.
pub fn parse_rule(m: &Meta) -> (r: Result<Rule, RuleParseError>)
    ensures
        r == rule_of(*m),
        r matches Ok(rule) ==> kind_named(m.spec_name()) == Some(rule.spec_kind()),
{
    let k = match kind_from_name(m.name()) {
        None => return Err(RuleParseError::Unrecognized),
        Some(k) => k,
    };
    if k.priority() < 9 {
        if let Meta::Word(_) = m {
            Ok(match k {
                RuleKind::Ascii => Rule::Ascii,
                RuleKind::Alphanumeric => Rule::Alphanumeric,
                RuleKind::Email => Rule::Email,
                RuleKind::Url => Rule::Url,
                RuleKind::Ip => Rule::Ip,
                RuleKind::IpV4 => Rule::IpV4,
                RuleKind::IpV6 => Rule::IpV6,
                RuleKind::CreditCard => Rule::CreditCard,
                _ => Rule::PhoneNumber,
            })
        } else {
            Err(RuleParseError::UnexpectedArgs(k))
        }
    } else {
        match m {
            Meta::List(_, args) => parse_with_args(k, args),
            _ => Err(RuleParseError::ExpectedArgs(k)),
        }
    }
}

/// Which addresses an `ip` rule admits.
#[derive(Clone, Copy, Debug, PartialEq, Eq, Structural)]
pub enum IpKind {
    Any,
    V4,
    V6,
}

/// One bound handed to the `range` evaluator.
#[derive(Debug, PartialEq, Eq)]
pub enum Bound {
    /// The expression written in the annotation.
    Given(Expr),
    /// The least value of the field's type.
    TypeMin,
    /// The greatest value of the field's type.
    TypeMax,
}

/// The call of a rule's evaluator, with the arguments it is handed.
#[derive(Debug, PartialEq, Eq)]
pub enum RuleEmit {
    Ascii,
    Alphanumeric,
    Email,
    Url,
    Ip(IpKind),
    CreditCard,
    PhoneNumber,
    /// A length bound left out is 0 below and `usize::MAX` above.
    Length(usize, usize),
    Range(Bound, Bound),
    Contains(String),
    Prefix(String),
    Suffix(String),
    Pattern(String),
    /// The user's evaluator, also handed the context.
    Custom(Expr),
}

pub open spec fn bound_of(b: Option<Expr>, low: bool) -> Bound {
    match b {
        Some(e) => Bound::Given(e),
        None => if low {
            Bound::TypeMin
        } else {
            Bound::TypeMax
        },
    }
}

/// The evaluator call of a rule.
pub open spec fn emit_spec(r: Rule) -> RuleEmit {
    match r {
        Rule::Ascii => RuleEmit::Ascii,
        Rule::Alphanumeric => RuleEmit::Alphanumeric,
        Rule::Email => RuleEmit::Email,
        Rule::Url => RuleEmit::Url,
        Rule::Ip => RuleEmit::Ip(IpKind::Any),
        Rule::IpV4 => RuleEmit::Ip(IpKind::V4),
        Rule::IpV6 => RuleEmit::Ip(IpKind::V6),
        Rule::CreditCard => RuleEmit::CreditCard,
        Rule::PhoneNumber => RuleEmit::PhoneNumber,
        Rule::Length { min, max } => RuleEmit::Length(
            match min {
                Some(v) => v,
                None => 0,
            },
            match max {
                Some(v) => v,
                None => usize::MAX,
            },
        ),
        Rule::Range { min, max } => RuleEmit::Range(bound_of(min, true), bound_of(max, false)),
        Rule::Contains(s) => RuleEmit::Contains(s),
        Rule::Prefix(s) => RuleEmit::Prefix(s),
        Rule::Suffix(s) => RuleEmit::Suffix(s),
        Rule::Pattern(s) => RuleEmit::Pattern(s),
        Rule::Custom(e) => RuleEmit::Custom(e),
    }
}

fn emit_bound(b: &Option<Expr>, low: bool) -> (r: Bound)
    ensures
        r == bound_of(*b, low),
{
    match b {
        Some(e) => Bound::Given(e.copy()),
        None => if low {
            Bound::TypeMin
        } else {
            Bound::TypeMax
        },
    }
}

impl Rule {
    /// The evaluator call that checks this rule.
    pub fn emit(&self) -> (r: RuleEmit)
        ensures
            r == emit_spec(*self),
    {
        match self {
            Rule::Ascii => RuleEmit::Ascii,
            Rule::Alphanumeric => RuleEmit::Alphanumeric,
            Rule::Email => RuleEmit::Email,
            Rule::Url => RuleEmit::Url,
            Rule::Ip => RuleEmit::Ip(IpKind::Any),
            Rule::IpV4 => RuleEmit::Ip(IpKind::V4),
            Rule::IpV6 => RuleEmit::Ip(IpKind::V6),
            Rule::CreditCard => RuleEmit::CreditCard,
            Rule::PhoneNumber => RuleEmit::PhoneNumber,
            Rule::Length { min, max } => RuleEmit::Length(
                match min {
                    Some(v) => *v,
                    None => 0,
                },
                match max {
                    Some(v) => *v,
                    None => usize::MAX,
                },
            ),
            Rule::Range { min, max } => RuleEmit::Range(emit_bound(min, true), emit_bound(max, false)),
            Rule::Contains(s) => RuleEmit::Contains(s.clone()),
            Rule::Prefix(s) => RuleEmit::Prefix(s.clone()),
            Rule::Suffix(s) => RuleEmit::Suffix(s.clone()),
            Rule::Pattern(s) => RuleEmit::Pattern(s.clone()),
            Rule::Custom(e) => RuleEmit::Custom(e.copy()),
        }
    }
}

} // verus!
