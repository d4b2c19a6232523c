//! The annotation surface of a field, as a tokenizer hands it over.
use vstd::prelude::*;

verus! {

/// An argument expression, classified by its syntactic form.
#[derive(Debug, PartialEq, Eq)]
pub enum Expr {
    /// An integer literal, given by its base-10 digits.
    Int(String),
    /// A string literal, given by its value.
    Str(String),
    /// A path, such as the name of a function.
    Path(String),
    /// An inline closure, given by its source text.
    Closure(String),
    /// Any other expression, given by its source text.
    Other(String),
}

/// One argument inside the parentheses of a rule.
#[derive(Debug, PartialEq, Eq)]
pub enum Arg {
    /// `name = value`
    Named(String, Expr),
    /// A bare expression.
    Positional(Expr),
}

/// One comma-separated item of a field's annotation.
#[derive(Debug, PartialEq, Eq)]
pub enum Meta {
    /// A bare name: `ascii`, `dive`, `skip`.
    Word(String),
    /// A name followed by a parenthesized argument list: `length(min = 1)`.
    List(String, Vec<Arg>),
    /// A name followed by `=` and a value: `rename = "key"`.
    NameValue(String, Expr),
}

impl Expr {
    /// A copy equal to `self`.
    pub fn copy(&self) -> (r: Expr)
        ensures
            r == *self,
    {
        match self {
            Expr::Int(s) => Expr::Int(s.clone()),
            Expr::Str(s) => Expr::Str(s.clone()),
            Expr::Path(s) => Expr::Path(s.clone()),
            Expr::Closure(s) => Expr::Closure(s.clone()),
            Expr::Other(s) => Expr::Other(s.clone()),
        }
    }
}

impl Meta {
    pub open spec fn spec_name(&self) -> Seq<char> {
        match self {
            Meta::Word(n) => n@,
            Meta::List(n, _) => n@,
            Meta::NameValue(n, _) => n@,
        }
    }

    /// The name that the item starts with.
    pub fn name(&self) -> (r: &str)
        ensures
            r@ == self.spec_name(),
    {
        match self {
            Meta::Word(n) => n.as_str(),
            Meta::List(n, _) => n.as_str(),
            Meta::NameValue(n, _) => n.as_str(),
        }
    }
}

/// Whether two strings hold the same characters.
pub fn str_eq(a: &str, b: &str) -> (r: bool)
    ensures
        r == (a@ == b@),
{
    let n = a.unicode_len();
    if n != b.unicode_len() {
        return false;
    }
    let mut i: usize = 0;
    while i < n
        invariant
            n == a@.len(),
            n == b@.len(),
            i <= n,
            forall|j: int| 0 <= j < i ==> a@[j] == b@[j],
        decreases n - i,
    {
        if a.get_char(i) != b.get_char(i) {
            return false;
        }
        i = i + 1;
    }
    assert(a@ =~= b@);
    true
}

} // verus!
