use vstd::prelude::*;
use crate::lexer::{tokens_view, Token, TokenView};
use crate::number::{numeric_value_of, parse_integer};

verus! {

/// A classified value.
#[derive(Clone, Debug, PartialEq)]
pub enum LispVal {
    Atom(String),
    BeginExpr,
    EndExpr,
    Wildcard,
    Whitespace,
}

/// The mathematical model of a [`LispVal`].
pub enum ValueView {
    Atom(Seq<char>),
    BeginExpr,
    EndExpr,
    Wildcard,
    Whitespace,
}

impl View for LispVal {
    type V = ValueView;

    open spec fn view(&self) -> ValueView {
        match self {
            LispVal::Atom(s) => ValueView::Atom(s@),
            LispVal::BeginExpr => ValueView::BeginExpr,
            LispVal::EndExpr => ValueView::EndExpr,
            LispVal::Wildcard => ValueView::Wildcard,
            LispVal::Whitespace => ValueView::Whitespace,
        }
    }
}

impl LispVal {
    /// The integer an atom denotes, when its text is a base-10 signed integer
    /// that fits in an `i64`; `None` for a symbolic atom and for every other value.
    pub fn numeric_value(&self) -> (r: Option<i64>)
        ensures
            r == match self@ {
                ValueView::Atom(s) => numeric_value_of(s),
                _ => None,
            },
    {
        match self {
            LispVal::Atom(s) => parse_integer(s.as_str()),
            _ => None,
        }
    }

    /// Whether this value is an atom whose text is a numeric literal.
    pub fn is_numeric(&self) -> (r: bool)
        ensures
            r == (self@ is Atom && numeric_value_of(self@->Atom_0) is Some),
    {
        self.numeric_value().is_some()
    }
}

/// The models of a sequence of values.
pub open spec fn values_view(vs: Seq<LispVal>) -> Seq<ValueView> {
    vs.map_values(|v: LispVal| v@)
}

/// The value that a token stands for.
pub open spec fn classify(t: TokenView) -> ValueView {
    match t {
        TokenView::Char(c) => {
            if c == '(' {
                ValueView::BeginExpr
            } else if c == ')' {
                ValueView::EndExpr
            } else if c == ' ' || c == '\n' {
                ValueView::Whitespace
            } else {
                ValueView::Wildcard
            }
        },
        TokenView::Str(s) => ValueView::Atom(s),
    }
}

/// Each token classified, in order.
pub open spec fn classify_all(ts: Seq<TokenView>) -> Seq<ValueView> {
    ts.map_values(|t: TokenView| classify(t))
}

/// Classification is a function of the token alone: two equal tokens
/// classify to equal values.
pub proof fn lemma_classify_pure(a: TokenView, b: TokenView)
    requires
        a == b,
    ensures
        classify(a) == classify(b),
{
}

/// Classifies one token.
pub fn valueize(t: Token) -> (r: LispVal)
    ensures
        r@ == classify(t@),
{
    match t {
        Token::Char(c) => match c {
            '(' => LispVal::BeginExpr,
            ')' => LispVal::EndExpr,
            ' ' | '\n' => LispVal::Whitespace,
            _ => LispVal::Wildcard,
        },
        Token::Str(s) => LispVal::Atom(s),
    }
}

pub(crate) fn copy_token(t: &Token) -> (r: Token)
    ensures
        r@ == t@,
{
    match t {
        Token::Char(c) => Token::Char(*c),
        Token::Str(s) => Token::Str(s.clone()),
    }
}

pub(crate) fn copy_value(v: &LispVal) -> (r: LispVal)
    ensures
        r@ == v@,
{
    match v {
        LispVal::Atom(s) => LispVal::Atom(s.clone()),
        LispVal::BeginExpr => LispVal::BeginExpr,
        LispVal::EndExpr => LispVal::EndExpr,
        LispVal::Wildcard => LispVal::Wildcard,
        LispVal::Whitespace => LispVal::Whitespace,
    }
}

/// Classifies every token, keeping their order.
pub fn valueize_all(ts: Vec<Token>) -> (r: Vec<LispVal>)
    ensures
        values_view(r@) == classify_all(tokens_view(ts@)),
{
    let mut r: Vec<LispVal> = Vec::new();
    let mut i: usize = 0;
    while i < ts.len()
        invariant
            i <= ts@.len(),
            values_view(r@) == classify_all(tokens_view(ts@.take(i as int))),
        decreases ts@.len() - i,
    {
        let v = valueize(copy_token(&ts[i]));
        proof {
            assert(tokens_view(ts@.take(i + 1)) =~= tokens_view(ts@.take(i as int)).push(ts@[i as int]@));
            assert(classify_all(tokens_view(ts@.take(i + 1))) =~= classify_all(
                tokens_view(ts@.take(i as int)),
            ).push(v@));
            assert(values_view(r@.push(v)) =~= values_view(r@).push(v@));
        }
        r.push(v);
        i = i + 1;
    }
    assert(ts@.take(ts@.len() as int) =~= ts@);
    r
}

} // verus!
