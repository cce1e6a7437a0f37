use vstd::prelude::*;

verus! {

/// The value a literal token denotes.
#[derive(Debug, Clone, PartialEq)]
pub enum Literal {
    /// A number, by its decimal numeral.
    Number(String),
    String(String),
    Boolean(bool),
    Nil,
}

/// The mathematical value of a `Literal`.
pub enum LiteralValue {
    Number(Seq<char>),
    Str(Seq<char>),
    Boolean(bool),
    Nil,
}

impl View for Literal {
    type V = LiteralValue;

    open spec fn view(&self) -> LiteralValue {
        match self {
            Literal::Number(s) => LiteralValue::Number(s@),
            Literal::String(s) => LiteralValue::Str(s@),
            Literal::Boolean(b) => LiteralValue::Boolean(*b),
            Literal::Nil => LiteralValue::Nil,
        }
    }
}

} // verus!
