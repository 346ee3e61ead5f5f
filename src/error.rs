use vstd::prelude::*;
use crate::literal::LiteralError;

verus! {

/// What went wrong above the level of literals.
#[derive(Debug, Clone, Copy, PartialEq, Eq)]
pub enum StructuralKind {
    /// A top-level element other than `define` or `call`.
    UnsupportedElement,
    /// An element without exactly one attribute, `name`.
    Attribute,
    /// Something other than text where a literal was expected.
    ExpectedLiteral,
    /// A close element other than the one expected.
    Malformed,
    /// An element other than `arg` in a call, or other than `call` in an arg.
    UnexpectedElement,
    /// A close element at the top level.
    UnmatchedClose,
    /// Text at the top level.
    UnexpectedText,
    /// The events ended inside an element.
    UnexpectedEnd,
}

/// A grammar violation and the element it concerns.
#[derive(Debug)]
pub struct StructuralError {
    pub kind: StructuralKind,
    pub element: String,
}

/// Why a document could not be parsed.
#[derive(Debug)]
pub enum ParseError {
    /// The file could not be read.
    Io(String),
    /// The markup tokenizer found the text ill-formed.
    XmlSyntax(String),
    Grammar(StructuralError),
    Literal(LiteralError),
}

/// The mathematical model of a [`ParseError`].
pub enum ErrorModel {
    Io(Seq<char>),
    XmlSyntax(Seq<char>),
    Grammar(StructuralKind, Seq<char>),
    Literal(Seq<char>),
}

impl ParseError {
    pub open spec fn model(self) -> ErrorModel {
        match self {
            ParseError::Io(m) => ErrorModel::Io(m@),
            ParseError::XmlSyntax(m) => ErrorModel::XmlSyntax(m@),
            ParseError::Grammar(e) => ErrorModel::Grammar(e.kind, e.element@),
            ParseError::Literal(e) => ErrorModel::Literal(e.text@),
        }
    }
}

} // verus!
