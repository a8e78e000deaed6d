//! What can go wrong in a pass, with the place where it went wrong.

use crate::ast::{path_view, Info, InfoView, Node, NodeView, PathView, Symbol};
use crate::primitives::{Prim, PrimView};
use crate::tokens::{tokens_view, Token, TokenView};
use vstd::prelude::*;

verus! {

/// Why the parser gave up.
#[derive(Debug, PartialEq, Eq)]
pub enum ParseFault {
    /// A closing bracket stands where an expression should begin.
    UnexpectedCloseBracket { found: String },
    /// A bracket was closed by a bracket of another kind.
    MismatchedBracket { open: String, found: String },
    /// A bracket was not closed where its contents end.
    UnclosedBracket { open: String, next: Option<Token> },
    /// A token that no lexer should hand to the parser.
    InvalidToken,
    /// A number literal that is not a decimal numeral of 32 bits.
    InvalidNumber { text: String },
    /// The left side of `|-` is not a bare name.
    CannotAbstractOver(Box<Node>),
    /// The left side of `=` is neither a bare name nor a bare name applied.
    CannotAssignTo(Box<Node>),
    /// The input goes on after the expression.
    LeftOverTokens(Vec<Token>),
}

/// An error of the front end.
#[derive(Debug, PartialEq, Eq)]
pub enum TError {
    ParseError(ParseFault, Info),
    /// A parse error was found in a tree handed to a later pass.
    FailedParse(String, Info),
    /// No definition of the name is visible from the path.
    UnknownSymbol(String, Info, Vec<Symbol>),
    UnknownInfixOperator(String, Info),
    UnknownPrefixOperator(String, Info),
    /// A pointer to code has no cardinality.
    StaticPointerCardinality(Info),
    /// A type that is not known yet has no size.
    UnknownSizeOfVariableType(String, Info),
    /// The type is of a shape that has no cardinality.
    UnknownCardOfAbstractType(Prim, Info),
    /// The type is of a shape that has no size.
    UnknownSizeOfAbstractType(Prim, Info),
    /// A size, an offset or a cardinality does not fit in 32 bits.
    LayoutOverflow(Info),
}

/// The mathematical value of a [`ParseFault`].
pub ghost enum ParseFaultView {
    UnexpectedCloseBracket { found: Seq<char> },
    MismatchedBracket { open: Seq<char>, found: Seq<char> },
    UnclosedBracket { open: Seq<char>, next: Option<TokenView> },
    InvalidToken,
    InvalidNumber { text: Seq<char> },
    CannotAbstractOver(NodeView),
    CannotAssignTo(NodeView),
    LeftOverTokens(Seq<TokenView>),
}

/// The mathematical value of a [`TError`].
pub ghost enum TErrorView {
    ParseError(ParseFaultView, InfoView),
    FailedParse(Seq<char>, InfoView),
    UnknownSymbol(Seq<char>, InfoView, PathView),
    UnknownInfixOperator(Seq<char>, InfoView),
    UnknownPrefixOperator(Seq<char>, InfoView),
    StaticPointerCardinality(InfoView),
    UnknownSizeOfVariableType(Seq<char>, InfoView),
    UnknownCardOfAbstractType(PrimView, InfoView),
    UnknownSizeOfAbstractType(PrimView, InfoView),
    LayoutOverflow(InfoView),
}

impl View for ParseFault {
    type V = ParseFaultView;

    open spec fn view(&self) -> ParseFaultView {
        match self {
            ParseFault::UnexpectedCloseBracket { found } => ParseFaultView::UnexpectedCloseBracket {
                found: found@,
            },
            ParseFault::MismatchedBracket { open, found } => ParseFaultView::MismatchedBracket {
                open: open@,
                found: found@,
            },
            ParseFault::UnclosedBracket { open, next } => ParseFaultView::UnclosedBracket {
                open: open@,
                next: match next {
                    Some(token) => Some(token@),
                    None => None,
                },
            },
            ParseFault::InvalidToken => ParseFaultView::InvalidToken,
            ParseFault::InvalidNumber { text } => ParseFaultView::InvalidNumber { text: text@ },
            ParseFault::CannotAbstractOver(node) => ParseFaultView::CannotAbstractOver(node@),
            ParseFault::CannotAssignTo(node) => ParseFaultView::CannotAssignTo(node@),
            ParseFault::LeftOverTokens(tokens) => ParseFaultView::LeftOverTokens(
                tokens_view(tokens@),
            ),
        }
    }
}

impl View for TError {
    type V = TErrorView;

    open spec fn view(&self) -> TErrorView {
        match self {
            TError::ParseError(fault, info) => TErrorView::ParseError(fault@, info@),
            TError::FailedParse(msg, info) => TErrorView::FailedParse(msg@, info@),
            TError::UnknownSymbol(name, info, path) => TErrorView::UnknownSymbol(
                name@,
                info@,
                path_view(path@),
            ),
            TError::UnknownInfixOperator(name, info) => TErrorView::UnknownInfixOperator(
                name@,
                info@,
            ),
            TError::UnknownPrefixOperator(name, info) => TErrorView::UnknownPrefixOperator(
                name@,
                info@,
            ),
            TError::StaticPointerCardinality(info) => TErrorView::StaticPointerCardinality(info@),
            TError::UnknownSizeOfVariableType(name, info) => TErrorView::UnknownSizeOfVariableType(
                name@,
                info@,
            ),
            TError::UnknownCardOfAbstractType(ty, info) => TErrorView::UnknownCardOfAbstractType(
                ty@,
                info@,
            ),
            TError::UnknownSizeOfAbstractType(ty, info) => TErrorView::UnknownSizeOfAbstractType(
                ty@,
                info@,
            ),
            TError::LayoutOverflow(info) => TErrorView::LayoutOverflow(info@),
        }
    }
}

} // verus!
