//! Shared vocabulary of the stylesheet compiler and language server:
//! diagnostics, symbols, value delimiters and errors.
use vstd::prelude::*;

use crate::css_source::CssRange;

verus! {

#[derive(Debug, Clone, Copy, PartialEq, Eq)]
pub enum CssDiagnosticSeverity {
    Error,
    Warning,
    Information,
}

#[derive(Debug, Clone, Copy, PartialEq, Eq)]
pub enum CssDiagnosticCode {
    UnsupportedAtRule,
    UnsupportedSelector,
    UnsupportedProperty,
    InvalidSyntax,
    UnsupportedValue,
    InapplicableProperty,
    UnsupportedAttributeKey,
}

/// A problem found in a stylesheet, with where it is.
#[derive(Debug, Clone, PartialEq, Eq)]
pub struct CssDiagnostic {
    pub code: CssDiagnosticCode,
    pub severity: CssDiagnosticSeverity,
    pub message: String,
    pub range: CssRange,
}

#[derive(Debug, Clone, Copy, PartialEq, Eq)]
pub enum CssSymbolKind {
    Rule,
}

/// A named thing in a stylesheet (a rule), its extent and the part of it
/// to highlight.
#[derive(Debug, Clone, PartialEq, Eq)]
pub struct CssSymbol {
    pub kind: CssSymbolKind,
    pub name: String,
    pub range: CssRange,
    pub selection_range: CssRange,
}

#[derive(Debug, Clone, Copy, PartialEq, Eq, Structural)]
pub enum BoxSide {
    Top,
    Right,
    Bottom,
    Left,
}

#[derive(Debug, PartialEq)]
pub enum CssValueError {
    UnsupportedValue { property: String, value: String },
}

#[derive(Debug, Clone, PartialEq, Eq)]
pub enum CssDelimiter {
    Comma,
    Solidus,
    Semicolon,
}

#[derive(Debug, Clone, Copy, PartialEq, Eq)]
pub enum CssSimpleBlockKind {
    Bracket,
    Parenthesis,
    Brace,
}

#[derive(Debug, PartialEq)]
pub enum CssParseError {
    UnsupportedAtRule { name: String },
    UnsupportedSelector { selector: String },
    UnsupportedProperty { property: String },
    InvalidSyntax { line: u32, column: u32 },
    CssValue(CssValueError),
}

impl From<CssValueError> for CssParseError {
    fn from(error: CssValueError) -> (r: Self)
        ensures
            r == CssParseError::CssValue(error),
    {
        CssParseError::CssValue(error)
    }
}

impl vstd::std_specs::convert::FromSpecImpl<CssValueError> for CssParseError {
    open spec fn obeys_from_spec() -> bool {
        true
    }

    open spec fn from_spec(error: CssValueError) -> Self {
        CssParseError::CssValue(error)
    }
}

} // verus!
