//! Surface syntax: the terms and items the parser hands to the elaborator.
//! Surface trees are produced outside the core and are discarded after
//! elaboration.

use vstd::prelude::*;

use crate::Range;
use crate::integer::IntValue;

verus! {

/// A term of the surface language.
#[derive(Debug)]
pub enum STerm {
    /// A name: a global or a sibling item.
    Name(Range, String),
    /// A type ascription: `term : type`.
    Ann(Range, Box<STerm>, Box<STerm>),
    /// A universe: `Type` at the given level.
    Universe(Range, u16),
    /// A function type: `param -> body`.
    FunctionType(Range, Box<STerm>, Box<STerm>),
    /// An application: `head argument`.
    App(Range, Box<STerm>, Box<STerm>),
    /// An integer literal.
    NumberLiteral(Range, IntValue),
    /// A boolean literal.
    BooleanLiteral(Range, bool),
    /// A conditional: `if cond then first else second`.
    If(Range, Box<STerm>, Box<STerm>, Box<STerm>),
    /// An integer match: arms of `key => term`, then the default.
    Match(Range, Box<STerm>, Vec<(Range, IntValue, STerm)>, Box<STerm>),
}

impl STerm {
    /// The source range a surface term covers.
    pub fn range(&self) -> (r: Range)
        ensures
            r == self.spec_range(),
    {
        match self {
            STerm::Name(range, _) => *range,
            STerm::Ann(range, _, _) => *range,
            STerm::Universe(range, _) => *range,
            STerm::FunctionType(range, _, _) => *range,
            STerm::App(range, _, _) => *range,
            STerm::NumberLiteral(range, _) => *range,
            STerm::BooleanLiteral(range, _) => *range,
            STerm::If(range, _, _, _) => *range,
            STerm::Match(range, _, _, _) => *range,
        }
    }

    pub open spec fn spec_range(&self) -> Range {
        match self {
            STerm::Name(range, _) => *range,
            STerm::Ann(range, _, _) => *range,
            STerm::Universe(range, _) => *range,
            STerm::FunctionType(range, _, _) => *range,
            STerm::App(range, _, _) => *range,
            STerm::NumberLiteral(range, _) => *range,
            STerm::BooleanLiteral(range, _) => *range,
            STerm::If(range, _, _, _) => *range,
            STerm::Match(range, _, _, _) => *range,
        }
    }
}

/// One field of a surface struct item.
#[derive(Debug)]
pub struct SField {
    pub range: Range,
    pub name: String,
    pub doc: Vec<String>,
    pub term: STerm,
}

/// A surface module item.
#[derive(Debug)]
pub enum SItem {
    Alias {
        range: Range,
        name: String,
        doc: Vec<String>,
        ty: Option<Box<STerm>>,
        term: Box<STerm>,
    },
    Struct { range: Range, name: String, doc: Vec<String>, fields: Vec<SField> },
}

/// A surface module: doc lines and items in source order.
#[derive(Debug)]
pub struct SModule {
    pub doc: Vec<String>,
    pub items: Vec<SItem>,
}

} // verus!
