//! An implementation of the W3C XML Path Language (XPath) 1.0 node-set
//! engine over an in-memory document tree: an expression model for
//! location paths, and an evaluator that applies a path's steps, axis by
//! axis, to a set of nodes of the tree.
//!
//! The document tree is the arena model of [`tree::Document`]: nodes are
//! named by index, with parent, child and attribute links.  A query is a
//! [`model::LocationPath`], built with the model's constructors, and
//! [`evaluate::evaluate_path`] applies it to a [`node_set::NodeSet`] of
//! context nodes.

use vstd::prelude::*;

pub mod evaluate;
pub mod filters;
pub mod function;
pub mod laws;
pub mod model;
pub mod node_set;
pub mod parser;
pub mod render;
pub mod tree;

use crate::evaluate::EvaluationError;
use crate::node_set::NodeSet;
use crate::parser::ParseError;

verus! {

/// The errors the library can report: a parse error from the textual
/// front end, or an evaluation error from the engine.
#[derive(Clone, Debug, PartialEq, Eq, Structural)]
pub enum Error {
    /// An error parsing a path string into its model form.
    Parse(ParseError),
    /// An error evaluating a path against a set of nodes.
    Evaluate(EvaluationError),
}

/// The result of evaluating an expression: one of the basic types of
/// XPath.  This engine produces only the `NodeSet` variant; a number
/// variant, being floating point, is left to the callers that need it.
#[derive(Debug)]
pub enum XPathObject {
    /// An ordered collection of nodes, duplicates permitted.
    NodeSet(NodeSet),
    /// A truth value.
    Boolean(bool),
    /// A sequence of characters.
    String(String),
}

/// The version of the XPath specification this library follows.
pub const XPATH_VERSION: &'static str = "1.0";

impl Error {
    /// The message of the wrapped error.
    pub fn to_string(&self) -> (r: String)
        ensures
            self matches Error::Parse(e) ==> r@ == "The path string is empty"@,
            self matches Error::Evaluate(e) ==> r@
                == "A cycle was detected in the expression axis."@,
    {
        match self {
            Error::Parse(e) => e.to_string(),
            Error::Evaluate(e) => e.to_string(),
        }
    }

    /// Wrap a parse error.
    pub fn from_parse(err: ParseError) -> (e: Error)
        ensures
            e == Error::Parse(err),
    {
        Error::Parse(err)
    }

    /// Wrap an evaluation error.
    pub fn from_evaluate(err: EvaluationError) -> (e: Error)
        ensures
            e == Error::Evaluate(err),
    {
        Error::Evaluate(err)
    }
}

} // verus!
