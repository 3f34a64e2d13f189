//! The textual front end.  The grammar-driven parser that turns a path
//! string into a [`LocationPath`](crate::model::LocationPath) is not
//! implemented: paths are built with the model's constructors, and
//! [`read_str`] reports every input as unparsed.

use vstd::prelude::*;

use crate::model::LocationPath;

verus! {

/// The errors reading a path string can report.
#[derive(Clone, Debug, PartialEq, Eq, Structural)]
pub enum ParseError {
    /// The path string was not parsed; with no parser behind this front
    /// end, every call reports this.
    EmptyString,
}

/// Read an XPath string into its model form.  The parser behind this front
/// end is not implemented: every input, empty or not, is reported as
/// unparsed, and paths are built with the model's constructors instead.
impl ParseError {
    /// The error's message.
    pub fn to_string(&self) -> (r: String)
        ensures
            r@ == "The path string is empty"@,
    {
        "The path string is empty".to_owned()
    }
}

pub fn read_str(xpath_str: &str) -> (r: Result<LocationPath, ParseError>)
    ensures
        r matches Err(e) && e == ParseError::EmptyString,
{
    Err(ParseError::EmptyString)
}

} // verus!
