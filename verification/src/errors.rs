//! The two disjoint error taxonomies: parse-time failures and retrieval
//! failures.
//!
//! Both are returned as values, never raised; rendering them for a user is
//! the caller's concern, so each variant offers its short name as a `String`.

use vstd::prelude::*;

verus! {

/// A failure of one `parse` pass over the token stream.
#[derive(Clone, Copy, Debug, PartialEq, Eq, Structural)]
pub enum ParserError {
    /// A value-consuming flag stood last, with no following token.
    IndexOutOfBound,
    /// A required flag was never matched.
    RequirementNotMet,
    /// A non-repeatable flag appeared a second time.
    DuplicateArg,
    /// An undeclared token appeared while `allow_invalid_args` was off.
    InvalidArg,
    /// The token stream was empty while `allow_no_args` was off.
    NoArgs,
}

/// A failure of one `get` query against the typed value store.
#[derive(Clone, Copy, Debug, PartialEq, Eq, Structural)]
pub enum GetError {
    /// The queried flag was never declared.
    InvalidFlag,
    /// The queried kind differs from the flag's bound or stored kind.
    InvalidType,
    /// The flag has neither parsed values nor a declared default.
    NoValue,
}

impl ParserError {
    /// The variant's name, for display by a caller.
    pub fn name(&self) -> (r: String)
        ensures
            self matches ParserError::IndexOutOfBound ==> r@ == "IndexOutOfBound"@,
            self matches ParserError::RequirementNotMet ==> r@ == "RequirementNotMet"@,
            self matches ParserError::DuplicateArg ==> r@ == "DuplicateArg"@,
            self matches ParserError::InvalidArg ==> r@ == "InvalidArg"@,
            self matches ParserError::NoArgs ==> r@ == "NoArgs"@,
    {
        match self {
            ParserError::IndexOutOfBound => String::from_str("IndexOutOfBound"),
            ParserError::RequirementNotMet => String::from_str("RequirementNotMet"),
            ParserError::DuplicateArg => String::from_str("DuplicateArg"),
            ParserError::InvalidArg => String::from_str("InvalidArg"),
            ParserError::NoArgs => String::from_str("NoArgs"),
        }
    }
}

impl GetError {
    /// The variant's name, for display by a caller.
    pub fn name(&self) -> (r: String)
        ensures
            self matches GetError::InvalidFlag ==> r@ == "InvalidFlag"@,
            self matches GetError::InvalidType ==> r@ == "InvalidType"@,
            self matches GetError::NoValue ==> r@ == "NoValue"@,
    {
        match self {
            GetError::InvalidFlag => String::from_str("InvalidFlag"),
            GetError::InvalidType => String::from_str("InvalidType"),
            GetError::NoValue => String::from_str("NoValue"),
        }
    }
}

} // verus!
