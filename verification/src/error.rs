//! What can go wrong.
use vstd::prelude::*;

verus! {

/// The failures that the library itself finds.
#[derive(Debug, Clone, Copy, PartialEq, Eq, Structural)]
pub enum GrabError {
    /// A rule list holds something that is not a number.
    InvalidRuleId,
    /// The filter of a rule is not a regular expression.
    InvalidFilter,
    /// The base address of a site is not a URL.
    InvalidBaseUrl,
    /// The text for the proxy is not the address of one.
    InvalidProxy,
    /// The server answered with a status that is not a success.
    HttpStatus(u16),
}

} // verus!
