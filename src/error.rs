//! The ways in which parsing a reference or a locator fails.
use vstd::prelude::*;

verus! {

/// Why a dependency reference or a contract locator was refused.
#[derive(Debug, Clone, PartialEq, Eq)]
pub enum ParseError {
    /// The reference is neither a remote address nor an `owner/repo` shorthand; holds the input.
    InvalidRepoShorthand(String),
    /// The resolved url has no last path segment to name the dependency by.
    EmptyName,
    /// A contract locator names a path where the contract name should stand; holds the input.
    MalformedLocator(String),
    /// A fully qualified contract locator has no `:`; holds the input.
    MissingLocatorSeparator(String),
}

} // verus!
