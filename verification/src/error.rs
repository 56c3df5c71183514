//! The errors of a build.

use vstd::prelude::*;

verus! {

/// Why a build failed.
#[derive(Debug, Clone)]
pub enum Error {
    /// An entry names a category that the registry does not hold.
    MissingCategory,
    /// A game's files do not hold what the provider needs; with the reason.
    Provider(String),
}

} // verus!
