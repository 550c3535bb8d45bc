//! Gitignore-aware recursive directory traversal.
//!
//! Given a root inside a modelled filesystem and a set of ignore-rule
//! sources (per-directory ignore files, a global exclude list, custom ignore
//! filenames, and explicit override globs), a [`walk::Walk`] yields the
//! entries that survive filtering, in a stable depth-first order, while
//! honouring the configured toggles (hidden-file skipping, symlink
//! following, same-filesystem confinement, maximum depth).

use vstd::prelude::*;

pub mod glob;
pub mod overrides;
pub mod stack;
pub mod fsmodel;
pub mod walk;

verus! {

/// Everything that can go wrong while building pattern sets or walking.
///
/// `InvalidPattern` is a configuration error and is reported synchronously
/// at build time.  `Io` and `Loop` are per-entry errors: the walk reports
/// them inline and continues with the remaining entries.
#[derive(Debug)]
pub enum Error {
    /// A glob with malformed syntax (an unbalanced character class).
    InvalidPattern { glob: Vec<u8> },
    /// A filesystem operation failed for one entry; `not_found` tells a
    /// missing path apart from other failures.
    Io { path: Vec<u8>, not_found: bool },
    /// A symlink cycle was detected while descending.
    Loop { path: Vec<u8> },
}

impl Error {
    /// True exactly when this is the malformed-glob error.
    pub fn is_invalid_pattern(&self) -> (r: bool)
        ensures
            r == (self is InvalidPattern),
    {
        match self {
            Error::InvalidPattern { .. } => true,
            _ => false,
        }
    }

    /// True exactly when this is a per-entry filesystem error.
    pub fn is_io(&self) -> (r: bool)
        ensures
            r == (self is Io),
    {
        match self {
            Error::Io { .. } => true,
            _ => false,
        }
    }

    /// True exactly when this is a missing-path filesystem error.
    pub fn is_not_found(&self) -> (r: bool)
        ensures
            r == (self matches Error::Io { not_found: true, .. }),
    {
        match self {
            Error::Io { not_found, .. } => *not_found,
            _ => false,
        }
    }

    /// True exactly when this is the symlink-cycle error.
    pub fn is_loop(&self) -> (r: bool)
        ensures
            r == (self is Loop),
    {
        match self {
            Error::Loop { .. } => true,
            _ => false,
        }
    }
}

} // verus!
