//! Walk up from a directory looking for `Makefile.toml`.

use vstd::prelude::*;

use crate::location::{first_with_makefile, Ancestor};
use crate::path::PathBytes;

verus! {

/// Reasons [`find_makefile`] can fail.
#[derive(Debug)]
pub enum DiscoveryError {
    /// No `Makefile.toml` was found between `start` (inclusive) and the
    /// filesystem root.
    NotFound { start: PathBytes },
}

/// Outcome of a successful upward search.
#[derive(Debug, PartialEq, Eq)]
pub struct Discovered {
    dir: PathBytes,
}

impl View for Discovered {
    type V = Seq<u8>;

    closed spec fn view(&self) -> Seq<u8> {
        self.dir@
    }
}

impl Discovered {
    /// Directory containing the discovered `Makefile.toml`.
    pub fn dir(&self) -> (res: &PathBytes)
        ensures
            res@ == self@,
    {
        &self.dir
    }

    /// Path of the discovered `Makefile.toml`.
    pub fn file(&self) -> (res: PathBytes)
        ensures
            res@ == crate::path::join_bytes(self@, crate::location::makefile_name()),
    {
        self.dir.join("Makefile.toml".as_bytes())
    }
}

/// The `Makefile.toml` of the nearest directory on the upward walk from
/// `start` that holds one ([`Discovered::file`] is its path);
/// `walk` lists `start` and its ancestors, nearest first.
pub fn find_makefile(start: &PathBytes, walk: &Vec<Ancestor>) -> (res: Result<
    Discovered,
    DiscoveryError,
>)
    ensures
        match crate::location::nearest_makefile(walk@) {
            Some(i) => res matches Ok(found) && found@ == walk@[i].dir@
                && crate::path::join_bytes(found@, crate::location::makefile_name())
                == crate::path::join_bytes(walk@[i].dir@, crate::location::makefile_name()),
            None => res matches Err(DiscoveryError::NotFound { start: s }) && s@ == start@,
        },
{
    match first_with_makefile(walk) {
        Some(i) => Ok(Discovered { dir: walk[i].dir.duplicate() }),
        None => Err(DiscoveryError::NotFound { start: start.duplicate() }),
    }
}

} // verus!
