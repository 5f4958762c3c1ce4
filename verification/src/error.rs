//! The error type of makerz and the exit code each error maps to.

use vstd::prelude::*;

use crate::caller::CallerError;
use crate::cli::ParseError;
use crate::directive_parser::ParseMakefileError;
use crate::discovery::DiscoveryError;
use crate::location::FindError;

verus! {

#[verifier::external_type_specification]
#[verifier::external_body]
pub struct ExIoError(std::io::Error);

/// Common error type for makerz.
#[derive(Debug)]
pub enum Error {
    /// Failure to parse makerz's own CLI arguments.
    ArgParse(ParseError),
    /// Failure to locate a `Makefile.toml` upward from cwd.
    Discovery(DiscoveryError),
    /// No `Makefile.toml` at cwd or above it, as [`FindError`] reports it.
    Find(FindError),
    /// Failure while parsing the discovered Makefile.toml.
    ParseMakefile(ParseMakefileError),
    /// Failure to resolve the `caller` directive.
    Caller(CallerError),
    /// Failure to obtain the current working directory.
    Cwd(std::io::Error),
    /// `makers` binary missing on PATH.
    MakersNotFound,
    /// Spawn IO error other than NotFound.
    MakersSpawn(std::io::Error),
    /// Exit code from `makers`. Non-zero by construction.
    MakersExited(i32),
    /// `makers` exited without a code (killed by a signal).
    MakersTerminatedBySignal,
}

/// The exit code makerz returns for `e`: 2 for argument errors, 127 when
/// `makers` is missing, `makers`' own code when it fits in a byte, else 1.
pub open spec fn exit_code_of(e: Error) -> u8 {
    match e {
        Error::ArgParse(_) => 2,
        Error::MakersNotFound => 127,
        Error::MakersExited(c) => if 0 <= c <= 255 {
            c as u8
        } else {
            1
        },
        _ => 1,
    }
}

impl Error {
    /// Exit code makerz itself should return for this error.
    pub fn exit_code(&self) -> (res: u8)
        ensures
            res == exit_code_of(*self),
    {
        match self {
            Error::ArgParse(_) => 2,
            Error::Discovery(_) => 1,
            Error::Find(_) => 1,
            Error::ParseMakefile(_) => 1,
            Error::Caller(_) => 1,
            Error::Cwd(_) => 1,
            Error::MakersNotFound => 127,
            Error::MakersSpawn(_) => 1,
            Error::MakersExited(c) => {
                if 0 <= *c && *c <= 255 {
                    *c as u8
                } else {
                    1
                }
            },
            Error::MakersTerminatedBySignal => 1,
        }
    }
}

} // verus!
