//! Resolve the `caller` directive on the active `Makefile.toml`.
//!
//! When the active Makefile has a `caller` directive, emit an [`EnvEntry`]
//! binding the user-chosen variable to the makerz caller's cwd in absolute
//! form. The directive's fallback value must name an existing path
//! (relative paths are taken from the Makefile's directory). Absent the
//! directive, no entry is produced.

use vstd::prelude::*;

use crate::directive_parser::ParsedMakefile;
use crate::makers::EnvEntry;
use crate::path::{copy_bytes, PathBytes};

verus! {

/// Why the `caller` directive could not be resolved.
#[derive(Debug)]
pub enum CallerError {
    /// The directive's fallback value names no existing path.
    FallbackPathMissing { path: PathBytes },
    /// The caller's directory could not be made absolute.
    Absolute(std::io::Error),
}

/// The path named by the `caller` directive's fallback, taken from the
/// Makefile's directory, when the Makefile has the directive.
pub open spec fn caller_fallback(m: crate::directive_parser::MakefileView) -> Option<Seq<u8>> {
    match m.env.caller {
        Some(b) => Some(crate::path::join_bytes(m.location, crate::makers::utf8(b.fallback))),
        None => None,
    }
}

/// The path whose existence [`resolve_caller_env`] needs to know.
pub fn caller_fallback_path(parsed: &ParsedMakefile) -> (res: Option<PathBytes>)
    ensures
        match res {
            Some(p) => caller_fallback(parsed@) == Some(p@),
            None => caller_fallback(parsed@) is None,
        },
{
    match parsed.env().caller() {
        Some(binding) => {
            let fallback = copy_bytes(binding.fallback().as_bytes());
            Some(parsed.location().dir().join(fallback.as_slice()))
        },
        None => None,
    }
}

/// The variable to hand to `makers` for the `caller` directive, given
/// whether [`caller_fallback_path`] exists and the caller's directory in
/// absolute form (or why it could not be made absolute).
pub fn resolve_caller_env(
    parsed: &ParsedMakefile,
    fallback_exists: bool,
    absolute_cwd: Result<PathBytes, std::io::Error>,
) -> (res: Result<Option<EnvEntry>, CallerError>)
    ensures
        match parsed@.env.caller {
            None => res matches Ok(None),
            Some(b) => if !fallback_exists {
                res matches Err(CallerError::FallbackPathMissing { path })
                    && caller_fallback(parsed@) == Some(path@)
            } else {
                match absolute_cwd {
                    Err(e) => res matches Err(CallerError::Absolute(e2)) && e2 == e,
                    Ok(cwd) => res matches Ok(Some(entry)) && entry@.key == b.name
                        && entry@.value == cwd@,
                }
            },
        },
{
    let binding = match parsed.env().caller() {
        Some(binding) => binding,
        None => return Ok(None),
    };
    if !fallback_exists {
        let path = match caller_fallback_path(parsed) {
            Some(path) => path,
            None => return Ok(None),
        };
        return Err(CallerError::FallbackPathMissing { path });
    }
    match absolute_cwd {
        Err(e) => Err(CallerError::Absolute(e)),
        Ok(cwd) => {
            let name = String::from_str(binding.name());
            let value = copy_bytes(cwd.as_bytes());
            Ok(Some(EnvEntry::new(name, value)))
        },
    }
}

} // verus!
