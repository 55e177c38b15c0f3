//! Paths of files, as far as the library puts them together.
use std::path::PathBuf;

use vstd::prelude::*;

verus! {

/// A path.
#[verifier::external_type_specification]
#[verifier::external_body]
pub struct ExPathBuf(std::path::PathBuf);

/// `PathBuf::clone` gives the same path again.
pub assume_specification[ <std::path::PathBuf as Clone>::clone ](p: &std::path::PathBuf) -> (r:
    std::path::PathBuf)
    ensures
        r == *p,
;

/// Calls `Path::join`. How a path is written, and what separates its parts, is up to the platform,
/// so nothing is said of the result.
#[verifier::external_body]
fn path_join(base: &PathBuf, part: &str) -> (r: PathBuf) {
    base.join(part)
}

/// Whether `Path::join` gave this path for a path and a part.
pub closed spec fn is_joined(base: PathBuf, part: &str, r: PathBuf) -> bool {
    call_ensures(path_join, (&base, part), r)
}

/// Puts a path together. The answer is one that the joining has for these.
fn put_together<F: Fn(&PathBuf, &str) -> PathBuf>(joining: F, base: &PathBuf, part: &str) -> (r:
    PathBuf)
    requires
        call_requires(joining, (base, part)),
    ensures
        call_ensures(joining, (base, part), r),
{
    joining(base, part)
}

/// A path with a part behind it.
pub fn join(base: &PathBuf, part: &str) -> (r: PathBuf)
    ensures
        is_joined(*base, part, r),
{
    put_together(path_join, base, part)
}

} // verus!
