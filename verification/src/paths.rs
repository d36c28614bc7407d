//! File system paths, held as strings and combined with `std::path`.

use vstd::prelude::*;

use crate::pom::opt_view;

verus! {

/// What `Path::strip_prefix` leaves of `path` after the leading components of
/// `base` (`None` where `base` is no prefix of `path`), displayed as a string.
pub uninterp spec fn path_strip_prefix(path: Seq<char>, base: Seq<char>) -> Option<Seq<char>>;

/// `Path::strip_prefix`, with the remainder displayed as a string. The result
/// is a function of the two paths; which components match, by the target
/// platform's separators, is left to the name.
#[verifier::external_body]
pub(crate) fn strip_prefix(path: &str, base: &str) -> (r: Option<String>)
    ensures
        opt_view(r) == path_strip_prefix(path@, base@),
{
    std::path::Path::new(path).strip_prefix(base).ok().map(|p| p.display().to_string())
}

/// What `Path::join` makes of `base` and `rel`, displayed as a string.
pub uninterp spec fn path_join(base: Seq<char>, rel: Seq<char>) -> Seq<char>;

/// `Path::join`, displayed as a string: a function of the two strings. Which
/// separator goes between them is the target platform's and is left to the
/// name.
#[verifier::external_body]
pub(crate) fn join(base: &str, rel: &str) -> (r: String)
    ensures
        r@ == path_join(base@, rel@),
{
    std::path::Path::new(base).join(rel).display().to_string()
}

} // verus!
