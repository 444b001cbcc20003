//! Paths as texts, and the two questions that only the system can answer:
//! where the user's home is, and whether a path is on disk.

use vstd::prelude::*;

verus! {

/// `dirs::home_dir`: the current user's home directory, where the system names one.
/// The answer is the environment's; nothing is claimed of it. A directory whose
/// name is not Unicode comes back with the offending parts replaced.
#[verifier::external_body]
pub(crate) fn home_dir() -> (home: Option<String>) {
    match dirs::home_dir() {
        Some(path) => Some(path.to_string_lossy().into_owned()),
        None => None,
    }
}

/// `std::path::Path::exists`: whether the path points at something on disk right
/// now. The answer is the disk's; nothing is claimed of it.
#[verifier::external_body]
pub(crate) fn path_exists(path: &str) -> (present: bool) {
    std::path::Path::new(path).exists()
}

/// The path of the entry `name` in the directory `base`: the two with one `/`
/// between them, which `base` may bring along. `name` is a relative path.
pub open spec fn joined_path(base: Seq<char>, name: Seq<char>) -> Seq<char> {
    if base.len() == 0 || base.last() == '/' {
        base + name
    } else {
        base + "/"@ + name
    }
}

/// The path of the entry `name` in the directory `base`.
pub fn join_path(base: &str, name: &str) -> (r: String)
    ensures
        r@ == joined_path(base@, name@),
{
    let mut r = base.to_owned();
    let n = base.unicode_len();
    if n > 0 && base.get_char(n - 1) != '/' {
        r.append("/");
    }
    r.append(name);
    r
}

} // verus!
