use vstd::prelude::*;

verus! {

/// Relies on pathsearch::find_executable_in_path: the first executable file
/// named `name` in a directory of `PATH`, if any. What it finds depends on
/// the environment and the file system, so nothing is stated of it.
#[verifier::external_body]
pub(crate) fn find_executable(name: &str) -> (r: Option<String>) {
    pathsearch::find_executable_in_path(name).map(|p| p.to_string_lossy().into_owned())
}

/// Relies on home::home_dir: the user's home directory, if it is known.
/// It depends on the environment, so nothing is stated of it.
#[verifier::external_body]
pub(crate) fn home_directory() -> (r: Option<String>) {
    home::home_dir().map(|p| p.to_string_lossy().into_owned())
}

/// Relies on std::path::Path::exists: whether something is at `p`.
#[verifier::external_body]
pub(crate) fn path_exists(p: &str) -> (r: bool) {
    std::path::Path::new(p).exists()
}

/// Relies on std::path::Path::is_dir: whether a directory is at `p`.
#[verifier::external_body]
pub(crate) fn path_is_dir(p: &str) -> (r: bool) {
    std::path::Path::new(p).is_dir()
}

} // verus!
