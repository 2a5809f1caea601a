//! Where the files of a temporary directory may lie.
//!
//! Paths are texts here. How a text is read as a path, which characters
//! part its components and when it is absolute, is left to `std::path` and
//! so to the platform that the library is built for.

use vstd::prelude::*;

verus! {

/// The path that `Path::join` gives for `name` seen from `dir`.
pub uninterp spec fn joined_path(dir: Seq<char>, name: Seq<char>) -> Seq<char>;

/// The path that `path_clean::clean` gives for `path`.
pub uninterp spec fn cleaned_path(path: Seq<char>) -> Seq<char>;

/// What `Path::starts_with` says of `path` and `base`.
pub uninterp spec fn path_starts_with(path: Seq<char>, base: Seq<char>) -> bool;

/// `Path::join`: the path `name` as seen from the directory `dir`. An
/// absolute `name` takes the place of `dir`. The result depends on the two
/// paths alone; nothing more is claimed of it.
#[verifier::external_body]
fn join_path(dir: &str, name: &str) -> (path: String)
    ensures
        path@ == joined_path(dir@, name@),
{
    std::path::Path::new(dir).join(name).to_string_lossy().into_owned()
}

/// `path_clean::clean`: the path without `.` components, without doubled
/// separators, and with each `..` resolved against the component before it.
/// It works on the text of the path and never looks at the file system, so
/// the result depends on the path alone; nothing more is claimed of it.
#[verifier::external_body]
fn clean_path(path: &str) -> (clean: String)
    ensures
        clean@ == cleaned_path(path@),
{
    path_clean::clean(path).to_string_lossy().into_owned()
}

/// `Path::starts_with`: whether `base` is a prefix of `path`, whole
/// components compared. The answer depends on the two paths alone.
#[verifier::external_body]
fn starts_with_path(path: &str, base: &str) -> (inside: bool)
    ensures
        inside == path_starts_with(path@, base@),
{
    std::path::Path::new(path).starts_with(base)
}

/// The path for a new file, if it may be used: a path that was found to lie
/// inside the directory is handed on, any other is held back.
pub fn path_if_inside(path: String, inside: bool) -> (accepted: Option<String>)
    ensures
        accepted == if inside {
            Some(path)
        } else {
            None::<String>
        },
{
    if !inside {
        return None;
    }
    Some(path)
}

/// The absolute path of the file `name` in the directory `dir`.
///
/// The file `name` can contain path components for intermediate
/// directories. The path is normalized, so that it can be properly checked
/// to be inside the directory. For a `name` that leads out of the directory
/// there is no path.
pub fn file_path(dir: &str, name: &str) -> (path: Option<String>)
    ensures
        path is Some <==> path_starts_with(cleaned_path(joined_path(dir@, name@)), dir@),
        path matches Some(inside) ==> inside@ == cleaned_path(joined_path(dir@, name@)),
{
    let path = join_path(dir, name);

    // normalize the path so that we can properly check it is inside the
    // temporary directory
    let path = clean_path(path.as_str());
    let inside = starts_with_path(path.as_str(), dir);
    path_if_inside(path, inside)
}

} // verus!
