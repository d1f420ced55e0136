//! Filesystem paths as UTF-8 strings, and the rules by which configured
//! paths are resolved against (and stored relative to) the directory of the
//! configuration file. The path algebra itself is `std::path`'s.
use vstd::prelude::*;

verus! {

/// What `std::path::Path::is_absolute` answers for this path on the target platform.
pub uninterp spec fn spec_path_is_absolute(p: Seq<char>) -> bool;

/// What `std::path::Path::parent` returns for this path on the target platform.
pub uninterp spec fn spec_path_parent(p: Seq<char>) -> Option<Seq<char>>;

/// What `std::path::Path::join` returns for these paths on the target platform.
pub uninterp spec fn spec_path_join(base: Seq<char>, rel: Seq<char>) -> Seq<char>;

/// What `std::path::Path::strip_prefix` returns for these paths on the target platform.
pub uninterp spec fn spec_path_strip_prefix(p: Seq<char>, base: Seq<char>) -> Option<Seq<char>>;

/// Calls `std::path::Path::is_absolute`; the answer is the named result.
#[verifier::external_body]
fn path_is_absolute(p: &str) -> (r: bool)
    ensures
        r == spec_path_is_absolute(p@),
{
    std::path::Path::new(p).is_absolute()
}

/// Calls `std::path::Path::parent`; a parent of a UTF-8 path is UTF-8, so the
/// conversion back to a string is exact. The answer is the named result.
#[verifier::external_body]
fn path_parent(p: &str) -> (r: Option<String>)
    ensures
        opt_seq(r) == spec_path_parent(p@),
{
    match std::path::Path::new(p).parent() {
        Some(parent) => Some(parent.to_string_lossy().into_owned()),
        None => None,
    }
}

/// Calls `std::path::Path::join` on two UTF-8 paths; the answer is the named result.
#[verifier::external_body]
pub(crate) fn path_join(base: &str, rel: &str) -> (r: String)
    ensures
        r@ == spec_path_join(base@, rel@),
{
    std::path::Path::new(base).join(rel).to_string_lossy().into_owned()
}

/// Calls `std::path::Path::strip_prefix`; the answer is the named result.
#[verifier::external_body]
fn path_strip_prefix(p: &str, base: &str) -> (r: Option<String>)
    ensures
        opt_seq(r) == spec_path_strip_prefix(p@, base@),
{
    match std::path::Path::new(p).strip_prefix(base) {
        Ok(rest) => Some(rest.to_string_lossy().into_owned()),
        Err(_) => None,
    }
}

/// The view of an optional string.
pub open spec fn opt_seq(o: Option<String>) -> Option<Seq<char>> {
    match o {
        Some(s) => Some(s@),
        None => None,
    }
}

/// Where `path` points once resolved against the directory of `config_path`:
/// absolute paths stand as they are; relative ones are joined to the config
/// file's parent directory (or `.` when it has none).
pub open spec fn resolve_path_spec(config_path: Seq<char>, path: Seq<char>) -> Seq<char> {
    if spec_path_is_absolute(path) {
        path
    } else {
        match spec_path_parent(config_path) {
            Some(dir) => spec_path_join(dir, path),
            None => spec_path_join("."@, path),
        }
    }
}

/// How `path` is written back into the configuration file: relative to the
/// config file's directory when it lies strictly below it, else unchanged.
pub open spec fn storage_path_spec(config_path: Seq<char>, path: Seq<char>) -> Seq<char> {
    match spec_path_parent(config_path) {
        None => path,
        Some(dir) => match spec_path_strip_prefix(path, dir) {
            Some(rel) => if rel.len() > 0 {
                rel
            } else {
                path
            },
            None => path,
        },
    }
}

/// Resolves `path` against the directory that holds the configuration file.
pub fn resolve_path_from_config(config_path: &str, path: &str) -> (r: String)
    ensures
        r@ == resolve_path_spec(config_path@, path@),
{
    if path_is_absolute(path) {
        return path.to_owned();
    }
    match path_parent(config_path) {
        Some(dir) => path_join(dir.as_str(), path),
        None => path_join(".", path),
    }
}

/// The form in which `path` is stored in the configuration file.
pub fn path_for_storage(config_path: &str, path: &str) -> (r: String)
    ensures
        r@ == storage_path_spec(config_path@, path@),
{
    match path_parent(config_path) {
        None => path.to_owned(),
        Some(dir) => match path_strip_prefix(path, dir.as_str()) {
            Some(rel) => {
                if rel.as_str().is_empty() {
                    path.to_owned()
                } else {
                    rel
                }
            },
            None => path.to_owned(),
        },
    }
}

} // verus!
