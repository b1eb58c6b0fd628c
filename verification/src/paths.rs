use vstd::prelude::*;

verus! {

/// The parent that `Path::parent` gives for a path, if any.
pub uninterp spec fn path_parent(path: Seq<char>) -> Option<Seq<char>>;

/// The path that `Path::join` makes of a base and a further path.
pub uninterp spec fn path_joined(base: Seq<char>, tail: Seq<char>) -> Seq<char>;

/// The final component that `Path::file_name` gives for a path, if any.
pub uninterp spec fn path_file_name(path: Seq<char>) -> Option<Seq<char>>;

/// Trusted: `std::path::Path::parent` on a path written as UTF-8 text. The
/// parent of UTF-8 text is a prefix of it, so the lossy conversion back to a
/// string keeps it unchanged. The parent is a function of the path alone, named
/// `path_parent`.
#[verifier::external_body]
pub(crate) fn parent_of(path: &str) -> (r: Option<String>)
    ensures
        r is Some == path_parent(path@) is Some,
        r is Some ==> path_parent(path@)->0 == r->0@,
{
    match std::path::Path::new(path).parent() {
        Some(parent) => Some(parent.to_string_lossy().into_owned()),
        None => None,
    }
}

/// Trusted: `std::path::Path::join` of two paths written as UTF-8 text; the
/// joined path is UTF-8 text as well. Named `path_joined`.
#[verifier::external_body]
pub(crate) fn join(base: &str, tail: &str) -> (r: String)
    ensures
        r@ == path_joined(base@, tail@),
{
    std::path::Path::new(base).join(tail).to_string_lossy().into_owned()
}

/// Trusted: `std::path::Path::file_name` on a path written as UTF-8 text; the
/// final component is a part of it. Named `path_file_name`.
#[verifier::external_body]
pub(crate) fn file_name_of(path: &str) -> (r: Option<String>)
    ensures
        r is Some == path_file_name(path@) is Some,
        r is Some ==> path_file_name(path@)->0 == r->0@,
{
    match std::path::Path::new(path).file_name() {
        Some(name) => Some(name.to_string_lossy().into_owned()),
        None => None,
    }
}

/// Where the fixture of a manifest lies: its path joined to the manifest's
/// directory, or to `.` when the manifest path has no parent.
pub open spec fn fixture_location(manifest_path: Seq<char>, fixture: Seq<char>) -> Seq<char> {
    let base = match path_parent(manifest_path) {
        Some(p) => p,
        None => "."@,
    };
    path_joined(base, fixture)
}

} // verus!
