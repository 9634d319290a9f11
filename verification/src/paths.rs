//! Paths to resources on disk.
use vstd::prelude::*;

verus! {

/// The path of a resource on disk, relative to the directory of the project
/// file, together with the resource's name.
#[derive(Debug, Clone, PartialEq, Eq, Default)]
pub struct FilesystemPath {
    pub name: String,
    pub path: String,
}

/// The abstract value of a [`FilesystemPath`].
pub struct FilesystemPathView {
    pub name: Seq<char>,
    pub path: Seq<char>,
}

impl View for FilesystemPath {
    type V = FilesystemPathView;

    open spec fn view(&self) -> FilesystemPathView {
        FilesystemPathView { name: self.name@, path: self.path@ }
    }
}

impl FilesystemPath {
    /// A copy of this path.
    pub fn duplicate(&self) -> (r: Self)
        ensures
            r@ == self@,
    {
        FilesystemPath { name: self.name.clone(), path: self.path.clone() }
    }
}

/// A single path component: not empty, not `.` or `..`, and free of
/// separators, drive or stream markers, on every platform.
pub open spec fn is_simple_component(s: Seq<char>) -> bool {
    &&& s.len() > 0
    &&& s != seq!['.']
    &&& s != seq!['.', '.']
    &&& forall|i: int| 0 <= i < s.len() ==> s[i] != '/' && s[i] != '\\' && s[i] != ':'
}

/// `std::path::Path::join`: adjoins `rel` to `base`. On every platform a single
/// component is appended after `base` (with a separator where one is needed).
/// Which separator is used, and what happens for other relative paths or for
/// absolute ones, depends on the platform and is not stated here.
#[verifier::external_body]
pub(crate) fn path_join(base: &str, rel: &str) -> (r: String)
    ensures
        is_simple_component(rel@) ==> r@.len() >= base@.len() + rel@.len() && r@.subrange(
            0,
            base@.len() as int,
        ) == base@ && r@.subrange(r@.len() - rel@.len(), r@.len() as int) == rel@,
{
    std::path::Path::new(base).join(rel).to_string_lossy().into_owned()
}

/// `std::path::Path::parent`: the path without its final component, which is
/// a shorter beginning of it. The empty path has no parent. Where the parent
/// ends depends on the platform's separators and is not stated here.
#[verifier::external_body]
pub(crate) fn path_parent(p: &str) -> (r: Option<String>)
    ensures
        p@.len() == 0 ==> r is None,
        r matches Some(q) ==> q@.len() < p@.len() && p@.subrange(0, q@.len() as int) == q@,
{
    std::path::Path::new(p).parent().map(|q| q.to_string_lossy().into_owned())
}

/// `yy_typings::FilesystemPath::new`: the path of the resource `name` under
/// the directory `base`, which is `{base}/{name}/{name}.yy`, with the name kept.
#[verifier::external_body]
fn yy_filesystem_path(base: &str, name: &str) -> (r: (String, String))
    ensures
        r.0@ == name@,
        r.1@ == base@ + "/"@ + name@ + "/"@ + name@ + ".yy"@,
{
    let p = yy_typings::FilesystemPath::new(base, name);
    (p.name, p.path.to_string_lossy().into_owned())
}

/// `yy_typings::ViewPathLocation::root_file`: the location of a file at the
/// root of a project, which is the project's name followed by `.yyp`.
#[verifier::external_body]
pub(crate) fn yy_root_file_location(project_name: &str) -> (r: String)
    ensures
        r@ == project_name@ + ".yyp"@,
{
    yy_typings::ViewPathLocation::root_file(project_name).0
}

/// `yy_typings::ViewPathLocation::root_folder`: the location of the root
/// folder of every project, which is `folders`.
#[verifier::external_body]
pub(crate) fn yy_root_folder_location() -> (r: String)
    ensures
        r@ == "folders"@,
{
    yy_typings::ViewPathLocation::root_folder().0
}

impl FilesystemPath {
    /// The path of the resource `name` under the directory `base`:
    /// `{base}/{name}/{name}.yy`.
    pub fn new(base: &str, name: &str) -> (r: FilesystemPath)
        ensures
            r@.name == name@,
            r@.path == base@ + "/"@ + name@ + "/"@ + name@ + ".yy"@,
    {
        let (name, path) = yy_filesystem_path(base, name);
        FilesystemPath { name, path }
    }
}

} // verus!
