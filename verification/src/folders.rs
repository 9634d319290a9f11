//! The virtual folder tree of a project, as the IDE's asset browser shows it.
use vstd::prelude::*;
use crate::dirty_handler::{add_spec, law_add_then_remove_restores, remove_spec, replace_spec, untracked};
use crate::paths::{FilesystemPath, FilesystemPathView, yy_root_file_location, yy_root_folder_location};
use crate::resource_names::{
    ResourceDescriptor, ResourceDescriptorView, ResourceNameError, ResourceNames, ResourceNamesView, YypResource,
    insert_name, list_view, names_wf, remove_all, upsert_all,
};
use crate::resources::{Resource, base_name_spec};
use crate::string_map::{StringMap, str_eq};
use crate::view_paths::{
    component_names, component_paths, join, join_spec, lemma_join_components, lemma_root_components,
    simple_folder_name,
};

verus! {

/// Why an operation on the folder tree was refused.
#[derive(Debug, PartialEq, Eq)]
pub enum FolderGraphError {
    /// No folder is at the location given.
    PathNotFound(String),
    /// A folder of that name already exists there.
    FolderAlreadyPresent,
    /// A file of that name already exists there.
    FileAlreadyPresent,
    /// The tree is out of step with itself.
    InternalError,
    /// The folder is not empty.
    CannotRemoveFolder,
    /// The root folder cannot be removed.
    CannotRemoveRootFolder,
    /// A folder cannot be moved inside itself.
    InvalidMoveDestination,
    /// A resource name could not be used.
    ResourceNameError(ResourceNameError),
}

/// The abstract value of a [`FolderGraphError`].
pub enum FolderGraphErrorView {
    PathNotFound(Seq<char>),
    FolderAlreadyPresent,
    FileAlreadyPresent,
    InternalError,
    CannotRemoveFolder,
    CannotRemoveRootFolder,
    InvalidMoveDestination,
    ResourceNameError(ResourceNameError),
}

impl View for FolderGraphError {
    type V = FolderGraphErrorView;

    open spec fn view(&self) -> FolderGraphErrorView {
        match self {
            FolderGraphError::PathNotFound(s) => FolderGraphErrorView::PathNotFound(s@),
            FolderGraphError::FolderAlreadyPresent => FolderGraphErrorView::FolderAlreadyPresent,
            FolderGraphError::FileAlreadyPresent => FolderGraphErrorView::FileAlreadyPresent,
            FolderGraphError::InternalError => FolderGraphErrorView::InternalError,
            FolderGraphError::CannotRemoveFolder => FolderGraphErrorView::CannotRemoveFolder,
            FolderGraphError::CannotRemoveRootFolder => FolderGraphErrorView::CannotRemoveRootFolder,
            FolderGraphError::InvalidMoveDestination => FolderGraphErrorView::InvalidMoveDestination,
            FolderGraphError::ResourceNameError(e) => FolderGraphErrorView::ResourceNameError(*e),
        }
    }
}

/// A result of the folder tree, by its abstract value.
pub open spec fn result_view<T: View>(r: Result<T, FolderGraphError>) -> Result<T::V, FolderGraphErrorView> {
    match r {
        Ok(t) => Ok(t@),
        Err(e) => Err(e@),
    }
}

/// Whether a location names a folder or a resource.
#[derive(Debug, Clone, Copy, PartialEq, Eq, Ord, PartialOrd, Hash, Structural)]
pub enum Item {
    Folder,
    Resource,
}

/// A named location in the tree: a folder's or a resource's name with the
/// location of the folder itself.
#[derive(Debug, PartialEq, Eq)]
pub struct ViewPath {
    pub name: String,
    pub path: String,
}

/// The files of a folder, in order.
#[derive(Debug, PartialEq, Eq)]
pub struct Files {
    inner: Vec<FilesystemPath>,
}

/// A folder of the tree: its name, the location of its parent (none for the
/// root), its order and tags, its subfolders and its files.
pub struct FolderGraph {
    pub name: String,
    pub path_to_parent: Option<String>,
    pub order: usize,
    pub tags: Vec<String>,
    pub folders: Vec<FolderGraph>,
    pub files: Files,
}

/// The abstract value of a folder.
pub struct FolderGraphView {
    pub name: Seq<char>,
    pub path_to_parent: Option<Seq<char>>,
    pub order: usize,
    pub tags: Seq<Seq<char>>,
    pub folders: Seq<FolderGraphView>,
    pub files: Seq<FilesystemPathView>,
}

impl View for Files {
    type V = Seq<FilesystemPathView>;

    closed spec fn view(&self) -> Seq<FilesystemPathView> {
        self.inner@.map_values(|f: FilesystemPath| f@)
    }
}

/// A folder with nothing in it.
pub open spec fn empty_folder_view() -> FolderGraphView {
    FolderGraphView {
        name: Seq::empty(),
        path_to_parent: None,
        order: 0,
        tags: Seq::empty(),
        folders: Seq::empty(),
        files: Seq::empty(),
    }
}

/// The abstract value of a folder.
pub open spec fn folder_view(f: FolderGraph) -> FolderGraphView
    decreases f,
{
    FolderGraphView {
        name: f.name@,
        path_to_parent: match f.path_to_parent {
            Some(p) => Some(p@),
            None => None,
        },
        order: f.order,
        tags: f.tags@.map_values(|t: String| t@),
        folders: Seq::new(
            f.folders@.len(),
            |i: int|
                if 0 <= i < f.folders@.len() {
                    folder_view(f.folders@[i])
                } else {
                    empty_folder_view()
                },
        ),
        files: f.files@,
    }
}

/// The position of the first folder named `name` among `children`.
pub open spec fn child_index(children: Seq<FolderGraphView>, name: Seq<char>) -> Option<int>
    decreases children.len(),
{
    if children.len() == 0 {
        None
    } else {
        match child_index(children.drop_last(), name) {
            Some(i) => Some(i),
            None => if children.last().name == name {
                Some(children.len() - 1)
            } else {
                None
            },
        }
    }
}

/// The positions of the folders along the names `comps`, from `node` down.
pub open spec fn locate_names(node: FolderGraphView, comps: Seq<Seq<char>>) -> Option<Seq<int>>
    decreases comps.len(),
{
    if comps.len() == 0 {
        Some(Seq::empty())
    } else {
        match child_index(node.folders, comps[0]) {
            Some(i) => match locate_names(node.folders[i], comps.skip(1)) {
                Some(p) => Some(seq![i] + p),
                None => None,
            },
            None => None,
        }
    }
}

/// The positions of the folder at location `loc`, where `root_loc` is the
/// location of `root` itself. A location that is not `root_loc` must name at
/// least one folder below the root.
pub open spec fn locate(root: FolderGraphView, loc: Seq<char>, root_loc: Seq<char>) -> Option<Seq<int>> {
    if loc == root_loc {
        Some(Seq::empty())
    } else if component_names(loc).len() == 0 {
        None
    } else {
        locate_names(root, component_names(loc))
    }
}

/// Whether positions `p` lead from `node` to a folder.
pub open spec fn valid_path(node: FolderGraphView, p: Seq<int>) -> bool
    decreases p.len(),
{
    p.len() == 0 || (0 <= p[0] < node.folders.len() && valid_path(node.folders[p[0]], p.skip(1)))
}

/// The folder that positions `p` lead to.
pub open spec fn subtree_at(node: FolderGraphView, p: Seq<int>) -> FolderGraphView
    decreases p.len(),
{
    if p.len() == 0 {
        node
    } else {
        subtree_at(node.folders[p[0]], p.skip(1))
    }
}

/// The tree with the folder that positions `p` lead to replaced by `sub`.
pub open spec fn replace_at(node: FolderGraphView, p: Seq<int>, sub: FolderGraphView) -> FolderGraphView
    decreases p.len(),
{
    if p.len() == 0 {
        sub
    } else {
        FolderGraphView {
            folders: node.folders.update(p[0], replace_at(node.folders[p[0]], p.skip(1), sub)),
            ..node
        }
    }
}

/// Positions as integers.
pub open spec fn ints(p: Seq<usize>) -> Seq<int> {
    p.map_values(|x: usize| x as int)
}

proof fn lemma_child_index(children: Seq<FolderGraphView>, name: Seq<char>)
    ensures
        match child_index(children, name) {
            Some(i) => 0 <= i < children.len() && children[i].name == name && forall|j: int|
                0 <= j < i ==> children[j].name != name,
            None => forall|j: int| 0 <= j < children.len() ==> children[j].name != name,
        },
    decreases children.len(),
{
    if children.len() > 0 {
        lemma_child_index(children.drop_last(), name);
        assert forall|j: int| 0 <= j < children.len() - 1 implies children.drop_last()[j] == children[j] by {}
    }
}

proof fn lemma_locate_names_valid(node: FolderGraphView, comps: Seq<Seq<char>>)
    ensures
        locate_names(node, comps) matches Some(p) ==> valid_path(node, p) && p.len() == comps.len(),
    decreases comps.len(),
{
    if comps.len() > 0 {
        lemma_child_index(node.folders, comps[0]);
        if let Some(i) = child_index(node.folders, comps[0]) {
            lemma_locate_names_valid(node.folders[i], comps.skip(1));
            if let Some(p) = locate_names(node.folders[i], comps.skip(1)) {
                assert((seq![i] + p).skip(1) =~= p);
            }
        }
    }
}

/// A located folder is reached by valid positions.
pub proof fn lemma_locate_valid(root: FolderGraphView, loc: Seq<char>, root_loc: Seq<char>)
    ensures
        locate(root, loc, root_loc) matches Some(p) ==> valid_path(root, p),
{
    if loc != root_loc && component_names(loc).len() != 0 {
        lemma_locate_names_valid(root, component_names(loc));
    }
}

proof fn lemma_subtree_push(node: FolderGraphView, p: Seq<int>, i: int)
    requires
        valid_path(node, p),
    ensures
        subtree_at(node, p.push(i)) == subtree_at(node, p).folders[i],
        0 <= i < subtree_at(node, p).folders.len() ==> valid_path(node, p.push(i)),
    decreases p.len(),
{
    if p.len() > 0 {
        assert(p.push(i).skip(1) =~= p.skip(1).push(i));
        assert(p.push(i)[0] == p[0]);
        lemma_subtree_push(node.folders[p[0]], p.skip(1), i);
    } else {
        assert(p.push(i).skip(1) =~= Seq::<int>::empty());
        assert(p.push(i)[0] == i);
        assert(subtree_at(node.folders[i], Seq::<int>::empty()) == node.folders[i]);
        if 0 <= i < node.folders.len() {
            assert(valid_path(node.folders[i], p.push(i).skip(1)));
        }
    }
}

proof fn lemma_valid_prefix(node: FolderGraphView, p: Seq<int>)
    requires
        valid_path(node, p),
        p.len() > 0,
    ensures
        valid_path(node, p.drop_last()),
        0 <= p.last() < subtree_at(node, p.drop_last()).folders.len(),
        subtree_at(node, p) == subtree_at(node, p.drop_last()).folders[p.last()],
    decreases p.len(),
{
    if p.len() > 1 {
        lemma_valid_prefix(node.folders[p[0]], p.skip(1));
        assert(p.skip(1).drop_last() =~= p.drop_last().skip(1));
        assert(p.skip(1).last() == p.last());
        assert(p.drop_last()[0] == p[0]);
        assert(subtree_at(node, p.drop_last()) == subtree_at(node.folders[p[0]], p.drop_last().skip(1)));
    } else {
        assert(p.drop_last() =~= Seq::<int>::empty());
        assert(p.skip(1) =~= Seq::<int>::empty());
        assert(subtree_at(node.folders[p[0]], p.skip(1)) == node.folders[p[0]]);
    }
}

proof fn lemma_child_index_same_names(s: Seq<FolderGraphView>, t: Seq<FolderGraphView>, x: Seq<char>)
    requires
        s.len() == t.len(),
        forall|j: int| 0 <= j < s.len() ==> #[trigger] s[j].name == t[j].name,
    ensures
        child_index(s, x) == child_index(t, x),
    decreases s.len(),
{
    if s.len() > 0 {
        lemma_child_index_same_names(s.drop_last(), t.drop_last(), x);
    }
}

proof fn lemma_replace_keeps_name(node: FolderGraphView, p: Seq<int>, sub: FolderGraphView)
    requires
        valid_path(node, p),
        sub.name == subtree_at(node, p).name,
    ensures
        replace_at(node, p, sub).name == node.name,
{
}

proof fn lemma_locate_names_replace(
    node: FolderGraphView,
    cn: Seq<Seq<char>>,
    p: Seq<int>,
    sub: FolderGraphView,
    rest: Seq<Seq<char>>,
)
    requires
        locate_names(node, cn) == Some(p),
        sub.name == subtree_at(node, p).name,
    ensures
        locate_names(replace_at(node, p, sub), cn + rest) == match locate_names(sub, rest) {
            Some(q) => Some(p + q),
            None => None,
        },
    decreases cn.len(),
{
    lemma_locate_names_valid(node, cn);
    if cn.len() == 0 {
        assert(p =~= Seq::<int>::empty());
        assert(cn + rest =~= rest);
        assert forall|q: Seq<int>| #![auto] p + q =~= q by {}
    } else {
        let i = p[0];
        lemma_child_index(node.folders, cn[0]);
        let child = node.folders[i];
        let p1 = locate_names(child, cn.skip(1))->Some_0;
        assert(p =~= seq![i] + p1);
        assert(p.skip(1) =~= p1);
        lemma_locate_names_valid(child, cn.skip(1));
        assert(subtree_at(node, p) == subtree_at(child, p1));
        lemma_locate_names_replace(child, cn.skip(1), p1, sub, rest);
        lemma_replace_keeps_name(child, p1, sub);
        let new_node = replace_at(node, p, sub);
        let new_child = replace_at(child, p1, sub);
        assert(new_node.folders == node.folders.update(i, new_child));
        lemma_child_index_same_names(node.folders, new_node.folders, cn[0]);
        assert((cn + rest)[0] == cn[0]);
        assert((cn + rest).skip(1) =~= cn.skip(1) + rest);
        assert forall|q: Seq<int>| #![auto] seq![i] + (p1 + q) =~= p + q by {}
    }
}

/// Replacing a folder and then reading it back gives the replacement.
pub proof fn lemma_subtree_of_replace(node: FolderGraphView, p: Seq<int>, sub: FolderGraphView)
    requires
        valid_path(node, p),
    ensures
        subtree_at(replace_at(node, p, sub), p) == sub,
        valid_path(replace_at(node, p, sub), p),
    decreases p.len(),
{
    if p.len() > 0 {
        lemma_subtree_of_replace(node.folders[p[0]], p.skip(1), sub);
    }
}

/// Replacing the same folder twice keeps only the second replacement.
pub proof fn lemma_replace_twice(node: FolderGraphView, p: Seq<int>, a: FolderGraphView, b: FolderGraphView)
    requires
        valid_path(node, p),
    ensures
        replace_at(replace_at(node, p, a), p, b) == replace_at(node, p, b),
    decreases p.len(),
{
    if p.len() > 0 {
        lemma_replace_twice(node.folders[p[0]], p.skip(1), a, b);
        let inner = replace_at(node.folders[p[0]], p.skip(1), a);
        assert(node.folders.update(p[0], inner).update(p[0], replace_at(inner, p.skip(1), b)) =~= node.folders.update(
            p[0],
            replace_at(node.folders[p[0]], p.skip(1), b),
        ));
    }
}

/// Replacing a folder with itself changes nothing.
pub proof fn lemma_replace_same(node: FolderGraphView, p: Seq<int>)
    requires
        valid_path(node, p),
    ensures
        replace_at(node, p, subtree_at(node, p)) == node,
    decreases p.len(),
{
    if p.len() > 0 {
        lemma_replace_same(node.folders[p[0]], p.skip(1));
        assert(node.folders.update(p[0], node.folders[p[0]]) =~= node.folders);
    }
}

/// The position of the first file named `name` among `files`.
pub open spec fn file_index(files: Seq<FilesystemPathView>, name: Seq<char>) -> Option<int>
    decreases files.len(),
{
    if files.len() == 0 {
        None
    } else {
        match file_index(files.drop_last(), name) {
            Some(i) => Some(i),
            None => if files.last().name == name {
                Some(files.len() - 1)
            } else {
                None
            },
        }
    }
}

proof fn lemma_file_index(files: Seq<FilesystemPathView>, name: Seq<char>)
    ensures
        match file_index(files, name) {
            Some(i) => 0 <= i < files.len() && files[i].name == name && forall|j: int|
                0 <= j < i ==> files[j].name != name,
            None => forall|j: int| 0 <= j < files.len() ==> files[j].name != name,
        },
    decreases files.len(),
{
    if files.len() > 0 {
        lemma_file_index(files.drop_last(), name);
        assert forall|j: int| 0 <= j < files.len() - 1 implies files.drop_last()[j] == files[j] by {}
    }
}

/// The path on disk of the resource `name` of kind `r`:
/// `{directory of r}/{name}/{name}.yy`.
pub open spec fn resource_path_view(r: Resource, name: Seq<char>) -> FilesystemPathView {
    FilesystemPathView { name, path: base_name_spec(r) + "/"@ + name + "/"@ + name + ".yy"@ }
}

/// The files without the first one named `name`, if there is one.
pub open spec fn without_file(files: Seq<FilesystemPathView>, name: Seq<char>) -> Seq<FilesystemPathView> {
    match file_index(files, name) {
        Some(i) => files.remove(i),
        None => files,
    }
}

impl Files {
    /// No files.
    pub fn new() -> (f: Self)
        ensures
            f@ == Seq::<FilesystemPathView>::empty(),
    {
        let f = Files { inner: Vec::new() };
        proof {
            assert(f@ =~= Seq::<FilesystemPathView>::empty());
        }
        f
    }

    /// The given files, in order.
    pub fn with_vec(fpaths: Vec<FilesystemPath>) -> (f: Self)
        ensures
            f@ == fpaths@.map_values(|p: FilesystemPath| p@),
    {
        Files { inner: fpaths }
    }

    /// Whether no file is held.
    pub fn is_empty(&self) -> (b: bool)
        ensures
            b == (self@.len() == 0),
    {
        self.inner.len() == 0
    }

    /// The files, in order.
    pub fn inner(&self) -> (v: &Vec<FilesystemPath>)
        ensures
            v@.map_values(|p: FilesystemPath| p@) == self@,
    {
        &self.inner
    }

    /// Whether a file of the given name is held.
    pub fn contains_name(&self, name: &str) -> (b: bool)
        ensures
            b == file_index(self@, name@) is Some,
            b == (exists|i: int| 0 <= i < self@.len() && #[trigger] self@[i].name == name@),
    {
        proof {
            lemma_file_index(self@, name@);
        }
        match self.position_of(name) {
            Some(i) => {
                proof {
                    assert(self@[i as int].name == name@);
                }
                true
            },
            None => false,
        }
    }

    /// The position of the first file of the given name.
    fn position_of(&self, name: &str) -> (r: Option<usize>)
        ensures
            r matches Some(i) ==> file_index(self@, name@) == Some(i as int),
            r is None ==> file_index(self@, name@) is None,
    {
        proof {
            lemma_file_index(self@, name@);
        }
        let mut i: usize = 0;
        while i < self.inner.len()
            invariant
                i <= self.inner@.len(),
                forall|j: int| 0 <= j < i ==> #[trigger] self@[j].name != name@,
                match file_index(self@, name@) {
                    Some(k) => 0 <= k < self@.len() && self@[k].name == name@ && forall|j: int|
                        0 <= j < k ==> self@[j].name != name@,
                    None => forall|j: int| 0 <= j < self@.len() ==> self@[j].name != name@,
                },
            decreases self.inner@.len() - i,
        {
            if str_eq(self.inner[i].name.as_str(), name) {
                proof {
                    assert(self@[i as int].name == name@);
                }
                return Some(i);
            }
            i = i + 1;
        }
        None
    }

    /// Appends a file.
    pub fn attach(&mut self, fsyspath: FilesystemPath)
        ensures
            final(self)@ == old(self)@.push(fsyspath@),
    {
        self.inner.push(fsyspath);
        proof {
            assert(self@ =~= old(self)@.push(fsyspath@));
        }
    }

    /// Takes out the first file of the given name, if any, and returns it.
    pub fn detach(&mut self, name: &str) -> (r: Option<FilesystemPath>)
        ensures
            final(self)@ == without_file(old(self)@, name@),
            r is Some <==> file_index(old(self)@, name@) is Some,
            r matches Some(f) ==> f@ == old(self)@[file_index(old(self)@, name@)->Some_0],
    {
        proof {
            lemma_file_index(self@, name@);
        }
        match self.position_of(name) {
            Some(i) => {
                let f = self.inner.remove(i);
                proof {
                    assert(self@ =~= old(self)@.remove(i as int));
                }
                Some(f)
            },
            None => None,
        }
    }

    /// Appends the file of a resource found on startup, and records its name,
    /// which needs no writing.
    pub fn load_in(&mut self, name: &str, resource: Resource, parent_location: &str, order: usize, rn: &mut ResourceNames)
        ensures
            final(self)@ == old(self)@.push(resource_path_view(resource, name@)),
            final(rn)@.names == old(rn)@.names.insert(
                name@,
                ResourceDescriptorView { resource, order, parent_location: parent_location@ },
            ),
            final(rn)@.dirty == old(rn)@.dirty,
            names_wf(old(rn)@) ==> names_wf(final(rn)@),
    {
        self.attach(FilesystemPath::new(resource.base_name(), name));
        rn.load_in_resource(name.to_string(), ResourceDescriptor::new(resource, order, parent_location.to_string()));
    }

    /// Appends the file of a new resource, and records its name, marking it
    /// as added (or as replaced, where the name was known).
    pub fn add(&mut self, name: &str, resource: Resource, parent_location: &str, order: usize, rn: &mut ResourceNames)
        ensures
            final(self)@ == old(self)@.push(resource_path_view(resource, name@)),
            final(rn)@.names == old(rn)@.names.insert(
                name@,
                ResourceDescriptorView { resource, order, parent_location: parent_location@ },
            ),
            old(rn)@.names.contains_key(name@) ==> final(rn)@.dirty == replace_spec(old(rn)@.dirty, name@),
            !old(rn)@.names.contains_key(name@) ==> final(rn)@.dirty == add_spec(old(rn)@.dirty, name@),
            names_wf(old(rn)@) ==> names_wf(final(rn)@),
    {
        self.attach(FilesystemPath::new(resource.base_name(), name));
        rn.insert(name.to_string(), ResourceDescriptor::new(resource, order, parent_location.to_string()));
    }

    /// Takes out the first file named `name` and forgets the name, marking it
    /// as removed where it was known.
    pub fn remove(&mut self, name: &str, rn: &mut ResourceNames)
        ensures
            final(self)@ == without_file(old(self)@, name@),
            final(rn)@.names == old(rn)@.names.remove(name@),
            old(rn)@.names.contains_key(name@) ==> final(rn)@.dirty == remove_spec(old(rn)@.dirty, name@),
            !old(rn)@.names.contains_key(name@) ==> final(rn)@.dirty == old(rn)@.dirty,
            names_wf(old(rn)@) ==> names_wf(final(rn)@),
    {
        self.detach(name);
        rn.remove(name);
    }

    /// Renames the first file named `name` to `new_name`, as a resource of
    /// kind `resource`, and moves the name's record to the new name.
    pub fn edit_name(&mut self, name: &str, new_name: String, resource: Resource, rn: &mut ResourceNames)
        ensures
            final(self)@ == match file_index(old(self)@, name@) {
                Some(i) => old(self)@.update(i, resource_path_view(resource, new_name@)),
                None => old(self)@,
            },
            old(rn)@.names.contains_key(name@) ==> final(rn)@.names == old(rn)@.names.remove(name@).insert(
                new_name@,
                old(rn)@.names[name@],
            ),
            old(rn)@.names.contains_key(name@) ==> final(rn)@.dirty == (if old(rn)@.names.remove(
                name@,
            ).contains_key(new_name@) {
                replace_spec(remove_spec(old(rn)@.dirty, name@), new_name@)
            } else {
                add_spec(remove_spec(old(rn)@.dirty, name@), new_name@)
            }),
            !old(rn)@.names.contains_key(name@) ==> final(rn)@ == old(rn)@,
            names_wf(old(rn)@) ==> names_wf(final(rn)@),
    {
        match self.position_of(name) {
            Some(i) => {
                proof {
                    lemma_file_index(self@, name@);
                }
                let _ = self.inner.remove(i);
                self.inner.insert(i, FilesystemPath::new(resource.base_name(), new_name.as_str()));
                proof {
                    assert(self@ =~= old(self)@.update(i as int, resource_path_view(resource, new_name@)));
                }
            },
            None => {},
        }
        match rn.remove(name) {
            Some(desc) => {
                rn.insert(new_name, desc);
            },
            None => {
                proof {
                    assert(rn@.names =~= old(rn)@.names);
                }
            },
        }
    }
}

impl FolderGraph {
    /// A folder with nothing in it, used while a folder is taken out of the tree.
    fn placeholder() -> (f: Self)
        ensures
            folder_view(f) == empty_folder_view(),
    {
        let f = FolderGraph {
            name: String::new(),
            path_to_parent: None,
            order: 0,
            tags: Vec::new(),
            folders: Vec::new(),
            files: Files::new(),
        };
        proof {
            assert(folder_view(f).tags =~= Seq::<Seq<char>>::empty());
            assert(folder_view(f).folders =~= Seq::<FolderGraphView>::empty());
        }
        f
    }
}

/// The abstract values of a list of folders.
pub open spec fn views_of(s: Seq<FolderGraph>) -> Seq<FolderGraphView> {
    Seq::new(s.len(), |j: int| folder_view(s[j]))
}

/// A folder's subfolders, as abstract values.
pub proof fn lemma_folder_view_folders(f: FolderGraph)
    ensures
        folder_view(f).folders == views_of(f.folders@),
{
    assert(folder_view(f).folders =~= views_of(f.folders@));
}

/// The position of the first folder named `name` among `folders`.
pub fn child_position(folders: &Vec<FolderGraph>, name: &str) -> (r: Option<usize>)
    ensures
        r matches Some(i) ==> child_index(views_of(folders@), name@) == Some(i as int),
        r is None ==> child_index(views_of(folders@), name@) is None,
{
    let ghost views = views_of(folders@);
    let mut i: usize = 0;
    while i < folders.len()
        invariant
            i <= folders@.len(),
            views == views_of(folders@),
            forall|j: int| 0 <= j < i ==> views[j].name != name@,
        decreases folders@.len() - i,
    {
        if str_eq(folders[i].name.as_str(), name) {
            proof {
                assert(views[i as int].name == name@);
                lemma_child_index(views, name@);
            }
            return Some(i);
        }
        i = i + 1;
    }
    proof {
        lemma_child_index(views, name@);
    }
    None
}


/// A folder just created under the folder at location `parent`.
pub open spec fn new_folder_view(name: Seq<char>, parent: Seq<char>, order: usize) -> FolderGraphView {
    FolderGraphView {
        name: name,
        path_to_parent: Some(parent),
        order: order,
        tags: Seq::empty(),
        folders: Seq::empty(),
        files: Seq::empty(),
    }
}

/// The root folder of every project, named `folders`.
pub open spec fn root_folder_view() -> FolderGraphView {
    FolderGraphView { name: "folders"@, ..empty_folder_view() }
}

impl FolderGraph {
    /// The root folder of a project, named `folders`, with nothing in it.
    pub fn root() -> (f: Self)
        ensures
            folder_view(f) == root_folder_view(),
    {
        let f = FolderGraph {
            name: "folders".to_string(),
            path_to_parent: None,
            order: 0,
            tags: Vec::new(),
            folders: Vec::new(),
            files: Files::new(),
        };
        proof {
            assert(folder_view(f).tags =~= Seq::<Seq<char>>::empty());
            assert(folder_view(f).folders =~= Seq::<FolderGraphView>::empty());
        }
        f
    }

    /// A folder named `name` under the folder at location `parent`, with the
    /// given tags and order and nothing in it.
    pub fn new(name: String, parent: String, tags: Vec<String>, order: usize) -> (f: Self)
        ensures
            folder_view(f) == (FolderGraphView {
                tags: tags@.map_values(|t: String| t@),
                ..new_folder_view(name@, parent@, order)
            }),
    {
        let f = FolderGraph {
            name: name,
            path_to_parent: Some(parent),
            order: order,
            tags: tags,
            folders: Vec::new(),
            files: Files::new(),
        };
        proof {
            assert(folder_view(f).folders =~= Seq::<FolderGraphView>::empty());
        }
        f
    }
}

/// The location of the folder `f`: its name joined to its parent's location,
/// or `folders` for a folder without a parent.
pub open spec fn location_of(f: FolderGraphView) -> Seq<char> {
    match f.path_to_parent {
        Some(pp) => join_spec(pp, f.name),
        None => root_folder_location(),
    }
}

impl FolderGraph {
    /// The location of this folder: its name joined to its parent's location,
    /// or the root location for a folder without a parent.
    pub fn view_path_location(&self) -> (r: String)
        ensures
            r@ == location_of(folder_view(*self)),
    {
        match &self.path_to_parent {
            Some(parent_path) => join(parent_path.as_str(), self.name.as_str()),
            None => yy_root_folder_location(),
        }
    }

    /// The name and location of this folder.
    pub fn view_path(&self) -> (r: ViewPath)
        ensures
            r@ == (ViewPathView { name: self.name@, path: location_of(folder_view(*self)) }),
    {
        let path = self.view_path_location();
        ViewPath { name: self.name.clone(), path }
    }
}

/// The positions of the first folder, in depth-first order from `f` itself,
/// that holds a file named `name`.
pub open spec fn fname_path(f: FolderGraphView, name: Seq<char>) -> Option<Seq<int>>
    decreases f, 0int,
{
    if file_index(f.files, name) is Some {
        Some(Seq::empty())
    } else {
        fname_path_from(f.folders, 0, name)
    }
}

/// The positions of the first folder, in depth-first order among the trees
/// `fs[i..]`, that holds a file named `name`, starting with the tree's position.
pub open spec fn fname_path_from(fs: Seq<FolderGraphView>, i: int, name: Seq<char>) -> Option<Seq<int>>
    decreases fs, fs.len() - i,
{
    if 0 <= i < fs.len() {
        match fname_path(fs[i], name) {
            Some(q) => Some(seq![i] + q),
            None => fname_path_from(fs, i + 1, name),
        }
    } else {
        None
    }
}

impl FolderGraph {
    /// The first folder, in depth-first order from this one, that holds a
    /// file named `name`.
    pub fn get_folder_by_fname<'a>(&'a self, name: &str) -> (r: Option<&'a FolderGraph>)
        ensures
            match fname_path(folder_view(*self), name@) {
                Some(p) => r matches Some(f) && valid_path(folder_view(*self), p) && folder_view(*f)
                    == subtree_at(folder_view(*self), p),
                None => r is None,
            },
        decreases self,
    {
        let ghost fv = folder_view(*self);
        if self.files.contains_name(name) {
            return Some(self);
        }
        proof {
            lemma_folder_view_folders(*self);
        }
        let mut i: usize = 0;
        while i < self.folders.len()
            invariant
                i <= self.folders@.len(),
                fv == folder_view(*self),
                fv.folders == views_of(self.folders@),
                fname_path(fv, name@) == fname_path_from(fv.folders, i as int, name@),
            decreases self.folders@.len() - i,
        {
            proof {
                assert(decreases_to!(*self => self.folders@[i as int]));
            }
            match self.folders[i].get_folder_by_fname(name) {
                Some(found) => {
                    proof {
                        let q = fname_path(fv.folders[i as int], name@)->Some_0;
                        let p = seq![i as int] + q;
                        assert(p[0] == i as int);
                        assert(p.skip(1) =~= q);
                    }
                    return Some(found);
                },
                None => {},
            }
            i = i + 1;
        }
        None
    }
}

/// A resource file of a folder with what the registry knows of it.
pub struct FlatResourceDescriptor {
    pub filesystem_path: FilesystemPath,
    pub resource_descriptor: ResourceDescriptor,
}

/// A folder seen on its own: its name and location, its parent's location,
/// the names and locations of its subfolders, and those of its files that the
/// registry knows, with what it knows of them.
pub struct FlatFolderGraph {
    pub view_path: ViewPath,
    pub path_to_parent: Option<String>,
    pub folders: Vec<ViewPath>,
    pub files: Vec<FlatResourceDescriptor>,
}

/// The name and location of the folder `f`.
pub open spec fn view_path_of(f: FolderGraphView) -> ViewPathView {
    ViewPathView { name: f.name, path: location_of(f) }
}

/// The files among `files` whose names `names` knows, each with its record.
pub open spec fn known_files(
    files: Seq<FilesystemPathView>,
    names: Map<Seq<char>, ResourceDescriptorView>,
) -> Seq<(FilesystemPathView, ResourceDescriptorView)>
    decreases files.len(),
{
    if files.len() == 0 {
        Seq::empty()
    } else {
        let prev = known_files(files.drop_last(), names);
        if names.contains_key(files.last().name) {
            prev.push((files.last(), names[files.last().name]))
        } else {
            prev
        }
    }
}

impl FolderGraph {
    /// This folder seen on its own, with its files that `resource_names` knows.
    pub fn to_flat(&self, resource_names: &ResourceNames) -> (r: FlatFolderGraph)
        ensures
            r.view_path@ == view_path_of(folder_view(*self)),
            r.path_to_parent == self.path_to_parent,
            r.folders@.map_values(|v: ViewPath| v@) == folder_view(*self).folders.map_values(
                |c: FolderGraphView| view_path_of(c),
            ),
            r.files@.map_values(|e: FlatResourceDescriptor| (e.filesystem_path@, e.resource_descriptor@))
                == known_files(folder_view(*self).files, resource_names@.names),
    {
        let ghost fv = folder_view(*self);
        proof {
            lemma_folder_view_folders(*self);
        }
        let mut folders: Vec<ViewPath> = Vec::new();
        let mut i: usize = 0;
        while i < self.folders.len()
            invariant
                i <= self.folders@.len(),
                fv == folder_view(*self),
                fv.folders == views_of(self.folders@),
                folders@.map_values(|v: ViewPath| v@) == fv.folders.take(i as int).map_values(
                    |c: FolderGraphView| view_path_of(c),
                ),
            decreases self.folders@.len() - i,
        {
            let vp = self.folders[i].view_path();
            let ghost before = folders@;
            proof {
                assert(fv.folders[i as int] == folder_view(self.folders@[i as int]));
                assert(vp@ == view_path_of(fv.folders[i as int]));
            }
            folders.push(vp);
            proof {
                assert(folders@.map_values(|v: ViewPath| v@) =~= before.map_values(|v: ViewPath| v@).push(vp@));
                assert(fv.folders.take(i as int + 1) =~= fv.folders.take(i as int).push(fv.folders[i as int]));
                assert(folders@.map_values(|v: ViewPath| v@) =~= fv.folders.take(i as int + 1).map_values(
                    |c: FolderGraphView| view_path_of(c),
                ));
            }
            i = i + 1;
        }
        proof {
            assert(fv.folders.take(i as int) =~= fv.folders);
        }
        let inner = self.files.inner();
        let ghost fs = fv.files;
        let mut files: Vec<FlatResourceDescriptor> = Vec::new();
        let mut j: usize = 0;
        proof {
            assert(fs.take(0) =~= Seq::<FilesystemPathView>::empty());
        }
        while j < inner.len()
            invariant
                j <= inner@.len(),
                fs == inner@.map_values(|p: FilesystemPath| p@),
                files@.map_values(|e: FlatResourceDescriptor| (e.filesystem_path@, e.resource_descriptor@))
                    == known_files(fs.take(j as int), resource_names@.names),
            decreases inner@.len() - j,
        {
            proof {
                assert(fs.take(j as int + 1).drop_last() =~= fs.take(j as int));
                assert(fs.take(j as int + 1).last() == inner@[j as int]@);
            }
            match resource_names.get(inner[j].name.as_str()) {
                Some(rd) => {
                    let ghost before = files@;
                    let e = FlatResourceDescriptor {
                        filesystem_path: inner[j].duplicate(),
                        resource_descriptor: rd.duplicate(),
                    };
                    files.push(e);
                    proof {
                        assert(files@.map_values(|e: FlatResourceDescriptor| (e.filesystem_path@, e.resource_descriptor@))
                            =~= before.map_values(|e: FlatResourceDescriptor| (e.filesystem_path@, e.resource_descriptor@)).push(
                            (inner@[j as int]@, resource_names@.names[inner@[j as int].name@]),
                        ));
                    }
                },
                None => {},
            }
            j = j + 1;
        }
        proof {
            assert(fs.take(j as int) =~= fs);
        }
        FlatFolderGraph {
            view_path: self.view_path(),
            path_to_parent: match &self.path_to_parent {
                Some(p) => Some(p.clone()),
                None => None,
            },
            folders,
            files,
        }
    }
}

/// `node` with a subfolder named `name` appended, unless it has one: a new one
/// has `node`'s location as its parent, order 0, and nothing in it.
pub open spec fn ensure_child(node: FolderGraphView, name: Seq<char>) -> FolderGraphView {
    if child_index(node.folders, name) is Some {
        node
    } else {
        with_child(node, new_folder_view(name, location_of(node), 0))
    }
}

/// `node` with a folder along each of the names `comps`, created where missing.
pub open spec fn ensure_names(node: FolderGraphView, comps: Seq<Seq<char>>) -> FolderGraphView
    decreases comps.len(),
{
    if comps.len() == 0 {
        node
    } else {
        let n1 = ensure_child(node, comps[0]);
        let i = child_index(n1.folders, comps[0])->Some_0;
        FolderGraphView { folders: n1.folders.update(i, ensure_names(n1.folders[i], comps.skip(1))), ..n1 }
    }
}

proof fn lemma_ensure_child(node: FolderGraphView, name: Seq<char>)
    ensures
        child_index(ensure_child(node, name).folders, name) is Some,
        ensure_child(node, name).name == node.name,
{
    lemma_child_index(node.folders, name);
    if child_index(node.folders, name) is None {
        let n1 = ensure_child(node, name);
        assert(n1.folders.drop_last() =~= node.folders);
    }
}

/// After the folders along `comps` are ensured, they are found along `comps`.
proof fn lemma_ensure_names_located(node: FolderGraphView, comps: Seq<Seq<char>>)
    ensures
        locate_names(ensure_names(node, comps), comps) is Some,
        ensure_names(node, comps).name == node.name,
    decreases comps.len(),
{
    if comps.len() > 0 {
        let n1 = ensure_child(node, comps[0]);
        lemma_ensure_child(node, comps[0]);
        let i = child_index(n1.folders, comps[0])->Some_0;
        lemma_child_index(n1.folders, comps[0]);
        lemma_ensure_names_located(n1.folders[i], comps.skip(1));
        let e = ensure_names(node, comps);
        lemma_child_index_same_names(n1.folders, e.folders, comps[0]);
    }
}

/// Ensures that a folder exists along each of the names `comps[k..]` below
/// `node`, creating missing ones.
fn ensure_path(node: &mut FolderGraph, comps: &Vec<String>, k: usize)
    requires
        k <= comps@.len(),
    ensures
        folder_view(*final(node)) == ensure_names(
            folder_view(*old(node)),
            comps@.map_values(|c: String| c@).skip(k as int),
        ),
    decreases comps@.len() - k,
{
    let ghost names = comps@.map_values(|c: String| c@).skip(k as int);
    if k == comps.len() {
        proof {
            assert(names.len() == 0);
        }
        return;
    }
    let ghost nv = folder_view(*node);
    proof {
        lemma_folder_view_folders(*node);
        assert(names[0] == comps@[k as int]@);
        lemma_child_index(nv.folders, names[0]);
    }
    let i = match child_position(&node.folders, comps[k].as_str()) {
        Some(i) => i,
        None => {
            let loc = node.view_path_location();
            let child = FolderGraph::new(comps[k].clone(), loc, Vec::new(), 0);
            proof {
                assert(folder_view(child).tags =~= Seq::<Seq<char>>::empty());
            }
            node.folders.push(child);
            proof {
                lemma_folder_view_folders(*node);
                assert(folder_view(*node).folders =~= nv.folders.push(folder_view(child)));
                assert(folder_view(*node) == ensure_child(nv, names[0]));
            }
            node.folders.len() - 1
        },
    };
    let ghost n1 = folder_view(*node);
    proof {
        lemma_ensure_child(nv, names[0]);
        assert(n1 == ensure_child(nv, names[0]));
        lemma_child_index(n1.folders, names[0]);
        lemma_folder_view_folders(*node);
        assert(names.skip(1) =~= comps@.map_values(|c: String| c@).skip(k + 1));
    }
    let ghost before = *node;
    let mut child = node.folders.remove(i);
    ensure_path(&mut child, comps, k + 1);
    node.folders.insert(i, child);
    proof {
        lemma_folder_view_folders(*node);
        assert(node.folders@ =~= before.folders@.update(i as int, child));
        assert(folder_view(*node).folders =~= n1.folders.update(i as int, folder_view(child)));
        assert(folder_view(*node).tags =~= n1.tags);
    }
}

/// Takes the folder that positions `p[k..]` lead to out of `node`, leaving an
/// empty folder in its place.
fn take_at(node: &mut FolderGraph, p: &Vec<usize>, k: usize) -> (sub: FolderGraph)
    requires
        k <= p@.len(),
        valid_path(folder_view(*old(node)), ints(p@).skip(k as int)),
    ensures
        folder_view(sub) == subtree_at(folder_view(*old(node)), ints(p@).skip(k as int)),
        folder_view(*final(node)) == replace_at(
            folder_view(*old(node)),
            ints(p@).skip(k as int),
            empty_folder_view(),
        ),
    decreases p@.len() - k,
{
    let ghost q = ints(p@).skip(k as int);
    if k == p.len() {
        let mut sub = FolderGraph::placeholder();
        std::mem::swap(node, &mut sub);
        proof {
            assert(q.len() == 0);
        }
        sub
    } else {
        let i = p[k];
        proof {
            assert(q[0] == i as int);
            assert(q.skip(1) =~= ints(p@).skip(k + 1));
            lemma_folder_view_folders(*node);
        }
        let ghost old_node = *node;
        let mut child = node.folders.remove(i);
        let sub = take_at(&mut child, p, k + 1);
        node.folders.insert(i, child);
        proof {
            lemma_folder_view_folders(*node);
            assert(node.folders@ =~= old_node.folders@.update(i as int, child));
            assert(folder_view(*node).folders =~= folder_view(old_node).folders.update(
                i as int,
                folder_view(child),
            ));
            assert(folder_view(*node).tags =~= folder_view(old_node).tags);
        }
        sub
    }
}

/// Puts `sub` in place of the folder that positions `p[k..]` lead to in `node`.
fn put_at(node: &mut FolderGraph, p: &Vec<usize>, k: usize, sub: FolderGraph)
    requires
        k <= p@.len(),
        valid_path(folder_view(*old(node)), ints(p@).skip(k as int)),
    ensures
        folder_view(*final(node)) == replace_at(
            folder_view(*old(node)),
            ints(p@).skip(k as int),
            folder_view(sub),
        ),
    decreases p@.len() - k,
{
    let ghost q = ints(p@).skip(k as int);
    if k == p.len() {
        *node = sub;
        proof {
            assert(q.len() == 0);
        }
    } else {
        let i = p[k];
        proof {
            assert(q[0] == i as int);
            assert(q.skip(1) =~= ints(p@).skip(k + 1));
            lemma_folder_view_folders(*node);
        }
        let ghost old_node = *node;
        let mut child = node.folders.remove(i);
        put_at(&mut child, p, k + 1, sub);
        node.folders.insert(i, child);
        proof {
            lemma_folder_view_folders(*node);
            assert(node.folders@ =~= old_node.folders@.update(i as int, child));
            assert(folder_view(*node).folders =~= folder_view(old_node).folders.update(
                i as int,
                folder_view(child),
            ));
            assert(folder_view(*node).tags =~= folder_view(old_node).tags);
        }
    }
}


/// The positions of, and the folder at, location `view_path` in the tree under
/// `root` (see [`locate`]).
fn locate_in<'a>(root: &'a FolderGraph, view_path: &str, root_view: &str) -> (r: Option<(Vec<usize>, &'a FolderGraph)>)
    ensures
        match locate(folder_view(*root), view_path@, root_view@) {
            Some(p) => r matches Some((v, f)) && ints(v@) == p && folder_view(*f) == subtree_at(folder_view(*root), p),
            None => r is None,
        },
{
    if str_eq(view_path, root_view) {
        let v: Vec<usize> = Vec::new();
        proof {
            assert(ints(v@) =~= Seq::<int>::empty());
        }
        return Some((v, root));
    }
    let comps = component_paths(view_path);
    if comps.len() == 0 {
        return None;
    }
    let ghost names = component_names(view_path@);
    let ghost rv = folder_view(*root);
    let mut folder: &FolderGraph = root;
    let mut k: usize = 0;
    let mut positions: Vec<usize> = Vec::new();
    let ghost mut p: Seq<int> = Seq::empty();
    proof {
        assert(names.skip(0) =~= names);
        assert(p + Seq::<int>::empty() =~= p);
        assert(forall|q: Seq<int>| p + q =~= q);
    }
    while k < comps.len()
        invariant
            k <= comps@.len(),
            view_path@ != root_view@,
            names == component_names(view_path@),
            names.len() > 0,
            rv == folder_view(*root),
            comps@.map_values(|c: String| c@) == names,
            valid_path(rv, p),
            ints(positions@) == p,
            folder_view(*folder) == subtree_at(rv, p),
            locate_names(rv, names) == match locate_names(folder_view(*folder), names.skip(k as int)) {
                Some(q) => Some(p + q),
                None => None,
            },
        decreases comps@.len() - k,
    {
        let ghost fv = folder_view(*folder);
        proof {
            lemma_folder_view_folders(*folder);
            assert(names.skip(k as int)[0] == names[k as int]);
            assert(names[k as int] == comps@[k as int]@);
        }
        let pos = child_position(&folder.folders, comps[k].as_str());
        match pos {
            None => {
                proof {
                    assert(names.skip(k as int).len() > 0);
                    assert(child_index(fv.folders, names.skip(k as int)[0]) is None);
                    assert(locate_names(fv, names.skip(k as int)) is None);
                    assert(names.len() > 0);
                }
                return None;
            },
            Some(i) => {
                proof {
                    lemma_child_index(fv.folders, names[k as int]);
                    assert(names.skip(k as int).skip(1) =~= names.skip(k + 1));
                    lemma_subtree_push(rv, p, i as int);
                    assert forall|q: Seq<int>| #![auto] p + (seq![i as int] + q) =~= p.push(i as int) + q by {}
                }
                folder = &folder.folders[i];
                positions.push(i);
                proof {
                    p = p.push(i as int);
                    assert(ints(positions@) =~= p);
                }
                k = k + 1;
            },
        }
    }
    proof {
        assert(names.skip(k as int) =~= Seq::<Seq<char>>::empty());
        assert(p + Seq::<int>::empty() =~= p);
    }
    Some((positions, folder))
}

/// The abstract value of a [`ViewPath`].
pub struct ViewPathView {
    pub name: Seq<char>,
    pub path: Seq<char>,
}

impl View for ViewPath {
    type V = ViewPathView;

    open spec fn view(&self) -> ViewPathView {
        ViewPathView { name: self.name@, path: self.path@ }
    }
}

/// How a folder came to need writing to, or removing from, the project file:
/// over its whole lifetime (created, or present on disk and now deleted), or
/// by an edit of a folder that the file already lists.
#[derive(Debug, Copy, Clone, PartialEq, Eq, Ord, PartialOrd, Hash, Structural)]
pub enum FolderDirtyState {
    Lifetime,
    Edit,
}

/// The virtual file system of a project: the folder tree, the registry of
/// resource names, and which folders must be written to or removed from the
/// project file on the next save.
pub struct Vfs {
    pub resource_names: ResourceNames,
    root: FolderGraph,
    root_resource: ViewPath,
    to_serialize: StringMap<FolderDirtyState>,
    to_remove: StringMap<FolderDirtyState>,
}

/// The abstract value of a [`Vfs`].
pub struct VfsView {
    pub names: ResourceNamesView,
    pub root: FolderGraphView,
    pub root_resource: ViewPathView,
    pub to_serialize: Map<Seq<char>, FolderDirtyState>,
    pub to_remove: Map<Seq<char>, FolderDirtyState>,
}

impl View for Vfs {
    type V = VfsView;

    closed spec fn view(&self) -> VfsView {
        VfsView {
            names: self.resource_names@,
            root: folder_view(self.root),
            root_resource: self.root_resource@,
            to_serialize: self.to_serialize@,
            to_remove: self.to_remove@,
        }
    }
}

/// The location of the root folder of every project.
pub open spec fn root_folder_location() -> Seq<char> {
    "folders"@
}

/// The marks after the folder at `path` is created: one deleted since the
/// last save is no longer deleted (and, if it was an edit, is written again);
/// any other is written over its whole lifetime.
pub open spec fn folder_created(v: VfsView, path: Seq<char>) -> VfsView {
    if v.to_remove.contains_key(path) {
        if v.to_remove[path] == FolderDirtyState::Lifetime {
            VfsView { to_remove: v.to_remove.remove(path), ..v }
        } else {
            VfsView {
                to_remove: v.to_remove.remove(path),
                to_serialize: v.to_serialize.insert(path, FolderDirtyState::Edit),
                ..v
            }
        }
    } else {
        VfsView { to_serialize: v.to_serialize.insert(path, FolderDirtyState::Lifetime), ..v }
    }
}

/// The marks after the folder at `path` is removed: one created since the
/// last save is forgotten; an edited one is deleted as an edit; any other is
/// deleted over its whole lifetime.
pub open spec fn folder_removed(v: VfsView, path: Seq<char>) -> VfsView {
    if v.to_serialize.contains_key(path) {
        if v.to_serialize[path] == FolderDirtyState::Lifetime {
            VfsView { to_serialize: v.to_serialize.remove(path), ..v }
        } else {
            VfsView {
                to_serialize: v.to_serialize.remove(path),
                to_remove: v.to_remove.insert(path, FolderDirtyState::Edit),
                ..v
            }
        }
    } else {
        VfsView { to_remove: v.to_remove.insert(path, FolderDirtyState::Lifetime), ..v }
    }
}

/// One past the largest order among `folders`, or 0 where there are none.
pub open spec fn folders_next(folders: Seq<FolderGraphView>) -> int
    decreases folders.len(),
{
    if folders.len() == 0 {
        0
    } else {
        let rest = folders_next(folders.drop_last());
        let o = folders.last().order + 1;
        if o > rest {
            o
        } else {
            rest
        }
    }
}

/// One past the largest order among the resources of `files`, as the
/// registry `names` records their orders, or 0 where there are none.
pub open spec fn files_next(files: Seq<FilesystemPathView>, names: Map<Seq<char>, ResourceDescriptorView>) -> int
    decreases files.len(),
{
    if files.len() == 0 {
        0
    } else {
        let rest = files_next(files.drop_last(), names);
        let o = if names.contains_key(files.last().name) {
            names[files.last().name].order + 1
        } else {
            0
        };
        if o > rest {
            o
        } else {
            rest
        }
    }
}

/// The order that a new last member of `f` gets: one past the largest order
/// of its members, subfolders and resources alike (the resources' orders as
/// the registry `names` records them), or 0 where it has none.
pub open spec fn next_order(f: FolderGraphView, names: Map<Seq<char>, ResourceDescriptorView>) -> int {
    let a = folders_next(f.folders);
    let b = files_next(f.files, names);
    if a > b {
        a
    } else {
        b
    }
}

proof fn lemma_folders_next_bounds(folders: Seq<FolderGraphView>)
    ensures
        folders_next(folders) >= 0,
        forall|i: int| 0 <= i < folders.len() ==> #[trigger] folders[i].order + 1 <= folders_next(folders),
    decreases folders.len(),
{
    if folders.len() > 0 {
        lemma_folders_next_bounds(folders.drop_last());
        assert forall|i: int| 0 <= i < folders.len() implies #[trigger] folders[i].order + 1 <= folders_next(folders) by {
            if i < folders.len() - 1 {
                assert(folders.drop_last()[i] == folders[i]);
            }
        }
    }
}

proof fn lemma_files_next_bounds(files: Seq<FilesystemPathView>, names: Map<Seq<char>, ResourceDescriptorView>)
    ensures
        files_next(files, names) >= 0,
        forall|i: int|
            0 <= i < files.len() && names.contains_key(files[i].name) ==> names[#[trigger] files[i].name].order + 1
                <= files_next(files, names),
    decreases files.len(),
{
    if files.len() > 0 {
        lemma_files_next_bounds(files.drop_last(), names);
        assert forall|i: int| 0 <= i < files.len() && names.contains_key(files[i].name) implies names[#[trigger] files[i].name].order + 1
            <= files_next(files, names) by {
            if i < files.len() - 1 {
                assert(files.drop_last()[i] == files[i]);
            }
        }
    }
}


proof fn lemma_folders_next_attained(folders: Seq<FolderGraphView>)
    ensures
        folders_next(folders) == 0 || exists|i: int| 0 <= i < folders.len() && folders_next(folders) == #[trigger] folders[i].order + 1,
    decreases folders.len(),
{
    if folders.len() > 0 {
        let rest = folders.drop_last();
        lemma_folders_next_attained(rest);
        if folders_next(rest) != 0 && folders_next(folders) == folders_next(rest) {
            let i = choose|i: int| 0 <= i < rest.len() && folders_next(rest) == #[trigger] rest[i].order + 1;
            assert(rest[i] == folders[i]);
        } else {
            assert(folders[folders.len() - 1] == folders.last());
        }
    }
}

proof fn lemma_files_next_attained(files: Seq<FilesystemPathView>, names: Map<Seq<char>, ResourceDescriptorView>)
    ensures
        files_next(files, names) == 0 || exists|i: int|
            0 <= i < files.len() && names.contains_key(files[i].name) && files_next(files, names) == names[#[trigger] files[i].name].order + 1,
    decreases files.len(),
{
    if files.len() > 0 {
        let rest = files.drop_last();
        lemma_files_next_attained(rest, names);
        if files_next(rest, names) != 0 && files_next(files, names) == files_next(rest, names) {
            let i = choose|i: int|
                0 <= i < rest.len() && names.contains_key(rest[i].name) && files_next(rest, names) == names[#[trigger] rest[i].name].order + 1;
            assert(rest[i] == files[i]);
        } else {
            assert(files[files.len() - 1] == files.last());
        }
    }
}

/// Whether a new last member of `folder` would get an order that fits in a
/// `usize`: no member has the largest order.
fn end_order_fits(folder: &FolderGraph, names: &ResourceNames) -> (r: bool)
    ensures
        r == (next_order(folder_view(*folder), names@.names) <= usize::MAX),
{
    let ghost fv = folder_view(*folder);
    proof {
        lemma_folder_view_folders(*folder);
        lemma_folders_next_bounds(fv.folders);
        lemma_files_next_bounds(fv.files, names@.names);
        lemma_folders_next_attained(fv.folders);
        lemma_files_next_attained(fv.files, names@.names);
    }
    let mut i: usize = 0;
    while i < folder.folders.len()
        invariant
            fv == folder_view(*folder),
            fv.folders == views_of(folder.folders@),
            i <= folder.folders@.len(),
            forall|j: int| 0 <= j < i ==> #[trigger] fv.folders[j].order < usize::MAX,
        decreases folder.folders@.len() - i,
    {
        proof {
            assert(fv.folders[i as int] == folder_view(folder.folders@[i as int]));
        }
        if folder.folders[i].order == usize::MAX {
            proof {
                lemma_folders_next_bounds(fv.folders);
                assert(fv.folders[i as int].order + 1 <= folders_next(fv.folders));
            }
            return false;
        }
        i = i + 1;
    }
    let mut k: usize = 0;
    while k < folder.files.inner.len()
        invariant
            fv == folder_view(*folder),
            fv.files == folder.files@,
            folder.files@ == folder.files.inner@.map_values(|f: FilesystemPath| f@),
            k <= folder.files.inner@.len(),
            forall|j: int|
                0 <= j < k && names@.names.contains_key(fv.files[j].name) ==> names@.names[#[trigger] fv.files[j].name].order
                    < usize::MAX,
        decreases folder.files.inner@.len() - k,
    {
        proof {
            assert(fv.files[k as int].name == folder.files.inner@[k as int].name@);
        }
        match names.get(folder.files.inner[k].name.as_str()) {
            Some(d) => {
                if d.order == usize::MAX {
                    proof {
                        lemma_files_next_bounds(fv.files, names@.names);
                        assert(names@.names[fv.files[k as int].name].order + 1 <= files_next(fv.files, names@.names));
                    }
                    return false;
                }
            },
            None => {},
        }
        k = k + 1;
    }
    proof {
        lemma_folders_next_attained(fv.folders);
        lemma_files_next_attained(fv.files, names@.names);
    }
    true
}

/// The order that a new last member of `folder` gets (see [`next_order`]).
fn end_order(folder: &FolderGraph, names: &ResourceNames) -> (o: usize)
    requires
        next_order(folder_view(*folder), names@.names) <= usize::MAX,
    ensures
        o == next_order(folder_view(*folder), names@.names),
{
    let ghost fv = folder_view(*folder);
    proof {
        lemma_folder_view_folders(*folder);
        lemma_folders_next_bounds(fv.folders);
        lemma_files_next_bounds(fv.files, names@.names);
    }
    let mut a: usize = 0;
    let mut i: usize = 0;
    proof {
        assert(fv.folders.take(0) =~= Seq::<FolderGraphView>::empty());
    }
    while i < folder.folders.len()
        invariant
            fv == folder_view(*folder),
            fv.folders == views_of(folder.folders@),
            i <= folder.folders@.len(),
            a == folders_next(fv.folders.take(i as int)),
            forall|j: int| 0 <= j < fv.folders.len() ==> #[trigger] fv.folders[j].order + 1 <= folders_next(fv.folders),
            next_order(fv, names@.names) <= usize::MAX,
        decreases folder.folders@.len() - i,
    {
        proof {
            assert(fv.folders.take(i + 1).drop_last() =~= fv.folders.take(i as int));
            assert(fv.folders[i as int] == folder_view(folder.folders@[i as int]));
            assert(fv.folders[i as int].order + 1 <= folders_next(fv.folders));
        }
        let o = folder.folders[i].order + 1;
        if o > a {
            a = o;
        }
        i = i + 1;
    }
    proof {
        assert(fv.folders.take(i as int) =~= fv.folders);
    }
    let mut b: usize = 0;
    let mut k: usize = 0;
    proof {
        assert(fv.files.take(0) =~= Seq::<FilesystemPathView>::empty());
    }
    while k < folder.files.inner.len()
        invariant
            fv == folder_view(*folder),
            fv.files == folder.files@,
            folder.files@ == folder.files.inner@.map_values(|f: FilesystemPath| f@),
            k <= folder.files.inner@.len(),
            b == files_next(fv.files.take(k as int), names@.names),
            forall|j: int|
                0 <= j < fv.files.len() && names@.names.contains_key(fv.files[j].name) ==> names@.names[#[trigger] fv.files[j].name].order
                    + 1 <= files_next(fv.files, names@.names),
            next_order(fv, names@.names) <= usize::MAX,
        decreases folder.files.inner@.len() - k,
    {
        proof {
            assert(fv.files.take(k + 1).drop_last() =~= fv.files.take(k as int));
            assert(fv.files[k as int] == folder.files.inner@[k as int]@);
        }
        match names.get(folder.files.inner[k].name.as_str()) {
            Some(d) => {
                proof {
                    assert(fv.files[k as int].name == folder.files.inner@[k as int].name@);
                    assert(names@.names[fv.files[k as int].name].order + 1 <= files_next(fv.files, names@.names));
                }
                let o = d.order + 1;
                if o > b {
                    b = o;
                }
            },
            None => {},
        }
        k = k + 1;
    }
    proof {
        assert(fv.files.take(k as int) =~= fv.files);
    }
    if a > b {
        a
    } else {
        b
    }
}

/// `f` with `child` appended to its subfolders.
pub open spec fn with_child(f: FolderGraphView, child: FolderGraphView) -> FolderGraphView {
    FolderGraphView { folders: f.folders.push(child), ..f }
}

/// Whether a new last member of the folder at location `parent` would get an
/// order that fits in a `usize`.
pub open spec fn order_fits(
    root: FolderGraphView,
    names: Map<Seq<char>, ResourceDescriptorView>,
    parent: Seq<char>,
    root_loc: Seq<char>,
) -> bool {
    locate(root, parent, root_loc) matches Some(p) ==> next_order(subtree_at(root, p), names) <= usize::MAX
}

/// What [`Vfs::new_folder_end`] does with the abstract state: the result, and
/// the state afterwards.
pub open spec fn new_folder_end_spec(v: VfsView, parent: Seq<char>, name: Seq<char>) -> (
    Result<ViewPathView, FolderGraphErrorView>,
    VfsView,
) {
    match locate(v.root, parent, root_folder_location()) {
        None => (Err(FolderGraphErrorView::PathNotFound(parent)), v),
        Some(p) => {
            let f = subtree_at(v.root, p);
            if child_index(f.folders, name) is Some {
                (Err(FolderGraphErrorView::FolderAlreadyPresent), v)
            } else {
                let path = join_spec(parent, name);
                let child = new_folder_view(name, parent, next_order(f, v.names.names) as usize);
                (
                    Ok(ViewPathView { name, path }),
                    folder_created(VfsView { root: replace_at(v.root, p, with_child(f, child)), ..v }, path),
                )
            }
        },
    }
}


/// `f` without its subfolder at position `i`.
pub open spec fn without_child(f: FolderGraphView, i: int) -> FolderGraphView {
    FolderGraphView { folders: f.folders.remove(i), ..f }
}


/// Strings as plain text.
pub open spec fn strings_view(v: Seq<String>) -> Seq<Seq<char>> {
    v.map_values(|s: String| s@)
}

/// The names of the files at or under `f`, in depth-first order: its own
/// files first, then those under each subfolder in turn.
pub open spec fn files_in(f: FolderGraphView) -> Seq<Seq<char>>
    decreases f, 0int,
{
    f.files.map_values(|x: FilesystemPathView| x.name) + files_in_from(f.folders, 0)
}

/// The names of the files at or under the trees `fs[i..]`, in order.
pub open spec fn files_in_from(fs: Seq<FolderGraphView>, i: int) -> Seq<Seq<char>>
    decreases fs, fs.len() - i,
{
    if 0 <= i < fs.len() {
        files_in(fs[i]) + files_in_from(fs, i + 1)
    } else {
        Seq::empty()
    }
}

/// The locations of `f`, which is at `loc`, and of every folder under it, in
/// depth-first order.
pub open spec fn folder_locs(f: FolderGraphView, loc: Seq<char>) -> Seq<Seq<char>>
    decreases f, 0int,
{
    seq![loc] + folder_locs_from(f.folders, 0, loc)
}

/// The locations of the trees `fs[i..]`, subfolders of the folder at `loc`,
/// and of every folder under them, in order.
pub open spec fn folder_locs_from(fs: Seq<FolderGraphView>, i: int, loc: Seq<char>) -> Seq<Seq<char>>
    decreases fs, fs.len() - i,
{
    if 0 <= i < fs.len() {
        folder_locs(fs[i], join_spec(loc, fs[i].name)) + folder_locs_from(fs, i + 1, loc)
    } else {
        Seq::empty()
    }
}

/// Each location of `locs`, in order, marked as removed (see [`folder_removed`]).
pub open spec fn folders_removed(v: VfsView, locs: Seq<Seq<char>>) -> VfsView
    decreases locs.len(),
{
    if locs.len() == 0 {
        v
    } else {
        folder_removed(folders_removed(v, locs.drop_last()), locs.last())
    }
}

impl FolderGraph {
    /// Appends the names of the files at or under this folder.
    fn collect_files(&self, out: &mut Vec<String>)
        ensures
            strings_view(final(out)@) == strings_view(old(out)@) + files_in(folder_view(*self)),
        decreases self,
    {
        let ghost fv = folder_view(*self);
        let ghost start = strings_view(out@);
        let ghost own = fv.files.map_values(|x: FilesystemPathView| x.name);
        proof {
            lemma_folder_view_folders(*self);
        }
        let mut k: usize = 0;
        proof {
            assert(own.take(0) =~= Seq::<Seq<char>>::empty());
            assert(strings_view(out@) =~= start + own.take(0));
        }
        while k < self.files.inner.len()
            invariant
                fv == folder_view(*self),
                own == fv.files.map_values(|x: FilesystemPathView| x.name),
                fv.files == self.files@,
                self.files@ == self.files.inner@.map_values(|f: FilesystemPath| f@),
                k <= self.files.inner@.len(),
                strings_view(out@) == start + own.take(k as int),
            decreases self.files.inner@.len() - k,
        {
            let ghost before = out@;
            out.push(self.files.inner[k].name.clone());
            proof {
                assert(own[k as int] == self.files.inner@[k as int].name@);
                assert(strings_view(out@) =~= strings_view(before).push(own[k as int]));
                assert(own.take(k + 1) =~= own.take(k as int).push(own[k as int]));
            }
            k = k + 1;
        }
        proof {
            assert(own.take(k as int) =~= own);
        }
        let ghost base = strings_view(out@);
        let mut i: usize = 0;
        proof {
            assert(base + files_in_from(fv.folders, 0) =~= start + files_in(fv));
            assert(strings_view(out@) =~= base + Seq::<Seq<char>>::empty());
        }
        while i < self.folders.len()
            invariant
                i <= self.folders@.len(),
                fv == folder_view(*self),
                fv.folders == views_of(self.folders@),
                strings_view(out@) + files_in_from(fv.folders, i as int) == start + files_in(fv),
            decreases self.folders@.len() - i,
        {
            proof {
                assert(decreases_to!(*self => self.folders@[i as int]));
            }
            let ghost before = strings_view(out@);
            self.folders[i].collect_files(out);
            proof {
                assert(fv.folders[i as int] == folder_view(self.folders@[i as int]));
                assert(files_in_from(fv.folders, i as int) == files_in(fv.folders[i as int]) + files_in_from(fv.folders, i + 1));
                assert(strings_view(out@) + files_in_from(fv.folders, i + 1) =~= before + files_in_from(fv.folders, i as int));
            }
            i = i + 1;
        }
        proof {
            assert(strings_view(out@) + files_in_from(fv.folders, i as int) =~= strings_view(out@));
        }
    }

    /// Appends the location of this folder, which is at `loc`, and of every
    /// folder under it.
    fn collect_locs(&self, loc: &str, out: &mut Vec<String>)
        ensures
            strings_view(final(out)@) == strings_view(old(out)@) + folder_locs(folder_view(*self), loc@),
        decreases self,
    {
        let ghost fv = folder_view(*self);
        let ghost start = strings_view(out@);
        proof {
            lemma_folder_view_folders(*self);
        }
        out.push(loc.to_string());
        proof {
            assert(strings_view(out@) =~= start.push(loc@));
            assert(strings_view(out@) + folder_locs_from(fv.folders, 0, loc@) =~= start + folder_locs(fv, loc@));
        }
        let mut i: usize = 0;
        while i < self.folders.len()
            invariant
                i <= self.folders@.len(),
                fv == folder_view(*self),
                fv.folders == views_of(self.folders@),
                strings_view(out@) + folder_locs_from(fv.folders, i as int, loc@) == start + folder_locs(fv, loc@),
            decreases self.folders@.len() - i,
        {
            proof {
                assert(decreases_to!(*self => self.folders@[i as int]));
                assert(fv.folders[i as int] == folder_view(self.folders@[i as int]));
            }
            let ghost before = strings_view(out@);
            let child_loc = join(loc, self.folders[i].name.as_str());
            self.folders[i].collect_locs(child_loc.as_str(), out);
            proof {
                assert(folder_locs_from(fv.folders, i as int, loc@) == folder_locs(
                    fv.folders[i as int],
                    join_spec(loc@, fv.folders[i as int].name),
                ) + folder_locs_from(fv.folders, i + 1, loc@));
                assert(strings_view(out@) + folder_locs_from(fv.folders, i + 1, loc@) =~= before
                    + folder_locs_from(fv.folders, i as int, loc@));
            }
            i = i + 1;
        }
        proof {
            assert(strings_view(out@) + folder_locs_from(fv.folders, i as int, loc@) =~= strings_view(out@));
        }
    }
}

/// What [`Vfs::remove_folder`] does with the abstract state: the result, and
/// the state afterwards.
pub open spec fn remove_folder_spec(v: VfsView, path: Seq<char>) -> (Result<(), FolderGraphErrorView>, VfsView) {
    match locate(v.root, path, root_folder_location()) {
        None => (Err(FolderGraphErrorView::PathNotFound(path)), v),
        Some(p) => {
            let f = subtree_at(v.root, p);
            if f.files.len() > 0 || f.folders.len() > 0 {
                (Err(FolderGraphErrorView::CannotRemoveFolder), v)
            } else if f.path_to_parent is None || p.len() == 0 {
                (Err(FolderGraphErrorView::CannotRemoveRootFolder), v)
            } else {
                let pp = p.drop_last();
                (
                    Ok(()),
                    folder_removed(
                        VfsView { root: replace_at(v.root, pp, without_child(subtree_at(v.root, pp), p.last())), ..v },
                        path,
                    ),
                )
            }
        },
    }
}

/// `f` with its files replaced by `files`.
pub open spec fn with_files(f: FolderGraphView, files: Seq<FilesystemPathView>) -> FolderGraphView {
    FolderGraphView { files, ..f }
}

/// What [`Vfs::load_in_file`] does with the abstract state.
pub open spec fn load_in_file_spec(
    v: VfsView,
    name: Seq<char>,
    resource: Resource,
    parent: Seq<char>,
    order: usize,
) -> (Result<(), FolderGraphErrorView>, VfsView) {
    match locate(v.root, parent, v.root_resource.path) {
        None => (Err(FolderGraphErrorView::PathNotFound(parent)), v),
        Some(p) => {
            let f = subtree_at(v.root, p);
            (
                Ok(()),
                VfsView {
                    root: replace_at(v.root, p, with_files(f, f.files.push(resource_path_view(resource, name)))),
                    names: ResourceNamesView {
                        names: v.names.names.insert(
                            name,
                            ResourceDescriptorView { resource, order, parent_location: parent },
                        ),
                        ..v.names
                    },
                    ..v
                },
            )
        },
    }
}

/// What [`Vfs::new_resource_end`] does with the abstract state.
pub open spec fn new_resource_end_spec(v: VfsView, name: Seq<char>, resource: Resource, parent: Seq<char>) -> (
    Result<(), FolderGraphErrorView>,
    VfsView,
) {
    match locate(v.root, parent, v.root_resource.path) {
        None => (Err(FolderGraphErrorView::PathNotFound(parent)), v),
        Some(p) => {
            let f = subtree_at(v.root, p);
            (
                Ok(()),
                VfsView {
                    root: replace_at(v.root, p, with_files(f, f.files.push(resource_path_view(resource, name)))),
                    names: ResourceNamesView {
                        names: v.names.names.insert(
                            name,
                            ResourceDescriptorView { resource, order: next_order(f, v.names.names) as usize, parent_location: parent },
                        ),
                        dirty: if v.names.names.contains_key(name) {
                            replace_spec(v.names.dirty, name)
                        } else {
                            add_spec(v.names.dirty, name)
                        },
                    },
                    ..v
                },
            )
        },
    }
}

/// What [`Vfs::remove_resource`] does with the abstract state.
pub open spec fn remove_resource_spec(v: VfsView, name: Seq<char>) -> VfsView {
    if v.names.names.contains_key(name) {
        match locate(v.root, v.names.names[name].parent_location, v.root_resource.path) {
            Some(p) => {
                let f = subtree_at(v.root, p);
                VfsView {
                    root: replace_at(v.root, p, with_files(f, without_file(f.files, name))),
                    names: ResourceNamesView {
                        names: v.names.names.remove(name),
                        dirty: remove_spec(v.names.dirty, name),
                    },
                    ..v
                }
            },
            None => v,
        }
    } else {
        v
    }
}

/// An entry of the project file's list of folders: the folder's location,
/// order, name and tags. (The entry's resource version and type are constants
/// of the file format, filled in where the entry is written out.)
#[derive(Debug, PartialEq, Eq)]
pub struct YypFolder {
    pub folder_path: String,
    pub order: usize,
    pub name: String,
    pub tags: Vec<String>,
}

/// The abstract value of a [`YypFolder`].
pub struct YypFolderView {
    pub folder_path: Seq<char>,
    pub order: usize,
    pub name: Seq<char>,
    pub tags: Seq<Seq<char>>,
}

impl View for YypFolder {
    type V = YypFolderView;

    open spec fn view(&self) -> YypFolderView {
        YypFolderView {
            folder_path: self.folder_path@,
            order: self.order,
            name: self.name@,
            tags: self.tags@.map_values(|t: String| t@),
        }
    }
}

/// A list of folder entries, by their abstract values.
pub open spec fn folder_list_view(l: Seq<YypFolder>) -> Seq<YypFolderView> {
    l.map_values(|f: YypFolder| f@)
}

/// The position of the first entry of `list` at location `path`.
pub open spec fn first_folder_at(list: Seq<YypFolderView>, path: Seq<char>) -> Option<int>
    decreases list.len(),
{
    if list.len() == 0 {
        None
    } else {
        match first_folder_at(list.drop_last(), path) {
            Some(i) => Some(i),
            None => if list.last().folder_path == path {
                Some(list.len() - 1)
            } else {
                None
            },
        }
    }
}

proof fn lemma_first_folder_at(list: Seq<YypFolderView>, path: Seq<char>)
    ensures
        match first_folder_at(list, path) {
            Some(i) => 0 <= i < list.len() && list[i].folder_path == path && forall|j: int|
                0 <= j < i ==> list[j].folder_path != path,
            None => forall|j: int| 0 <= j < list.len() ==> list[j].folder_path != path,
        },
    decreases list.len(),
{
    if list.len() > 0 {
        lemma_first_folder_at(list.drop_last(), path);
        assert forall|j: int| 0 <= j < list.len() - 1 implies list.drop_last()[j] == list[j] by {}
    }
}

/// Whether `list` has an entry at location `path`.
pub open spec fn has_folder_at(list: Seq<YypFolderView>, path: Seq<char>) -> bool {
    exists|i: int| 0 <= i < list.len() && #[trigger] list[i].folder_path == path
}

/// The entry that the folder `f` at location `path` gets.
pub open spec fn folder_entry(path: Seq<char>, f: FolderGraphView) -> YypFolderView {
    YypFolderView { folder_path: path, order: f.order, name: f.name, tags: f.tags }
}

/// The folder at location `path` of the tree `root`.
pub open spec fn folder_at(root: FolderGraphView, path: Seq<char>) -> FolderGraphView {
    subtree_at(root, locate(root, path, root_folder_location())->Some_0)
}

/// The list after the folder at `path`, marked `state`, is written: an edit
/// replaces the first entry at that location (where there is one), anything
/// else is appended.
pub open spec fn write_folder(
    list: Seq<YypFolderView>,
    root: FolderGraphView,
    path: Seq<char>,
    state: FolderDirtyState,
) -> Seq<YypFolderView> {
    let e = folder_entry(path, folder_at(root, path));
    match state {
        FolderDirtyState::Edit => match first_folder_at(list, path) {
            Some(i) => list.update(i, e),
            None => list,
        },
        FolderDirtyState::Lifetime => list.push(e),
    }
}

/// The list after the folders at `paths`, marked `states`, are written in order.
pub open spec fn write_folders(
    list: Seq<YypFolderView>,
    root: FolderGraphView,
    paths: Seq<Seq<char>>,
    states: Seq<FolderDirtyState>,
) -> Seq<YypFolderView>
    decreases paths.len(),
{
    if paths.len() == 0 {
        list
    } else {
        write_folder(
            write_folders(list, root, paths.drop_last(), states),
            root,
            paths.last(),
            states[paths.len() - 1],
        )
    }
}

/// The list after the first entry at each of `paths` (where there is one) is
/// removed, in order.
pub open spec fn remove_folders(list: Seq<YypFolderView>, paths: Seq<Seq<char>>) -> Seq<YypFolderView>
    decreases paths.len(),
{
    if paths.len() == 0 {
        list
    } else {
        let prev = remove_folders(list, paths.drop_last());
        match first_folder_at(prev, paths.last()) {
            Some(i) => prev.remove(i),
            None => prev,
        }
    }
}

/// The position of the first entry of `list` at location `path`.
pub fn folder_position(list: &Vec<YypFolder>, path: &str) -> (r: Option<usize>)
    ensures
        r matches Some(i) ==> first_folder_at(folder_list_view(list@), path@) == Some(i as int),
        r is None ==> first_folder_at(folder_list_view(list@), path@) is None,
{
    let ghost lv = folder_list_view(list@);
    let mut i: usize = 0;
    while i < list.len()
        invariant
            i <= list@.len(),
            lv == folder_list_view(list@),
            forall|j: int| 0 <= j < i ==> lv[j].folder_path != path@,
        decreases list@.len() - i,
    {
        if str_eq(list[i].folder_path.as_str(), path) {
            proof {
                assert(lv[i as int].folder_path == path@);
                lemma_first_folder_at(lv, path@);
            }
            return Some(i);
        }
        i = i + 1;
    }
    proof {
        lemma_first_folder_at(lv, path@);
    }
    None
}

/// A copy of a list of strings.
fn copy_strings(v: &Vec<String>) -> (r: Vec<String>)
    ensures
        r@.map_values(|t: String| t@) == v@.map_values(|t: String| t@),
{
    let mut r: Vec<String> = Vec::new();
    let mut i: usize = 0;
    while i < v.len()
        invariant
            i <= v@.len(),
            r@.map_values(|t: String| t@) == v@.take(i as int).map_values(|t: String| t@),
        decreases v@.len() - i,
    {
        let ghost before = r@;
        let c = v[i].clone();
        r.push(c);
        proof {
            assert(c@ == v@[i as int]@);
            assert(v@.take(i as int + 1) =~= v@.take(i as int).push(v@[i as int]));
            assert(r@.map_values(|t: String| t@) =~= before.map_values(|t: String| t@).push(c@));
            assert(r@.map_values(|t: String| t@) =~= v@.take(i as int + 1).map_values(|t: String| t@));
        }
        i = i + 1;
    }
    proof {
        assert(v@.take(i as int) =~= v@);
    }
    r
}

/// The tree after the folder entry `yf` is loaded: the folders along its
/// location are created where missing, and the folder there takes the
/// entry's order and tags.
pub open spec fn load_folder(root: FolderGraphView, yf: YypFolderView) -> FolderGraphView {
    let r1 = ensure_names(root, component_names(yf.folder_path));
    let p = locate(r1, yf.folder_path, root_folder_location())->Some_0;
    replace_at(r1, p, FolderGraphView { order: yf.order, tags: yf.tags, ..subtree_at(r1, p) })
}

/// The tree after the folder entries `list` are loaded in order.
pub open spec fn load_folders(root: FolderGraphView, list: Seq<YypFolderView>) -> FolderGraphView
    decreases list.len(),
{
    if list.len() == 0 {
        root
    } else {
        load_folder(load_folders(root, list.drop_last()), list.last())
    }
}

/// Whether a location can be found in a tree once the folders along it
/// exist: it is the root's location, or names at least one folder.
pub open spec fn loadable_location(loc: Seq<char>) -> bool {
    loc == root_folder_location() || component_names(loc).len() > 0
}

/// Whether a save can be made against the folder list `list`: every name
/// marked for writing is known; every folder marked for writing is in the
/// tree; every edited folder, and every folder marked for removal that is not
/// also marked for writing, has its entry in the list.
pub open spec fn serialize_ready_spec(v: VfsView, list: Seq<YypFolderView>) -> bool {
    &&& names_wf(v.names)
    &&& forall|k: Seq<char>| #[trigger] v.to_serialize.contains_key(k) ==> locate(v.root, k, root_folder_location()) is Some
    &&& forall|k: Seq<char>|
        #[trigger] v.to_serialize.contains_key(k) && v.to_serialize[k] == FolderDirtyState::Edit ==> has_folder_at(list, k)
    &&& forall|k: Seq<char>| #[trigger] v.to_remove.contains_key(k) ==> has_folder_at(list, k) || v.to_serialize.contains_key(k)
}

impl Vfs {
    /// The virtual file system of a new, empty project named `yyp_name`: a
    /// root folder with nothing in it, and no names or marks.
    pub fn new(yyp_name: &str) -> (r: Self)
        ensures
            r@.root == root_folder_view(),
            r@.root_resource == (ViewPathView { name: yyp_name@, path: yyp_name@ + ".yyp"@ }),
            r@.names.names == Map::<Seq<char>, crate::resource_names::ResourceDescriptorView>::empty(),
            r@.names.dirty.reserialize == Map::<Seq<char>, crate::dirty_handler::DirtyState>::empty(),
            r@.names.dirty.remove == Map::<Seq<char>, crate::dirty_handler::DirtyState>::empty(),
            crate::resource_names::names_wf(r@.names),
            r@.to_serialize == Map::<Seq<char>, FolderDirtyState>::empty(),
            r@.to_remove == Map::<Seq<char>, FolderDirtyState>::empty(),
    {
        Vfs {
            resource_names: ResourceNames::new(),
            root: FolderGraph::root(),
            root_resource: ViewPath { name: yyp_name.to_string(), path: yy_root_file_location(yyp_name) },
            to_serialize: StringMap::new(),
            to_remove: StringMap::new(),
        }
    }

    /// The location of the root folder of every project: the folder named
    /// `folders`, at location `folders`.
    pub fn root_folder() -> (r: ViewPath)
        ensures
            r@ == (ViewPathView { name: "folders"@, path: root_folder_location() }),
    {
        ViewPath { name: "folders".to_string(), path: yy_root_folder_location() }
    }

    /// The location that a resource at the root of the project has: the
    /// project's name, at the project file's name.
    pub fn root_resource(&self) -> (r: &ViewPath)
        ensures
            r@ == self@.root_resource,
    {
        &self.root_resource
    }

    /// The registry of resource names.
    pub fn resource_names(&self) -> (r: &ResourceNames)
        ensures
            r@ == self@.names,
    {
        &self.resource_names
    }

    /// Records `name` with descriptor `d` in the registry, marking it as added
    /// (or as replaced, where the name was known).
    pub fn record_resource_name(&mut self, name: String, d: ResourceDescriptor)
        ensures
            final(self)@ == (VfsView { names: insert_name(old(self)@.names, name@, d@), ..old(self)@ }),
    {
        self.resource_names.insert(name, d);
    }

    /// The folders to write to the project file on the next save, by location.
    pub fn folders_to_serialize(&self) -> (r: &StringMap<FolderDirtyState>)
        ensures
            r@ == self@.to_serialize,
    {
        &self.to_serialize
    }

    /// The folders to remove from the project file on the next save, by location.
    pub fn folders_to_remove(&self) -> (r: &StringMap<FolderDirtyState>)
        ensures
            r@ == self@.to_remove,
    {
        &self.to_remove
    }

    /// The root folder.
    pub fn get_root_folder(&self) -> (r: &FolderGraph)
        ensures
            folder_view(*r) == self@.root,
    {
        &self.root
    }

    /// Finds the folder at location `view_path` in the tree under `root`, whose
    /// own location is `root_view`. The root is found by its location alone; any
    /// other location is followed name by name from its second part on, and a
    /// location with no such parts finds nothing.
    pub fn get_folder<'a>(root: &'a FolderGraph, view_path: &str, root_view: &str) -> (r: Option<&'a FolderGraph>)
        ensures
            match locate(folder_view(*root), view_path@, root_view@) {
                Some(p) => r matches Some(f) && folder_view(*f) == subtree_at(folder_view(*root), p),
                None => r is None,
            },
    {
        match locate_in(root, view_path, root_view) {
            Some((_, f)) => Some(f),
            None => None,
        }
    }

    /// Records that the folder at `path` was created.
    fn mark_created(&mut self, path: String)
        ensures
            final(self)@ == folder_created(old(self)@, path@),
    {
        let ghost k = path@;
        match self.to_remove.remove(path.as_str()) {
            Some(FolderDirtyState::Lifetime) => {},
            Some(FolderDirtyState::Edit) => {
                self.to_serialize.insert(path, FolderDirtyState::Edit);
            },
            None => {
                self.to_serialize.insert(path, FolderDirtyState::Lifetime);
            },
        }
        proof {
            let want = folder_created(old(self)@, k);
            assert(self@.to_serialize =~= want.to_serialize);
            assert(self@.to_remove =~= want.to_remove);
        }
    }

    /// Records that the folder at `path` was removed.
    fn mark_removed(&mut self, path: &str)
        ensures
            final(self)@ == folder_removed(old(self)@, path@),
    {
        match self.to_serialize.remove(path) {
            Some(FolderDirtyState::Lifetime) => {},
            Some(FolderDirtyState::Edit) => {
                self.to_remove.insert(path.to_string(), FolderDirtyState::Edit);
            },
            None => {
                self.to_remove.insert(path.to_string(), FolderDirtyState::Lifetime);
            },
        }
        proof {
            let want = folder_removed(old(self)@, path@);
            assert(self@.to_serialize =~= want.to_serialize);
            assert(self@.to_remove =~= want.to_remove);
        }
    }

    /// Whether a new last member of the folder at `parent` (where `root_loc`
    /// names the root) would get an order that fits in a `usize`, as
    /// [`Vfs::new_folder_end`] and [`Vfs::new_resource_end`] require. Where
    /// no folder is there, nothing would be added and the answer is `true`.
    pub fn order_fits_at(&self, parent: &str, root_loc: &str) -> (r: bool)
        ensures
            r == order_fits(self@.root, self@.names.names, parent@, root_loc@),
    {
        match locate_in(&self.root, parent, root_loc) {
            None => true,
            Some((_, folder)) => end_order_fits(folder, &self.resource_names),
        }
    }

    /// Adds a subfolder named `name` to the end of the folder at `parent_path`,
    /// after all its members (an order one past the largest of its subfolders'
    /// and its resources' orders), and returns the new
    /// folder's location. Refused where no folder is at `parent_path`, or where
    /// it already has a subfolder of that name.
    pub fn new_folder_end(&mut self, parent_path: &ViewPath, name: &str) -> (r: Result<ViewPath, FolderGraphError>)
        requires
            order_fits(old(self)@.root, old(self)@.names.names, parent_path.path@, root_folder_location()),
        ensures
            (result_view(r), final(self)@) == new_folder_end_spec(old(self)@, parent_path.path@, name@),
    {
        let root_loc = yy_root_folder_location();
        let ghost rv = self@.root;
        let (p, parent) = match locate_in(&self.root, parent_path.path.as_str(), root_loc.as_str()) {
            Some(found) => found,
            None => {
                return Err(FolderGraphError::PathNotFound(parent_path.path.clone()));
            },
        };
        proof {
            lemma_folder_view_folders(*parent);
        }
        if child_position(&parent.folders, name).is_some() {
            return Err(FolderGraphError::FolderAlreadyPresent);
        }
        let order = end_order(parent, &self.resource_names);
        let path = join(parent_path.path.as_str(), name);
        let ghost q = ints(p@);
        proof {
            lemma_locate_valid(rv, parent_path.path@, root_loc@);
            assert(ints(p@).skip(0) =~= q);
            lemma_subtree_of_replace(rv, q, empty_folder_view());
        }
        let mut sub = take_at(&mut self.root, &p, 0);
        let ghost before = folder_view(sub);
        let child = FolderGraph::new(name.to_string(), parent_path.path.clone(), Vec::new(), order);
        proof {
            lemma_folder_view_folders(sub);
            assert(folder_view(child).tags =~= Seq::<Seq<char>>::empty());
        }
        sub.folders.push(child);
        proof {
            lemma_folder_view_folders(sub);
            assert(folder_view(sub).folders =~= before.folders.push(folder_view(child)));
            assert(folder_view(sub) == with_child(before, new_folder_view(name@, parent_path.path@, order)));
        }
        put_at(&mut self.root, &p, 0, sub);
        proof {
            lemma_replace_twice(rv, q, empty_folder_view(), folder_view(sub));
        }
        let out = ViewPath { path: path.clone(), name: name.to_string() };
        self.mark_created(path);
        Ok(out)
    }

    /// Removes the empty folder at `folder_path` from its parent. Refused
    /// where no folder is there, where the folder holds any file or folder,
    /// and for the root folder.
    pub fn remove_folder(&mut self, folder_path: &str) -> (r: Result<(), FolderGraphError>)
        ensures
            (result_view(r), final(self)@) == remove_folder_spec(old(self)@, folder_path@),
    {
        let root_loc = yy_root_folder_location();
        let ghost rv = self@.root;
        let (p, folder) = match locate_in(&self.root, folder_path, root_loc.as_str()) {
            Some(found) => found,
            None => {
                return Err(FolderGraphError::PathNotFound(folder_path.to_string()));
            },
        };
        proof {
            lemma_folder_view_folders(*folder);
            lemma_locate_valid(rv, folder_path@, root_loc@);
        }
        if !folder.files.is_empty() || folder.folders.len() != 0 {
            return Err(FolderGraphError::CannotRemoveFolder);
        }
        if folder.path_to_parent.is_none() || p.len() == 0 {
            return Err(FolderGraphError::CannotRemoveRootFolder);
        }
        let ghost full = ints(p@);
        let mut pp = p;
        let last = pp.pop().unwrap();
        let ghost q = ints(pp@);
        proof {
            assert(q =~= full.drop_last());
            assert(full.last() == last as int);
            lemma_valid_prefix(rv, full);
            assert(ints(pp@).skip(0) =~= q);
            lemma_subtree_of_replace(rv, q, empty_folder_view());
        }
        let mut parent = take_at(&mut self.root, &pp, 0);
        let ghost before = folder_view(parent);
        proof {
            lemma_folder_view_folders(parent);
        }
        parent.folders.remove(last);
        proof {
            lemma_folder_view_folders(parent);
            assert(folder_view(parent).folders =~= before.folders.remove(last as int));
            assert(folder_view(parent).tags =~= before.tags);
            assert(folder_view(parent) == without_child(before, last as int));
        }
        put_at(&mut self.root, &pp, 0, parent);
        proof {
            lemma_replace_twice(rv, q, empty_folder_view(), folder_view(parent));
        }
        self.mark_removed(folder_path);
        Ok(())
    }

    /// Takes the folder at `folder_path`, with everything in it, out of the
    /// tree: it leaves its parent's subfolders, and its location and that of
    /// every folder under it are marked as removed, in depth-first order. The
    /// names of the files that were at or under it are given back; the
    /// registry of names is left to the caller. Refused where no folder is
    /// there, and for the root folder.
    pub fn detach_folder(&mut self, folder_path: &str) -> (r: Result<Vec<String>, FolderGraphError>)
        ensures
            match locate(old(self)@.root, folder_path@, root_folder_location()) {
                None => r matches Err(e) && e@ == FolderGraphErrorView::PathNotFound(folder_path@)
                    && final(self)@ == old(self)@,
                Some(p) => if p.len() == 0 || subtree_at(old(self)@.root, p).path_to_parent is None {
                    r matches Err(e) && e@ == FolderGraphErrorView::CannotRemoveRootFolder && final(self)@
                        == old(self)@
                } else {
                    let f = subtree_at(old(self)@.root, p);
                    let q = p.drop_last();
                    let parent = subtree_at(old(self)@.root, q);
                    &&& r matches Ok(names) && strings_view(names@) == files_in(f)
                    &&& final(self)@ == folders_removed(
                        VfsView { root: replace_at(old(self)@.root, q, without_child(parent, p.last())), ..old(self)@ },
                        folder_locs(f, folder_path@),
                    )
                },
            },
    {
        let root_loc = yy_root_folder_location();
        let ghost rv = self@.root;
        let (p, folder) = match locate_in(&self.root, folder_path, root_loc.as_str()) {
            Some(found) => found,
            None => {
                return Err(FolderGraphError::PathNotFound(folder_path.to_string()));
            },
        };
        proof {
            lemma_locate_valid(rv, folder_path@, root_loc@);
        }
        if folder.path_to_parent.is_none() || p.len() == 0 {
            return Err(FolderGraphError::CannotRemoveRootFolder);
        }
        let mut names: Vec<String> = Vec::new();
        folder.collect_files(&mut names);
        let mut locs: Vec<String> = Vec::new();
        folder.collect_locs(folder_path, &mut locs);
        proof {
            assert(strings_view(names@) =~= files_in(folder_view(*folder)));
            assert(strings_view(locs@) =~= folder_locs(folder_view(*folder), folder_path@));
        }
        let ghost full = ints(p@);
        let mut pp = p;
        let last = pp.pop().unwrap();
        let ghost q = ints(pp@);
        proof {
            assert(q =~= full.drop_last());
            assert(full.last() == last as int);
            lemma_valid_prefix(rv, full);
            assert(ints(pp@).skip(0) =~= q);
            lemma_subtree_of_replace(rv, q, empty_folder_view());
        }
        let mut parent = take_at(&mut self.root, &pp, 0);
        let ghost before = folder_view(parent);
        proof {
            lemma_folder_view_folders(parent);
        }
        parent.folders.remove(last);
        proof {
            lemma_folder_view_folders(parent);
            assert(folder_view(parent).folders =~= before.folders.remove(last as int));
            assert(folder_view(parent).tags =~= before.tags);
            assert(folder_view(parent) == without_child(before, last as int));
        }
        put_at(&mut self.root, &pp, 0, parent);
        proof {
            lemma_replace_twice(rv, q, empty_folder_view(), folder_view(parent));
        }
        let ghost detached = self@;
        let mut i: usize = 0;
        proof {
            assert(strings_view(locs@).take(0) =~= Seq::<Seq<char>>::empty());
        }
        while i < locs.len()
            invariant
                i <= locs@.len(),
                self@ == folders_removed(detached, strings_view(locs@).take(i as int)),
            decreases locs@.len() - i,
        {
            proof {
                assert(strings_view(locs@).take(i + 1).drop_last() =~= strings_view(locs@).take(i as int));
                assert(strings_view(locs@).take(i + 1).last() == locs@[i as int]@);
            }
            self.mark_removed(locs[i].as_str());
            i = i + 1;
        }
        proof {
            assert(strings_view(locs@).take(i as int) =~= strings_view(locs@));
        }
        Ok(names)
    }

    /// Forgets the name of a resource whose file is no longer in the tree,
    /// marking it as removed; its descriptor is given back. Nothing happens
    /// where the name is unknown.
    pub fn forget_resource(&mut self, name: &str) -> (r: Option<ResourceDescriptor>)
        ensures
            r is Some <==> old(self)@.names.names.contains_key(name@),
            r matches Some(d) ==> d@ == old(self)@.names.names[name@],
            final(self)@ == (VfsView {
                names: ResourceNamesView {
                    names: old(self)@.names.names.remove(name@),
                    dirty: if old(self)@.names.names.contains_key(name@) {
                        remove_spec(old(self)@.names.dirty, name@)
                    } else {
                        old(self)@.names.dirty
                    },
                },
                ..old(self)@
            }),
    {
        let r = self.resource_names.remove(name);
        proof {
            if r is None {
                assert(self@.names.names =~= old(self)@.names.names.remove(name@));
            }
        }
        r
    }

    /// The kind of the resource named `resource_name`, if there is one.
    pub fn get_resource_type(&self, resource_name: &str) -> (r: Option<Resource>)
        ensures
            r is Some <==> self@.names.names.contains_key(resource_name@),
            r matches Some(k) ==> k == self@.names.names[resource_name@].resource,
    {
        match self.resource_names.get(resource_name) {
            Some(d) => Some(d.resource),
            None => None,
        }
    }

    /// Whether a resource named `resource_name` exists.
    pub fn resource_exists(&self, resource_name: &str) -> (b: bool)
        ensures
            b == self@.names.names.contains_key(resource_name@),
    {
        self.get_resource_type(resource_name).is_some()
    }

    /// Adds the file of a resource found on startup to the end of the folder
    /// at `parent_location` (where the project file's location is the root),
    /// and records its name without marking it. Refused where no folder is there.
    pub fn load_in_file(&mut self, name: &str, resource: Resource, parent_location: &str, order: usize) -> (r: Result<(), FolderGraphError>)
        ensures
            (result_view(r), final(self)@) == load_in_file_spec(old(self)@, name@, resource, parent_location@, order),
            names_wf(old(self)@.names) ==> names_wf(final(self)@.names),
    {
        let ghost rv = self@.root;
        let p = match locate_in(&self.root, parent_location, self.root_resource.path.as_str()) {
            Some((p, _)) => p,
            None => {
                return Err(FolderGraphError::PathNotFound(parent_location.to_string()));
            },
        };
        let ghost q = ints(p@);
        proof {
            lemma_locate_valid(rv, parent_location@, self@.root_resource.path);
            assert(ints(p@).skip(0) =~= q);
            lemma_subtree_of_replace(rv, q, empty_folder_view());
        }
        let mut sub = take_at(&mut self.root, &p, 0);
        let ghost before = folder_view(sub);
        sub.files.load_in(name, resource, parent_location, order, &mut self.resource_names);
        proof {
            assert(folder_view(sub) == with_files(before, before.files.push(resource_path_view(resource, name@))));
        }
        put_at(&mut self.root, &p, 0, sub);
        proof {
            lemma_replace_twice(rv, q, empty_folder_view(), folder_view(sub));
        }
        Ok(())
    }

    /// Adds the file of a new resource to the end of the folder at
    /// `parent_location` (where the project file's location is the root), with
    /// an order after all the folder's members (one past the largest of its
    /// subfolders' and its resources' orders), and records its
    /// name as added. Refused where no folder is there.
    pub fn new_resource_end(&mut self, name: &str, resource: Resource, parent_location: &str) -> (r: Result<(), FolderGraphError>)
        requires
            order_fits(old(self)@.root, old(self)@.names.names, parent_location@, old(self)@.root_resource.path),
        ensures
            (result_view(r), final(self)@) == new_resource_end_spec(old(self)@, name@, resource, parent_location@),
            names_wf(old(self)@.names) ==> names_wf(final(self)@.names),
    {
        let ghost rv = self@.root;
        let (p, folder) = match locate_in(&self.root, parent_location, self.root_resource.path.as_str()) {
            Some(found) => found,
            None => {
                return Err(FolderGraphError::PathNotFound(parent_location.to_string()));
            },
        };
        proof {
            lemma_folder_view_folders(*folder);
        }
        let order = end_order(folder, &self.resource_names);
        let ghost q = ints(p@);
        proof {
            lemma_locate_valid(rv, parent_location@, self@.root_resource.path);
            assert(ints(p@).skip(0) =~= q);
            lemma_subtree_of_replace(rv, q, empty_folder_view());
        }
        let mut sub = take_at(&mut self.root, &p, 0);
        let ghost before = folder_view(sub);
        sub.files.add(name, resource, parent_location, order, &mut self.resource_names);
        proof {
            assert(folder_view(sub) == with_files(before, before.files.push(resource_path_view(resource, name@))));
        }
        put_at(&mut self.root, &p, 0, sub);
        proof {
            lemma_replace_twice(rv, q, empty_folder_view(), folder_view(sub));
        }
        Ok(())
    }

    /// Removes the resource named `name`: its file is taken out of the folder
    /// that its record names, and its name is forgotten and marked as removed.
    /// Nothing happens where the name is unknown or its folder is not found.
    pub fn remove_resource(&mut self, name: &str)
        ensures
            final(self)@ == remove_resource_spec(old(self)@, name@),
            names_wf(old(self)@.names) ==> names_wf(final(self)@.names),
    {
        let ghost rv = self@.root;
        let parent_location = match self.resource_names.get(name) {
            Some(desc) => desc.parent_location.clone(),
            None => {
                return;
            },
        };
        let p = match locate_in(&self.root, parent_location.as_str(), self.root_resource.path.as_str()) {
            Some((p, _)) => p,
            None => {
                return;
            },
        };
        let ghost q = ints(p@);
        proof {
            lemma_locate_valid(rv, parent_location@, self@.root_resource.path);
            assert(ints(p@).skip(0) =~= q);
            lemma_subtree_of_replace(rv, q, empty_folder_view());
        }
        let mut sub = take_at(&mut self.root, &p, 0);
        let ghost before = folder_view(sub);
        sub.files.remove(name, &mut self.resource_names);
        proof {
            assert(folder_view(sub) == with_files(before, without_file(before.files, name@)));
        }
        put_at(&mut self.root, &p, 0, sub);
        proof {
            lemma_replace_twice(rv, q, empty_folder_view(), folder_view(sub));
            assert(self@.names == remove_resource_spec(old(self)@, name@).names);
        }
    }

    /// The locations marked for writing, in the order in which they were marked.
    pub closed spec fn serialize_paths(self) -> Seq<Seq<char>> {
        self.to_serialize.key_seq()
    }

    /// The marks of the locations marked for writing, in the same order.
    pub closed spec fn serialize_states(self) -> Seq<FolderDirtyState> {
        self.to_serialize.value_seq()
    }

    /// The locations marked for removal, in the order in which they were marked.
    pub closed spec fn remove_paths(self) -> Seq<Seq<char>> {
        self.to_remove.key_seq()
    }

    /// The resource names marked for writing, in the order in which they were marked.
    pub closed spec fn names_reserialize_keys(self) -> Seq<Seq<char>> {
        self.resource_names.reserialize_keys()
    }

    /// The resource names marked for removal, in the order in which they were marked.
    pub closed spec fn names_remove_keys(self) -> Seq<Seq<char>> {
        self.resource_names.remove_keys()
    }

    /// Applies the pending changes to the project file's lists of folders and
    /// resources. Each folder marked for writing gets its entry written (an
    /// edit replaces the entry at its location, anything else is appended),
    /// then the entry of each folder marked for removal is taken out; the
    /// registry of names then writes its own marks. All marks are cleared.
    pub fn serialize(&mut self, yyp_folders: &mut Vec<YypFolder>, yyp_resources: &mut Vec<YypResource>)
        requires
            serialize_ready_spec(old(self)@, folder_list_view(old(yyp_folders)@)),
        ensures
            folder_list_view(final(yyp_folders)@) == remove_folders(
                write_folders(
                    folder_list_view(old(yyp_folders)@),
                    old(self)@.root,
                    old(self).serialize_paths(),
                    old(self).serialize_states(),
                ),
                old(self).remove_paths(),
            ),
            list_view(final(yyp_resources)@) == remove_all(
                upsert_all(
                    list_view(old(yyp_resources)@),
                    old(self)@.names.names,
                    old(self).names_reserialize_keys(),
                ),
                old(self).names_remove_keys(),
            ),
            final(self)@.root == old(self)@.root,
            final(self)@.root_resource == old(self)@.root_resource,
            final(self)@.names.names == old(self)@.names.names,
            final(self)@.names.dirty.reserialize == Map::<Seq<char>, crate::dirty_handler::DirtyState>::empty(),
            final(self)@.names.dirty.remove == Map::<Seq<char>, crate::dirty_handler::DirtyState>::empty(),
            names_wf(final(self)@.names),
            final(self)@.to_serialize == Map::<Seq<char>, FolderDirtyState>::empty(),
            final(self)@.to_remove == Map::<Seq<char>, FolderDirtyState>::empty(),
    {
        let ghost rv = self@.root;
        let ghost old_list = folder_list_view(yyp_folders@);
        let ghost keys = self.serialize_paths();
        let ghost states = self.serialize_states();
        let ghost rkeys = self.remove_paths();
        let ghost ts = self@.to_serialize;
        let ghost tr = self@.to_remove;
        let ghost ts_map = self.to_serialize;
        let ghost tr_map = self.to_remove;
        self.to_serialize.entries_agree();
        self.to_remove.entries_agree();
        proof {
            assert forall|j: int| 0 <= j < keys.len() implies #[trigger] ts.contains_key(keys[j]) && ts[keys[j]] == states[j] by {
                assert(keys[j] == ts_map.spec_key(j));
                assert(states[j] == ts_map.spec_value(j));
                assert(ts_map@.contains_key(ts_map.spec_key(j)));
            }
            assert forall|k: Seq<char>| #[trigger] ts.contains_key(k) implies exists|w: int| 0 <= w < keys.len() && keys[w] == k by {
                let w = choose|w: int| 0 <= w < ts_map.spec_len() && ts_map.spec_key(w) == k;
                assert(keys[w] == k);
            }
            assert forall|l: int| 0 <= l < rkeys.len() implies #[trigger] tr.contains_key(rkeys[l]) by {
                assert(rkeys[l] == tr_map.spec_key(l));
            }
            assert forall|a: int, b: int| 0 <= a < rkeys.len() && 0 <= b < rkeys.len() && a != b implies rkeys[a] != rkeys[b] by {
                assert(rkeys[a] == tr_map.spec_key(a));
                assert(rkeys[b] == tr_map.spec_key(b));
            }
        }
        let written_entries = self.to_serialize.drain();
        let removed_entries = self.to_remove.drain();
        let root_loc = yy_root_folder_location();
        let n = written_entries.len();
        let mut i: usize = 0;
        proof {
            assert(keys.take(0) =~= Seq::<Seq<char>>::empty());
            assert(ts == old(self)@.to_serialize);
            assert(rv == old(self)@.root);
            assert forall|j: int| 0 <= j < n implies #[trigger] locate(rv, keys[j], root_folder_location()) is Some by {
                assert(ts.contains_key(keys[j]));
            }
            assert forall|j: int| 0 <= j < n && states[j] == FolderDirtyState::Edit implies #[trigger] has_folder_at(
                old_list,
                keys[j],
            ) by {
                assert(ts.contains_key(keys[j]));
            }
        }
        while i < n
            invariant
                n == written_entries@.len(),
                n == keys.len(),
                n == states.len(),
                i <= n,
                root_loc@ == root_folder_location(),
                folder_view(self.root) == rv,
                forall|j: int|
                    0 <= j < n ==> #[trigger] written_entries@[j].0@ == keys[j] && written_entries@[j].1
                        == states[j],
                forall|j: int| 0 <= j < n ==> #[trigger] locate(rv, keys[j], root_folder_location()) is Some,
                forall|j: int|
                    0 <= j < n && states[j] == FolderDirtyState::Edit ==> #[trigger] has_folder_at(
                        old_list,
                        keys[j],
                    ),
                folder_list_view(yyp_folders@) == write_folders(old_list, rv, keys.take(i as int), states),
                forall|k: Seq<char>| #[trigger] has_folder_at(old_list, k) ==> has_folder_at(folder_list_view(yyp_folders@), k),
                forall|j: int| 0 <= j < i ==> #[trigger] has_folder_at(folder_list_view(yyp_folders@), keys[j]),
            decreases n - i,
        {
            let path = &written_entries[i].0;
            let state = written_entries[i].1;
            let ghost before = folder_list_view(yyp_folders@);
            proof {
                assert(keys.take(i as int + 1).drop_last() =~= keys.take(i as int));
                assert(keys.take(i as int + 1).last() == keys[i as int]);
                assert(locate(rv, keys[i as int], root_folder_location()) is Some);
            }
            match Self::get_folder(&self.root, path.as_str(), root_loc.as_str()) {
                Some(f) => {
                    let entry = YypFolder {
                        folder_path: path.clone(),
                        order: f.order,
                        name: f.name.clone(),
                        tags: copy_strings(&f.tags),
                    };
                    let ghost e = entry@;
                    proof {
                        assert(e == folder_entry(keys[i as int], folder_at(rv, keys[i as int])));
                    }
                    match state {
                        FolderDirtyState::Edit => {
                            proof {
                                assert(has_folder_at(old_list, keys[i as int]));
                                lemma_first_folder_at(before, path@);
                            }
                            match folder_position(yyp_folders, path.as_str()) {
                                Some(pos) => {
                                    yyp_folders.set(pos, entry);
                                    proof {
                                        let after = folder_list_view(yyp_folders@);
                                        assert(after =~= before.update(pos as int, e));
                                        assert forall|k: Seq<char>| #[trigger] has_folder_at(before, k) implies has_folder_at(after, k) by {
                                            let w = choose|w: int| 0 <= w < before.len() && #[trigger] before[w].folder_path == k;
                                            assert(after[w].folder_path == k);
                                        }
                                        assert(has_folder_at(after, keys[i as int])) by {
                                            assert(after[pos as int].folder_path == keys[i as int]);
                                        }
                                    }
                                },
                                None => {
                                    proof {
                                        let w = choose|w: int| 0 <= w < before.len() && #[trigger] before[w].folder_path == path@;
                                        assert(before[w].folder_path == path@);
                                    }
                                },
                            }
                        },
                        FolderDirtyState::Lifetime => {
                            yyp_folders.push(entry);
                            proof {
                                let after = folder_list_view(yyp_folders@);
                                assert(after =~= before.push(e));
                                assert forall|k: Seq<char>| #[trigger] has_folder_at(before, k) implies has_folder_at(after, k) by {
                                    let w = choose|w: int| 0 <= w < before.len() && #[trigger] before[w].folder_path == k;
                                    assert(after[w].folder_path == k);
                                }
                                assert(has_folder_at(after, keys[i as int])) by {
                                    assert(after[before.len() as int].folder_path == keys[i as int]);
                                }
                            }
                        },
                    }
                },
                None => {
                    proof {
                        assert(path@ == keys[i as int]);
                        assert(false);
                    }
                },
            }
            proof {
                assert forall|j: int| 0 <= j < i + 1 implies #[trigger] has_folder_at(
                    folder_list_view(yyp_folders@),
                    keys[j],
                ) by {
                    if j < i {
                        assert(has_folder_at(before, keys[j]));
                    }
                }
            }
            i = i + 1;
        }
        proof {
            assert(keys.take(n as int) =~= keys);
        }
        let ghost written = folder_list_view(yyp_folders@);
        let m = removed_entries.len();
        let mut j: usize = 0;
        proof {
            assert(rkeys.take(0) =~= Seq::<Seq<char>>::empty());
            assert forall|l: int| 0 <= l < m implies #[trigger] has_folder_at(written, rkeys[l]) by {
                assert(tr.contains_key(rkeys[l]));
                if !has_folder_at(old_list, rkeys[l]) {
                    assert(ts.contains_key(rkeys[l]));
                    let w = choose|w: int| 0 <= w < keys.len() && keys[w] == rkeys[l];
                    assert(has_folder_at(written, keys[w]));
                }
            }
        }
        while j < m
            invariant
                m == removed_entries@.len(),
                m == rkeys.len(),
                j <= m,
                forall|l: int| 0 <= l < m ==> #[trigger] removed_entries@[l].0@ == rkeys[l],
                forall|a: int, b: int| 0 <= a < m && 0 <= b < m && a != b ==> rkeys[a] != rkeys[b],
                folder_list_view(yyp_folders@) == remove_folders(written, rkeys.take(j as int)),
                forall|l: int| j <= l < m ==> #[trigger] has_folder_at(folder_list_view(yyp_folders@), rkeys[l]),
            decreases m - j,
        {
            let path = &removed_entries[j].0;
            let ghost before = folder_list_view(yyp_folders@);
            proof {
                assert(rkeys.take(j as int + 1).drop_last() =~= rkeys.take(j as int));
                assert(rkeys.take(j as int + 1).last() == rkeys[j as int]);
                assert(has_folder_at(before, rkeys[j as int]));
                lemma_first_folder_at(before, path@);
            }
            match folder_position(yyp_folders, path.as_str()) {
                Some(pos) => {
                    yyp_folders.remove(pos);
                    proof {
                        let after = folder_list_view(yyp_folders@);
                        assert(after =~= before.remove(pos as int));
                        assert forall|l: int| j + 1 <= l < m implies #[trigger] has_folder_at(after, rkeys[l]) by {
                            assert(has_folder_at(before, rkeys[l]));
                            let w = choose|w: int| 0 <= w < before.len() && #[trigger] before[w].folder_path == rkeys[l];
                            assert(rkeys[l] != rkeys[j as int]);
                            assert(w != pos);
                            if w < pos {
                                assert(after[w].folder_path == rkeys[l]);
                            } else {
                                assert(after[w - 1].folder_path == rkeys[l]);
                            }
                        }
                    }
                },
                None => {
                    proof {
                        let w = choose|w: int| 0 <= w < before.len() && #[trigger] before[w].folder_path == path@;
                        assert(before[w].folder_path == path@);
                    }
                },
            }
            j = j + 1;
        }
        proof {
            assert(rkeys.take(m as int) =~= rkeys);
        }
        self.resource_names.serialize(yyp_resources);
    }

    /// Loads the folder entries of the project file: for each, in order, the
    /// folders along its location are created where missing (with order 0,
    /// no tags, and the location of their parent), and the folder at that
    /// location takes the entry's order and tags.
    pub fn load_in_folders(&mut self, folders: &[YypFolder])
        requires
            forall|i: int| 0 <= i < folders@.len() ==> loadable_location(#[trigger] folders@[i].folder_path@),
        ensures
            final(self)@ == (VfsView {
                root: load_folders(old(self)@.root, folders@.map_values(|f: YypFolder| f@)),
                ..old(self)@
            }),
    {
        let ghost list = folders@.map_values(|f: YypFolder| f@);
        let root_loc = yy_root_folder_location();
        let mut i: usize = 0;
        proof {
            assert(list.take(0) =~= Seq::<YypFolderView>::empty());
        }
        while i < folders.len()
            invariant
                i <= folders@.len(),
                list == folders@.map_values(|f: YypFolder| f@),
                root_loc@ == root_folder_location(),
                forall|j: int| 0 <= j < folders@.len() ==> loadable_location(#[trigger] folders@[j].folder_path@),
                self@ == (VfsView { root: load_folders(old(self)@.root, list.take(i as int)), ..old(self)@ }),
            decreases folders@.len() - i,
        {
            let yf = &folders[i];
            let ghost r0 = self@.root;
            let ghost cn = component_names(yf.folder_path@);
            proof {
                assert(list.take(i as int + 1).drop_last() =~= list.take(i as int));
                assert(list.take(i as int + 1).last() == yf@);
            }
            let comps = component_paths(yf.folder_path.as_str());
            proof {
                assert(comps@.map_values(|c: String| c@).skip(0) =~= cn);
            }
            ensure_path(&mut self.root, &comps, 0);
            let ghost r1 = self@.root;
            proof {
                assert(r1 == ensure_names(r0, cn));
                lemma_ensure_names_located(r0, cn);
                assert(loadable_location(yf.folder_path@));
            }
            match locate_in(&self.root, yf.folder_path.as_str(), root_loc.as_str()) {
                Some((p, _)) => {
                    let ghost q = ints(p@);
                    proof {
                        lemma_locate_valid(r1, yf.folder_path@, root_loc@);
                        assert(ints(p@).skip(0) =~= q);
                        lemma_subtree_of_replace(r1, q, empty_folder_view());
                    }
                    let mut sub = take_at(&mut self.root, &p, 0);
                    sub.order = yf.order;
                    sub.tags = copy_strings(&yf.tags);
                    proof {
                        lemma_folder_view_folders(sub);
                        assert(folder_view(sub).folders == subtree_at(r1, q).folders);
                    }
                    put_at(&mut self.root, &p, 0, sub);
                    proof {
                        lemma_replace_twice(r1, q, empty_folder_view(), folder_view(sub));
                    }
                },
                None => {
                    proof {
                        assert(false);
                    }
                },
            }
            i = i + 1;
        }
        proof {
            assert(list.take(i as int) =~= list);
        }
    }

    /// The folder that holds the file named `name` (the first in depth-first
    /// order). Refused where no folder holds it.
    pub fn get_folder_by_fname(&self, name: &str) -> (r: Result<&FolderGraph, FolderGraphError>)
        ensures
            match fname_path(self@.root, name@) {
                Some(p) => r matches Ok(f) && folder_view(*f) == subtree_at(self@.root, p),
                None => r matches Err(e) && e@ == FolderGraphErrorView::PathNotFound(name@),
            },
    {
        match self.root.get_folder_by_fname(name) {
            Some(f) => Ok(f),
            None => Err(FolderGraphError::PathNotFound(name.to_string())),
        }
    }

    /// Whether a save can be made against the folder list `yyp_folders` (see
    /// [`serialize_ready_spec`]).
    #[verifier::spinoff_prover]
    pub fn serialize_ready(&self, yyp_folders: &Vec<YypFolder>) -> (r: bool)
        ensures
            r == serialize_ready_spec(self@, folder_list_view(yyp_folders@)),
    {
        let ghost list = folder_list_view(yyp_folders@);
        if !self.resource_names.is_consistent() {
            return false;
        }
        let root_loc = yy_root_folder_location();
        let ts = &self.to_serialize;
        ts.entries_agree();
        let n = ts.len();
        let mut i: usize = 0;
        while i < n
            invariant
                n == ts.spec_len(),
                i <= n,
                ts@ == self@.to_serialize,
                root_loc@ == root_folder_location(),
                list == folder_list_view(yyp_folders@),
                forall|j: int| 0 <= j < i ==> #[trigger] locate(self@.root, ts.spec_key(j), root_folder_location()) is Some,
                forall|j: int|
                    0 <= j < i && ts.spec_value(j) == FolderDirtyState::Edit ==> #[trigger] has_folder_at(
                        list,
                        ts.spec_key(j),
                    ),
                forall|k: Seq<char>|
                    #[trigger] ts@.contains_key(k) ==> exists|j: int| 0 <= j < ts.spec_len() && ts.spec_key(j) == k,
                forall|j: int|
                    0 <= j < ts.spec_len() ==> #[trigger] ts@.contains_key(ts.spec_key(j)) && ts@[ts.spec_key(j)]
                        == ts.spec_value(j),
            decreases n - i,
        {
            let k = ts.key_at(i);
            let state = *ts.value_at(i);
            if Self::get_folder(&self.root, k.as_str(), root_loc.as_str()).is_none() {
                return false;
            }
            match state {
                FolderDirtyState::Edit => {
                    proof {
                        lemma_first_folder_at(list, k@);
                    }
                    if folder_position(yyp_folders, k.as_str()).is_none() {
                        return false;
                    }
                    proof {
                        let w = first_folder_at(list, k@)->Some_0;
                        assert(list[w].folder_path == k@);
                    }
                },
                FolderDirtyState::Lifetime => {},
            }
            i = i + 1;
        }
        proof {
            assert forall|k: Seq<char>| #[trigger] self@.to_serialize.contains_key(k) implies locate(
                self@.root,
                k,
                root_folder_location(),
            ) is Some by {
                let j = choose|j: int| 0 <= j < ts.spec_len() && ts.spec_key(j) == k;
                assert(locate(self@.root, ts.spec_key(j), root_folder_location()) is Some);
            }
            assert forall|k: Seq<char>|
                #[trigger] self@.to_serialize.contains_key(k) && self@.to_serialize[k] == FolderDirtyState::Edit
                    implies has_folder_at(list, k) by {
                let j = choose|j: int| 0 <= j < ts.spec_len() && ts.spec_key(j) == k;
                assert(has_folder_at(list, ts.spec_key(j)));
            }
        }
        let tr = &self.to_remove;
        tr.entries_agree();
        let m = tr.len();
        let mut l: usize = 0;
        while l < m
            invariant
                m == tr.spec_len(),
                l <= m,
                tr@ == self@.to_remove,
                ts@ == self@.to_serialize,
                list == folder_list_view(yyp_folders@),
                forall|j: int|
                    0 <= j < l ==> #[trigger] has_folder_at(list, tr.spec_key(j)) || ts@.contains_key(tr.spec_key(j)),
                forall|k: Seq<char>|
                    #[trigger] tr@.contains_key(k) ==> exists|j: int| 0 <= j < tr.spec_len() && tr.spec_key(j) == k,
            decreases m - l,
        {
            let k = tr.key_at(l);
            proof {
                lemma_first_folder_at(list, k@);
            }
            if folder_position(yyp_folders, k.as_str()).is_none() && !ts.contains_key(k.as_str()) {
                return false;
            }
            proof {
                if first_folder_at(list, k@) is Some {
                    let w = first_folder_at(list, k@)->Some_0;
                    assert(list[w].folder_path == k@);
                }
            }
            l = l + 1;
        }
        proof {
            assert forall|k: Seq<char>| #[trigger] self@.to_remove.contains_key(k) implies has_folder_at(list, k)
                || self@.to_serialize.contains_key(k) by {
                let j = choose|j: int| 0 <= j < tr.spec_len() && tr.spec_key(j) == k;
                assert(has_folder_at(list, tr.spec_key(j)) || ts@.contains_key(tr.spec_key(j)));
            }
        }
        true
    }
}

/// The positions of the parent that [`Vfs::new_folder_end`] adds to.
pub open spec fn new_folder_parent(v: VfsView, parent: Seq<char>) -> Seq<int> {
    locate(v.root, parent, root_folder_location())->Some_0
}

/// A folder just created is found at the location that the creation handed
/// back: it is the new last subfolder of its parent, named as asked, with its
/// parent's location, no tags and nothing in it. This holds where the
/// creation succeeds and the folder's name holds no `/` and does not end in
/// `.yy`.
pub proof fn law_new_folder_is_found(v: VfsView, parent: Seq<char>, name: Seq<char>)
    requires
        new_folder_end_spec(v, parent, name).0 is Ok,
        simple_folder_name(name),
    ensures
        new_folder_end_spec(v, parent, name).0 == Ok::<ViewPathView, FolderGraphErrorView>(
            ViewPathView { name, path: join_spec(parent, name) },
        ),
        ({
            let p = new_folder_parent(v, parent);
            let f = subtree_at(v.root, p);
            let w = new_folder_end_spec(v, parent, name).1;
            &&& locate(w.root, join_spec(parent, name), root_folder_location()) == Some(p.push(f.folders.len() as int))
            &&& subtree_at(w.root, p.push(f.folders.len() as int)) == new_folder_view(name, parent, next_order(f, v.names.names) as usize)
        }),
{
    let root_loc = root_folder_location();
    let p = locate(v.root, parent, root_loc)->Some_0;
    let f = subtree_at(v.root, p);
    let path = join_spec(parent, name);
    let n = f.folders.len() as int;
    let child = new_folder_view(name, parent, next_order(f, v.names.names) as usize);
    let sub = with_child(f, child);
    let w_root = replace_at(v.root, p, sub);
    lemma_locate_valid(v.root, parent, root_loc);
    lemma_join_components(parent, name);
    lemma_root_components();
    let cn = component_names(parent);
    assert(locate_names(v.root, cn) == Some(p)) by {
        if parent == root_loc {
            assert(p =~= Seq::<int>::empty());
        }
    }
    lemma_child_index(f.folders, name);
    assert(sub.folders.drop_last() =~= f.folders);
    assert(child_index(sub.folders, name) == Some(n));
    assert(locate_names(child, Seq::<Seq<char>>::empty()) == Some(Seq::<int>::empty()));
    assert(seq![name].skip(1) =~= Seq::<Seq<char>>::empty());
    assert(locate_names(sub, seq![name]) == Some(seq![n])) by {
        assert(seq![n] =~= seq![n] + Seq::<int>::empty());
    }
    lemma_locate_names_replace(v.root, cn, p, sub, seq![name]);
    assert(cn + seq![name] =~= cn.push(name));
    assert(p + seq![n] =~= p.push(n));
    lemma_subtree_of_replace(v.root, p, sub);
    lemma_subtree_push(w_root, p, n);
}

/// Creating a folder and then removing it at the location that the creation
/// handed back leaves the virtual file system as it was. This holds where the
/// creation succeeds, the folder's name holds no `/` and does not end in
/// `.yy`, and the new location was not already marked for writing.
pub proof fn law_new_then_remove_folder(v: VfsView, parent: Seq<char>, name: Seq<char>)
    requires
        new_folder_end_spec(v, parent, name).0 is Ok,
        simple_folder_name(name),
        !v.to_serialize.contains_key(join_spec(parent, name)),
    ensures
        remove_folder_spec(new_folder_end_spec(v, parent, name).1, join_spec(parent, name)) == (
            Ok::<(), FolderGraphErrorView>(()),
            v,
        ),
{
    law_new_folder_is_found(v, parent, name);
    let p = new_folder_parent(v, parent);
    let f = subtree_at(v.root, p);
    let path = join_spec(parent, name);
    let n = f.folders.len() as int;
    let child = new_folder_view(name, parent, next_order(f, v.names.names) as usize);
    let sub = with_child(f, child);
    let w = new_folder_end_spec(v, parent, name).1;
    lemma_locate_valid(v.root, parent, root_folder_location());
    lemma_subtree_of_replace(v.root, p, sub);
    assert(p.push(n).drop_last() =~= p);
    assert(p.push(n).last() == n);
    assert(without_child(sub, n) == f) by {
        assert(sub.folders.remove(n) =~= f.folders);
    }
    lemma_replace_twice(v.root, p, sub, f);
    lemma_replace_same(v.root, p);
    let after = remove_folder_spec(w, path).1;
    assert(after.root == v.root);
    assert(after.to_serialize =~= v.to_serialize);
    assert(after.to_remove =~= v.to_remove);
}

/// A located folder is reached along its location's names, whatever the
/// location of the root.
proof fn lemma_locate_replace(root: FolderGraphView, loc: Seq<char>, root_loc: Seq<char>, sub: FolderGraphView)
    requires
        locate(root, loc, root_loc) is Some,
        sub.name == subtree_at(root, locate(root, loc, root_loc)->Some_0).name,
    ensures
        locate(replace_at(root, locate(root, loc, root_loc)->Some_0, sub), loc, root_loc) == locate(root, loc, root_loc),
{
    let p = locate(root, loc, root_loc)->Some_0;
    if loc != root_loc {
        let cn = component_names(loc);
        lemma_locate_names_replace(root, cn, p, sub, Seq::empty());
        assert(cn + Seq::<Seq<char>>::empty() =~= cn);
        assert(p + Seq::<int>::empty() =~= p);
    }
}

/// Adding a resource at the end of a folder and then removing it by name
/// leaves the virtual file system as it was. This holds where the folder is
/// found, the name was neither known nor marked, and the folder held no file
/// of that name.
pub proof fn law_new_then_remove_resource(v: VfsView, name: Seq<char>, kind: Resource, parent: Seq<char>)
    requires
        new_resource_end_spec(v, name, kind, parent).0 is Ok,
        !v.names.names.contains_key(name),
        untracked(v.names.dirty, name),
        file_index(subtree_at(v.root, locate(v.root, parent, v.root_resource.path)->Some_0).files, name) is None,
    ensures
        remove_resource_spec(new_resource_end_spec(v, name, kind, parent).1, name) == v,
{
    let p = locate(v.root, parent, v.root_resource.path)->Some_0;
    let f = subtree_at(v.root, p);
    let sub = with_files(f, f.files.push(resource_path_view(kind, name)));
    let w = new_resource_end_spec(v, name, kind, parent).1;
    lemma_locate_valid(v.root, parent, v.root_resource.path);
    lemma_locate_replace(v.root, parent, v.root_resource.path, sub);
    lemma_subtree_of_replace(v.root, p, sub);
    assert(w.names.names[name].parent_location == parent);
    // The file just added is the first of its name in the folder.
    lemma_file_index(f.files, name);
    assert(sub.files.drop_last() =~= f.files);
    assert(file_index(sub.files, name) == Some(f.files.len() as int));
    assert(without_file(sub.files, name) =~= f.files);
    assert(with_files(sub, without_file(sub.files, name)) == f);
    lemma_replace_twice(v.root, p, sub, f);
    lemma_replace_same(v.root, p);
    law_add_then_remove_restores(v.names.dirty, name);
    let after = remove_resource_spec(w, name);
    assert(after.names.names =~= v.names.names);
    assert(after.root == v.root);
}

proof fn lemma_writes_keep(
    list: Seq<YypFolderView>,
    root: FolderGraphView,
    paths: Seq<Seq<char>>,
    states: Seq<FolderDirtyState>,
    j: int,
)
    requires
        0 <= j < paths.len() <= states.len(),
        states[j] == FolderDirtyState::Lifetime,
        forall|i: int| 0 <= i < paths.len() && i != j ==> paths[i] != paths[j],
    ensures
        write_folders(list, root, paths, states).contains(folder_entry(paths[j], folder_at(root, paths[j]))),
    decreases paths.len(),
{
    let e = folder_entry(paths[j], folder_at(root, paths[j]));
    let n = paths.len() - 1;
    let prev = write_folders(list, root, paths.drop_last(), states);
    if j == n {
        assert(paths.last() == paths[j]);
        assert(write_folders(list, root, paths, states)[prev.len() as int] == e);
    } else {
        assert forall|i: int| 0 <= i < paths.drop_last().len() && i != j implies paths.drop_last()[i]
            != paths.drop_last()[j] by {
            assert(paths.drop_last()[i] == paths[i]);
        }
        lemma_writes_keep(list, root, paths.drop_last(), states, j);
        assert(paths.drop_last()[j] == paths[j]);
        let w = choose|w: int| 0 <= w < prev.len() && prev[w] == e;
        let last = paths.last();
        assert(last == paths[n]);
        assert(last != paths[j]);
        let after = write_folders(list, root, paths, states);
        if states[n] == FolderDirtyState::Lifetime {
            assert(after[w] == e);
        } else {
            lemma_first_folder_at(prev, last);
            match first_folder_at(prev, last) {
                Some(i) => {
                    assert(prev[i].folder_path == last);
                    assert(i != w);
                    assert(after[w] == e);
                },
                None => {
                    assert(after[w] == e);
                },
            }
        }
    }
}

proof fn lemma_removals_keep(list: Seq<YypFolderView>, paths: Seq<Seq<char>>, e: YypFolderView)
    requires
        list.contains(e),
        !paths.contains(e.folder_path),
    ensures
        remove_folders(list, paths).contains(e),
    decreases paths.len(),
{
    if paths.len() > 0 {
        assert(!paths.drop_last().contains(e.folder_path)) by {
            if paths.drop_last().contains(e.folder_path) {
                let j = choose|j: int| 0 <= j < paths.drop_last().len() && paths.drop_last()[j] == e.folder_path;
                assert(paths[j] == e.folder_path);
            }
        }
        lemma_removals_keep(list, paths.drop_last(), e);
        let prev = remove_folders(list, paths.drop_last());
        let last = paths.last();
        assert(last != e.folder_path) by {
            assert(paths[paths.len() - 1] == last);
        }
        lemma_first_folder_at(prev, last);
        let w = choose|w: int| 0 <= w < prev.len() && prev[w] == e;
        match first_folder_at(prev, last) {
            Some(i) => {
                assert(i != w);
                let after = prev.remove(i);
                if w < i {
                    assert(after[w] == e);
                } else {
                    assert(after[w - 1] == e);
                }
            },
            None => {},
        }
    }
}

/// After a save, a folder created since the last save, and not removed, has
/// its entry (its location, order, name and tags) in the project file's list
/// of folders, whatever the list held before. Locations are marked once each.
pub proof fn law_serialize_writes_created_folder(
    list: Seq<YypFolderView>,
    root: FolderGraphView,
    paths: Seq<Seq<char>>,
    states: Seq<FolderDirtyState>,
    removed: Seq<Seq<char>>,
    j: int,
)
    requires
        0 <= j < paths.len() == states.len(),
        states[j] == FolderDirtyState::Lifetime,
        paths.no_duplicates(),
        !removed.contains(paths[j]),
    ensures
        remove_folders(write_folders(list, root, paths, states), removed).contains(
            folder_entry(paths[j], folder_at(root, paths[j])),
        ),
{
    lemma_writes_keep(list, root, paths, states, j);
    lemma_removals_keep(
        write_folders(list, root, paths, states),
        removed,
        folder_entry(paths[j], folder_at(root, paths[j])),
    );
}
} // verus!
