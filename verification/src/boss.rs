//! Changes to a project that involve both its folder tree and the handler of
//! one kind of resource.
use vstd::prelude::*;
use crate::dirty_handler::{add_spec, remove_spec, untracked};
use crate::folders::{
    file_index, law_new_then_remove_resource, locate, new_folder_end_spec, new_resource_end_spec,
    load_in_file_spec, order_fits, remove_folder_spec, remove_resource_spec, result_view, root_folder_location,
    subtree_at, files_in, folder_locs, folders_removed, replace_at, strings_view, without_child,
    FolderGraphErrorView,
    FolderGraphError, ViewPath, Vfs, VfsView,
};
use crate::names::valid_resource_name;
use crate::project::{can_use_name, ResourceManipulationError};
use crate::resource_handler::{law_set_then_remove, YyResourceHandler, YyResourceHandlerView};
use crate::resource_names::ResourceNamesView;
use crate::resources::Resource;

verus! {

/// What [`add_resource`] does, as a relation between the folder tree and the
/// handler before (`v0`, `h0`) and after (`v1`, `h1`) adding `yy_file` with
/// `associated_data` under `name` to the folder at `parent`, and its result.
pub open spec fn add_resource_outcome<T, A>(
    v0: VfsView,
    v1: VfsView,
    h0: YyResourceHandlerView<T, A>,
    h1: YyResourceHandlerView<T, A>,
    resource: Resource,
    name: Seq<char>,
    parent: Seq<char>,
    yy_file: T,
    associated_data: A,
    r: Result<(), ResourceManipulationError>,
) -> bool {
    &&& v0.names.names.contains_key(name) ==> r == Err::<(), ResourceManipulationError>(
        ResourceManipulationError::NameCollision(v0.names.names[name].resource),
    ) && v1 == v0 && h1 == h0
    &&& !v0.names.names.contains_key(name) && !valid_resource_name(name) ==> r == Err::<
        (),
        ResourceManipulationError,
    >(ResourceManipulationError::BadName) && v1 == v0 && h1 == h0
    &&& !v0.names.names.contains_key(name) && valid_resource_name(name) ==> {
        let (res, after) = new_resource_end_spec(v0, name, resource, parent);
        &&& v1 == after
        &&& match res {
            Err(e) => r matches Err(ResourceManipulationError::FolderGraphError(fe)) && fe@ == e && h1 == h0,
            Ok(_) => {
                &&& h1.resources == h0.resources.insert(name, (yy_file, Some(associated_data)))
                &&& h0.resources.contains_key(name) ==> r == Err::<(), ResourceManipulationError>(
                    ResourceManipulationError::InternalError,
                )
                &&& !h0.resources.contains_key(name) ==> r is Ok && h1.dirty == add_spec(h0.dirty, name)
            },
        }
    }
}

/// Adds a new resource, which must not already exist within the project:
/// the name must be free and valid, the resource's file joins the end of the
/// folder at `parent_location`, and the handler of its kind records it with
/// its data. Where the handler held the name already, the project was out
/// of step with itself: the handler's resource is replaced and
/// `InternalError` is reported.
pub fn add_resource<T, A, F>(
    vfs: &mut Vfs,
    handler: &mut YyResourceHandler<T, A>,
    resource: Resource,
    name: String,
    parent_location: &str,
    yy_file: T,
    associated_data: A,
    cleanup_on_replace: F,
) -> (r: Result<(), ResourceManipulationError>) where F: Fn(&T) -> Vec<String>
    requires
        order_fits(old(vfs)@.root, old(vfs)@.names.names, parent_location@, old(vfs)@.root_resource.path),
        forall|t: &T| #[trigger] cleanup_on_replace.requires((t,)),
        old(handler)@.dirty.associated is Some,
    ensures
        add_resource_outcome(
            old(vfs)@,
            final(vfs)@,
            old(handler)@,
            final(handler)@,
            resource,
            name@,
            parent_location@,
            yy_file,
            associated_data,
            r,
        ),
{
    match can_use_name(vfs, name.as_str()) {
        Err(e) => {
            return Err(e);
        },
        Ok(()) => {},
    }
    match vfs.new_resource_end(name.as_str(), resource, parent_location) {
        Err(e) => {
            return Err(ResourceManipulationError::FolderGraphError(e));
        },
        Ok(()) => {},
    }
    match handler.set(name, yy_file, associated_data, cleanup_on_replace) {
        Some(_) => Err(ResourceManipulationError::InternalError),
        None => Ok(()),
    }
}

/// Removes a resource, which must exist within the project: its file leaves
/// the folder tree, and the handler of its kind gives it back with its data
/// where that was loaded. Where the handler does not hold it, the project
/// was out of step with itself and `InternalError` is reported.
pub fn remove_resource<T, A>(vfs: &mut Vfs, handler: &mut YyResourceHandler<T, A>, name: &str) -> (r:
    Result<(T, Option<A>), ResourceManipulationError>)
    ensures
        final(vfs)@ == remove_resource_spec(old(vfs)@, name@),
        final(handler)@.resources == old(handler)@.resources.remove(name@),
        r is Ok <==> old(handler)@.resources.contains_key(name@),
        r matches Ok(p) ==> p == old(handler)@.resources[name@] && final(handler)@.dirty == remove_spec(
            old(handler)@.dirty,
            name@,
        ),
        r matches Err(e) ==> e == ResourceManipulationError::InternalError && final(handler)@.dirty
            == old(handler)@.dirty,
{
    vfs.remove_resource(name);
    match handler.remove(name) {
        Some(p) => Ok(p),
        None => Err(ResourceManipulationError::InternalError),
    }
}

/// Adding a resource under a new name and then removing it gives back the
/// folder tree and the handler's resources and marks. This holds where the
/// name is free, valid and unmarked in both, the folder is found, and it
/// holds no file of that name.
pub proof fn law_add_then_remove_resource<T, A>(
    v: VfsView,
    h: YyResourceHandlerView<T, A>,
    name: Seq<char>,
    kind: Resource,
    parent: Seq<char>,
    yy_file: T,
    data: A,
)
    requires
        !v.names.names.contains_key(name),
        untracked(v.names.dirty, name),
        new_resource_end_spec(v, name, kind, parent).0 is Ok,
        file_index(subtree_at(v.root, locate(v.root, parent, v.root_resource.path)->Some_0).files, name) is None,
        !h.resources.contains_key(name),
        untracked(h.dirty, name),
    ensures
        remove_resource_spec(new_resource_end_spec(v, name, kind, parent).1, name) == v,
        h.resources.insert(name, (yy_file, Some(data))).remove(name) == h.resources,
        remove_spec(add_spec(h.dirty, name), name) == h.dirty,
{
    law_new_then_remove_resource(v, name, kind, parent);
    law_set_then_remove(h, name, yy_file, data);
}

/// An added resource is found again, unchanged and with its data: where
/// [`add_resource`] succeeds, the handler holds exactly the resource and data
/// that were added under the name (which is what [`YyResourceHandler::get`]
/// gives back), its other resources are as they were, and the name is
/// registered for the resource's kind in the folder it was added to.
pub proof fn law_added_resource_is_found<T, A>(
    v0: VfsView,
    v1: VfsView,
    h0: YyResourceHandlerView<T, A>,
    h1: YyResourceHandlerView<T, A>,
    resource: Resource,
    name: Seq<char>,
    parent: Seq<char>,
    yy_file: T,
    data: A,
)
    requires
        add_resource_outcome(v0, v1, h0, h1, resource, name, parent, yy_file, data, Ok(())),
    ensures
        h1.resources.contains_key(name),
        h1.resources[name] == (yy_file, Some(data)),
        forall|k: Seq<char>|
            k != name ==> h1.resources.contains_key(k) == h0.resources.contains_key(k) && (h0.resources.contains_key(k)
                ==> h1.resources[k] == h0.resources[k]),
        v1.names.names.contains_key(name),
        v1.names.names[name].resource == resource,
        v1.names.names[name].parent_location == parent,
{
    assert(!v0.names.names.contains_key(name));
    assert(valid_resource_name(name));
    let (res, after) = new_resource_end_spec(v0, name, resource, parent);
    assert(res is Ok);
}

/// A project as the library holds it: its folder tree and the handlers of
/// its sprites, scripts and objects.
#[verifier::reject_recursive_types(S)]
#[verifier::reject_recursive_types(SA)]
#[verifier::reject_recursive_types(C)]
#[verifier::reject_recursive_types(CA)]
#[verifier::reject_recursive_types(O)]
#[verifier::reject_recursive_types(OA)]
pub struct Boss<S, SA, C, CA, O, OA> {
    pub vfs: Vfs,
    pub sprites: YyResourceHandler<S, SA>,
    pub scripts: YyResourceHandler<C, CA>,
    pub objects: YyResourceHandler<O, OA>,
}

/// A command to the project that the library decides alone.
pub enum BossCommand {
    /// Adds a folder at the end of the folder at `parent`.
    CreateFolder { parent: ViewPath, name: String },
    /// Removes an empty folder.
    RemoveFolder { folder: String },
    /// Removes a resource of the given kind.
    RemoveResource { resource: Resource, name: String },
    /// Whether a resource of the given kind has the name.
    ResourceExists { resource: Resource, name: String },
}

/// A resource taken out of the project, with its data where it was loaded.
pub enum Removed<S, SA, C, CA, O, OA> {
    Sprite(S, Option<SA>),
    Script(C, Option<CA>),
    Object(O, Option<OA>),
}

/// The answer to a [`BossCommand`].
pub enum BossOutput<S, SA, C, CA, O, OA> {
    /// The command was carried out.
    Done,
    /// The folder was created at this location.
    CreatedFolder(ViewPath),
    /// Whether the resource exists.
    Exists(bool),
    /// The resource that was removed.
    Removed(Removed<S, SA, C, CA, O, OA>),
    /// The folder tree refused the command.
    FolderError(FolderGraphError),
    /// The resource could not be changed.
    ResourceError(ResourceManipulationError),
}

/// Whether a command can be run without a counter overflowing: a new folder's
/// order must fit.
pub open spec fn command_fits<S, SA, C, CA, O, OA>(b: Boss<S, SA, C, CA, O, OA>, cmd: BossCommand) -> bool {
    cmd matches BossCommand::CreateFolder { parent, .. } ==> order_fits(
        b.vfs@.root,
        b.vfs@.names.names,
        parent.path@,
        root_folder_location(),
    )
}

impl<S, SA, C, CA, O, OA> Boss<S, SA, C, CA, O, OA> {
    /// Runs one command: folders are created and removed in the tree; a
    /// resource is removed from the tree and from the handler of its kind,
    /// and given back; the existence of a resource of a kind is answered
    /// from the registry of names. Each command changes only what it names.
    pub fn run_command(&mut self, cmd: BossCommand) -> (out: BossOutput<S, SA, C, CA, O, OA>)
        requires
            command_fits(*old(self), cmd),
        ensures
            match cmd {
                BossCommand::CreateFolder { parent, name } => {
                    let (res, after) = new_folder_end_spec(old(self).vfs@, parent.path@, name@);
                    &&& final(self).vfs@ == after
                    &&& final(self).sprites@ == old(self).sprites@
                    &&& final(self).scripts@ == old(self).scripts@
                    &&& final(self).objects@ == old(self).objects@
                    &&& match res {
                        Ok(vp) => out matches BossOutput::CreatedFolder(x) && x@ == vp,
                        Err(e) => out matches BossOutput::FolderError(fe) && fe@ == e,
                    }
                },
                BossCommand::RemoveFolder { folder } => {
                    let (res, after) = remove_folder_spec(old(self).vfs@, folder@);
                    &&& final(self).vfs@ == after
                    &&& final(self).sprites@ == old(self).sprites@
                    &&& final(self).scripts@ == old(self).scripts@
                    &&& final(self).objects@ == old(self).objects@
                    &&& match res {
                        Ok(_) => out is Done,
                        Err(e) => out matches BossOutput::FolderError(fe) && fe@ == e,
                    }
                },
                BossCommand::RemoveResource { resource, name } => {
                    &&& final(self).vfs@ == remove_resource_spec(old(self).vfs@, name@)
                    &&& match resource {
                        Resource::Sprite => {
                            &&& final(self).sprites@.resources == old(self).sprites@.resources.remove(name@)
                            &&& final(self).scripts@ == old(self).scripts@
                            &&& final(self).objects@ == old(self).objects@
                            &&& if old(self).sprites@.resources.contains_key(name@) {
                                out matches BossOutput::Removed(Removed::Sprite(t, a)) && (t, a)
                                    == old(self).sprites@.resources[name@] && final(self).sprites@.dirty
                                    == remove_spec(old(self).sprites@.dirty, name@)
                            } else {
                                out matches BossOutput::ResourceError(e) && e
                                    == ResourceManipulationError::InternalError && final(self).sprites@.dirty
                                    == old(self).sprites@.dirty
                            }
                        },
                        Resource::Script => {
                            &&& final(self).scripts@.resources == old(self).scripts@.resources.remove(name@)
                            &&& final(self).sprites@ == old(self).sprites@
                            &&& final(self).objects@ == old(self).objects@
                            &&& if old(self).scripts@.resources.contains_key(name@) {
                                out matches BossOutput::Removed(Removed::Script(t, a)) && (t, a)
                                    == old(self).scripts@.resources[name@] && final(self).scripts@.dirty
                                    == remove_spec(old(self).scripts@.dirty, name@)
                            } else {
                                out matches BossOutput::ResourceError(e) && e
                                    == ResourceManipulationError::InternalError && final(self).scripts@.dirty
                                    == old(self).scripts@.dirty
                            }
                        },
                        Resource::Object => {
                            &&& final(self).objects@.resources == old(self).objects@.resources.remove(name@)
                            &&& final(self).sprites@ == old(self).sprites@
                            &&& final(self).scripts@ == old(self).scripts@
                            &&& if old(self).objects@.resources.contains_key(name@) {
                                out matches BossOutput::Removed(Removed::Object(t, a)) && (t, a)
                                    == old(self).objects@.resources[name@] && final(self).objects@.dirty
                                    == remove_spec(old(self).objects@.dirty, name@)
                            } else {
                                out matches BossOutput::ResourceError(e) && e
                                    == ResourceManipulationError::InternalError && final(self).objects@.dirty
                                    == old(self).objects@.dirty
                            }
                        },
                    }
                },
                BossCommand::ResourceExists { resource, name } => {
                    &&& final(self).vfs@ == old(self).vfs@
                    &&& final(self).sprites@ == old(self).sprites@
                    &&& final(self).scripts@ == old(self).scripts@
                    &&& final(self).objects@ == old(self).objects@
                    &&& out matches BossOutput::Exists(b) && b == (old(self).vfs@.names.names.contains_key(
                        name@,
                    ) && old(self).vfs@.names.names[name@].resource == resource)
                },
            },
    {
        match cmd {
            BossCommand::CreateFolder { parent, name } => {
                match self.vfs.new_folder_end(&parent, name.as_str()) {
                    Ok(vp) => BossOutput::CreatedFolder(vp),
                    Err(e) => BossOutput::FolderError(e),
                }
            },
            BossCommand::RemoveFolder { folder } => {
                match self.vfs.remove_folder(folder.as_str()) {
                    Ok(()) => BossOutput::Done,
                    Err(e) => BossOutput::FolderError(e),
                }
            },
            BossCommand::RemoveResource { resource, name } => {
                match resource {
                    Resource::Sprite => match remove_resource(&mut self.vfs, &mut self.sprites, name.as_str()) {
                        Ok((t, a)) => BossOutput::Removed(Removed::Sprite(t, a)),
                        Err(e) => BossOutput::ResourceError(e),
                    },
                    Resource::Script => match remove_resource(&mut self.vfs, &mut self.scripts, name.as_str()) {
                        Ok((t, a)) => BossOutput::Removed(Removed::Script(t, a)),
                        Err(e) => BossOutput::ResourceError(e),
                    },
                    Resource::Object => match remove_resource(&mut self.vfs, &mut self.objects, name.as_str()) {
                        Ok((t, a)) => BossOutput::Removed(Removed::Object(t, a)),
                        Err(e) => BossOutput::ResourceError(e),
                    },
                }
            },
            BossCommand::ResourceExists { resource, name } => {
                match self.vfs.get_resource_type(name.as_str()) {
                    Some(k) => BossOutput::Exists(k == resource),
                    None => BossOutput::Exists(false),
                }
            },
        }
    }
}

/// Loads a resource listed in the project file on startup: its file joins
/// the folder at `parent_location` with the order the listing gives, its name
/// is recorded without a mark, and the handler of its kind holds it, without
/// data and without a mark. Where the folder is not found, the folder tree's
/// error is given back and the handler is left as it was.
pub fn load_resource<T, A>(
    vfs: &mut Vfs,
    handler: &mut YyResourceHandler<T, A>,
    name: String,
    resource: Resource,
    parent_location: &str,
    order: usize,
    yy_file: T,
) -> (r: Result<(), FolderGraphError>)
    ensures
        (result_view(r), final(vfs)@) == load_in_file_spec(old(vfs)@, name@, resource, parent_location@, order),
        r is Ok ==> final(handler)@.resources == old(handler)@.resources.insert(name@, (yy_file, None::<A>))
            && final(handler)@.dirty == old(handler)@.dirty,
        r is Err ==> final(handler)@ == old(handler)@,
{
    match vfs.load_in_file(name.as_str(), resource, parent_location, order) {
        Err(e) => Err(e),
        Ok(()) => {
            handler.load_on_startup(name, yy_file);
            Ok(())
        },
    }
}

/// A handler after `remove(name)`.
pub open spec fn handler_without<T, A>(h: YyResourceHandlerView<T, A>, name: Seq<char>) -> YyResourceHandlerView<T, A> {
    YyResourceHandlerView {
        resources: h.resources.remove(name),
        dirty: if h.resources.contains_key(name) {
            remove_spec(h.dirty, name)
        } else {
            h.dirty
        },
    }
}

/// The registry of names and the handlers while the resources of a removed
/// folder are forgotten, with the resources forgotten so far and their kinds.
pub struct RemovalState<S, SA, C, CA, O, OA> {
    pub names: ResourceNamesView,
    pub sprites: YyResourceHandlerView<S, SA>,
    pub scripts: YyResourceHandlerView<C, CA>,
    pub objects: YyResourceHandlerView<O, OA>,
    pub removed: Seq<(Seq<char>, Resource)>,
}

/// One resource forgotten: where the registry knows the name, it is
/// forgotten there and marked as removed, taken out of the handler of the
/// kind the registry gives, and recorded; an unknown name changes nothing.
pub open spec fn forget_step<S, SA, C, CA, O, OA>(
    st: RemovalState<S, SA, C, CA, O, OA>,
    name: Seq<char>,
) -> RemovalState<S, SA, C, CA, O, OA> {
    if st.names.names.contains_key(name) {
        let kind = st.names.names[name].resource;
        RemovalState {
            names: ResourceNamesView { names: st.names.names.remove(name), dirty: remove_spec(st.names.dirty, name) },
            sprites: if kind == Resource::Sprite {
                handler_without(st.sprites, name)
            } else {
                st.sprites
            },
            scripts: if kind == Resource::Script {
                handler_without(st.scripts, name)
            } else {
                st.scripts
            },
            objects: if kind == Resource::Object {
                handler_without(st.objects, name)
            } else {
                st.objects
            },
            removed: st.removed.push((name, kind)),
        }
    } else {
        st
    }
}

/// The names forgotten one after the other.
pub open spec fn forget_all<S, SA, C, CA, O, OA>(
    st: RemovalState<S, SA, C, CA, O, OA>,
    names: Seq<Seq<char>>,
) -> RemovalState<S, SA, C, CA, O, OA>
    decreases names.len(),
{
    if names.len() == 0 {
        st
    } else {
        forget_step(forget_all(st, names.drop_last()), names.last())
    }
}

/// Names and kinds as plain values.
pub open spec fn removed_view(v: Seq<(String, Resource)>) -> Seq<(Seq<char>, Resource)> {
    v.map_values(|p: (String, Resource)| (p.0@, p.1))
}

impl<S, SA, C, CA, O, OA> Boss<S, SA, C, CA, O, OA> {
    /// Removes the folder at `folder` with everything in it: the folder
    /// leaves the tree, it and every folder under it are marked as removed,
    /// and every resource whose file was at or under it is forgotten in the
    /// registry and taken out of the handler of its kind. The names and kinds
    /// of the resources removed are given back. Refused, with nothing
    /// changed, where no folder is there and for the root folder.
    pub fn remove_folder_recursive(&mut self, folder: &str) -> (r: Result<Vec<(String, Resource)>, FolderGraphError>)
        ensures
            match locate(old(self).vfs@.root, folder@, root_folder_location()) {
                None => r matches Err(e) && e@ == FolderGraphErrorView::PathNotFound(folder@)
                    && final(self).vfs@ == old(self).vfs@ && final(self).sprites@ == old(self).sprites@
                    && final(self).scripts@ == old(self).scripts@ && final(self).objects@ == old(self).objects@,
                Some(p) => if p.len() == 0 || subtree_at(old(self).vfs@.root, p).path_to_parent is None {
                    r matches Err(e) && e@ == FolderGraphErrorView::CannotRemoveRootFolder
                        && final(self).vfs@ == old(self).vfs@ && final(self).sprites@ == old(self).sprites@
                        && final(self).scripts@ == old(self).scripts@ && final(self).objects@
                        == old(self).objects@
                } else {
                    let f = subtree_at(old(self).vfs@.root, p);
                    let q = p.drop_last();
                    let detached = folders_removed(
                        VfsView {
                            root: replace_at(old(self).vfs@.root, q, without_child(subtree_at(old(self).vfs@.root, q), p.last())),
                            ..old(self).vfs@
                        },
                        folder_locs(f, folder@),
                    );
                    let st = forget_all(
                        RemovalState {
                            names: detached.names,
                            sprites: old(self).sprites@,
                            scripts: old(self).scripts@,
                            objects: old(self).objects@,
                            removed: Seq::empty(),
                        },
                        files_in(f),
                    );
                    &&& r matches Ok(v) && removed_view(v@) == st.removed
                    &&& final(self).vfs@ == (VfsView { names: st.names, ..detached })
                    &&& final(self).sprites@ == st.sprites
                    &&& final(self).scripts@ == st.scripts
                    &&& final(self).objects@ == st.objects
                },
            },
    {
        let names = match self.vfs.detach_folder(folder) {
            Ok(n) => n,
            Err(e) => {
                return Err(e);
            },
        };
        let ghost detached = self.vfs@;
        let ghost init = RemovalState {
            names: detached.names,
            sprites: self.sprites@,
            scripts: self.scripts@,
            objects: self.objects@,
            removed: Seq::<(Seq<char>, Resource)>::empty(),
        };
        let mut out: Vec<(String, Resource)> = Vec::new();
        let mut i: usize = 0;
        proof {
            assert(strings_view(names@).take(0) =~= Seq::<Seq<char>>::empty());
            assert(removed_view(out@) =~= Seq::<(Seq<char>, Resource)>::empty());
            assert(self.vfs@ == (VfsView { names: init.names, ..detached }));
        }
        while i < names.len()
            invariant
                i <= names@.len(),
                removed_view(out@) == forget_all(init, strings_view(names@).take(i as int)).removed,
                self.vfs@ == (VfsView { names: forget_all(init, strings_view(names@).take(i as int)).names, ..detached }),
                self.sprites@ == forget_all(init, strings_view(names@).take(i as int)).sprites,
                self.scripts@ == forget_all(init, strings_view(names@).take(i as int)).scripts,
                self.objects@ == forget_all(init, strings_view(names@).take(i as int)).objects,
            decreases names@.len() - i,
        {
            let ghost st0 = forget_all(init, strings_view(names@).take(i as int));
            proof {
                assert(strings_view(names@).take(i + 1).drop_last() =~= strings_view(names@).take(i as int));
                assert(strings_view(names@).take(i + 1).last() == names@[i as int]@);
            }
            let name = &names[i];
            match self.vfs.forget_resource(name.as_str()) {
                None => {
                    proof {
                        assert(forget_step(st0, name@) == st0);
                        assert(st0.names.names.remove(name@) =~= st0.names.names);
                    }
                },
                Some(d) => {
                    match d.resource {
                        Resource::Sprite => {
                            self.sprites.remove(name.as_str());
                        },
                        Resource::Script => {
                            self.scripts.remove(name.as_str());
                        },
                        Resource::Object => {
                            self.objects.remove(name.as_str());
                        },
                    }
                    let ghost before = out@;
                    out.push((name.clone(), d.resource));
                    proof {
                        assert(d.resource == st0.names.names[name@].resource);
                        assert(removed_view(out@) =~= removed_view(before).push((name@, d.resource)));
                        assert(self.sprites@.resources =~= forget_step(st0, name@).sprites.resources);
                        assert(self.scripts@.resources =~= forget_step(st0, name@).scripts.resources);
                        assert(self.objects@.resources =~= forget_step(st0, name@).objects.resources);
                    }
                },
            }
            i = i + 1;
        }
        proof {
            assert(strings_view(names@).take(i as int) =~= strings_view(names@));
        }
        Ok(out)
    }
}

/// Forgetting a list of names leaves none of them in the registry, and every
/// other name as it was: after [`Boss::remove_folder_recursive`], no resource
/// that was at or under the folder is known, and the others keep their
/// descriptors.
pub proof fn law_forgotten_names_are_gone<S, SA, C, CA, O, OA>(
    st: RemovalState<S, SA, C, CA, O, OA>,
    names: Seq<Seq<char>>,
)
    ensures
        forall|i: int| 0 <= i < names.len() ==> !forget_all(st, names).names.names.contains_key(#[trigger] names[i]),
        forall|k: Seq<char>|
            !names.contains(k) ==> (forget_all(st, names).names.names.contains_key(k) == st.names.names.contains_key(k)
                && (st.names.names.contains_key(k) ==> forget_all(st, names).names.names[k] == st.names.names[k])),
    decreases names.len(),
{
    if names.len() > 0 {
        let rest = names.drop_last();
        law_forgotten_names_are_gone(st, rest);
        assert forall|i: int| 0 <= i < names.len() implies !forget_all(st, names).names.names.contains_key(#[trigger] names[i]) by {
            if i < names.len() - 1 {
                assert(rest[i] == names[i]);
            }
        }
        assert forall|k: Seq<char>| !names.contains(k) implies (forget_all(st, names).names.names.contains_key(k)
            == st.names.names.contains_key(k) && (st.names.names.contains_key(k) ==> forget_all(st, names).names.names[k]
            == st.names.names[k])) by {
            if rest.contains(k) {
                let j = choose|j: int| 0 <= j < rest.len() && rest[j] == k;
                assert(names[j] == k);
            }
            assert(names.last() == names[names.len() - 1]);
        }
    }
}

} // verus!
