//! The resources of one kind that a project holds, with their associated data
//! (loaded lazily), and which of them must be written or deleted on save.
use vstd::prelude::*;
use crate::dirty_handler::{DirtyDrain, DirtyHandler, DirtyState, DirtyView, add_spec, remove_spec, replace_associated_spec};
use crate::string_map::StringMap;
use crate::utils::FileSerializationError;

verus! {

/// Why a resource handler refused a request.
#[derive(Debug)]
pub enum YyResourceHandlerError {
    /// A file could not be read or written.
    FileSerializationError(FileSerializationError),
    /// The given resource was not found, or is not managed here.
    ResourceNotFound,
    /// Serialization could not be forced, as the associated data was not found.
    CannotForceSerialization,
}

/// A resource with its associated data, where that is loaded.
pub struct YyResourceData<T, A> {
    pub yy_resource: T,
    pub associated_data: Option<A>,
}

/// The resources of one kind, by name, and their marks for the next save.
/// The files recorded for cleanup are paths relative to a resource's directory.
#[verifier::reject_recursive_types(T)]
#[verifier::reject_recursive_types(A)]
pub struct YyResourceHandler<T, A> {
    resources: StringMap<YyResourceData<T, A>>,
    dirty_handler: DirtyHandler<String>,
}

/// The abstract value of a [`YyResourceHandler`].
pub struct YyResourceHandlerView<T, A> {
    pub resources: Map<Seq<char>, (T, Option<A>)>,
    pub dirty: DirtyView<String>,
}

/// A resource and its data as a pair.
pub open spec fn data_pair<T, A>(d: YyResourceData<T, A>) -> (T, Option<A>) {
    (d.yy_resource, d.associated_data)
}

impl<T, A> View for YyResourceHandler<T, A> {
    type V = YyResourceHandlerView<T, A>;

    closed spec fn view(&self) -> YyResourceHandlerView<T, A> {
        YyResourceHandlerView {
            resources: self.resources@.map_values(|d: YyResourceData<T, A>| data_pair(d)),
            dirty: self.dirty_handler@,
        }
    }
}

impl<T, A> YyResourceHandler<T, A> {
    /// A handler with no resources and no marks, which records files for cleanup.
    pub fn new() -> (h: Self)
        ensures
            h@.resources == Map::<Seq<char>, (T, Option<A>)>::empty(),
            h@.dirty.reserialize == Map::<Seq<char>, crate::dirty_handler::DirtyState>::empty(),
            h@.dirty.remove == Map::<Seq<char>, crate::dirty_handler::DirtyState>::empty(),
            h@.dirty.associated == Some(Map::<Seq<char>, Seq<String>>::empty()),
    {
        let h = YyResourceHandler { resources: StringMap::new(), dirty_handler: DirtyHandler::new_assoc() };
        proof {
            assert(h@.resources =~= Map::<Seq<char>, (T, Option<A>)>::empty());
        }
        h
    }

    /// Records the resource `name`, with its data, replacing any resource of
    /// that name. A new name is marked as added; a replaced resource is marked
    /// as edited, and, unless it was already marked, the files that
    /// `cleanup_on_replace` gives for the replaced resource are recorded for
    /// cleanup. The replaced resource is returned.
    pub fn set<F>(&mut self, name: String, value: T, associated_data: A, cleanup_on_replace: F) -> (r: Option<
        YyResourceData<T, A>,
    >) where F: Fn(&T) -> Vec<String>
        requires
            forall|t: &T| #[trigger] cleanup_on_replace.requires((t,)),
            old(self)@.dirty.associated is Some,
        ensures
            final(self)@.resources == old(self)@.resources.insert(name@, (value, Some(associated_data))),
            r is Some <==> old(self)@.resources.contains_key(name@),
            r matches Some(d) ==> data_pair(d) == old(self)@.resources[name@],
            r is None ==> final(self)@.dirty == add_spec(old(self)@.dirty, name@),
            r is Some && old(self)@.dirty.reserialize.contains_key(name@) ==> final(self)@.dirty == old(self)@.dirty,
            r is Some && !old(self)@.dirty.reserialize.contains_key(name@) ==> exists|files: Vec<String>|
                cleanup_on_replace.ensures((&old(self)@.resources[name@].0,), files) && final(self)@.dirty
                    == replace_associated_spec(old(self)@.dirty, name@, files@),
            final(self)@.dirty.associated is Some,
    {
        let key = name.clone();
        let ghost stored = YyResourceData { yy_resource: value, associated_data: Some(associated_data) };
        let old_data = self.resources.insert(name, YyResourceData { yy_resource: value, associated_data: Some(associated_data) });
        proof {
            assert(self@.resources =~= old(self)@.resources.insert(key@, (value, Some(associated_data))));
        }
        match &old_data {
            Some(d) => {
                let replaced = &d.yy_resource;
                let cleanup = &cleanup_on_replace;
                let files = || -> (f: Vec<String>)
                    ensures
                        cleanup.ensures((replaced,), f),
                    { cleanup(replaced) };
                self.dirty_handler.replace_associated(key, files);
            },
            None => {
                self.dirty_handler.add(key);
            },
        }
        old_data
    }

    /// The resource `name` and its data, if it is held.
    pub fn get(&self, name: &str) -> (r: Option<&YyResourceData<T, A>>)
        ensures
            r is Some <==> self@.resources.contains_key(name@),
            r matches Some(d) ==> data_pair(*d) == self@.resources[name@],
    {
        self.resources.get(name)
    }

    /// Takes the resource `name` out, with its data where it was loaded, and
    /// marks it as removed. Nothing happens where it is not held.
    pub fn remove(&mut self, name: &str) -> (r: Option<(T, Option<A>)>)
        ensures
            final(self)@.resources == old(self)@.resources.remove(name@),
            r is Some <==> old(self)@.resources.contains_key(name@),
            r matches Some(p) ==> p == old(self)@.resources[name@],
            r is Some ==> final(self)@.dirty == remove_spec(old(self)@.dirty, name@),
            r is None ==> final(self)@.dirty == old(self)@.dirty,
    {
        let removed = self.resources.remove(name);
        proof {
            assert(self@.resources =~= old(self)@.resources.remove(name@));
        }
        match removed {
            Some(d) => {
                self.dirty_handler.remove(name);
                Some((d.yy_resource, d.associated_data))
            },
            None => None,
        }
    }

    /// Records a resource found on startup, without data and without a mark.
    pub fn load_on_startup(&mut self, name: String, value: T)
        ensures
            final(self)@.resources == old(self)@.resources.insert(name@, (value, None::<A>)),
            final(self)@.dirty == old(self)@.dirty,
    {
        let ghost k = name@;
        self.resources.insert(name, YyResourceData { yy_resource: value, associated_data: None });
        proof {
            assert(self@.resources =~= old(self)@.resources.insert(k, (value, None::<A>)));
        }
    }

    /// Gives the resource `name` the data `associated_data`, as loaded from
    /// disk. Refused where the resource is not held.
    pub fn set_associated_data(&mut self, name: &str, associated_data: A) -> (r: Result<(), YyResourceHandlerError>)
        ensures
            old(self)@.resources.contains_key(name@) ==> r is Ok && final(self)@.resources
                == old(self)@.resources.insert(name@, (old(self)@.resources[name@].0, Some(associated_data))),
            !old(self)@.resources.contains_key(name@) ==> (r matches Err(YyResourceHandlerError::ResourceNotFound)
                && final(self)@.resources == old(self)@.resources),
            final(self)@.dirty == old(self)@.dirty,
    {
        match self.resources.remove(name) {
            Some(d) => {
                self.resources.insert(
                    name.to_string(),
                    YyResourceData { yy_resource: d.yy_resource, associated_data: Some(associated_data) },
                );
                proof {
                    assert(self@.resources =~= old(self)@.resources.insert(
                        name@,
                        (old(self)@.resources[name@].0, Some(associated_data)),
                    ));
                }
                Ok(())
            },
            None => {
                proof {
                    assert(self@.resources =~= old(self)@.resources);
                }
                Err(YyResourceHandlerError::ResourceNotFound)
            },
        }
    }

    /// Whether the data of the resource `name` must be loaded from disk before
    /// it is used: where the resource is not held (so that loading reports
    /// it), where its data is not loaded, or where a reload is forced.
    pub fn must_load_associated_data(&self, name: &str, force: bool) -> (r: bool)
        ensures
            r == (!self@.resources.contains_key(name@) || self@.resources[name@].1 is None || force),
    {
        match self.resources.get(name) {
            Some(d) => d.associated_data.is_none() || force,
            None => true,
        }
    }

    /// Forgets the data of the resource `name`, to free memory. Refused where
    /// the resource is not held.
    pub fn unload_resource_associated_data(&mut self, name: &str) -> (r: Result<(), YyResourceHandlerError>)
        ensures
            old(self)@.resources.contains_key(name@) ==> r is Ok && final(self)@.resources
                == old(self)@.resources.insert(name@, (old(self)@.resources[name@].0, None::<A>)),
            !old(self)@.resources.contains_key(name@) ==> (r matches Err(YyResourceHandlerError::ResourceNotFound)
                && final(self)@.resources == old(self)@.resources),
            final(self)@.dirty == old(self)@.dirty,
    {
        match self.resources.remove(name) {
            Some(d) => {
                self.resources.insert(
                    name.to_string(),
                    YyResourceData { yy_resource: d.yy_resource, associated_data: None },
                );
                proof {
                    assert(self@.resources =~= old(self)@.resources.insert(
                        name@,
                        (old(self)@.resources[name@].0, None::<A>),
                    ));
                }
                Ok(())
            },
            None => {
                proof {
                    assert(self@.resources =~= old(self)@.resources);
                }
                Err(YyResourceHandlerError::ResourceNotFound)
            },
        }
    }

    /// Hands out, and clears, everything marked for the next save: the
    /// resources to write, those to delete, and the files to clean up. Writing
    /// and deleting them on disk is left to the caller.
    pub fn take_pending(&mut self) -> (d: DirtyDrain<String>)
        ensures
            final(self)@.resources == old(self)@.resources,
            final(self)@.dirty.reserialize == Map::<Seq<char>, crate::dirty_handler::DirtyState>::empty(),
            final(self)@.dirty.remove == Map::<Seq<char>, crate::dirty_handler::DirtyState>::empty(),
            old(self)@.dirty.associated is Some ==> final(self)@.dirty.associated == Some(
                Map::<Seq<char>, Seq<String>>::empty(),
            ),
            crate::dirty_handler::drained_as(d.resources_to_reserialize@, old(self).dirty_entries().reserialize_entries()),
            crate::dirty_handler::drained_as(d.resources_to_remove@, old(self).dirty_entries().remove_entries()),
    {
        self.dirty_handler.drain_all()
    }

    /// The marks of the next save, with their order.
    pub closed spec fn dirty_entries(self) -> DirtyHandler<String> {
        self.dirty_handler
    }
}

/// Setting a resource under a new name and then removing it leaves the
/// handler's resources and marks as they were, where the name was neither
/// held nor marked.
pub proof fn law_set_then_remove<T, A>(v: YyResourceHandlerView<T, A>, name: Seq<char>, value: T, data: A)
    requires
        !v.resources.contains_key(name),
        crate::dirty_handler::untracked(v.dirty, name),
    ensures
        v.resources.insert(name, (value, Some(data))).remove(name) == v.resources,
        remove_spec(add_spec(v.dirty, name), name) == v.dirty,
{
    crate::dirty_handler::law_add_then_remove_restores(v.dirty, name);
    assert(v.resources.insert(name, (value, Some(data))).remove(name) =~= v.resources);
}

/// Pairs of strings as plain text.
pub open spec fn pairs_of(v: Seq<(String, String)>) -> Seq<(Seq<char>, Seq<char>)> {
    v.map_values(|p: (String, String)| (p.0@, p.1@))
}

/// The directory of the resource `name` of a kind whose resources live under
/// `subpath`, relative to the project's root: `{subpath}/{name}`.
pub open spec fn resource_dir(subpath: Seq<char>, name: Seq<char>) -> Seq<char> {
    subpath + "/"@ + name
}

/// The `.yy` file of the resource `name`: `{subpath}/{name}/{name}.yy`.
pub open spec fn resource_yy_file(subpath: Seq<char>, name: Seq<char>) -> Seq<char> {
    resource_dir(subpath, name) + "/"@ + name + ".yy"@
}

/// The files to clean up that the recorded entries name, in order: each file
/// within its resource's directory.
pub open spec fn cleanup_paths(subpath: Seq<char>, entries: Seq<(String, Vec<String>)>) -> Seq<Seq<char>>
    decreases entries.len(),
{
    if entries.len() == 0 {
        Seq::empty()
    } else {
        cleanup_paths(subpath, entries.drop_last()) + entries.last().1@.map_values(
            |f: String| resource_dir(subpath, entries.last().0@) + "/"@ + f@,
        )
    }
}

/// The resources among `names` that are held with their data loaded, each
/// with its directory, in order: the data that a save writes there.
pub open spec fn loaded_among<T, A>(
    resources: Map<Seq<char>, (T, Option<A>)>,
    names: Seq<(String, DirtyState)>,
    subpath: Seq<char>,
) -> Seq<(Seq<char>, Seq<char>)>
    decreases names.len(),
{
    if names.len() == 0 {
        Seq::empty()
    } else {
        let rest = loaded_among(resources, names.drop_last(), subpath);
        let n = names.last().0@;
        if resources.contains_key(n) && resources[n].1 is Some {
            rest.push((n, resource_dir(subpath, n)))
        } else {
            rest
        }
    }
}

/// What saving the marked resources of one kind does on disk, relative to
/// the project's root: the directories of removed resources to delete, the
/// resources to write with their `.yy` files, the resources whose loaded
/// data is written into their directories (sprite images, the code of
/// scripts and objects), and the files recorded for cleanup to delete. Where
/// a cleanup path is a directory, the whole directory goes.
pub struct SerializationPlan {
    pub directories_to_remove: Vec<String>,
    pub files_to_write: Vec<(String, String)>,
    pub data_to_write: Vec<(String, String)>,
    pub files_to_remove: Vec<String>,
}

fn dir_of(subpath: &str, name: &str) -> (r: String)
    ensures
        r@ == resource_dir(subpath@, name@),
{
    let mut s = subpath.to_string();
    s.append("/");
    s.append(name);
    s
}

/// The plan for saving the marks handed out by [`YyResourceHandler::take_pending`]
/// of `handler`, for a kind whose resources live under `subpath`.
pub fn serialization_plan<T, A>(handler: &YyResourceHandler<T, A>, drain: &DirtyDrain<String>, subpath: &str) -> (plan:
    SerializationPlan)
    ensures
        pairs_of(plan.data_to_write@) == loaded_among(handler@.resources, drain.resources_to_reserialize@, subpath@),
        plan.directories_to_remove.len() == drain.resources_to_remove.len(),
        forall|i: int|
            0 <= i < drain.resources_to_remove.len() ==> #[trigger] plan.directories_to_remove[i]@ == resource_dir(
                subpath@,
                drain.resources_to_remove[i].0@,
            ),
        plan.files_to_write.len() == drain.resources_to_reserialize.len(),
        forall|i: int|
            0 <= i < drain.resources_to_reserialize.len() ==> #[trigger] plan.files_to_write[i].0@
                == drain.resources_to_reserialize[i].0@ && plan.files_to_write[i].1@ == resource_yy_file(
                subpath@,
                drain.resources_to_reserialize[i].0@,
            ),
        plan.files_to_remove@.map_values(|f: String| f@) == match drain.associated_values {
            Some(v) => cleanup_paths(subpath@, v@),
            None => Seq::empty(),
        },
{
    let mut dirs: Vec<String> = Vec::new();
    let mut i: usize = 0;
    while i < drain.resources_to_remove.len()
        invariant
            i <= drain.resources_to_remove.len(),
            dirs.len() == i,
            forall|k: int|
                0 <= k < i ==> #[trigger] dirs[k]@ == resource_dir(subpath@, drain.resources_to_remove[k].0@),
        decreases drain.resources_to_remove.len() - i,
    {
        dirs.push(dir_of(subpath, drain.resources_to_remove[i].0.as_str()));
        i = i + 1;
    }
    let mut writes: Vec<(String, String)> = Vec::new();
    let mut j: usize = 0;
    while j < drain.resources_to_reserialize.len()
        invariant
            j <= drain.resources_to_reserialize.len(),
            writes.len() == j,
            forall|k: int|
                0 <= k < j ==> #[trigger] writes[k].0@ == drain.resources_to_reserialize[k].0@ && writes[k].1@
                    == resource_yy_file(subpath@, drain.resources_to_reserialize[k].0@),
        decreases drain.resources_to_reserialize.len() - j,
    {
        let name = &drain.resources_to_reserialize[j].0;
        let mut yy = dir_of(subpath, name.as_str());
        yy.append("/");
        yy.append(name.as_str());
        yy.append(".yy");
        let n2 = name.clone();
        proof {
            assert(yy@ =~= resource_yy_file(subpath@, name@));
        }
        let ghost before = writes@;
        writes.push((n2, yy));
        proof {
            assert forall|k: int| 0 <= k < j + 1 implies #[trigger] writes[k].0@ == drain.resources_to_reserialize[k].0@
                && writes[k].1@ == resource_yy_file(subpath@, drain.resources_to_reserialize[k].0@) by {
                if k < j {
                    assert(writes[k] == before[k]);
                }
            }
        }
        j = j + 1;
    }
    let mut removes: Vec<String> = Vec::new();
    match &drain.associated_values {
        None => {
            proof {
                assert(removes@.map_values(|f: String| f@) =~= Seq::<Seq<char>>::empty());
            }
        },
        Some(v) => {
            let mut e: usize = 0;
            proof {
                assert(v@.take(0) =~= Seq::<(String, Vec<String>)>::empty());
                assert(removes@.map_values(|f: String| f@) =~= Seq::<Seq<char>>::empty());
            }
            while e < v.len()
                invariant
                    e <= v.len(),
                    removes@.map_values(|f: String| f@) == cleanup_paths(subpath@, v@.take(e as int)),
                decreases v.len() - e,
            {
                let dir = dir_of(subpath, v[e].0.as_str());
                let files = &v[e].1;
                let ghost before = removes@.map_values(|f: String| f@);
                let mut k: usize = 0;
                proof {
                    assert(removes@.map_values(|f: String| f@) =~= before + files@.take(0).map_values(
                        |f: String| dir@ + "/"@ + f@,
                    ));
                }
                while k < files.len()
                    invariant
                        k <= files.len(),
                        dir@ == resource_dir(subpath@, v@[e as int].0@),
                        removes@.map_values(|f: String| f@) == before + files@.take(k as int).map_values(
                            |f: String| dir@ + "/"@ + f@,
                        ),
                    decreases files.len() - k,
                {
                    let ghost prev = removes@;
                    let mut path = dir.clone();
                    path.append("/");
                    path.append(files[k].as_str());
                    removes.push(path);
                    proof {
                        assert(removes@ =~= prev.push(path));
                        assert(files@.take(k + 1) =~= files@.take(k as int).push(files@[k as int]));
                        assert(removes@.map_values(|f: String| f@) =~= prev.map_values(|f: String| f@).push(path@));
                        assert(files@.take(k + 1).map_values(|f: String| dir@ + "/"@ + f@) =~= files@.take(
                            k as int,
                        ).map_values(|f: String| dir@ + "/"@ + f@).push(dir@ + "/"@ + files@[k as int]@));
                    }
                    k = k + 1;
                }
                proof {
                    assert(files@.take(files.len() as int) =~= files@);
                    assert(v@.take(e + 1).drop_last() =~= v@.take(e as int));
                    assert(v@.take(e + 1).last() == v@[e as int]);
                    assert(files@.map_values(|f: String| dir@ + "/"@ + f@) =~= v@[e as int].1@.map_values(
                        |f: String| resource_dir(subpath@, v@[e as int].0@) + "/"@ + f@,
                    ));
                }
                e = e + 1;
            }
            proof {
                assert(v@.take(v.len() as int) =~= v@);
            }
        },
    }
    let mut data: Vec<(String, String)> = Vec::new();
    let mut m: usize = 0;
    proof {
        assert(drain.resources_to_reserialize@.take(0) =~= Seq::<(String, DirtyState)>::empty());
        assert(pairs_of(data@) =~= Seq::<(Seq<char>, Seq<char>)>::empty());
    }
    while m < drain.resources_to_reserialize.len()
        invariant
            m <= drain.resources_to_reserialize.len(),
            pairs_of(data@) == loaded_among(handler@.resources, drain.resources_to_reserialize@.take(m as int), subpath@),
        decreases drain.resources_to_reserialize.len() - m,
    {
        let name = &drain.resources_to_reserialize[m].0;
        proof {
            assert(drain.resources_to_reserialize@.take(m + 1).drop_last() =~= drain.resources_to_reserialize@.take(m as int));
            assert(drain.resources_to_reserialize@.take(m + 1).last() == drain.resources_to_reserialize@[m as int]);
        }
        match handler.get(name.as_str()) {
            Some(d) => {
                if d.associated_data.is_some() {
                    let ghost before = data@;
                    data.push((name.clone(), dir_of(subpath, name.as_str())));
                    proof {
                        assert(pairs_of(data@) =~= pairs_of(before).push((name@, resource_dir(subpath@, name@))));
                    }
                }
            },
            None => {},
        }
        m = m + 1;
    }
    proof {
        assert(drain.resources_to_reserialize@.take(m as int) =~= drain.resources_to_reserialize@);
    }
    SerializationPlan { directories_to_remove: dirs, files_to_write: writes, data_to_write: data, files_to_remove: removes }
}

/// How many files the recorded entries name, over all of them.
pub open spec fn total_files(entries: Seq<(String, Vec<String>)>) -> nat
    decreases entries.len(),
{
    if entries.len() == 0 {
        0
    } else {
        total_files(entries.drop_last()) + entries.last().1@.len()
    }
}

/// `p` is a file recorded for cleanup in one of the entries, within that
/// entry's resource directory.
pub open spec fn is_recorded_cleanup(subpath: Seq<char>, entries: Seq<(String, Vec<String>)>, p: Seq<char>) -> bool {
    exists|e: int, f: int|
        0 <= e < entries.len() && 0 <= f < entries[e].1@.len() && p == resource_dir(subpath, entries[e].0@) + "/"@
            + entries[e].1@[f]@
}

/// A save deletes every file recorded for cleanup, of every resource, as
/// `{subpath}/{name}/{file}`; it deletes nothing else, and as many files as
/// were recorded in all.
pub proof fn law_every_recorded_file_is_removed(subpath: Seq<char>, entries: Seq<(String, Vec<String>)>)
    ensures
        forall|e: int, f: int|
            0 <= e < entries.len() && 0 <= f < entries[e].1@.len() ==> cleanup_paths(subpath, entries).contains(
                resource_dir(subpath, entries[e].0@) + "/"@ + #[trigger] entries[e].1@[f]@,
            ),
        forall|j: int|
            0 <= j < cleanup_paths(subpath, entries).len() ==> is_recorded_cleanup(
                subpath,
                entries,
                #[trigger] cleanup_paths(subpath, entries)[j],
            ),
        cleanup_paths(subpath, entries).len() == total_files(entries),
    decreases entries.len(),
{
    if entries.len() > 0 {
        let init = entries.drop_last();
        law_every_recorded_file_is_removed(subpath, init);
        let rest = cleanup_paths(subpath, init);
        let last = entries.last();
        let tail = last.1@.map_values(|f: String| resource_dir(subpath, last.0@) + "/"@ + f@);
        let all = cleanup_paths(subpath, entries);
        assert(all == rest + tail);
        assert forall|e: int, f: int|
            0 <= e < entries.len() && 0 <= f < entries[e].1@.len() implies all.contains(
                resource_dir(subpath, entries[e].0@) + "/"@ + #[trigger] entries[e].1@[f]@,
            ) by {
            if e < entries.len() - 1 {
                assert(init[e] == entries[e]);
                assert(rest.contains(resource_dir(subpath, init[e].0@) + "/"@ + init[e].1@[f]@));
                let j = choose|j: int| 0 <= j < rest.len() && rest[j] == resource_dir(subpath, init[e].0@) + "/"@
                    + init[e].1@[f]@;
                assert(all[j] == rest[j]);
            } else {
                assert(all[rest.len() + f] == tail[f]);
            }
        }
        assert forall|j: int| 0 <= j < all.len() implies is_recorded_cleanup(subpath, entries, #[trigger] all[j]) by {
            if j < rest.len() {
                assert(all[j] == rest[j]);
                assert(is_recorded_cleanup(subpath, init, rest[j]));
                let (e, f) = choose|e: int, f: int|
                    0 <= e < init.len() && 0 <= f < init[e].1@.len() && rest[j] == resource_dir(subpath, init[e].0@)
                        + "/"@ + init[e].1@[f]@;
                assert(entries[e] == init[e]);
            } else {
                let e = entries.len() - 1;
                let f = j - rest.len();
                assert(all[j] == tail[f]);
                assert(entries[e] == last);
            }
        }
    }
}

} // verus!
