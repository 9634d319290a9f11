//! Bookkeeping of which resources must be written to disk and which must be
//! deleted the next time a project is saved.
use vstd::prelude::*;
use crate::string_map::StringMap;

verus! {

/// How a resource came to need serialization: it is new since the last save,
/// or it existed on disk and was edited.
#[derive(Debug, Copy, Clone, PartialEq, Eq, Ord, PartialOrd, Hash, Structural)]
pub enum DirtyState {
    New,
    Edit,
}

/// The abstract state of a [`DirtyHandler`].
pub struct DirtyView<A> {
    /// Resources to write on the next save, with how they became dirty.
    pub reserialize: Map<Seq<char>, DirtyState>,
    /// Resources to delete on the next save.
    pub remove: Map<Seq<char>, DirtyState>,
    /// Files to clean up for each resource, when the handler tracks them.
    pub associated: Option<Map<Seq<char>, Seq<A>>>,
}

/// What `add` does to the abstract state.
pub open spec fn add_spec<A>(v: DirtyView<A>, k: Seq<char>) -> DirtyView<A> {
    if v.remove.contains_key(k) {
        if v.remove[k] == DirtyState::New {
            DirtyView { remove: v.remove.remove(k), ..v }
        } else {
            DirtyView {
                remove: v.remove.remove(k),
                reserialize: v.reserialize.insert(k, DirtyState::Edit),
                ..v
            }
        }
    } else {
        DirtyView { reserialize: v.reserialize.insert(k, DirtyState::New), ..v }
    }
}

/// What `replace` does to the abstract state.
pub open spec fn replace_spec<A>(v: DirtyView<A>, k: Seq<char>) -> DirtyView<A> {
    let state = if v.reserialize.contains_key(k) && v.reserialize[k] == DirtyState::New {
        DirtyState::New
    } else {
        DirtyState::Edit
    };
    DirtyView { reserialize: v.reserialize.insert(k, state), ..v }
}

/// What `remove` does to the abstract state.
pub open spec fn remove_spec<A>(v: DirtyView<A>, k: Seq<char>) -> DirtyView<A> {
    if v.reserialize.contains_key(k) && v.reserialize[k] == DirtyState::New {
        DirtyView { reserialize: v.reserialize.remove(k), ..v }
    } else {
        DirtyView {
            reserialize: v.reserialize.remove(k),
            remove: v.remove.insert(k, DirtyState::Edit),
            ..v
        }
    }
}

/// What `replace_associated` does to the abstract state, where `files` are the
/// files that the callback handed back.
pub open spec fn replace_associated_spec<A>(
    v: DirtyView<A>,
    k: Seq<char>,
    files: Seq<A>,
) -> DirtyView<A> {
    if v.reserialize.contains_key(k) {
        v
    } else {
        let assoc = v.associated.unwrap();
        let before = if assoc.contains_key(k) {
            assoc[k]
        } else {
            Seq::empty()
        };
        DirtyView {
            reserialize: v.reserialize.insert(k, DirtyState::Edit),
            associated: Some(assoc.insert(k, before + files)),
            ..v
        }
    }
}

/// Tracks which resources, named by strings, must be reserialized or removed,
/// and optionally which associated files must be cleaned up for each.
#[verifier::reject_recursive_types(A)]
pub struct DirtyHandler<A> {
    resources_to_reserialize: StringMap<DirtyState>,
    resources_to_remove: StringMap<DirtyState>,
    associated_values: Option<StringMap<Vec<A>>>,
}

/// Everything a [`DirtyHandler`] held, handed out by [`DirtyHandler::drain_all`]
/// in the order in which the resources were first marked.
pub struct DirtyDrain<A> {
    pub resources_to_reserialize: Vec<(String, DirtyState)>,
    pub resources_to_remove: Vec<(String, DirtyState)>,
    pub associated_values: Option<Vec<(String, Vec<A>)>>,
}

/// The files of each resource, as sequences.
pub open spec fn files_view<A>(m: Map<Seq<char>, Vec<A>>) -> Map<Seq<char>, Seq<A>> {
    m.map_values(|v: Vec<A>| v@)
}

impl<A> View for DirtyHandler<A> {
    type V = DirtyView<A>;

    closed spec fn view(&self) -> DirtyView<A> {
        DirtyView {
            reserialize: self.resources_to_reserialize@,
            remove: self.resources_to_remove@,
            associated: match self.associated_values {
                Some(m) => Some(files_view(m@)),
                None => None,
            },
        }
    }
}

impl<A> DirtyHandler<A> {
    /// The resources to write, as a map in marking order.
    pub closed spec fn reserialize_entries(self) -> StringMap<DirtyState> {
        self.resources_to_reserialize
    }

    /// The resources to delete, as a map in marking order.
    pub closed spec fn remove_entries(self) -> StringMap<DirtyState> {
        self.resources_to_remove
    }

    /// The files recorded for cleanup, as a map in marking order.
    pub closed spec fn associated_entries(self) -> StringMap<Vec<A>> {
        self.associated_values.unwrap()
    }

    /// The entry maps agree with the view.
    pub broadcast proof fn lemma_entries_view(self)
        ensures
            #[trigger] self.reserialize_entries()@ == self@.reserialize,
            self.remove_entries()@ == self@.remove,
            self@.associated is Some ==> self@.associated == Some(files_view(self.associated_entries()@)),
    {
    }

    /// Creates a handler that also tracks associated files.
    pub fn new_assoc() -> (h: Self)
        ensures
            h@.reserialize == Map::<Seq<char>, DirtyState>::empty(),
            h@.remove == Map::<Seq<char>, DirtyState>::empty(),
            h@.associated == Some(Map::<Seq<char>, Seq<A>>::empty()),
    {
        let h = DirtyHandler {
            resources_to_reserialize: StringMap::new(),
            resources_to_remove: StringMap::new(),
            associated_values: Some(StringMap::new()),
        };
        proof {
            assert(files_view(h.associated_values.unwrap()@) =~= Map::<Seq<char>, Seq<A>>::empty());
        }
        h
    }

    /// Creates a handler that does not track associated files.
    pub fn new() -> (h: Self)
        ensures
            h@.reserialize == Map::<Seq<char>, DirtyState>::empty(),
            h@.remove == Map::<Seq<char>, DirtyState>::empty(),
            h@.associated is None,
    {
        DirtyHandler {
            resources_to_reserialize: StringMap::new(),
            resources_to_remove: StringMap::new(),
            associated_values: None,
        }
    }

    /// Marks a resource as added. A resource that was removed since the last
    /// save and had existed on disk comes back as edited; one that was created
    /// and removed since then is simply no longer removed.
    pub fn add(&mut self, new_value: String)
        ensures
            final(self)@ == add_spec(old(self)@, new_value@),
    {
        match self.resources_to_remove.remove(new_value.as_str()) {
            Some(DirtyState::New) => {},
            Some(DirtyState::Edit) => {
                self.resources_to_reserialize.insert(new_value, DirtyState::Edit);
            },
            None => {
                self.resources_to_reserialize.insert(new_value, DirtyState::New);
            },
        }
        proof {
            assert(self@.reserialize =~= add_spec(old(self)@, new_value@).reserialize);
            assert(self@.remove =~= add_spec(old(self)@, new_value@).remove);
        }
    }

    /// Marks a resource as replaced. Unless it was already dirty, `files` is
    /// called and the files it returns are recorded for cleanup; the resource
    /// is then marked as edited (or kept as new).
    pub fn replace_associated<F>(&mut self, new_value: String, files: F)
        where
            F: Fn() -> Vec<A>,
        requires
            old(self)@.reserialize.contains_key(new_value@) || old(self)@.associated is Some,
            files.requires(()),
        ensures
            old(self)@.reserialize.contains_key(new_value@) ==> final(self)@ == old(self)@,
            !old(self)@.reserialize.contains_key(new_value@) ==> exists|f: Vec<A>|
                files.ensures((), f) && final(self)@ == replace_associated_spec(
                    old(self)@,
                    new_value@,
                    f@,
                ),
    {
        match self.resources_to_reserialize.get(new_value.as_str()) {
            Some(_) => {},
            None => {
                let added = files();
                let mut assoc = self.associated_values.take().unwrap();
                let mut current: Vec<A> = match assoc.remove(new_value.as_str()) {
                    Some(v) => v,
                    None => Vec::new(),
                };
                let ghost before = current@;
                let mut added = added;
                let ghost added_seq = added@;
                current.append(&mut added);
                let ghost old_assoc = assoc@;
                assoc.insert(new_value.clone(), current);
                self.associated_values = Some(assoc);
                self.resources_to_reserialize.insert(new_value, DirtyState::Edit);
                proof {
                    let target = replace_associated_spec(old(self)@, new_value@, added_seq);
                    assert(self@.reserialize =~= target.reserialize);
                    assert(files_view(self.associated_values.unwrap()@) =~= target.associated.unwrap());
                }
            },
        }
    }

    /// Marks a resource as replaced: a new resource stays new, anything else
    /// becomes edited.
    pub fn replace(&mut self, new_value: String)
        ensures
            final(self)@ == replace_spec(old(self)@, new_value@),
    {
        let dirty_state = match self.resources_to_reserialize.remove(new_value.as_str()) {
            Some(DirtyState::New) => DirtyState::New,
            Some(DirtyState::Edit) | None => DirtyState::Edit,
        };
        self.resources_to_reserialize.insert(new_value, dirty_state);
        proof {
            assert(self@.reserialize =~= replace_spec(old(self)@, new_value@).reserialize);
        }
    }

    /// Marks a resource as removed. A resource created since the last save is
    /// simply forgotten; any other is scheduled for deletion. Files recorded
    /// for cleanup are kept.
    pub fn remove(&mut self, value: &str)
        ensures
            final(self)@ == remove_spec(old(self)@, value@),
    {
        match self.resources_to_reserialize.remove(value) {
            Some(DirtyState::New) => {},
            Some(DirtyState::Edit) | None => {
                self.resources_to_remove.insert(value.to_owned(), DirtyState::Edit);
            },
        }
        proof {
            assert(self@.reserialize =~= remove_spec(old(self)@, value@).reserialize);
            assert(self@.remove =~= remove_spec(old(self)@, value@).remove);
        }
    }

    /// Empties the handler, handing out everything it held.
    pub fn drain_all(&mut self) -> (d: DirtyDrain<A>)
        ensures
            final(self)@.reserialize == Map::<Seq<char>, DirtyState>::empty(),
            final(self)@.remove == Map::<Seq<char>, DirtyState>::empty(),
            final(self)@.associated is Some <==> old(self)@.associated is Some,
            final(self)@.associated is Some ==> final(self)@.associated == Some(
                Map::<Seq<char>, Seq<A>>::empty(),
            ),
            d.associated_values is Some <==> old(self)@.associated is Some,
            drained_as(d.resources_to_reserialize@, old(self).reserialize_entries()),
            drained_as(d.resources_to_remove@, old(self).remove_entries()),
            d.associated_values matches Some(v) ==> drained_as(
                v@,
                old(self).associated_entries(),
            ),
    {
        let resources_to_reserialize = self.resources_to_reserialize.drain();
        let resources_to_remove = self.resources_to_remove.drain();
        let associated_values = match &mut self.associated_values {
            Some(m) => Some(m.drain()),
            None => None,
        };
        proof {
            assert(drained_as(resources_to_reserialize@, old(self).reserialize_entries()));
            assert(drained_as(resources_to_remove@, old(self).remove_entries()));
            if self.associated_values is Some {
                assert(files_view(self.associated_values.unwrap()@) =~= Map::<Seq<char>, Seq<A>>::empty());
            }
        }
        DirtyDrain { resources_to_reserialize, resources_to_remove, associated_values }
    }

    /// The marks are held once each and agree with the view.
    pub fn entries_agree(&self)
        ensures
            forall|i: int|
                0 <= i < self.reserialize_entries().spec_len() ==> #[trigger] self@.reserialize.contains_key(
                    self.reserialize_entries().spec_key(i),
                ),
            forall|k: Seq<char>|
                #[trigger] self@.reserialize.contains_key(k) ==> exists|i: int|
                    0 <= i < self.reserialize_entries().spec_len() && self.reserialize_entries().spec_key(i) == k,
            forall|i: int, j: int|
                0 <= i < self.reserialize_entries().spec_len() && 0 <= j < self.reserialize_entries().spec_len() && i != j
                    ==> self.reserialize_entries().spec_key(i) != self.reserialize_entries().spec_key(j),
            forall|i: int|
                0 <= i < self.remove_entries().spec_len() ==> #[trigger] self@.remove.contains_key(
                    self.remove_entries().spec_key(i),
                ),
            forall|k: Seq<char>|
                #[trigger] self@.remove.contains_key(k) ==> exists|i: int|
                    0 <= i < self.remove_entries().spec_len() && self.remove_entries().spec_key(i) == k,
            forall|i: int, j: int|
                0 <= i < self.remove_entries().spec_len() && 0 <= j < self.remove_entries().spec_len() && i != j
                    ==> self.remove_entries().spec_key(i) != self.remove_entries().spec_key(j),
    {
        self.resources_to_reserialize.entries_agree();
        self.resources_to_remove.entries_agree();
        proof {
            let rs = self.resources_to_reserialize;
            let rm = self.resources_to_remove;
            assert forall|k: Seq<char>| #[trigger] self@.reserialize.contains_key(k) implies exists|i: int|
                0 <= i < self.reserialize_entries().spec_len() && self.reserialize_entries().spec_key(i) == k by {
                let i = choose|i: int| 0 <= i < rs.spec_len() && rs.spec_key(i) == k;
                assert(self.reserialize_entries().spec_key(i) == k);
            }
            assert forall|k: Seq<char>| #[trigger] self@.remove.contains_key(k) implies exists|i: int|
                0 <= i < self.remove_entries().spec_len() && self.remove_entries().spec_key(i) == k by {
                let i = choose|i: int| 0 <= i < rm.spec_len() && rm.spec_key(i) == k;
                assert(self.remove_entries().spec_key(i) == k);
            }
        }
    }

    /// Every name marked for writing is marked once, and the marks agree
    /// with the view.
    pub fn reserialize_entries_agree(&self)
        ensures
            forall|i: int|
                0 <= i < self.reserialize_entries().spec_len() ==> #[trigger] self@.reserialize.contains_key(
                    self.reserialize_entries().spec_key(i),
                ),
    {
        self.resources_to_reserialize.entries_agree();
    }

    /// The resources to write on the next save.
    pub fn resources_to_reserialize(&self) -> (m: &StringMap<DirtyState>)
        ensures
            m@ == self@.reserialize,
    {
        &self.resources_to_reserialize
    }

    /// The resources to delete on the next save.
    pub fn resources_to_remove(&self) -> (m: &StringMap<DirtyState>)
        ensures
            m@ == self@.remove,
    {
        &self.resources_to_remove
    }

    /// The files recorded for cleanup, if the handler tracks them.
    pub fn associated_values(&self) -> (m: &Option<StringMap<Vec<A>>>)
        ensures
            m is Some <==> self@.associated is Some,
            m matches Some(v) ==> self@.associated == Some(files_view(v@)),
    {
        &self.associated_values
    }
}

/// A drained list holds exactly the entries of the map, in its order.
pub open spec fn drained_as<V>(d: Seq<(String, V)>, m: StringMap<V>) -> bool {
    &&& d.len() == m.spec_len()
    &&& forall|i: int| 0 <= i < d.len() ==> #[trigger] d[i].0@ == m.spec_key(i) && d[i].1 == m.spec_value(i)
}

/// A resource that the handler does not track at all.
pub open spec fn untracked<A>(v: DirtyView<A>, k: Seq<char>) -> bool {
    !v.reserialize.contains_key(k) && !v.remove.contains_key(k)
}

/// Adding an untracked resource and then removing it leaves the handler as it was.
pub proof fn law_add_then_remove_restores<A>(v: DirtyView<A>, k: Seq<char>)
    requires
        untracked(v, k),
    ensures
        remove_spec(add_spec(v, k), k) == v,
{
    assert(remove_spec(add_spec(v, k), k).reserialize =~= v.reserialize);
}

/// Removing an untracked resource (one that exists on disk) and adding it back
/// leaves it marked as edited, with nothing scheduled for deletion.
pub proof fn law_remove_then_add_is_edit<A>(v: DirtyView<A>, k: Seq<char>)
    requires
        untracked(v, k),
    ensures
        add_spec(remove_spec(v, k), k) == (DirtyView {
            reserialize: v.reserialize.insert(k, DirtyState::Edit),
            ..v
        }),
{
    assert(remove_spec(v, k).reserialize =~= v.reserialize);
    assert(add_spec(remove_spec(v, k), k).remove =~= v.remove);
}

/// Removing, adding back and removing again an untracked resource ends with it
/// scheduled for deletion, exactly as a single removal does.
pub proof fn law_remove_add_remove<A>(v: DirtyView<A>, k: Seq<char>)
    requires
        untracked(v, k),
    ensures
        remove_spec(add_spec(remove_spec(v, k), k), k) == remove_spec(v, k),
{
    law_remove_then_add_is_edit(v, k);
    assert(remove_spec(add_spec(remove_spec(v, k), k), k).reserialize =~= remove_spec(v, k).reserialize);
    assert(remove_spec(add_spec(remove_spec(v, k), k), k).remove =~= remove_spec(v, k).remove);
}

/// Adding, removing and adding again an untracked resource ends with it marked
/// as new, exactly as a single addition does.
pub proof fn law_add_remove_add<A>(v: DirtyView<A>, k: Seq<char>)
    requires
        untracked(v, k),
    ensures
        add_spec(remove_spec(add_spec(v, k), k), k) == add_spec(v, k),
{
    law_add_then_remove_restores(v, k);
}

/// Replacing twice is the same as replacing once.
pub proof fn law_replace_idempotent<A>(v: DirtyView<A>, k: Seq<char>)
    ensures
        replace_spec(replace_spec(v, k), k) == replace_spec(v, k),
{
    assert(replace_spec(replace_spec(v, k), k).reserialize =~= replace_spec(v, k).reserialize);
}

/// Adding, replacing and removing never touch the recorded files, and each
/// touches only the entries of the resource it is given.
pub proof fn law_only_the_named_resource_changes<A>(v: DirtyView<A>, k: Seq<char>, other: Seq<char>)
    requires
        other != k,
    ensures
        add_spec(v, k).associated == v.associated,
        replace_spec(v, k).associated == v.associated,
        remove_spec(v, k).associated == v.associated,
        add_spec(v, k).reserialize.contains_key(other) == v.reserialize.contains_key(other),
        add_spec(v, k).remove.contains_key(other) == v.remove.contains_key(other),
        remove_spec(v, k).reserialize.contains_key(other) == v.reserialize.contains_key(other),
        remove_spec(v, k).remove.contains_key(other) == v.remove.contains_key(other),
        replace_spec(v, k).reserialize.contains_key(other) == v.reserialize.contains_key(other),
{
}

/// The marks are well formed: nothing is marked both for writing and for
/// deletion, and every deletion mark is an edit (a resource that exists on
/// disk).
pub open spec fn marks_wf<A>(v: DirtyView<A>) -> bool {
    &&& forall|k: Seq<char>| !(#[trigger] v.reserialize.contains_key(k) && v.remove.contains_key(k))
    &&& forall|k: Seq<char>| #[trigger] v.remove.contains_key(k) ==> v.remove[k] == DirtyState::Edit
}

/// The write and delete marks stay apart, and deletion marks stay edits:
/// empty marks are well formed, and adding, removing, and replacing a
/// resource that is not marked for deletion keep them so (as does handing
/// the marks out, which empties them).
pub proof fn law_marks_stay_apart<A>(v: DirtyView<A>, k: Seq<char>, files: Seq<A>)
    requires
        marks_wf(v),
    ensures
        marks_wf(DirtyView { reserialize: Map::empty(), remove: Map::empty(), ..v }),
        marks_wf(add_spec(v, k)),
        marks_wf(remove_spec(v, k)),
        !v.remove.contains_key(k) ==> marks_wf(replace_spec(v, k)),
        !v.remove.contains_key(k) && v.associated is Some ==> marks_wf(replace_associated_spec(v, k, files)),
{
}

} // verus!
