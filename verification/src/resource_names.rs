//! The registry of resource names: which name belongs to which kind of
//! resource, where it sits in the asset tree, and which entries of the
//! project file must be rewritten or dropped on the next save.
use vstd::prelude::*;
use crate::dirty_handler::{DirtyHandler, DirtyState, DirtyView, add_spec, remove_spec, replace_spec};
use crate::paths::{FilesystemPath, FilesystemPathView};
use crate::resources::{Resource, base_name_spec};
use crate::string_map::{StringMap, str_eq};

verus! {

/// Why a resource name could not be used.
#[derive(Debug, PartialEq, Eq, Clone, Copy, Structural)]
pub enum ResourceNameError {
    /// The name is used by a resource other than the one asked for.
    BadResourceName { existing_resource: Resource },
    /// No resource has that name.
    NoResourceByThatName,
}

/// What the registry knows of a resource: its kind, its order within its
/// folder, and the location of that folder.
#[derive(Debug, PartialEq, Eq)]
pub struct ResourceDescriptor {
    pub resource: Resource,
    pub order: usize,
    pub parent_location: String,
}

/// The abstract value of a [`ResourceDescriptor`].
pub struct ResourceDescriptorView {
    pub resource: Resource,
    pub order: usize,
    pub parent_location: Seq<char>,
}

impl View for ResourceDescriptor {
    type V = ResourceDescriptorView;

    open spec fn view(&self) -> ResourceDescriptorView {
        ResourceDescriptorView { resource: self.resource, order: self.order, parent_location: self.parent_location@ }
    }
}

/// An entry of the project file's resource list: where the resource is on
/// disk, and its order.
#[derive(Debug, PartialEq, Eq)]
pub struct YypResource {
    pub id: FilesystemPath,
    pub order: usize,
}

/// The abstract value of a [`YypResource`].
pub struct YypResourceView {
    pub id: FilesystemPathView,
    pub order: usize,
}

impl View for YypResource {
    type V = YypResourceView;

    open spec fn view(&self) -> YypResourceView {
        YypResourceView { id: self.id@, order: self.order }
    }
}

/// The resource-list entry that a descriptor gives for a name.
pub open spec fn yyp_resource_spec(d: ResourceDescriptorView, name: Seq<char>) -> YypResourceView {
    YypResourceView {
        id: FilesystemPathView {
            name,
            path: base_name_spec(d.resource) + "/"@ + name + "/"@ + name + ".yy"@,
        },
        order: d.order,
    }
}

impl ResourceDescriptor {
    /// A descriptor of a resource of the given kind, order and folder.
    pub fn new(resource: Resource, order: usize, parent_location: String) -> (d: Self)
        ensures
            d@ == (ResourceDescriptorView { resource, order, parent_location: parent_location@ }),
    {
        ResourceDescriptor { resource, order, parent_location }
    }

    /// A copy of this descriptor.
    pub fn duplicate(&self) -> (d: Self)
        ensures
            d@ == self@,
    {
        ResourceDescriptor { resource: self.resource, order: self.order, parent_location: self.parent_location.clone() }
    }

    /// The entry of the project file's resource list for the resource `name`.
    pub fn to_yyp_resource(&self, name: &str) -> (r: YypResource)
        ensures
            r@ == yyp_resource_spec(self@, name@),
    {
        YypResource { id: FilesystemPath::new(self.resource.base_name(), name), order: self.order }
    }
}

/// The first position in a resource list of an entry named `name`, if any.
pub open spec fn first_named(list: Seq<YypResourceView>, name: Seq<char>) -> Option<int>
    decreases list.len(),
{
    if list.len() == 0 {
        None
    } else {
        match first_named(list.drop_last(), name) {
            Some(i) => Some(i),
            None => if list.last().id.name == name {
                Some(list.len() - 1)
            } else {
                None
            },
        }
    }
}

/// The list with the first entry named like `entry` replaced by it, or with
/// `entry` appended if none is.
pub open spec fn upsert(list: Seq<YypResourceView>, entry: YypResourceView) -> Seq<YypResourceView> {
    match first_named(list, entry.id.name) {
        Some(i) => list.update(i, entry),
        None => list.push(entry),
    }
}

/// The list without the first entry named `name`.
pub open spec fn remove_named(list: Seq<YypResourceView>, name: Seq<char>) -> Seq<YypResourceView> {
    match first_named(list, name) {
        Some(i) => list.remove(i),
        None => list,
    }
}

/// Writes the entries of the given names, in order.
pub open spec fn upsert_all(
    list: Seq<YypResourceView>,
    names: Map<Seq<char>, ResourceDescriptorView>,
    keys: Seq<Seq<char>>,
) -> Seq<YypResourceView>
    decreases keys.len(),
{
    if keys.len() == 0 {
        list
    } else {
        let k = keys.last();
        upsert(upsert_all(list, names, keys.drop_last()), yyp_resource_spec(names[k], k))
    }
}

/// Drops the entries of the given names, in order.
pub open spec fn remove_all(list: Seq<YypResourceView>, keys: Seq<Seq<char>>) -> Seq<YypResourceView>
    decreases keys.len(),
{
    if keys.len() == 0 {
        list
    } else {
        remove_named(remove_all(list, keys.drop_last()), keys.last())
    }
}

/// The views of a resource list.
pub open spec fn list_view(l: Seq<YypResource>) -> Seq<YypResourceView> {
    l.map_values(|r: YypResource| r@)
}

/// The position in a list of the first entry named `name`.
pub fn position_named(list: &Vec<YypResource>, name: &str) -> (r: Option<usize>)
    ensures
        r matches Some(p) ==> first_named(list_view(list@), name@) == Some(p as int),
        r is None ==> first_named(list_view(list@), name@) is None,
{
    let mut i: usize = 0;
    while i < list.len()
        invariant
            i <= list@.len(),
            first_named(list_view(list@).subrange(0, i as int), name@) is None,
        decreases list@.len() - i,
    {
        proof {
            let pre = list_view(list@).subrange(0, i as int + 1);
            assert(pre.drop_last() =~= list_view(list@).subrange(0, i as int));
        }
        if str_eq(list[i].id.name.as_str(), name) {
            proof {
                lemma_first_named_prefix(list_view(list@), name@, i as int + 1);
            }
            return Some(i);
        }
        i = i + 1;
    }
    proof {
        assert(list_view(list@).subrange(0, list@.len() as int) =~= list_view(list@));
    }
    None
}

/// A first match within a prefix is the first match of the whole list.
proof fn lemma_first_named_prefix(list: Seq<YypResourceView>, name: Seq<char>, n: int)
    requires
        0 <= n <= list.len(),
        first_named(list.subrange(0, n), name) is Some,
    ensures
        first_named(list, name) == first_named(list.subrange(0, n), name),
    decreases list.len() - n,
{
    if n < list.len() {
        assert(list.subrange(0, n + 1).drop_last() =~= list.subrange(0, n));
        lemma_first_named_prefix(list, name, n + 1);
    } else {
        assert(list.subrange(0, n) =~= list);
    }
}

/// Properties of the first match.
proof fn lemma_first_named(list: Seq<YypResourceView>, name: Seq<char>)
    ensures
        match first_named(list, name) {
            Some(i) => 0 <= i < list.len() && list[i].id.name == name,
            None => forall|j: int| 0 <= j < list.len() ==> list[j].id.name != name,
        },
    decreases list.len(),
{
    if list.len() > 0 {
        lemma_first_named(list.drop_last(), name);
        assert forall|j: int| 0 <= j < list.len() - 1 implies list.drop_last()[j] == list[j] by {}
    }
}

/// The registry of names of a project.
pub struct ResourceNames {
    names: StringMap<ResourceDescriptor>,
    dirty_handler: DirtyHandler<()>,
}

/// The abstract value of [`ResourceNames`].
pub struct ResourceNamesView {
    pub names: Map<Seq<char>, ResourceDescriptorView>,
    pub dirty: DirtyView<()>,
}

/// The abstract value of a map of descriptors.
pub open spec fn names_view(m: StringMap<ResourceDescriptor>) -> Map<Seq<char>, ResourceDescriptorView> {
    m@.map_values(|d: ResourceDescriptor| d@)
}

impl View for ResourceNames {
    type V = ResourceNamesView;

    closed spec fn view(&self) -> ResourceNamesView {
        ResourceNamesView { names: names_view(self.names), dirty: self.dirty_handler@ }
    }
}

/// The registry after `name` is recorded with descriptor `d`, marked as added
/// (or as replaced, where the name was known).
pub open spec fn insert_name(v: ResourceNamesView, name: Seq<char>, d: ResourceDescriptorView) -> ResourceNamesView {
    ResourceNamesView {
        names: v.names.insert(name, d),
        dirty: if v.names.contains_key(name) {
            replace_spec(v.dirty, name)
        } else {
            add_spec(v.dirty, name)
        },
    }
}

/// Every name marked for writing is known to the registry.
pub open spec fn names_wf(v: ResourceNamesView) -> bool {
    forall|k: Seq<char>| #[trigger] v.dirty.reserialize.contains_key(k) ==> v.names.contains_key(k)
}

impl ResourceNames {
    /// An empty registry.
    pub fn new() -> (r: Self)
        ensures
            r@.names == Map::<Seq<char>, ResourceDescriptorView>::empty(),
            r@.dirty.reserialize == Map::<Seq<char>, DirtyState>::empty(),
            r@.dirty.remove == Map::<Seq<char>, DirtyState>::empty(),
            r@.dirty.associated is None,
            names_wf(r@),
    {
        let r = ResourceNames { names: StringMap::new(), dirty_handler: DirtyHandler::new() };
        proof {
            assert(names_view(r.names) =~= Map::<Seq<char>, ResourceDescriptorView>::empty());
        }
        r
    }

    /// Records a resource found on startup, which needs no writing.
    pub fn load_in_resource(&mut self, name: String, resource: ResourceDescriptor)
        ensures
            final(self)@.names == old(self)@.names.insert(name@, resource@),
            final(self)@.dirty == old(self)@.dirty,
            names_wf(old(self)@) ==> names_wf(final(self)@),
    {
        let ghost rv = resource@;
        self.names.insert(name, resource);
        proof {
            assert(names_view(self.names) =~= old(self)@.names.insert(name@, rv));
        }
    }

    /// Records a resource under a name, replacing and returning any descriptor
    /// the name had. A new name is marked as added; a known one as replaced.
    pub fn insert(&mut self, name: String, resource: ResourceDescriptor) -> (old_d: Option<ResourceDescriptor>)
        ensures
            final(self)@.names == old(self)@.names.insert(name@, resource@),
            old_d is Some <==> old(self)@.names.contains_key(name@),
            old_d matches Some(d) ==> d@ == old(self)@.names[name@],
            old_d is Some ==> final(self)@.dirty == replace_spec(old(self)@.dirty, name@),
            old_d is None ==> final(self)@.dirty == add_spec(old(self)@.dirty, name@),
            names_wf(old(self)@) ==> names_wf(final(self)@),
    {
        let ghost rv = resource@;
        let key = name.clone();
        let r = self.names.insert(name, resource);
        match r {
            Some(_) => self.dirty_handler.replace(key),
            None => self.dirty_handler.add(key),
        }
        proof {
            assert(names_view(self.names) =~= old(self)@.names.insert(name@, rv));
        }
        r
    }

    /// Forgets a name, returning its descriptor, and marks it as removed.
    pub fn remove(&mut self, name: &str) -> (old_d: Option<ResourceDescriptor>)
        ensures
            final(self)@.names == old(self)@.names.remove(name@),
            old_d is Some <==> old(self)@.names.contains_key(name@),
            old_d matches Some(d) ==> d@ == old(self)@.names[name@],
            old_d is Some ==> final(self)@.dirty == remove_spec(old(self)@.dirty, name@),
            old_d is None ==> final(self)@.dirty == old(self)@.dirty,
            names_wf(old(self)@) ==> names_wf(final(self)@),
    {
        let r = self.names.remove(name);
        if r.is_some() {
            self.dirty_handler.remove(name);
        }
        proof {
            assert(names_view(self.names) =~= old(self)@.names.remove(name@));
        }
        r
    }

    /// The descriptor of a name, if it is known.
    pub fn get(&self, name: &str) -> (r: Option<&ResourceDescriptor>)
        ensures
            r is Some <==> self@.names.contains_key(name@),
            r matches Some(d) ==> d@ == self@.names[name@],
    {
        self.names.get(name)
    }

    /// All the currently known names and descriptors in the project.
    pub fn inner(&self) -> (m: &StringMap<ResourceDescriptor>)
        ensures
            names_view(*m) == self@.names,
    {
        &self.names
    }

    /// All the currently known names and descriptors in the project.
    pub fn get_all(&self) -> (m: &StringMap<ResourceDescriptor>)
        ensures
            names_view(*m) == self@.names,
    {
        &self.names
    }

    /// The descriptor of a name that must belong to a resource of kind `r`.
    /// A name held by a resource of another kind is refused with that kind,
    /// the one already using the name.
    pub fn get_checked(&self, name: &str, r: Resource) -> (out: Result<&ResourceDescriptor, ResourceNameError>)
        ensures
            !self@.names.contains_key(name@) ==> out == Err::<&ResourceDescriptor, ResourceNameError>(ResourceNameError::NoResourceByThatName),
            self@.names.contains_key(name@) && self@.names[name@].resource != r ==> out == Err::<&ResourceDescriptor, ResourceNameError>(
                ResourceNameError::BadResourceName { existing_resource: self@.names[name@].resource },
            ),
            self@.names.contains_key(name@) && self@.names[name@].resource == r ==> (out matches Ok(d) && d@
                == self@.names[name@]),
    {
        match self.get(name) {
            Some(v) => {
                if v.resource == r {
                    Ok(v)
                } else {
                    Err(ResourceNameError::BadResourceName { existing_resource: v.resource })
                }
            },
            None => Err(ResourceNameError::NoResourceByThatName),
        }
    }

    /// Whether every name marked for writing is known to the registry.
    pub fn is_consistent(&self) -> (r: bool)
        ensures
            r == names_wf(self@),
    {
        let marks = self.dirty_handler.resources_to_reserialize();
        marks.entries_agree();
        let n = marks.len();
        let mut i: usize = 0;
        while i < n
            invariant
                n == marks.spec_len(),
                i <= n,
                marks@ == self@.dirty.reserialize,
                forall|j: int| 0 <= j < i ==> #[trigger] self@.names.contains_key(marks.spec_key(j)),
                forall|k: Seq<char>|
                    #[trigger] marks@.contains_key(k) ==> exists|j: int| 0 <= j < marks.spec_len() && marks.spec_key(j) == k,
            decreases n - i,
        {
            let k = marks.key_at(i);
            if self.names.get(k.as_str()).is_none() {
                proof {
                    assert(self@.dirty.reserialize.contains_key(k@));
                    assert(!names_wf(self@));
                }
                return false;
            }
            i = i + 1;
        }
        proof {
            assert forall|k: Seq<char>| #[trigger] self@.dirty.reserialize.contains_key(k) implies self@.names.contains_key(k) by {
                let j = choose|j: int| 0 <= j < marks.spec_len() && marks.spec_key(j) == k;
                assert(self@.names.contains_key(marks.spec_key(j)));
            }
        }
        true
    }

    /// The names marked for writing, in the order in which they were marked.
    pub closed spec fn reserialize_keys(self) -> Seq<Seq<char>> {
        self.dirty_handler.reserialize_entries().key_seq()
    }

    /// The names marked for removal, in the order in which they were marked.
    pub closed spec fn remove_keys(self) -> Seq<Seq<char>> {
        self.dirty_handler.remove_entries().key_seq()
    }

    /// Applies the pending changes to the project file's resource list: each
    /// name marked for writing gets its entry replaced (or appended), then each
    /// name marked for removal loses its entry. The marks are then cleared.
    pub fn serialize(&mut self, yyp_resources: &mut Vec<YypResource>)
        requires
            names_wf(old(self)@),
        ensures
            list_view(final(yyp_resources)@) == remove_all(
                upsert_all(list_view(old(yyp_resources)@), old(self)@.names, old(self).reserialize_keys()),
                old(self).remove_keys(),
            ),
            final(self)@.names == old(self)@.names,
            final(self)@.dirty.reserialize == Map::<Seq<char>, DirtyState>::empty(),
            final(self)@.dirty.remove == Map::<Seq<char>, DirtyState>::empty(),
            names_wf(final(self)@),
    {
        let ghost old_list = list_view(yyp_resources@);
        let ghost names = self@.names;
        let ghost keys = self.reserialize_keys();
        let ghost rkeys = self.remove_keys();
        proof {
            self.dirty_handler.lemma_entries_view();
        }
        self.dirty_handler.reserialize_entries_agree();
        let drain = self.dirty_handler.drain_all();
        let to_write = drain.resources_to_reserialize;
        let to_remove = drain.resources_to_remove;
        let n = to_write.len();
        let mut i: usize = 0;
        proof {
            assert(keys.take(0) =~= Seq::<Seq<char>>::empty());
            assert forall|j: int| 0 <= j < n implies #[trigger] names.contains_key(keys[j]) by {
                assert(keys[j] == old(self).dirty_handler.reserialize_entries().spec_key(j));
                assert(old(self)@.dirty.reserialize.contains_key(keys[j]));
            }
        }
        while i < n
            invariant
                n == to_write@.len(),
                n == keys.len(),
                i <= n,
                forall|j: int| 0 <= j < n ==> #[trigger] to_write@[j].0@ == keys[j],
                forall|j: int| 0 <= j < n ==> #[trigger] names.contains_key(keys[j]),
                names == names_view(self.names),
                list_view(yyp_resources@) == upsert_all(old_list, names, keys.take(i as int)),
            decreases n - i,
        {
            let name = &to_write[i].0;
            proof {
                assert(names.contains_key(keys[i as int]));
            }
            let desc = self.names.get(name.as_str()).unwrap();
            let entry = desc.to_yyp_resource(name.as_str());
            let ghost before = list_view(yyp_resources@);
            let ghost ev = entry@;
            proof {
                assert(keys.take(i as int + 1).drop_last() =~= keys.take(i as int));
                assert(keys.take(i as int + 1).last() == keys[i as int]);
                assert(ev == yyp_resource_spec(names[keys[i as int]], keys[i as int]));
                lemma_first_named(before, name@);
            }
            match position_named(yyp_resources, name.as_str()) {
                Some(p) => {
                    yyp_resources.set(p, entry);
                    proof {
                        assert(list_view(yyp_resources@) =~= before.update(p as int, ev));
                        assert(upsert(before, ev) == list_view(yyp_resources@));
                    }
                },
                None => {
                    yyp_resources.push(entry);
                    proof {
                        assert(list_view(yyp_resources@) =~= before.push(ev));
                        assert(upsert(before, ev) == list_view(yyp_resources@));
                    }
                },
            }
            proof {
                assert(upsert_all(old_list, names, keys.take(i as int + 1)) == upsert(upsert_all(old_list, names, keys.take(i as int)), ev));
            }
            i = i + 1;
        }
        proof {
            assert(keys.take(n as int) =~= keys);
        }
        let ghost written = list_view(yyp_resources@);
        let m = to_remove.len();
        let mut j: usize = 0;
        proof {
            assert(rkeys.take(0) =~= Seq::<Seq<char>>::empty());
        }
        while j < m
            invariant
                m == to_remove@.len(),
                m == rkeys.len(),
                j <= m,
                forall|l: int| 0 <= l < m ==> #[trigger] to_remove@[l].0@ == rkeys[l],
                list_view(yyp_resources@) == remove_all(written, rkeys.take(j as int)),
            decreases m - j,
        {
            let name = &to_remove[j].0;
            let ghost before = list_view(yyp_resources@);
            proof {
                assert(rkeys.take(j as int + 1).drop_last() =~= rkeys.take(j as int));
                assert(rkeys.take(j as int + 1).last() == rkeys[j as int]);
                lemma_first_named(before, name@);
            }
            match position_named(yyp_resources, name.as_str()) {
                Some(p) => {
                    proof {
                        assert(first_named(before, name@) == Some(p as int));
                    }
                    yyp_resources.remove(p);
                    proof {
                        assert(list_view(yyp_resources@) =~= before.remove(p as int));
                        assert(remove_named(before, name@) == list_view(yyp_resources@));
                    }
                },
                None => {
                    proof {
                        assert(remove_named(before, name@) == list_view(yyp_resources@));
                    }
                },
            }
            proof {
                assert(remove_all(written, rkeys.take(j as int + 1)) == remove_named(remove_all(written, rkeys.take(j as int)), rkeys[j as int]));
            }
            j = j + 1;
        }
        proof {
            assert(rkeys.take(m as int) =~= rkeys);
        }
    }
}

/// Upserting an entry makes it present, and keeps every entry of another name.
proof fn lemma_upsert(list: Seq<YypResourceView>, entry: YypResourceView, e: YypResourceView)
    ensures
        upsert(list, entry).contains(entry),
        list.contains(e) && e.id.name != entry.id.name ==> upsert(list, entry).contains(e),
{
    lemma_first_named(list, entry.id.name);
    match first_named(list, entry.id.name) {
        Some(i) => {
            assert(upsert(list, entry)[i] == entry);
            if list.contains(e) && e.id.name != entry.id.name {
                let j = choose|j: int| 0 <= j < list.len() && list[j] == e;
                assert(j != i);
                assert(upsert(list, entry)[j] == e);
            }
        },
        None => {
            assert(upsert(list, entry)[list.len() as int] == entry);
            if list.contains(e) {
                let j = choose|j: int| 0 <= j < list.len() && list[j] == e;
                assert(upsert(list, entry)[j] == e);
            }
        },
    }
}

/// Removing the entry of a name keeps every entry of another name.
proof fn lemma_remove_named(list: Seq<YypResourceView>, name: Seq<char>, e: YypResourceView)
    requires
        list.contains(e),
        e.id.name != name,
    ensures
        remove_named(list, name).contains(e),
{
    lemma_first_named(list, name);
    match first_named(list, name) {
        Some(i) => {
            let j = choose|j: int| 0 <= j < list.len() && list[j] == e;
            assert(j != i);
            if j < i {
                assert(remove_named(list, name)[j] == e);
            } else {
                assert(remove_named(list, name)[j - 1] == e);
            }
        },
        None => {},
    }
}

/// A name marked for writing, and not for removal, has its entry in the
/// resource list after a save.
pub proof fn law_serialize_writes_marked(
    list: Seq<YypResourceView>,
    names: Map<Seq<char>, ResourceDescriptorView>,
    keys: Seq<Seq<char>>,
    rkeys: Seq<Seq<char>>,
    k: Seq<char>,
)
    requires
        keys.contains(k),
        keys.no_duplicates(),
        !rkeys.contains(k),
    ensures
        remove_all(upsert_all(list, names, keys), rkeys).contains(yyp_resource_spec(names[k], k)),
    decreases keys.len() + rkeys.len(),
{
    let e = yyp_resource_spec(names[k], k);
    if rkeys.len() > 0 {
        assert(!rkeys.drop_last().contains(k)) by {
            if rkeys.drop_last().contains(k) {
                let j = choose|j: int| 0 <= j < rkeys.drop_last().len() && rkeys.drop_last()[j] == k;
                assert(rkeys[j] == k);
            }
        }
        law_serialize_writes_marked(list, names, keys, rkeys.drop_last(), k);
        assert(rkeys.last() != k) by {
            assert(rkeys[rkeys.len() - 1] == rkeys.last());
        }
        lemma_remove_named(remove_all(upsert_all(list, names, keys), rkeys.drop_last()), rkeys.last(), e);
    } else {
        let last = keys.last();
        if last == k {
            lemma_upsert(upsert_all(list, names, keys.drop_last()), e, e);
        } else {
            assert(keys.drop_last().contains(k)) by {
                let j = choose|j: int| 0 <= j < keys.len() && keys[j] == k;
                assert(j != keys.len() - 1);
                assert(keys.drop_last()[j] == k);
            }
            assert(keys.drop_last().no_duplicates());
            law_serialize_writes_marked(list, names, keys.drop_last(), rkeys, k);
            lemma_upsert(upsert_all(list, names, keys.drop_last()), yyp_resource_spec(names[last], last), e);
        }
    }
}

} // verus!
