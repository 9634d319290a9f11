//! Pipelines: named collections of sources, each of which maps destination
//! keys to resources on disk. The manager remembers which pipelines changed
//! since the last save.
use vstd::prelude::*;
use crate::paths::{FilesystemPath, FilesystemPathView};
use crate::string_map::{StringMap, map_eq_by};
use crate::utils::SerializationFormat;
use crate::text_order::text_less;

verus! {

/// Why a pipeline operation was refused.
#[derive(Debug, Copy, Clone, PartialEq, Eq, Structural)]
pub enum PipelineError {
    PipelineDoesNotExist,
    PipelineSourceDoesNotExist,
    PipelineDestinationDoesNotExist,
    PipelineAlreadyExists,
    PipelineSourceAlreadyExists,
    PipelineDestinationAlreadyExistsOnSource,
}

impl PipelineError {
    /// The message that describes the error.
    pub fn message(&self) -> (s: String)
        ensures
            s@ == pipeline_error_message(*self),
    {
        let s = match self {
            PipelineError::PipelineDoesNotExist => "no pipeline by that name exists",
            PipelineError::PipelineSourceDoesNotExist => "no pipeline source exists on that pipeline",
            PipelineError::PipelineDestinationDoesNotExist => "no pipeline destinations exists on that pipeline source",
            PipelineError::PipelineAlreadyExists => "a pipeline by that name already exists",
            PipelineError::PipelineSourceAlreadyExists => "a pipeline source by that name already exists",
            PipelineError::PipelineDestinationAlreadyExistsOnSource => "pipeline destination already exists on a source by that name",
        };
        s.to_owned()
    }
}

/// The message of each error.
pub open spec fn pipeline_error_message(e: PipelineError) -> Seq<char> {
    match e {
        PipelineError::PipelineDoesNotExist => "no pipeline by that name exists"@,
        PipelineError::PipelineSourceDoesNotExist => "no pipeline source exists on that pipeline"@,
        PipelineError::PipelineDestinationDoesNotExist => "no pipeline destinations exists on that pipeline source"@,
        PipelineError::PipelineAlreadyExists => "a pipeline by that name already exists"@,
        PipelineError::PipelineSourceAlreadyExists => "a pipeline source by that name already exists"@,
        PipelineError::PipelineDestinationAlreadyExistsOnSource => "pipeline destination already exists on a source by that name"@,
    }
}

/// The destinations of a source, keyed by destination name.
pub type PipelineDesinations = StringMap<FilesystemPath>;

/// The abstract value of a destination map.
pub open spec fn destinations_view(d: StringMap<FilesystemPath>) -> Map<Seq<char>, FilesystemPathView> {
    d@.map_values(|f: FilesystemPath| f@)
}

/// The abstract value of a map of sources.
pub open spec fn sources_view(s: StringMap<StringMap<FilesystemPath>>) -> Map<Seq<char>, Map<Seq<char>, FilesystemPathView>> {
    s@.map_values(|d: StringMap<FilesystemPath>| destinations_view(d))
}

/// A pipeline: a name, its sources with their destinations, the format in
/// which it is saved, and whether it changed since the last save.
pub struct Pipeline {
    pub name: String,
    pub source_destinations: StringMap<StringMap<FilesystemPath>>,
    pub serialization_format: SerializationFormat,
    pub dirty: bool,
}

/// The abstract value of a [`Pipeline`].
pub struct PipelineView {
    pub name: Seq<char>,
    pub sources: Map<Seq<char>, Map<Seq<char>, FilesystemPathView>>,
    pub format: SerializationFormat,
    pub dirty: bool,
}

impl View for Pipeline {
    type V = PipelineView;

    open spec fn view(&self) -> PipelineView {
        PipelineView {
            name: self.name@,
            sources: sources_view(self.source_destinations),
            format: self.serialization_format,
            dirty: self.dirty,
        }
    }
}

impl Pipeline {
    /// A pipeline with no sources that is not marked as changed.
    pub fn new(name: String, serialization_format: SerializationFormat) -> (p: Self)
        ensures
            p@.name == name@,
            p@.sources == Map::<Seq<char>, Map<Seq<char>, FilesystemPathView>>::empty(),
            p@.format == serialization_format,
            !p@.dirty,
    {
        let p = Pipeline {
            name,
            source_destinations: StringMap::new(),
            serialization_format,
            dirty: false,
        };
        proof {
            assert(sources_view(p.source_destinations) =~= Map::<Seq<char>, Map<Seq<char>, FilesystemPathView>>::empty());
        }
        p
    }

    /// Whether the pipeline changed since it was last saved.
    pub fn is_dirty(&self) -> (b: bool)
        ensures
            b == self@.dirty,
    {
        self.dirty
    }

    /// The destinations of a source, if the source exists.
    pub fn destinations(&self, source_name: &str) -> (r: Option<&StringMap<FilesystemPath>>)
        ensures
            r is None <==> !self@.sources.contains_key(source_name@),
            r matches Some(d) ==> destinations_view(*d) == self@.sources[source_name@],
    {
        self.source_destinations.get(source_name)
    }
}

/// What a pipeline is compared by: its name and its sources.
pub open spec fn pipeline_content(p: PipelineView) -> (Seq<char>, Map<Seq<char>, Map<Seq<char>, FilesystemPathView>>) {
    (p.name, p.sources)
}

/// The contents of all pipelines, by pipeline name.
pub open spec fn manager_content(v: PipelineManagerView) -> Map<Seq<char>, (Seq<char>, Map<Seq<char>, Map<Seq<char>, FilesystemPathView>>)> {
    v.pipelines.map_values(|p: PipelineView| pipeline_content(p))
}

/// Keeps every pipeline of a project, sorted by name, the files of pipelines
/// whose format changed (to delete on the next save), and whether the
/// manifest changed.
pub struct PipelineManager {
    pipelines: StringMap<Pipeline>,
    pipelines_to_remove: Vec<(String, SerializationFormat)>,
    dirty: bool,
}

/// The abstract value of a [`PipelineManager`].
pub struct PipelineManagerView {
    /// The pipelines by name.
    pub pipelines: Map<Seq<char>, PipelineView>,
    /// Old pipeline files to delete, each given by name and former format.
    pub to_remove: Seq<(Seq<char>, SerializationFormat)>,
    /// Whether the manifest changed since the last save.
    pub dirty: bool,
}

/// The abstract value of a map of pipelines.
pub open spec fn pipelines_view(m: StringMap<Pipeline>) -> Map<Seq<char>, PipelineView> {
    m@.map_values(|p: Pipeline| p@)
}

impl View for PipelineManager {
    type V = PipelineManagerView;

    closed spec fn view(&self) -> PipelineManagerView {
        PipelineManagerView {
            pipelines: pipelines_view(self.pipelines),
            to_remove: self.pipelines_to_remove@.map_values(|e: (String, SerializationFormat)| (e.0@, e.1)),
            dirty: self.dirty,
        }
    }
}

/// The outcome of `add_pipeline`.
pub open spec fn add_pipeline_spec(
    v: PipelineManagerView,
    name: Seq<char>,
    sf: SerializationFormat,
) -> (PipelineManagerView, Result<(), PipelineError>) {
    if v.pipelines.contains_key(name) {
        (v, Err(PipelineError::PipelineAlreadyExists))
    } else {
        (
            PipelineManagerView {
                pipelines: v.pipelines.insert(
                    name,
                    PipelineView { name, sources: Map::empty(), format: sf, dirty: true },
                ),
                dirty: true,
                ..v
            },
            Ok(()),
        )
    }
}

/// The outcome of `remove_pipeline`.
pub open spec fn remove_pipeline_spec(v: PipelineManagerView, name: Seq<char>) -> (PipelineManagerView, Result<(), PipelineError>) {
    if v.pipelines.contains_key(name) {
        (PipelineManagerView { pipelines: v.pipelines.remove(name), ..v }, Ok(()))
    } else {
        (v, Err(PipelineError::PipelineDoesNotExist))
    }
}

/// The outcome of `set_pipeline_serialization`.
pub open spec fn set_serialization_spec(
    v: PipelineManagerView,
    name: Seq<char>,
    sf: SerializationFormat,
) -> (PipelineManagerView, Result<(), PipelineError>) {
    if !v.pipelines.contains_key(name) {
        (v, Err(PipelineError::PipelineDoesNotExist))
    } else if v.pipelines[name].format == sf {
        (v, Ok(()))
    } else {
        let p = v.pipelines[name];
        (
            PipelineManagerView {
                pipelines: v.pipelines.insert(name, PipelineView { format: sf, dirty: true, ..p }),
                to_remove: v.to_remove.push((p.name, p.format)),
                ..v
            },
            Ok(()),
        )
    }
}

/// The outcome of `add_source_to_pipeline`.
pub open spec fn add_source_spec(v: PipelineManagerView, name: Seq<char>, source: Seq<char>) -> (PipelineManagerView, Result<(), PipelineError>) {
    if !v.pipelines.contains_key(name) {
        (v, Err(PipelineError::PipelineDoesNotExist))
    } else if v.pipelines[name].sources.contains_key(source) {
        (v, Err(PipelineError::PipelineSourceAlreadyExists))
    } else {
        let p = v.pipelines[name];
        (
            PipelineManagerView {
                pipelines: v.pipelines.insert(
                    name,
                    PipelineView { sources: p.sources.insert(source, Map::empty()), dirty: true, ..p },
                ),
                dirty: true,
                ..v
            },
            Ok(()),
        )
    }
}

/// The outcome of `remove_source_from_pipeline`.
pub open spec fn remove_source_spec(v: PipelineManagerView, name: Seq<char>, source: Seq<char>) -> (PipelineManagerView, Result<(), PipelineError>) {
    if !v.pipelines.contains_key(name) {
        (v, Err(PipelineError::PipelineDoesNotExist))
    } else if !v.pipelines[name].sources.contains_key(source) {
        (v, Err(PipelineError::PipelineSourceDoesNotExist))
    } else {
        let p = v.pipelines[name];
        (
            PipelineManagerView {
                pipelines: v.pipelines.insert(name, PipelineView { sources: p.sources.remove(source), ..p }),
                ..v
            },
            Ok(()),
        )
    }
}

/// The outcome of `add_destination_to_source`.
pub open spec fn add_destination_spec(
    v: PipelineManagerView,
    name: Seq<char>,
    source: Seq<char>,
    key: Seq<char>,
    dest: FilesystemPathView,
) -> (PipelineManagerView, Result<(), PipelineError>) {
    if !v.pipelines.contains_key(name) {
        (v, Err(PipelineError::PipelineDoesNotExist))
    } else if !v.pipelines[name].sources.contains_key(source) {
        (v, Err(PipelineError::PipelineSourceDoesNotExist))
    } else if v.pipelines[name].sources[source].contains_key(key) {
        (v, Err(PipelineError::PipelineDestinationAlreadyExistsOnSource))
    } else {
        let p = v.pipelines[name];
        (
            PipelineManagerView {
                pipelines: v.pipelines.insert(
                    name,
                    PipelineView {
                        sources: p.sources.insert(source, p.sources[source].insert(key, dest)),
                        dirty: true,
                        ..p
                    },
                ),
                dirty: true,
                ..v
            },
            Ok(()),
        )
    }
}

/// The outcome of `add_destination_to_source_rf`: missing pipelines and sources
/// are created (a created pipeline is named after its key and has the default
/// format, as `add_pipeline` makes it),
/// and the destination is set, replacing any destination of that key.
pub open spec fn add_destination_rf_spec(
    v: PipelineManagerView,
    name: Seq<char>,
    source: Seq<char>,
    key: Seq<char>,
    dest: FilesystemPathView,
) -> PipelineManagerView {
    let p = if v.pipelines.contains_key(name) {
        v.pipelines[name]
    } else {
        PipelineView {
            name: name,
            sources: Map::empty(),
            format: SerializationFormat::Json,
            dirty: false,
        }
    };
    let d = if p.sources.contains_key(source) {
        p.sources[source]
    } else {
        Map::empty()
    };
    PipelineManagerView {
        pipelines: v.pipelines.insert(
            name,
            PipelineView { sources: p.sources.insert(source, d.insert(key, dest)), dirty: true, ..p },
        ),
        dirty: true,
        ..v
    }
}

/// The outcome of `remove_destination_from_source`.
pub open spec fn remove_destination_spec(
    v: PipelineManagerView,
    name: Seq<char>,
    source: Seq<char>,
    key: Seq<char>,
) -> (PipelineManagerView, Result<(), PipelineError>) {
    if !v.pipelines.contains_key(name) {
        (v, Err(PipelineError::PipelineDoesNotExist))
    } else if !v.pipelines[name].sources.contains_key(source) {
        (v, Err(PipelineError::PipelineSourceDoesNotExist))
    } else if !v.pipelines[name].sources[source].contains_key(key) {
        (v, Err(PipelineError::PipelineDestinationDoesNotExist))
    } else {
        let p = v.pipelines[name];
        (
            PipelineManagerView {
                pipelines: v.pipelines.insert(
                    name,
                    PipelineView { sources: p.sources.insert(source, p.sources[source].remove(key)), ..p },
                ),
                ..v
            },
            Ok(()),
        )
    }
}

/// A manifest entry as read from disk: the pipeline's key, the format the
/// manifest gives, and the pipeline if its file could be read.
pub open spec fn loaded_view(s: Seq<(String, SerializationFormat, Option<Pipeline>)>) -> Seq<(Seq<char>, SerializationFormat, Option<PipelineView>)> {
    s.map_values(
        |e: (String, SerializationFormat, Option<Pipeline>)|
            (
                e.0@,
                e.1,
                match e.2 {
                    Some(p) => Some(p@),
                    None => None,
                },
            ),
    )
}

/// The pipelines that a manifest yields: each pipeline that could be read,
/// under its manifest key and with the manifest's format; a later entry with
/// the same key wins.
pub open spec fn loaded_pipelines(s: Seq<(Seq<char>, SerializationFormat, Option<PipelineView>)>) -> Map<Seq<char>, PipelineView>
    decreases s.len(),
{
    if s.len() == 0 {
        Map::empty()
    } else {
        let prev = loaded_pipelines(s.drop_last());
        let e = s.last();
        match e.2 {
            Some(p) => prev.insert(e.0, PipelineView { format: e.1, ..p }),
            None => prev,
        }
    }
}

/// Whether some manifest entry could not be read.
pub open spec fn any_missing(s: Seq<(Seq<char>, SerializationFormat, Option<PipelineView>)>) -> bool {
    exists|i: int| 0 <= i < s.len() && s[i].2 is None
}

/// The state after a save: nothing is marked as changed.
pub open spec fn saved_spec(v: PipelineManagerView) -> PipelineManagerView {
    PipelineManagerView {
        pipelines: v.pipelines.map_values(|p: PipelineView| PipelineView { dirty: false, ..p }),
        dirty: false,
        ..v
    }
}

impl PipelineManager {
    /// The pipelines as a map, in ascending order of their names.
    pub closed spec fn pipeline_entries(self) -> StringMap<Pipeline> {
        self.pipelines
    }

    /// A manager with no pipelines and nothing to save.
    pub fn new() -> (m: Self)
        ensures
            m@.pipelines == Map::<Seq<char>, PipelineView>::empty(),
            m@.to_remove == Seq::<(Seq<char>, SerializationFormat)>::empty(),
            !m@.dirty,
            m.pipeline_entries().keys_sorted(),
    {
        let m = PipelineManager { pipelines: StringMap::new(), pipelines_to_remove: Vec::new(), dirty: false };
        proof {
            assert(pipelines_view(m.pipelines) =~= Map::<Seq<char>, PipelineView>::empty());
            assert(m@.to_remove =~= Seq::<(Seq<char>, SerializationFormat)>::empty());
        }
        m
    }

    /// Whether the manifest changed since the last save.
    pub fn is_dirty(&self) -> (b: bool)
        ensures
            b == self@.dirty,
    {
        self.dirty
    }

    /// Returns a map of all the pipelines currently known.
    pub fn pipelines(&self) -> (m: &StringMap<Pipeline>)
        ensures
            pipelines_view(*m) == self@.pipelines,
    {
        &self.pipelines
    }

    /// Returns a specific pipeline by name, if it exists.
    pub fn pipeline(&self, pipeline_name: &str) -> (r: Option<&Pipeline>)
        ensures
            r is None <==> !self@.pipelines.contains_key(pipeline_name@),
            r matches Some(p) ==> p@ == self@.pipelines[pipeline_name@],
    {
        self.pipelines.get(pipeline_name)
    }

    /// Gets all of the destinations for a given source within a given pipeline,
    /// if both the pipeline and a source within that pipeline exist.
    pub fn pipeline_destinations(&self, pipeline_name: &str, source_name: &str) -> (r: Option<&StringMap<FilesystemPath>>)
        ensures
            r is Some <==> self@.pipelines.contains_key(pipeline_name@)
                && self@.pipelines[pipeline_name@].sources.contains_key(source_name@),
            r matches Some(d) ==> destinations_view(*d) == self@.pipelines[pipeline_name@].sources[source_name@],
    {
        match self.pipelines.get(pipeline_name) {
            Some(pl) => pl.source_destinations.get(source_name),
            None => None,
        }
    }

    /// Takes the pipeline at a position out of the map, leaving an empty
    /// placeholder, so that it can be changed and put back.
    fn take_pipeline(&mut self, i: usize) -> (p: Pipeline)
        requires
            i < old(self).pipelines.spec_len(),
        ensures
            p == old(self).pipelines.spec_value(i as int),
            p@ == old(self)@.pipelines[old(self).pipelines.spec_key(i as int)],
            old(self).pipelines@.contains_key(old(self).pipelines.spec_key(i as int)),
            final(self).pipelines.spec_len() == old(self).pipelines.spec_len(),
            forall|j: int| 0 <= j < old(self).pipelines.spec_len() ==> final(self).pipelines.spec_key(j) == old(self).pipelines.spec_key(j),
            exists|ph: Pipeline| final(self).pipelines@ == old(self).pipelines@.insert(old(self).pipelines.spec_key(i as int), ph),
            final(self).pipelines.key_seq() == old(self).pipelines.key_seq(),
            final(self).pipelines_to_remove == old(self).pipelines_to_remove,
            final(self).dirty == old(self).dirty,
            old(self).pipeline_entries().keys_sorted() ==> final(self).pipeline_entries().keys_sorted(),
    {
        let placeholder = Pipeline::new(String::new(), SerializationFormat::Json);
        let ghost ph = placeholder;
        self.pipelines.entries_agree();
        let p = self.pipelines.set_value_at(i, placeholder);
        assert(self.pipelines@ == old(self).pipelines@.insert(old(self).pipelines.spec_key(i as int), ph));
        let ghost k = old(self).pipelines.spec_key(i as int);
        assert(old(self).pipelines@.contains_key(k));
        assert(pipelines_view(old(self).pipelines)[k] == old(self).pipelines@[k]@);
        p
    }

    /// Creates a pipeline. If a pipeline of that name already exists, an error is returned.
    pub fn add_pipeline(&mut self, name: String, sf: SerializationFormat) -> (r: Result<(), PipelineError>)
        ensures
            (final(self)@, r) == add_pipeline_spec(old(self)@, name@, sf),
            old(self).pipeline_entries().keys_sorted() ==> final(self).pipeline_entries().keys_sorted(),
    {
        if self.pipelines.contains_key(name.as_str()) {
            Err(PipelineError::PipelineAlreadyExists)
        } else {
            let mut p = Pipeline::new(name.clone(), sf);
            p.dirty = true;
            self.pipelines.insert_sorted(name, p);
            self.dirty = true;
            proof {
                let target = add_pipeline_spec(old(self)@, name@, sf).0;
                assert(p@.sources =~= Map::<Seq<char>, Map<Seq<char>, FilesystemPathView>>::empty());
                assert(self@.pipelines =~= target.pipelines);
            }
            Ok(())
        }
    }

    /// Changes the pipeline serialization format on a given pipeline.
    ///
    /// If the pipeline doesn't exist, an error is returned. When the format
    /// changes, the pipeline's file in the old format is scheduled for deletion.
    pub fn set_pipeline_serialization(&mut self, name: &str, sf: SerializationFormat) -> (r: Result<(), PipelineError>)
        ensures
            (final(self)@, r) == set_serialization_spec(old(self)@, name@, sf),
            old(self).pipeline_entries().keys_sorted() ==> final(self).pipeline_entries().keys_sorted(),
    {
        match self.pipelines.position(name) {
            None => Err(PipelineError::PipelineDoesNotExist),
            Some(i) => {
                let ghost old_view = self@;
                let mut pipeline = self.take_pipeline(i);
                if pipeline.serialization_format != sf {
                    self.pipelines_to_remove.push((pipeline.name.clone(), pipeline.serialization_format));
                    pipeline.serialization_format = sf;
                    pipeline.dirty = true;
                }
                self.pipelines.set_value_at(i, pipeline);
                proof {
                    let target = set_serialization_spec(old_view, name@, sf).0;
                    assert(self@.pipelines =~= target.pipelines);
                    assert(self@.to_remove =~= target.to_remove);
                }
                Ok(())
            },
        }
    }

    /// Adds a source to a given pipeline.
    ///
    /// If a pipeline doesn't exist, or the source already exists on it, an error is returned.
    pub fn add_source_to_pipeline(&mut self, pipeline_name: &str, source_name: String) -> (r: Result<(), PipelineError>)
        ensures
            (final(self)@, r) == add_source_spec(old(self)@, pipeline_name@, source_name@),
            old(self).pipeline_entries().keys_sorted() ==> final(self).pipeline_entries().keys_sorted(),
    {
        match self.pipelines.position(pipeline_name) {
            None => Err(PipelineError::PipelineDoesNotExist),
            Some(i) => {
                if self.pipelines.value_at(i).source_destinations.contains_key(source_name.as_str()) {
                    return Err(PipelineError::PipelineSourceAlreadyExists);
                }
                let ghost old_view = self@;
                let mut pipeline = self.take_pipeline(i);
                let ghost old_sources = pipeline.source_destinations;
                let empty: StringMap<FilesystemPath> = StringMap::new();
                let ghost empty_map = empty;
                pipeline.source_destinations.insert_sorted(source_name, empty);
                pipeline.dirty = true;
                self.pipelines.set_value_at(i, pipeline);
                self.dirty = true;
                proof {
                    let target = add_source_spec(old_view, pipeline_name@, source_name@).0;
                    assert(destinations_view(empty_map) =~= Map::<Seq<char>, FilesystemPathView>::empty());
                    assert(sources_view(pipeline.source_destinations) =~= sources_view(old_sources).insert(source_name@, Map::empty()));
                    assert(self@.pipelines =~= target.pipelines);
                }
                Ok(())
            },
        }
    }

    /// Adds a destination to a given source on a given pipeline.
    ///
    /// If the pipeline doesn't exist, the source doesn't exist on the pipeline,
    /// or the destination already exists on the source, an error is returned.
    pub fn add_destination_to_source(
        &mut self,
        pipeline_name: &str,
        source_name: &str,
        destination_key: String,
        destination_value: FilesystemPath,
    ) -> (r: Result<(), PipelineError>)
        ensures
            (final(self)@, r) == add_destination_spec(
                old(self)@,
                pipeline_name@,
                source_name@,
                destination_key@,
                destination_value@,
            ),
            old(self).pipeline_entries().keys_sorted() ==> final(self).pipeline_entries().keys_sorted(),
    {
        let i = match self.pipelines.position(pipeline_name) {
            None => {
                return Err(PipelineError::PipelineDoesNotExist);
            },
            Some(i) => i,
        };
        let j = match self.pipelines.value_at(i).source_destinations.position(source_name) {
            None => {
                return Err(PipelineError::PipelineSourceDoesNotExist);
            },
            Some(j) => j,
        };
        if self.pipelines.value_at(i).source_destinations.value_at(j).contains_key(destination_key.as_str()) {
            return Err(PipelineError::PipelineDestinationAlreadyExistsOnSource);
        }
        let ghost old_view = self@;
        let mut pipeline = self.take_pipeline(i);
        let ghost old_sources = pipeline.source_destinations;
        let empty: StringMap<FilesystemPath> = StringMap::new();
        pipeline.source_destinations.entries_agree();
        let mut destinations = pipeline.source_destinations.set_value_at(j, empty);
        let ghost old_dest = destinations;
        let ghost dv = destination_value@;
        destinations.insert_sorted(destination_key, destination_value);
        pipeline.source_destinations.set_value_at(j, destinations);
        pipeline.dirty = true;
        self.pipelines.set_value_at(i, pipeline);
        self.dirty = true;
        proof {
            let target = add_destination_spec(old_view, pipeline_name@, source_name@, destination_key@, dv).0;
            assert(destinations_view(destinations) =~= destinations_view(old_dest).insert(destination_key@, dv));
            assert(sources_view(pipeline.source_destinations) =~= sources_view(old_sources).insert(
                source_name@,
                destinations_view(old_dest).insert(destination_key@, dv),
            ));
            assert(self@.pipelines =~= target.pipelines);
        }
        Ok(())
    }

    /// Adds a destination to a given source on a given pipeline.
    ///
    /// **If any elements do not exist, they will be created** (a missing
    /// pipeline as `add_pipeline` makes it: named after its key, in the
    /// default format). **If a destination
    /// exists on a source/pipeline which already exists, it will be replaced
    /// and lost.**
    pub fn add_destination_to_source_rf(
        &mut self,
        pipeline_name: String,
        source_name: String,
        destination_key: String,
        destination_value: FilesystemPath,
    )
        ensures
            final(self)@ == add_destination_rf_spec(
                old(self)@,
                pipeline_name@,
                source_name@,
                destination_key@,
                destination_value@,
            ),
            old(self).pipeline_entries().keys_sorted() ==> final(self).pipeline_entries().keys_sorted(),
    {
        let ghost old_view = self@;
        let ghost dv = destination_value@;
        let mut pipeline = match self.pipelines.remove(pipeline_name.as_str()) {
            Some(p) => p,
            None => Pipeline::new(pipeline_name.clone(), SerializationFormat::default()),
        };
        let ghost old_pipeline = pipeline@;
        let ghost old_sources = pipeline.source_destinations;
        let mut destinations = match pipeline.source_destinations.remove(source_name.as_str()) {
            Some(d) => d,
            None => StringMap::new(),
        };
        let ghost old_dest = destinations;
        destinations.insert_sorted(destination_key, destination_value);
        pipeline.source_destinations.insert_sorted(source_name, destinations);
        pipeline.dirty = true;
        self.pipelines.insert_sorted(pipeline_name, pipeline);
        self.dirty = true;
        proof {
            let target = add_destination_rf_spec(old_view, pipeline_name@, source_name@, destination_key@, dv);
            assert(destinations_view(destinations) =~= destinations_view(old_dest).insert(destination_key@, dv));
            if old_sources@.contains_key(source_name@) {
                assert(destinations_view(old_dest) == old_pipeline.sources[source_name@]);
            } else {
                assert(destinations_view(old_dest) =~= Map::<Seq<char>, FilesystemPathView>::empty());
            }
            assert(sources_view(pipeline.source_destinations) =~= old_pipeline.sources.insert(
                source_name@,
                destinations_view(old_dest).insert(destination_key@, dv),
            ));
            assert(self@.pipelines =~= target.pipelines);
        }
    }

    /// Removes a given **pipeline** from the manager. If any sources are on the
    /// pipeline, they will be lost permanently!
    ///
    /// If the *pipeline* does not exist, an error is returned.
    pub fn remove_pipeline(&mut self, pipeline_name: &str) -> (r: Result<(), PipelineError>)
        ensures
            (final(self)@, r) == remove_pipeline_spec(old(self)@, pipeline_name@),
            old(self).pipeline_entries().keys_sorted() ==> final(self).pipeline_entries().keys_sorted(),
    {
        match self.pipelines.remove(pipeline_name) {
            Some(_) => {
                proof {
                    assert(self@.pipelines =~= old(self)@.pipelines.remove(pipeline_name@));
                }
                Ok(())
            },
            None => {
                proof {
                    assert(self@.pipelines =~= old(self)@.pipelines);
                }
                Err(PipelineError::PipelineDoesNotExist)
            },
        }
    }

    /// Removes a given **source** from a **pipeline**. If any destinations are
    /// in the source, they will be lost permanently!
    ///
    /// If the *pipeline* does not exist, or if the *source does not exist on the
    /// pipeline*, an error is returned.
    pub fn remove_source_from_pipeline(&mut self, pipeline_name: &str, source_name: &str) -> (r: Result<(), PipelineError>)
        ensures
            (final(self)@, r) == remove_source_spec(old(self)@, pipeline_name@, source_name@),
            old(self).pipeline_entries().keys_sorted() ==> final(self).pipeline_entries().keys_sorted(),
    {
        let i = match self.pipelines.position(pipeline_name) {
            None => {
                return Err(PipelineError::PipelineDoesNotExist);
            },
            Some(i) => i,
        };
        if !self.pipelines.value_at(i).source_destinations.contains_key(source_name) {
            return Err(PipelineError::PipelineSourceDoesNotExist);
        }
        let ghost old_view = self@;
        let mut pipeline = self.take_pipeline(i);
        let ghost old_sources = pipeline.source_destinations;
        pipeline.source_destinations.remove(source_name);
        self.pipelines.set_value_at(i, pipeline);
        proof {
            let target = remove_source_spec(old_view, pipeline_name@, source_name@).0;
            assert(sources_view(pipeline.source_destinations) =~= sources_view(old_sources).remove(source_name@));
            assert(self@.pipelines =~= target.pipelines);
        }
        Ok(())
    }

    /// Removes a given **destination** from a **source**.
    ///
    /// If the *pipeline* does not exist, or if the *source does not exist on the
    /// pipeline*, or if the *destination does not exist on the source*, an error
    /// is returned.
    pub fn remove_destination_from_source(
        &mut self,
        pipeline_name: &str,
        source_name: &str,
        destination_name: &str,
    ) -> (r: Result<(), PipelineError>)
        ensures
            (final(self)@, r) == remove_destination_spec(
                old(self)@,
                pipeline_name@,
                source_name@,
                destination_name@,
            ),
            old(self).pipeline_entries().keys_sorted() ==> final(self).pipeline_entries().keys_sorted(),
    {
        let i = match self.pipelines.position(pipeline_name) {
            None => {
                return Err(PipelineError::PipelineDoesNotExist);
            },
            Some(i) => i,
        };
        let j = match self.pipelines.value_at(i).source_destinations.position(source_name) {
            None => {
                return Err(PipelineError::PipelineSourceDoesNotExist);
            },
            Some(j) => j,
        };
        if !self.pipelines.value_at(i).source_destinations.value_at(j).contains_key(destination_name) {
            return Err(PipelineError::PipelineDestinationDoesNotExist);
        }
        let ghost old_view = self@;
        let mut pipeline = self.take_pipeline(i);
        let ghost old_sources = pipeline.source_destinations;
        let empty: StringMap<FilesystemPath> = StringMap::new();
        pipeline.source_destinations.entries_agree();
        let mut destinations = pipeline.source_destinations.set_value_at(j, empty);
        let ghost old_dest = destinations;
        destinations.remove(destination_name);
        pipeline.source_destinations.set_value_at(j, destinations);
        self.pipelines.set_value_at(i, pipeline);
        proof {
            let target = remove_destination_spec(old_view, pipeline_name@, source_name@, destination_name@).0;
            assert(destinations_view(destinations) =~= destinations_view(old_dest).remove(destination_name@));
            assert(sources_view(pipeline.source_destinations) =~= sources_view(old_sources).insert(
                source_name@,
                destinations_view(old_dest).remove(destination_name@),
            ));
            assert(self@.pipelines =~= target.pipelines);
        }
        Ok(())
    }

    /// The manifest: every pipeline's name with the format in which it is
    /// saved, in ascending order of the names.
    pub fn manifest_entries(&self) -> (entries: Vec<(String, SerializationFormat)>)
        ensures
            entries@.len() == self.pipeline_entries().spec_len(),
            forall|i: int|
                0 <= i < entries@.len() ==> #[trigger] self@.pipelines.contains_key(entries@[i].0@)
                    && entries@[i].1 == self@.pipelines[entries@[i].0@].format,
            forall|k: Seq<char>|
                #[trigger] self@.pipelines.contains_key(k) ==> exists|i: int|
                    0 <= i < entries@.len() && entries@[i].0@ == k,
            forall|i: int, j: int|
                #![trigger entries@[i], entries@[j]]
                0 <= i < j < entries@.len() ==> text_less(entries@[i].0@, entries@[j].0@),
    {
        let order = self.pipelines.sorted_order();
        let mut entries: Vec<(String, SerializationFormat)> = Vec::new();
        let n = order.len();
        self.pipelines.entries_agree();
        let mut i: usize = 0;
        while i < n
            invariant
                n == order@.len(),
                n == self.pipelines.spec_len(),
                forall|j: int| 0 <= j < order@.len() ==> #[trigger] order@[j] < self.pipelines.spec_len(),
                self.pipelines.sorted_by_key(order@),
                i <= n,
                entries@.len() == i,
                forall|j: int|
                    0 <= j < i ==> #[trigger] entries@[j].0@ == self.pipelines.spec_key(order@[j] as int)
                        && self@.pipelines.contains_key(entries@[j].0@)
                        && entries@[j].1 == self@.pipelines[entries@[j].0@].format,
            decreases n - i,
        {
            let pos = order[i];
            let k = self.pipelines.key_at(pos);
            let p = self.pipelines.value_at(pos);
            entries.push((k.clone(), p.serialization_format));
            i = i + 1;
        }
        proof {
            assert forall|k: Seq<char>| #[trigger] self@.pipelines.contains_key(k) implies exists|i: int|
                0 <= i < entries@.len() && entries@[i].0@ == k by {
                assert(self.pipelines@.contains_key(k));
                let pos = choose|pos: int| 0 <= pos < self.pipelines.spec_len() && self.pipelines.spec_key(pos) == k;
                assert(order@.contains(pos as usize));
                let i = choose|i: int| 0 <= i < order@.len() && order@[i] == pos as usize;
                assert(entries@[i].0@ == k);
            }
            assert forall|i: int, j: int|
                #![trigger entries@[i], entries@[j]]
                0 <= i < j < entries@.len() implies text_less(entries@[i].0@, entries@[j].0@) by {
                assert(text_less(self.pipelines.spec_key(order@[i] as int), self.pipelines.spec_key(order@[j] as int)));
            }
        }
        entries
    }

    /// The names, as keyed in the manager, of the pipelines that changed since
    /// the last save, in ascending order of the names.
    pub fn dirty_pipelines(&self) -> (names: Vec<String>)
        ensures
            forall|i: int|
                0 <= i < names@.len() ==> #[trigger] self@.pipelines.contains_key(names@[i]@)
                    && self@.pipelines[names@[i]@].dirty,
            forall|k: Seq<char>|
                #[trigger] self@.pipelines.contains_key(k) && self@.pipelines[k].dirty ==> exists|i: int|
                    0 <= i < names@.len() && names@[i]@ == k,
            forall|i: int, j: int|
                #![trigger names@[i], names@[j]]
                0 <= i < j < names@.len() ==> text_less(names@[i]@, names@[j]@),
    {
        let order = self.pipelines.sorted_order();
        let mut names: Vec<String> = Vec::new();
        let n = order.len();
        self.pipelines.entries_agree();
        let ghost mut picked: Seq<int> = Seq::empty();
        let mut i: usize = 0;
        while i < n
            invariant
                n == order@.len(),
                n == self.pipelines.spec_len(),
                forall|j: int| 0 <= j < order@.len() ==> #[trigger] order@[j] < self.pipelines.spec_len(),
                self.pipelines.sorted_by_key(order@),
                i <= n,
                picked.len() == names@.len(),
                forall|m: int| 0 <= m < picked.len() ==> 0 <= #[trigger] picked[m] < i,
                forall|m: int, l: int| 0 <= m < l < picked.len() ==> #[trigger] picked[m] < #[trigger] picked[l],
                forall|m: int|
                    0 <= m < names@.len() ==> #[trigger] names@[m]@ == self.pipelines.spec_key(order@[picked[m]] as int)
                        && self@.pipelines.contains_key(names@[m]@)
                        && self@.pipelines[names@[m]@].dirty,
                forall|j: int|
                    0 <= j < i && self.pipelines.spec_value(order@[j] as int).dirty ==> exists|m: int|
                        0 <= m < names@.len() && names@[m]@ == self.pipelines.spec_key(order@[j] as int),
                forall|j: int|
                    0 <= j < n ==> #[trigger] self@.pipelines.contains_key(self.pipelines.spec_key(j))
                        && self.pipelines@[self.pipelines.spec_key(j)] == self.pipelines.spec_value(j),
            decreases n - i,
        {
            let pos = order[i];
            let k = self.pipelines.key_at(pos);
            let p = self.pipelines.value_at(pos);
            let ghost old_names = names@;
            if p.dirty {
                names.push(k.clone());
                proof {
                    picked = picked.push(i as int);
                    assert(names@[names@.len() - 1]@ == self.pipelines.spec_key(order@[i as int] as int));
                }
            }
            proof {
                assert forall|j: int|
                    0 <= j < i + 1 && self.pipelines.spec_value(order@[j] as int).dirty implies exists|m: int|
                        0 <= m < names@.len() && names@[m]@ == self.pipelines.spec_key(order@[j] as int) by {
                    if j < i {
                        let m = choose|m: int| 0 <= m < old_names.len() && old_names[m]@ == self.pipelines.spec_key(order@[j] as int);
                        assert(names@[m] == old_names[m]);
                    } else {
                        assert(names@[names@.len() - 1]@ == self.pipelines.spec_key(order@[j] as int));
                    }
                }
            }
            i = i + 1;
        }
        proof {
            assert forall|k: Seq<char>|
                #[trigger] self@.pipelines.contains_key(k) && self@.pipelines[k].dirty implies exists|m: int|
                    0 <= m < names@.len() && names@[m]@ == k by {
                let pos = choose|pos: int| 0 <= pos < self.pipelines.spec_len() && self.pipelines.spec_key(pos) == k;
                assert(self.pipelines@.contains_key(self.pipelines.spec_key(pos)));
                assert(order@.contains(pos as usize));
                let j = choose|j: int| 0 <= j < order@.len() && order@[j] == pos as usize;
                assert(self.pipelines.spec_value(order@[j] as int).dirty);
            }
            assert forall|a: int, b: int|
                #![trigger names@[a], names@[b]]
                0 <= a < b < names@.len() implies text_less(names@[a]@, names@[b]@) by {
                assert(picked[a] < picked[b]);
                assert(text_less(self.pipelines.spec_key(order@[picked[a]] as int), self.pipelines.spec_key(order@[picked[b]] as int)));
            }
        }
        names
    }

    /// Hands out the old pipeline files to delete, each as the pipeline's name
    /// and its former format, and forgets them.
    pub fn take_pipelines_to_remove(&mut self) -> (files: Vec<(String, SerializationFormat)>)
        ensures
            files@.map_values(|e: (String, SerializationFormat)| (e.0@, e.1)) == old(self)@.to_remove,
            final(self)@ == (PipelineManagerView { to_remove: Seq::empty(), ..old(self)@ }),
            old(self).pipeline_entries().keys_sorted() ==> final(self).pipeline_entries().keys_sorted(),
    {
        let mut files: Vec<(String, SerializationFormat)> = Vec::new();
        std::mem::swap(&mut files, &mut self.pipelines_to_remove);
        proof {
            assert(self@.to_remove =~= Seq::<(Seq<char>, SerializationFormat)>::empty());
        }
        files
    }

    /// Records that everything was saved: the manifest and every pipeline are
    /// no longer marked as changed.
    pub fn mark_saved(&mut self)
        ensures
            final(self)@ == saved_spec(old(self)@),
            old(self).pipeline_entries().keys_sorted() ==> final(self).pipeline_entries().keys_sorted(),
    {
        let n = self.pipelines.len();
        let ghost old_map = self.pipelines;
        self.pipelines.entries_agree();
        let mut i: usize = 0;
        while i < n
            invariant
                n == self.pipelines.spec_len(),
                n == old_map.spec_len(),
                i <= n,
                forall|j: int| 0 <= j < n ==> #[trigger] self.pipelines.spec_key(j) == old_map.spec_key(j),
                forall|j: int|
                    0 <= j < i ==> (#[trigger] self.pipelines.spec_value(j))@ == (PipelineView {
                        dirty: false,
                        ..old_map.spec_value(j)@
                    }),
                forall|j: int| i <= j < n ==> #[trigger] self.pipelines.spec_value(j) == old_map.spec_value(j),
                self.pipelines_to_remove == old(self).pipelines_to_remove,
            decreases n - i,
        {
            let placeholder = Pipeline::new(String::new(), SerializationFormat::Json);
            let mut p = self.pipelines.set_value_at(i, placeholder);
            p.dirty = false;
            self.pipelines.set_value_at(i, p);
            i = i + 1;
        }
        self.dirty = false;
        self.pipelines.entries_agree();
        proof {
            let target = saved_spec(old(self)@);
            assert forall|k: Seq<char>| #[trigger] self@.pipelines.contains_key(k) <==> target.pipelines.contains_key(k) by {
                if self@.pipelines.contains_key(k) {
                    let j = choose|j: int| 0 <= j < n && self.pipelines.spec_key(j) == k;
                    assert(old_map@.contains_key(old_map.spec_key(j)));
                }
                if target.pipelines.contains_key(k) {
                    let j = choose|j: int| 0 <= j < n && old_map.spec_key(j) == k;
                    assert(self.pipelines@.contains_key(self.pipelines.spec_key(j)));
                }
            }
            assert forall|k: Seq<char>| #[trigger] self@.pipelines.contains_key(k) implies self@.pipelines[k] == target.pipelines[k] by {
                let j = choose|j: int| 0 <= j < n && self.pipelines.spec_key(j) == k;
                assert(self.pipelines@.contains_key(self.pipelines.spec_key(j)));
                assert(old_map@.contains_key(old_map.spec_key(j)));
            }
            assert(self@.pipelines =~= target.pipelines);
        }
    }

    /// Builds the manager from a manifest whose pipelines were read from disk.
    /// Each entry is a manifest entry (the pipeline's key and format) with the
    /// pipeline read from its file, or `None` where the file was missing or
    /// could not be read. Missing pipelines are left out and make the manifest
    /// dirty, so that it is rewritten without them; a manifest converted from
    /// the old list-of-paths form is dirty too. Each pipeline takes the format
    /// that the manifest gives.
    pub fn from_loaded(
        loaded: Vec<(String, SerializationFormat, Option<Pipeline>)>,
        converted_from_legacy: bool,
    ) -> (m: Self)
        ensures
            m@.pipelines == loaded_pipelines(loaded_view(loaded@)),
            m@.dirty == (converted_from_legacy || any_missing(loaded_view(loaded@))),
            m@.to_remove == Seq::<(Seq<char>, SerializationFormat)>::empty(),
            m.pipeline_entries().keys_sorted(),
    {
        let mut m = PipelineManager::new();
        let ghost all = loaded_view(loaded@);
        let n = loaded.len();
        let mut rest = loaded;
        let mut missing = false;
        let mut i: usize = 0;
        proof {
            assert(all.subrange(0, n as int) =~= all);
            assert(all.subrange(0, 0) =~= Seq::<(Seq<char>, SerializationFormat, Option<PipelineView>)>::empty());
            assert(m@.pipelines =~= loaded_pipelines(all.subrange(0, 0)));
        }
        while i < n
            invariant
                n == all.len(),
                i <= n,
                loaded_view(rest@) == all.subrange(i as int, n as int),
                m@.pipelines == loaded_pipelines(all.subrange(0, i as int)),
                missing == any_missing(all.subrange(0, i as int)),
                m@.to_remove == Seq::<(Seq<char>, SerializationFormat)>::empty(),
                !m@.dirty,
                m.pipelines.keys_sorted(),
            decreases n - i,
        {
            proof {
                assert(all.subrange(0, i as int + 1).drop_last() =~= all.subrange(0, i as int));
                assert(loaded_view(rest@)[0] == all[i as int]);
                assert(all.subrange(0, i as int + 1).last() == all[i as int]);
            }
            let ghost old_rest = rest@;
            assert(loaded_view(old_rest).len() == old_rest.len());
            let (key, format, pipeline) = rest.remove(0);
            proof {
                assert(rest@ =~= old_rest.subrange(1, old_rest.len() as int));
                assert(loaded_view(rest@) =~= loaded_view(old_rest).subrange(1, old_rest.len() as int));
                assert(loaded_view(rest@) =~= all.subrange(i as int + 1, n as int));
            }
            match pipeline {
                Some(mut p) => {
                    p.serialization_format = format;
                    let ghost pv = p@;
                    m.pipelines.insert_sorted(key, p);
                },
                None => {
                    missing = true;
                },
            }
            i = i + 1;
            proof {
                let pre = all.subrange(0, i as int);
                assert(pre.drop_last() =~= all.subrange(0, i as int - 1));
                if all[i as int - 1].2 is None {
                    assert(!any_missing(all.subrange(0, i as int - 1)) ==> any_missing(pre) == true) by {
                        assert(pre[i as int - 1].2 is None);
                    }
                }
                assert(m@.pipelines =~= loaded_pipelines(pre));
            }
        }
        proof {
            assert(all.subrange(0, n as int) =~= all);
        }
        m.dirty = converted_from_legacy || missing;
        m
    }
}

/// Whether two paths are equal.
pub fn filesystem_path_eq(a: &FilesystemPath, b: &FilesystemPath) -> (r: bool)
    ensures
        r == (a@ == b@),
{
    a.name == b.name && a.path == b.path
}

/// Whether two destination maps are equal.
pub fn destinations_eq(a: &StringMap<FilesystemPath>, b: &StringMap<FilesystemPath>) -> (r: bool)
    ensures
        r == (destinations_view(*a) == destinations_view(*b)),
{
    map_eq_by::<FilesystemPath, FilesystemPathView, _>(
        a,
        b,
        filesystem_path_eq,
        Ghost(|f: FilesystemPath| f@),
    )
}

/// Whether two source maps are equal.
pub fn sources_eq(a: &StringMap<StringMap<FilesystemPath>>, b: &StringMap<StringMap<FilesystemPath>>) -> (r: bool)
    ensures
        r == (sources_view(*a) == sources_view(*b)),
{
    map_eq_by::<StringMap<FilesystemPath>, Map<Seq<char>, FilesystemPathView>, _>(
        a,
        b,
        destinations_eq,
        Ghost(|d: StringMap<FilesystemPath>| destinations_view(d)),
    )
}

impl Pipeline {
    /// Whether two pipelines have the same name and the same sources; the
    /// format and the changed mark are not compared.
    pub fn same_content(&self, other: &Pipeline) -> (r: bool)
        ensures
            r == (pipeline_content(self@) == pipeline_content(other@)),
    {
        self.name == other.name && sources_eq(&self.source_destinations, &other.source_destinations)
    }
}

impl PipelineManager {
    /// Whether two managers hold pipelines of the same names with the same
    /// content; formats, changed marks and pending deletions are not compared.
    pub fn same_content(&self, other: &PipelineManager) -> (r: bool)
        ensures
            r == (manager_content(self@) == manager_content(other@)),
    {
        let r = map_eq_by::<Pipeline, (Seq<char>, Map<Seq<char>, Map<Seq<char>, FilesystemPathView>>), _>(
            &self.pipelines,
            &other.pipelines,
            Pipeline::same_content,
            Ghost(|p: Pipeline| pipeline_content(p@)),
        );
        proof {
            assert(manager_content(self@) =~= self.pipelines@.map_values(|p: Pipeline| pipeline_content(p@)));
            assert(manager_content(other@) =~= other.pipelines@.map_values(|p: Pipeline| pipeline_content(p@)));
        }
        r
    }
}

/// Creating a pipeline under a new name and then removing it succeeds both
/// times and leaves the pipelines exactly as they were.
pub proof fn law_add_then_remove_pipeline(v: PipelineManagerView, name: Seq<char>, sf: SerializationFormat)
    requires
        !v.pipelines.contains_key(name),
    ensures
        add_pipeline_spec(v, name, sf).1 is Ok,
        remove_pipeline_spec(add_pipeline_spec(v, name, sf).0, name).1 is Ok,
        remove_pipeline_spec(add_pipeline_spec(v, name, sf).0, name).0.pipelines == v.pipelines,
{
    assert(v.pipelines.insert(name, PipelineView { name, sources: Map::empty(), format: sf, dirty: true }).remove(name) =~= v.pipelines);
}

/// Adding a new source to a pipeline and then removing it succeeds both times
/// and leaves the content of every pipeline as it was.
pub proof fn law_add_then_remove_source(v: PipelineManagerView, name: Seq<char>, source: Seq<char>)
    requires
        v.pipelines.contains_key(name),
        !v.pipelines[name].sources.contains_key(source),
    ensures
        add_source_spec(v, name, source).1 is Ok,
        remove_source_spec(add_source_spec(v, name, source).0, name, source).1 is Ok,
        manager_content(remove_source_spec(add_source_spec(v, name, source).0, name, source).0)
            == manager_content(v),
{
    let after = remove_source_spec(add_source_spec(v, name, source).0, name, source).0;
    let p = v.pipelines[name];
    assert(p.sources.insert(source, Map::empty()).remove(source) =~= p.sources);
    assert(manager_content(after) =~= manager_content(v));
}

/// Adding a new destination to a source and then removing it succeeds both
/// times and leaves the content of every pipeline as it was.
pub proof fn law_add_then_remove_destination(
    v: PipelineManagerView,
    name: Seq<char>,
    source: Seq<char>,
    key: Seq<char>,
    dest: FilesystemPathView,
)
    requires
        v.pipelines.contains_key(name),
        v.pipelines[name].sources.contains_key(source),
        !v.pipelines[name].sources[source].contains_key(key),
    ensures
        add_destination_spec(v, name, source, key, dest).1 is Ok,
        remove_destination_spec(add_destination_spec(v, name, source, key, dest).0, name, source, key).1 is Ok,
        manager_content(
            remove_destination_spec(add_destination_spec(v, name, source, key, dest).0, name, source, key).0,
        ) == manager_content(v),
{
    let after = remove_destination_spec(add_destination_spec(v, name, source, key, dest).0, name, source, key).0;
    let p = v.pipelines[name];
    assert(p.sources[source].insert(key, dest).remove(key) =~= p.sources[source]);
    assert(p.sources.insert(source, p.sources[source].insert(key, dest)).insert(source, p.sources[source]) =~= p.sources);
    assert(manager_content(after) =~= manager_content(v));
}

/// A destination that was added can be read back from its pipeline and
/// source, whichever of the two ways of adding it was used.
pub proof fn law_destination_read_after_write(
    v: PipelineManagerView,
    name: Seq<char>,
    source: Seq<char>,
    key: Seq<char>,
    dest: FilesystemPathView,
)
    ensures
        add_destination_rf_spec(v, name, source, key, dest).pipelines[name].sources[source][key] == dest,
        add_destination_spec(v, name, source, key, dest).1 is Ok ==> add_destination_spec(
            v,
            name,
            source,
            key,
            dest,
        ).0.pipelines[name].sources[source][key] == dest,
{
}

/// A refused operation changes nothing.
pub proof fn law_refusal_changes_nothing(
    v: PipelineManagerView,
    name: Seq<char>,
    source: Seq<char>,
    key: Seq<char>,
    dest: FilesystemPathView,
    sf: SerializationFormat,
)
    ensures
        add_pipeline_spec(v, name, sf).1 is Err ==> add_pipeline_spec(v, name, sf).0 == v,
        remove_pipeline_spec(v, name).1 is Err ==> remove_pipeline_spec(v, name).0 == v,
        set_serialization_spec(v, name, sf).1 is Err ==> set_serialization_spec(v, name, sf).0 == v,
        add_source_spec(v, name, source).1 is Err ==> add_source_spec(v, name, source).0 == v,
        remove_source_spec(v, name, source).1 is Err ==> remove_source_spec(v, name, source).0 == v,
        add_destination_spec(v, name, source, key, dest).1 is Err ==> add_destination_spec(v, name, source, key, dest).0 == v,
        remove_destination_spec(v, name, source, key).1 is Err ==> remove_destination_spec(v, name, source, key).0 == v,
{
}

/// Every change that adds something marks the changed pipeline and the
/// manifest as changed.
pub proof fn law_additions_mark_dirty(
    v: PipelineManagerView,
    name: Seq<char>,
    source: Seq<char>,
    key: Seq<char>,
    dest: FilesystemPathView,
    sf: SerializationFormat,
)
    ensures
        add_pipeline_spec(v, name, sf).1 is Ok ==> add_pipeline_spec(v, name, sf).0.dirty
            && add_pipeline_spec(v, name, sf).0.pipelines[name].dirty,
        add_source_spec(v, name, source).1 is Ok ==> add_source_spec(v, name, source).0.dirty
            && add_source_spec(v, name, source).0.pipelines[name].dirty,
        add_destination_spec(v, name, source, key, dest).1 is Ok ==> add_destination_spec(v, name, source, key, dest).0.dirty
            && add_destination_spec(v, name, source, key, dest).0.pipelines[name].dirty,
        add_destination_rf_spec(v, name, source, key, dest).dirty
            && add_destination_rf_spec(v, name, source, key, dest).pipelines[name].dirty,
{
}

} // verus!
