use yy_boss::pipelines::{Pipeline, PipelineError, PipelineManager};
use yy_boss::{FilesystemPath, SerializationFormat};
use yy_boss::text_order::text_less_exec;

fn fpath(name: &str, path: &str) -> FilesystemPath {
    FilesystemPath {
        name: name.to_string(),
        path: path.to_string(),
    }
}

#[test]
fn trivial() {
    let mut pipelines = PipelineManager::new();
    pipelines
        .add_pipeline("sprites".to_string(), SerializationFormat::Json)
        .unwrap();
    pipelines
        .add_source_to_pipeline("sprites", "spr_source_sprite".to_string())
        .unwrap();
    pipelines
        .add_destination_to_source(
            "sprites",
            "spr_source_sprite",
            "spr_source_sprite".to_string(),
            fpath("spr_destination", "sprites/spr_destination/spr_destination.yy"),
        )
        .unwrap();
    let our_pipeline = pipelines.pipeline("sprites").unwrap();

    // the same pipeline, built step by step
    let mut proof = PipelineManager::new();
    proof.add_destination_to_source_rf(
        "sprites".to_string(),
        "spr_source_sprite".to_string(),
        "spr_source_sprite".to_string(),
        fpath("spr_destination", "sprites/spr_destination/spr_destination.yy"),
    );
    let mut proof_pipeline = Pipeline::new("sprites".to_string(), SerializationFormat::Json);
    proof_pipeline.source_destinations = {
        let p = proof.pipeline("sprites").unwrap();
        let mut sd = yy_boss::StringMap::new();
        let d = p.destinations("spr_source_sprite").unwrap();
        let mut dd = yy_boss::StringMap::new();
        dd.insert(
            "spr_source_sprite".to_string(),
            d.get("spr_source_sprite").unwrap().duplicate(),
        );
        sd.insert("spr_source_sprite".to_string(), dd);
        sd
    };

    assert!(proof_pipeline.same_content(our_pipeline));
}

#[test]
fn errors() {
    let mut pipelines = PipelineManager::new();

    let destination = fpath("spr_destination", "sprites/spr_destination/spr_destination.yy");

    assert_eq!(
        pipelines.add_source_to_pipeline("sprites", "spr_source".to_string()),
        Err(PipelineError::PipelineDoesNotExist)
    );
    assert_eq!(
        pipelines.add_destination_to_source(
            "sprites",
            "spr_source",
            "spr_source".to_string(),
            destination.clone()
        ),
        Err(PipelineError::PipelineDoesNotExist)
    );

    pipelines
        .add_pipeline("sprites".to_string(), SerializationFormat::Json)
        .unwrap();
    assert_eq!(
        pipelines.add_destination_to_source(
            "sprites",
            "spr_source",
            "spr_source".to_string(),
            destination.clone()
        ),
        Err(PipelineError::PipelineSourceDoesNotExist)
    );

    pipelines
        .add_source_to_pipeline("sprites", "spr_source".to_string())
        .unwrap();

    assert_eq!(
        pipelines.add_pipeline("sprites".to_string(), SerializationFormat::Json),
        Err(PipelineError::PipelineAlreadyExists)
    );

    assert_eq!(
        pipelines.add_source_to_pipeline("sprites", "spr_source".to_string()),
        Err(PipelineError::PipelineSourceAlreadyExists)
    );

    pipelines
        .add_destination_to_source(
            "sprites",
            "spr_source",
            "spr_source".to_string(),
            destination.clone(),
        )
        .unwrap();
    assert_eq!(
        pipelines.add_destination_to_source(
            "sprites",
            "spr_source",
            "spr_source".to_string(),
            destination
        ),
        Err(PipelineError::PipelineDestinationAlreadyExistsOnSource)
    );

    pipelines
        .remove_destination_from_source("sprites", "spr_source", "spr_source")
        .unwrap();

    assert_eq!(
        pipelines.remove_destination_from_source("sprites", "spr_source", "spr_source"),
        Err(PipelineError::PipelineDestinationDoesNotExist)
    );
}

fn copy_manager(p: &PipelineManager) -> PipelineManager {
    let mut out = PipelineManager::new();
    let entries = p.manifest_entries();
    for (name, format) in entries {
        let pl = p.pipeline(&name).unwrap();
        out.add_pipeline(name.clone(), format).unwrap();
        let sources = &pl.source_destinations;
        for i in 0..sources.len() {
            let source = sources.key_at(i).clone();
            out.add_source_to_pipeline(&name, source.clone()).unwrap();
            let dests = sources.value_at(i);
            for j in 0..dests.len() {
                out.add_destination_to_source(
                    &name,
                    &source,
                    dests.key_at(j).clone(),
                    dests.value_at(j).duplicate(),
                )
                .unwrap();
            }
        }
    }
    out
}

#[test]
fn symmetry() {
    fn harness(
        mut pipeline: PipelineManager,
        add_function: impl Fn(&mut PipelineManager) -> Result<(), PipelineError>,
        remove_function: impl Fn(&mut PipelineManager) -> Result<(), PipelineError>,
    ) -> PipelineManager {
        let mut before_clone = copy_manager(&pipeline);

        add_function(&mut pipeline).unwrap();
        assert!(!before_clone.same_content(&pipeline));

        remove_function(&mut pipeline).unwrap();
        assert!(before_clone.same_content(&pipeline));

        add_function(&mut before_clone).unwrap();
        before_clone
    }

    let p = harness(
        PipelineManager::new(),
        |p| p.add_pipeline("sprites".to_string(), SerializationFormat::Json),
        |p| p.remove_pipeline("sprites"),
    );

    let p = harness(
        p,
        |p| p.add_source_to_pipeline("sprites", "spr_source".to_string()),
        |p| p.remove_source_from_pipeline("sprites", "spr_source"),
    );

    let destination0c = fpath("spr_destination", "sprites/spr_destination0/spr_destination0.yy");
    let destination1c = fpath("spr_destination", "sprites/spr_destination1/spr_destination1.yy");

    harness(
        p,
        move |p| {
            p.add_destination_to_source(
                "sprites",
                "spr_source",
                "spr_destination0".to_string(),
                destination0c.clone(),
            )
            .unwrap();
            p.add_destination_to_source(
                "sprites",
                "spr_source",
                "spr_destination1".to_string(),
                destination1c.clone(),
            )
        },
        |p| {
            p.remove_destination_from_source("sprites", "spr_source", "spr_destination0")
                .unwrap();
            p.remove_destination_from_source("sprites", "spr_source", "spr_destination1")
        },
    );
}

#[test]
fn dirty() {
    let mut p = PipelineManager::new();
    p.add_pipeline("s".to_string(), SerializationFormat::Json).unwrap();
    assert!(p.is_dirty());
    assert!(p.pipeline("s").unwrap().is_dirty());

    p.mark_saved();

    p.add_source_to_pipeline("s", "so".to_string()).unwrap();
    assert!(p.is_dirty());
    assert!(p.pipeline("s").unwrap().is_dirty());

    p.mark_saved();

    p.add_destination_to_source("s", "so", "d".to_string(), Default::default())
        .unwrap();
    assert!(p.is_dirty());
    assert!(p.pipeline("s").unwrap().is_dirty());

    p.mark_saved();

    p.add_destination_to_source_rf(
        "new".to_string(),
        "so".to_string(),
        "d".to_string(),
        Default::default(),
    );
    assert!(p.is_dirty());
    assert!(p.pipeline("s").unwrap().is_dirty() == false);
    assert!(p.pipeline("new").unwrap().is_dirty());
}

#[test]
fn pipeline_manifest_from_loaded() {
    let mut a = Pipeline::new("a".to_string(), SerializationFormat::Json);
    a.dirty = false;
    let loaded = vec![
        ("a".to_string(), SerializationFormat::Yaml, Some(a)),
        ("b".to_string(), SerializationFormat::Json, None),
    ];
    let m = PipelineManager::from_loaded(loaded, false);
    assert!(m.is_dirty());
    assert_eq!(
        m.pipeline("a").unwrap().serialization_format,
        SerializationFormat::Yaml
    );
    assert!(m.pipeline("b").is_none());

    let m = PipelineManager::from_loaded(Vec::new(), false);
    assert!(!m.is_dirty());
    let m = PipelineManager::from_loaded(Vec::new(), true);
    assert!(m.is_dirty());
}

#[test]
fn pipeline_format_change_schedules_old_file() {
    let mut p = PipelineManager::new();
    p.add_pipeline("s".to_string(), SerializationFormat::Json).unwrap();
    p.mark_saved();
    p.set_pipeline_serialization("s", SerializationFormat::Json).unwrap();
    assert!(!p.pipeline("s").unwrap().is_dirty());
    p.set_pipeline_serialization("s", SerializationFormat::Yaml).unwrap();
    assert!(p.pipeline("s").unwrap().is_dirty());
    assert_eq!(
        p.take_pipelines_to_remove(),
        vec![("s".to_string(), SerializationFormat::Json)]
    );
    assert!(p.take_pipelines_to_remove().is_empty());
    assert_eq!(
        p.set_pipeline_serialization("t", SerializationFormat::Yaml),
        Err(PipelineError::PipelineDoesNotExist)
    );
    assert_eq!(p.manifest_entries(), vec![("s".to_string(), SerializationFormat::Yaml)]);
    assert_eq!(p.dirty_pipelines(), vec!["s".to_string()]);
}

#[test]
fn pipeline_error_messages() {
    assert_eq!(
        PipelineError::PipelineDoesNotExist.message(),
        "no pipeline by that name exists"
    );
    assert_eq!(
        PipelineError::PipelineDestinationAlreadyExistsOnSource.message(),
        "pipeline destination already exists on a source by that name"
    );
}

#[test]
fn missing_pipeline_is_made_as_add_pipeline_makes_it() {
    let mut p = PipelineManager::new();
    p.add_destination_to_source_rf(
        "made".to_string(),
        "src".to_string(),
        "dst".to_string(),
        FilesystemPath::new("sprites", "spr_made"),
    );
    let made = p.pipeline("made").unwrap();
    assert_eq!(made.name, "made");
    assert_eq!(made.serialization_format, SerializationFormat::Json);
}

#[test]
fn manifest_lists_pipelines_by_name() {
    let mut p = PipelineManager::new();
    p.add_pipeline("sprites".to_string(), SerializationFormat::Json).unwrap();
    p.add_pipeline("audio".to_string(), SerializationFormat::Yaml).unwrap();
    p.add_pipeline("Zeta".to_string(), SerializationFormat::Json).unwrap();
    p.add_pipeline("audio_extra".to_string(), SerializationFormat::Json).unwrap();
    assert_eq!(
        p.manifest_entries(),
        vec![
            ("Zeta".to_string(), SerializationFormat::Json),
            ("audio".to_string(), SerializationFormat::Yaml),
            ("audio_extra".to_string(), SerializationFormat::Json),
            ("sprites".to_string(), SerializationFormat::Json),
        ]
    );
}

#[test]
fn text_order_matches_str_order() {
    let words = ["", "a", "ab", "b", "B", "é", "z", "aa", "a b"];
    for x in words.iter() {
        for y in words.iter() {
            assert_eq!(text_less_exec(x, y), x < y, "{} {}", x, y);
        }
    }
}

#[test]
fn changed_pipelines_come_by_name() {
    let mut p = PipelineManager::new();
    p.add_pipeline("objects".to_string(), SerializationFormat::Json).unwrap();
    p.add_pipeline("audio".to_string(), SerializationFormat::Json).unwrap();
    p.add_pipeline("maps".to_string(), SerializationFormat::Json).unwrap();
    p.mark_saved();
    assert_eq!(p.dirty_pipelines(), Vec::<String>::new());
    p.add_source_to_pipeline("objects", "obj_a".to_string()).unwrap();
    p.add_source_to_pipeline("audio", "snd_a".to_string()).unwrap();
    assert_eq!(p.dirty_pipelines(), vec!["audio".to_string(), "objects".to_string()]);
}

#[test]
fn pipelines_are_kept_by_name() {
    let mut p = PipelineManager::new();
    p.add_pipeline("sprites".to_string(), SerializationFormat::Json).unwrap();
    p.add_pipeline("audio".to_string(), SerializationFormat::Json).unwrap();
    p.add_pipeline("maps".to_string(), SerializationFormat::Json).unwrap();
    p.add_source_to_pipeline("maps", "zone".to_string()).unwrap();
    p.add_source_to_pipeline("maps", "area".to_string()).unwrap();
    let all = p.pipelines();
    let names: Vec<String> = (0..all.len()).map(|i| all.key_at(i).clone()).collect();
    assert_eq!(names, vec!["audio".to_string(), "maps".to_string(), "sprites".to_string()]);
    let sources = &p.pipeline("maps").unwrap().source_destinations;
    assert_eq!(sources.key_at(0), "area");
    assert_eq!(sources.key_at(1), "zone");
    p.remove_pipeline("maps").unwrap();
    let all = p.pipelines();
    assert_eq!(all.key_at(0), "audio");
    assert_eq!(all.key_at(1), "sprites");
}
