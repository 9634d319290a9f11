use yy_boss::resource_handler::{serialization_plan, YyResourceHandler, YyResourceHandlerError};
use yy_boss::DirtyState;

#[test]
fn crazy() {}

fn no_cleanup(_: &u32) -> Vec<String> {
    vec![]
}

#[test]
fn set_get_and_remove() {
    let mut h: YyResourceHandler<u32, String> = YyResourceHandler::new();
    assert!(h.set("spr_a".to_string(), 1, "png".to_string(), no_cleanup).is_none());
    let d = h.get("spr_a").unwrap();
    assert_eq!(d.yy_resource, 1);
    assert_eq!(d.associated_data.as_deref(), Some("png"));

    let drain = h.take_pending();
    assert_eq!(drain.resources_to_reserialize, vec![("spr_a".to_string(), DirtyState::New)]);

    // a replacement records the old resource's files for cleanup
    let old = h
        .set("spr_a".to_string(), 2, "png2".to_string(), |old: &u32| vec![format!("frame{}.png", old)])
        .unwrap();
    assert_eq!(old.yy_resource, 1);
    let files = h.take_pending();
    assert_eq!(files.resources_to_reserialize, vec![("spr_a".to_string(), DirtyState::Edit)]);
    assert_eq!(
        files.associated_values,
        Some(vec![("spr_a".to_string(), vec!["frame1.png".to_string()])])
    );

    assert_eq!(h.remove("spr_a"), Some((2, Some("png2".to_string()))));
    assert!(h.get("spr_a").is_none());
    assert_eq!(h.remove("spr_a"), None);
    let drain = h.take_pending();
    assert_eq!(drain.resources_to_remove, vec![("spr_a".to_string(), DirtyState::Edit)]);
}

#[test]
fn startup_resources_are_not_marked() {
    let mut h: YyResourceHandler<u32, String> = YyResourceHandler::new();
    h.load_on_startup("scr_a".to_string(), 7);
    assert!(h.get("scr_a").unwrap().associated_data.is_none());
    let drain = h.take_pending();
    assert!(drain.resources_to_reserialize.is_empty());
    assert!(h.set_associated_data("scr_a", "gml".to_string()).is_ok());
    assert_eq!(h.get("scr_a").unwrap().associated_data.as_deref(), Some("gml"));
    assert!(h.unload_resource_associated_data("scr_a").is_ok());
    assert!(h.get("scr_a").unwrap().associated_data.is_none());
    assert!(matches!(
        h.set_associated_data("nope", "x".to_string()),
        Err(YyResourceHandlerError::ResourceNotFound)
    ));
    assert!(matches!(
        h.unload_resource_associated_data("nope"),
        Err(YyResourceHandlerError::ResourceNotFound)
    ));
}

#[test]
fn when_data_must_be_loaded() {
    let mut h: YyResourceHandler<u32, String> = YyResourceHandler::new();
    assert!(h.must_load_associated_data("scr_a", false));
    h.load_on_startup("scr_a".to_string(), 7);
    assert!(h.must_load_associated_data("scr_a", false));
    h.set_associated_data("scr_a", "gml".to_string()).unwrap();
    assert!(!h.must_load_associated_data("scr_a", false));
    assert!(h.must_load_associated_data("scr_a", true));
}

#[test]
fn plan_of_a_save() {
    let mut h: YyResourceHandler<u32, String> = YyResourceHandler::new();
    h.load_on_startup("spr_old".to_string(), 1);
    h.load_on_startup("spr_kept".to_string(), 2);
    h.set("spr_new".to_string(), 3, "png".to_string(), no_cleanup);
    h.set("spr_kept".to_string(), 4, "png".to_string(), |_: &u32| vec!["frame.png".to_string(), "layers".to_string()]);
    h.remove("spr_old");
    let drain = h.take_pending();
    let plan = serialization_plan(&h, &drain, "sprites");
    assert_eq!(plan.directories_to_remove, vec!["sprites/spr_old".to_string()]);
    assert_eq!(
        plan.files_to_write,
        vec![
            ("spr_new".to_string(), "sprites/spr_new/spr_new.yy".to_string()),
            ("spr_kept".to_string(), "sprites/spr_kept/spr_kept.yy".to_string()),
        ]
    );
    assert_eq!(
        plan.files_to_remove,
        vec!["sprites/spr_kept/frame.png".to_string(), "sprites/spr_kept/layers".to_string()]
    );
    // both written resources have their data loaded, which is written too
    assert_eq!(
        plan.data_to_write,
        vec![
            ("spr_new".to_string(), "sprites/spr_new".to_string()),
            ("spr_kept".to_string(), "sprites/spr_kept".to_string()),
        ]
    );
}

#[test]
fn plan_writes_only_loaded_data() {
    let mut h: YyResourceHandler<u32, String> = YyResourceHandler::new();
    h.load_on_startup("scr_a".to_string(), 1);
    h.set("scr_b".to_string(), 2, "code".to_string(), no_cleanup);
    let drain = h.take_pending();
    let plan = serialization_plan(&h, &drain, "scripts");
    assert_eq!(plan.data_to_write, vec![("scr_b".to_string(), "scripts/scr_b".to_string())]);
    assert!(plan.files_to_write.iter().all(|(n, _)| n == "scr_b"));
}
