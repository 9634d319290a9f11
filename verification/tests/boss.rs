use yy_boss::sprite_frames::{sprite_frame, SpriteFrame, SpriteKeyframe};
use yy_boss::sprite_geometry::{BBoxMode, Bbox, BboxModeUtility};
use yy_boss::boss::{add_resource, remove_resource, Boss, BossCommand, BossOutput, Removed};
use yy_boss::project::ResourceManipulationError;
use yy_boss::resource_handler::YyResourceHandler;
use yy_boss::{FolderGraphError, Resource, Vfs};

fn no_cleanup(_: &u32) -> Vec<String> {
    Vec::new()
}

#[test]
fn adding_and_removing_a_resource() {
    let mut vfs = Vfs::new("project");
    vfs.new_folder_end(&Vfs::root_folder(), "Sprites").unwrap();
    let mut handler: YyResourceHandler<u32, String> = YyResourceHandler::new();

    let r = add_resource(
        &mut vfs,
        &mut handler,
        Resource::Sprite,
        "spr_player".to_string(),
        "folders/Sprites.yy",
        7,
        "pixels".to_string(),
        no_cleanup,
    );
    assert_eq!(r, Ok(()));
    assert!(vfs.resource_exists("spr_player"));
    assert_eq!(vfs.get_folder_by_fname("spr_player").unwrap().name, "Sprites");
    let held = handler.get("spr_player").unwrap();
    assert_eq!(held.yy_resource, 7);
    assert_eq!(held.associated_data, Some("pixels".to_string()));

    // the name is taken now
    let r = add_resource(
        &mut vfs,
        &mut handler,
        Resource::Script,
        "spr_player".to_string(),
        "folders/Sprites.yy",
        8,
        String::new(),
        no_cleanup,
    );
    assert_eq!(r, Err(ResourceManipulationError::NameCollision(Resource::Sprite)));
    assert_eq!(handler.get("spr_player").unwrap().yy_resource, 7);

    let removed = remove_resource(&mut vfs, &mut handler, "spr_player").unwrap();
    assert_eq!(removed, (7, Some("pixels".to_string())));
    assert!(!vfs.resource_exists("spr_player"));
    assert!(handler.get("spr_player").is_none());
    assert_eq!(
        remove_resource(&mut vfs, &mut handler, "spr_player").err(),
        Some(ResourceManipulationError::InternalError)
    );
}

#[test]
fn adding_a_resource_that_cannot_be() {
    let mut vfs = Vfs::new("project");
    let mut handler: YyResourceHandler<u32, String> = YyResourceHandler::new();
    let r = add_resource(
        &mut vfs,
        &mut handler,
        Resource::Sprite,
        "9lives".to_string(),
        "project.yyp",
        1,
        String::new(),
        no_cleanup,
    );
    assert_eq!(r, Err(ResourceManipulationError::BadName));

    let r = add_resource(
        &mut vfs,
        &mut handler,
        Resource::Sprite,
        "spr_cat".to_string(),
        "folders/Nope.yy",
        1,
        String::new(),
        no_cleanup,
    );
    assert_eq!(
        r,
        Err(ResourceManipulationError::FolderGraphError(FolderGraphError::PathNotFound(
            "folders/Nope.yy".to_string()
        )))
    );
    assert!(handler.get("spr_cat").is_none());
    assert!(!vfs.resource_exists("spr_cat"));

    // a resource at the root of the tree, whose location is the project file's
    let r = add_resource(
        &mut vfs,
        &mut handler,
        Resource::Script,
        "scr_main".to_string(),
        "project.yyp",
        2,
        String::new(),
        no_cleanup,
    );
    assert_eq!(r, Ok(()));
    assert_eq!(vfs.get_resource_type("scr_main"), Some(Resource::Script));
}

#[test]
fn commands_run_against_the_project() {
    let mut boss: Boss<u32, String, u8, String, u16, String> = Boss {
        vfs: Vfs::new("project"),
        sprites: YyResourceHandler::new(),
        scripts: YyResourceHandler::new(),
        objects: YyResourceHandler::new(),
    };
    let out = boss.run_command(BossCommand::CreateFolder {
        parent: Vfs::root_folder(),
        name: "Sprites".to_string(),
    });
    assert!(matches!(out, BossOutput::CreatedFolder(ref vp) if vp.path == "folders/Sprites.yy"));
    add_resource(
        &mut boss.vfs,
        &mut boss.sprites,
        Resource::Sprite,
        "spr_a".to_string(),
        "folders/Sprites.yy",
        9,
        "png".to_string(),
        no_cleanup,
    )
    .unwrap();
    let found = boss.sprites.get("spr_a").unwrap();
    assert_eq!(found.yy_resource, 9);
    assert_eq!(found.associated_data, Some("png".to_string()));

    let out = boss.run_command(BossCommand::ResourceExists {
        resource: Resource::Sprite,
        name: "spr_a".to_string(),
    });
    assert!(matches!(out, BossOutput::Exists(true)));
    let out = boss.run_command(BossCommand::ResourceExists {
        resource: Resource::Object,
        name: "spr_a".to_string(),
    });
    assert!(matches!(out, BossOutput::Exists(false)));

    // a folder with a resource in it is not removed
    let out = boss.run_command(BossCommand::RemoveFolder { folder: "folders/Sprites.yy".to_string() });
    assert!(matches!(out, BossOutput::FolderError(FolderGraphError::CannotRemoveFolder)));

    let out = boss.run_command(BossCommand::RemoveResource {
        resource: Resource::Sprite,
        name: "spr_a".to_string(),
    });
    assert!(matches!(out, BossOutput::Removed(Removed::Sprite(9, Some(ref d))) if d == "png"));
    assert!(!boss.vfs.resource_exists("spr_a"));

    let out = boss.run_command(BossCommand::RemoveResource {
        resource: Resource::Script,
        name: "spr_a".to_string(),
    });
    assert!(matches!(out, BossOutput::ResourceError(ResourceManipulationError::InternalError)));

    let out = boss.run_command(BossCommand::RemoveFolder { folder: "folders/Sprites.yy".to_string() });
    assert!(matches!(out, BossOutput::Done));
}

#[test]
fn add_sprite_to_yyp() {
    let mut vfs = Vfs::new("test_proj");
    let mut sprites: YyResourceHandler<TestSprite, Vec<(String, Vec<u8>)>> = YyResourceHandler::new();
    assert!(sprites.get("spr_test").is_none(), "The sprite we're trying to add is already in the project!");

    let new_view = vfs.new_folder_end(&Vfs::root_folder(), "Sprites").unwrap();
    let single_frame_id = "1df0d96b-d607-46d8-ad4b-144ced21f501".to_string();
    let layer_id = "17463651-1c81-4dea-a381-8f4a7635b32e".to_string();
    let sequence_id = "ab8911a2-4626-42b7-b1a2-3b8d23b6fd3b".to_string();

    // a sprite with one layer, one frame and a full-image bounding box
    let layers = vec![layer_id.clone()];
    let (frame, keyframe, length) = sprite_frame("spr_test", &single_frame_id, &layers, 0, sequence_id.clone());
    let (bbox_mode, bbox) = BboxModeUtility::FullImage.to_bbox((64, 32));
    let sprite = TestSprite {
        name: "spr_test".to_string(),
        parent: new_view.path.clone(),
        layers,
        frames: vec![frame],
        keyframes: vec![keyframe],
        length,
        bbox_mode,
        bbox,
    };
    let png = vec![(single_frame_id.clone(), vec![137u8, 80, 78, 71])];

    add_resource(
        &mut vfs,
        &mut sprites,
        Resource::Sprite,
        "spr_test".to_string(),
        &new_view.path,
        sprite.clone(),
        png.clone(),
        |_: &TestSprite| Vec::new(),
    )
    .unwrap();

    let found = sprites
        .get("spr_test")
        .expect("We didn't add, or couldn't find, the sprite we just tried to add!");
    assert_eq!(found.yy_resource, sprite, "We mangled this sprite in the YypBoss!");
    assert_eq!(found.associated_data, Some(png));

    // the sprite's records, as a new frame makes them
    let frame = &sprite.frames[0];
    assert_eq!(frame.composite_image.frame_id.path, "sprites/spr_test/spr_test.yy");
    assert_eq!(frame.composite_image.frame_id.name, single_frame_id);
    assert_eq!(frame.composite_image.name.as_deref(), Some("composite"));
    assert_eq!(frame.images.len(), 1);
    assert_eq!(frame.images[0].layer_id.as_ref().unwrap().name, layer_id);
    assert_eq!(frame.parent.name, "spr_test");
    assert_eq!(sprite.keyframes[0].id, sequence_id);
    assert_eq!(sprite.keyframes[0].key, 0);
    assert_eq!(sprite.length, 1);
    assert_eq!(sprite.bbox_mode, BBoxMode::FullImage);
    assert_eq!(sprite.bbox, Bbox { top_left: (0, 0), bottom_right: (64, 32) });

    // the project: its folder list and resource list after a save
    let mut folders = vec![];
    let mut resources = vec![];
    vfs.serialize(&mut folders, &mut resources);
    assert_eq!(folders.len(), 1);
    assert_eq!(folders[0].folder_path, "folders/Sprites.yy");
    assert_eq!(folders[0].name, "Sprites");
    assert_eq!(folders[0].order, 0);
    assert_eq!(resources.len(), 1);
    assert_eq!(resources[0].id.name, "spr_test");
    assert_eq!(resources[0].id.path, "sprites/spr_test/spr_test.yy");
    assert_eq!(resources[0].order, 0);
}

#[test]
fn removing_a_folder_with_everything_in_it() {
    let mut boss: Boss<u32, String, u8, String, u16, String> = Boss {
        vfs: Vfs::new("project"),
        sprites: YyResourceHandler::new(),
        scripts: YyResourceHandler::new(),
        objects: YyResourceHandler::new(),
    };
    let top = boss.vfs.new_folder_end(&Vfs::root_folder(), "Things").unwrap();
    let inner = boss.vfs.new_folder_end(&top, "Inner").unwrap();
    boss.vfs.new_folder_end(&Vfs::root_folder(), "Kept").unwrap();
    add_resource(&mut boss.vfs, &mut boss.sprites, Resource::Sprite, "spr_a".to_string(), &top.path, 1, "a".to_string(), no_cleanup)
        .unwrap();
    add_resource(&mut boss.vfs, &mut boss.scripts, Resource::Script, "scr_b".to_string(), &inner.path, 2, "b".to_string(), |_: &u8| Vec::new())
        .unwrap();
    add_resource(&mut boss.vfs, &mut boss.objects, Resource::Object, "obj_c".to_string(), "folders/Kept.yy", 3, "c".to_string(), |_: &u16| Vec::new())
        .unwrap();

    assert_eq!(
        boss.remove_folder_recursive("folders/Nope.yy").err(),
        Some(FolderGraphError::PathNotFound("folders/Nope.yy".to_string()))
    );
    assert_eq!(boss.remove_folder_recursive("folders").err(), Some(FolderGraphError::CannotRemoveRootFolder));

    let removed = boss.remove_folder_recursive(&top.path).unwrap();
    assert_eq!(removed, vec![("spr_a".to_string(), Resource::Sprite), ("scr_b".to_string(), Resource::Script)]);
    assert!(!boss.vfs.resource_exists("spr_a"));
    assert!(!boss.vfs.resource_exists("scr_b"));
    assert!(boss.sprites.get("spr_a").is_none());
    assert!(boss.scripts.get("scr_b").is_none());
    assert!(boss.objects.get("obj_c").is_some());
    assert!(boss.vfs.resource_exists("obj_c"));
    let root = boss.vfs.get_root_folder();
    assert_eq!(root.folders.len(), 1);
    assert_eq!(root.folders[0].name, "Kept");
    // the folders were created since the last save, so nothing is left to remove from the project file
    assert!(boss.vfs.folders_to_remove().get("folders/Things.yy").is_none());
    assert!(boss.vfs.folders_to_serialize().get("folders/Things/Inner.yy").is_none());
}

/// A sprite as these tests hold it: its name, folder, layers, frames and
/// keyframes, sequence length and bounding box.
#[derive(Debug, Clone, PartialEq)]
struct TestSprite {
    name: String,
    parent: String,
    layers: Vec<String>,
    frames: Vec<SpriteFrame>,
    keyframes: Vec<SpriteKeyframe>,
    length: usize,
    bbox_mode: BBoxMode,
    bbox: Bbox,
}
