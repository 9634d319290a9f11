use yy_boss::{FilesystemPath, FolderDirtyState, FolderGraph, FolderGraphError, Resource, Vfs, YypFolder};

fn assert_empty_folder(f: &FolderGraph, name: &str, parent: &str) {
    assert_eq!(f.name, name);
    assert_eq!(f.path_to_parent.as_deref(), Some(parent));
    assert_eq!(f.order, 0);
    assert!(f.tags.is_empty());
    assert!(f.folders.is_empty());
    assert!(f.files.is_empty());
}

fn marks_are(fgm: &Vfs, serialize: &[(&str, FolderDirtyState)], remove: &[(&str, FolderDirtyState)]) {
    let s = fgm.folders_to_serialize();
    assert_eq!(s.len(), serialize.len());
    for (k, v) in serialize {
        assert_eq!(s.get(k), Some(v));
    }
    let r = fgm.folders_to_remove();
    assert_eq!(r.len(), remove.len());
    for (k, v) in remove {
        assert_eq!(r.get(k), Some(v));
    }
}

#[test]
fn folder_manipulations() {
    let mut fgm = Vfs::new("project");
    let new_folder = fgm.new_folder_end(&Vfs::root_folder(), "Sprites").unwrap();

    let root = fgm.get_root_folder();
    assert_eq!(root.name, "folders");
    assert_eq!(root.order, 0);
    assert_eq!(root.path_to_parent, None);
    assert!(root.files.is_empty());
    assert!(root.tags.is_empty());
    assert_eq!(root.folders.len(), 1);
    assert_empty_folder(&root.folders[0], "Sprites", "folders");
    assert_eq!(fgm.root_resource().name, "project");
    assert_eq!(fgm.root_resource().path, "project.yyp");
    marks_are(&fgm, &[("folders/Sprites.yy", FolderDirtyState::Lifetime)], &[]);
    assert!(fgm.resource_names.inner().is_empty());

    fgm.remove_folder(&new_folder.path).unwrap();
    assert!(fgm.get_root_folder().folders.is_empty());
    marks_are(&fgm, &[], &[]);

    // bit of nesting...
    let new_folder = fgm.new_folder_end(&Vfs::root_folder(), "Sprites").unwrap();
    let subfolder = fgm.new_folder_end(&new_folder, "Npcs").unwrap();
    marks_are(
        &fgm,
        &[
            ("folders/Sprites.yy", FolderDirtyState::Lifetime),
            ("folders/Sprites/Npcs.yy", FolderDirtyState::Lifetime),
        ],
        &[],
    );
    let root = fgm.get_root_folder();
    assert_eq!(root.folders.len(), 1);
    let sprites = &root.folders[0];
    assert_eq!(sprites.name, "Sprites");
    assert_eq!(sprites.path_to_parent.as_deref(), Some("folders"));
    assert_eq!(sprites.order, 0);
    assert!(sprites.files.is_empty());
    assert_eq!(sprites.folders.len(), 1);
    assert_empty_folder(&sprites.folders[0], "Npcs", "folders/Sprites.yy");

    // removal test...
    assert_eq!(fgm.remove_folder(&new_folder.path), Err(FolderGraphError::CannotRemoveFolder));
    fgm.remove_folder(&subfolder.path).unwrap();
    fgm.remove_folder(&new_folder.path).unwrap();
    marks_are(&fgm, &[], &[]);

    // add and then check removal...
    let new_folder = fgm.new_folder_end(&Vfs::root_folder(), "Sprites").unwrap();
    let subfolder = fgm.new_folder_end(&new_folder, "Npcs").unwrap();

    let mut dummy0 = vec![];
    let mut dummy1 = vec![];
    fgm.serialize(&mut dummy0, &mut dummy1);

    assert_eq!(dummy0.len(), 2);
    assert!(dummy0.contains(&YypFolder {
        folder_path: "folders/Sprites.yy".to_string(),
        order: 0,
        name: "Sprites".to_string(),
        tags: vec![],
    }));
    assert!(dummy0.contains(&YypFolder {
        folder_path: "folders/Sprites/Npcs.yy".to_string(),
        order: 0,
        name: "Npcs".to_string(),
        tags: vec![],
    }));
    assert!(dummy1.is_empty());

    fgm.remove_folder(&subfolder.path).unwrap();
    fgm.remove_folder(&new_folder.path).unwrap();
    marks_are(
        &fgm,
        &[],
        &[
            ("folders/Sprites.yy", FolderDirtyState::Lifetime),
            ("folders/Sprites/Npcs.yy", FolderDirtyState::Lifetime),
        ],
    );
}

#[test]
fn missing_parent_and_duplicates_are_refused() {
    let mut fgm = Vfs::new("project");
    let parent = yy_boss::ViewPath { name: "Nope".to_string(), path: "folders/Nope.yy".to_string() };
    assert_eq!(
        fgm.new_folder_end(&parent, "Sprites"),
        Err(FolderGraphError::PathNotFound("folders/Nope.yy".to_string()))
    );
    fgm.new_folder_end(&Vfs::root_folder(), "Sprites").unwrap();
    assert_eq!(
        fgm.new_folder_end(&Vfs::root_folder(), "Sprites"),
        Err(FolderGraphError::FolderAlreadyPresent)
    );
    assert_eq!(
        fgm.remove_folder("folders/Nope.yy"),
        Err(FolderGraphError::PathNotFound("folders/Nope.yy".to_string()))
    );
}

#[test]
fn root_folder_cannot_be_removed() {
    let mut fgm = Vfs::new("project");
    assert_eq!(fgm.remove_folder("folders"), Err(FolderGraphError::CannotRemoveRootFolder));
    fgm.new_folder_end(&Vfs::root_folder(), "Sprites").unwrap();
    assert_eq!(fgm.remove_folder("folders"), Err(FolderGraphError::CannotRemoveFolder));
}

#[test]
fn orders_follow_the_last_subfolder() {
    let mut fgm = Vfs::new("project");
    fgm.new_folder_end(&Vfs::root_folder(), "A").unwrap();
    fgm.new_folder_end(&Vfs::root_folder(), "B").unwrap();
    fgm.new_folder_end(&Vfs::root_folder(), "C").unwrap();
    let orders: Vec<usize> = fgm.get_root_folder().folders.iter().map(|f| f.order).collect();
    assert_eq!(orders, vec![0, 1, 2]);
}

#[test]
fn resources_live_in_folders() {
    let mut fgm = Vfs::new("project");
    let sprites = fgm.new_folder_end(&Vfs::root_folder(), "Sprites").unwrap();
    fgm.new_folder_end(&sprites, "Npcs").unwrap();
    fgm.new_resource_end("spr_player", Resource::Sprite, "folders/Sprites.yy").unwrap();
    assert!(fgm.resource_exists("spr_player"));
    assert_eq!(fgm.get_resource_type("spr_player"), Some(Resource::Sprite));
    let found = fgm.get_folder_by_fname("spr_player").unwrap();
    assert_eq!(found.name, "Sprites");
    assert_eq!(
        found.files.inner()[0],
        FilesystemPath {
            name: "spr_player".to_string(),
            path: "sprites/spr_player/spr_player.yy".to_string()
        }
    );
    let desc = fgm.resource_names.get("spr_player").unwrap();
    assert_eq!(desc.order, 1);
    assert_eq!(desc.parent_location, "folders/Sprites.yy");

    // a file can sit at the root, whose location is the project file's
    fgm.load_in_file("scr_main", Resource::Script, "project.yyp", 7).unwrap();
    assert_eq!(fgm.get_root_folder().files.inner().len(), 1);
    assert_eq!(
        fgm.load_in_file("scr_other", Resource::Script, "folders/Nope.yy", 0),
        Err(FolderGraphError::PathNotFound("folders/Nope.yy".to_string()))
    );

    let mut folders = vec![];
    let mut resources = vec![];
    fgm.serialize(&mut folders, &mut resources);
    assert_eq!(resources.len(), 1);
    assert_eq!(resources[0].id.name, "spr_player");
    assert_eq!(resources[0].order, 1);

    fgm.remove_resource("spr_player");
    assert!(!fgm.resource_exists("spr_player"));
    assert!(fgm.get_folder_by_fname("spr_player").is_err());
    let mut resources = vec![yy_boss::YypResource {
        id: FilesystemPath::new("sprites", "spr_player"),
        order: 1,
    }];
    fgm.serialize(&mut folders, &mut resources);
    assert!(resources.is_empty());
}

#[test]
fn folders_load_from_entries() {
    let mut fgm = Vfs::new("project");
    let entries = vec![
        YypFolder {
            folder_path: "folders/Sprites/Npcs.yy".to_string(),
            order: 3,
            name: "Npcs".to_string(),
            tags: vec!["t".to_string()],
        },
        YypFolder {
            folder_path: "folders/Sprites.yy".to_string(),
            order: 2,
            name: "Sprites".to_string(),
            tags: vec![],
        },
    ];
    fgm.load_in_folders(&entries);
    let root = fgm.get_root_folder();
    assert_eq!(root.folders.len(), 1);
    let sprites = &root.folders[0];
    assert_eq!(sprites.name, "Sprites");
    assert_eq!(sprites.order, 2);
    assert_eq!(sprites.path_to_parent.as_deref(), Some("folders"));
    let npcs = &sprites.folders[0];
    assert_eq!(npcs.name, "Npcs");
    assert_eq!(npcs.order, 3);
    assert_eq!(npcs.tags, vec!["t".to_string()]);
    assert_eq!(npcs.path_to_parent.as_deref(), Some("folders/Sprites.yy"));
    assert_eq!(npcs.view_path_location(), "folders/Sprites/Npcs.yy");
    let found = Vfs::get_folder(root, "folders/Sprites/Npcs.yy", "folders").unwrap();
    assert_eq!(found.name, "Npcs");
    assert!(Vfs::get_folder(root, "folders/Npcs.yy", "folders").is_none());
    marks_are(&fgm, &[], &[]);
}

#[test]
fn new_members_come_after_every_member() {
    let mut fgm = Vfs::new("project");
    let sprites = fgm.new_folder_end(&Vfs::root_folder(), "Sprites").unwrap();
    fgm.load_in_file("spr_a", Resource::Sprite, "folders/Sprites.yy", 5).unwrap();
    let sub = fgm.new_folder_end(&sprites, "Sub").unwrap();
    let folder = fgm.get_folder_by_fname("spr_a").unwrap();
    assert_eq!(folder.folders[0].order, 6);
    assert_eq!(sub.path, "folders/Sprites/Sub.yy");
    fgm.new_resource_end("spr_b", Resource::Sprite, "folders/Sprites.yy").unwrap();
    assert_eq!(fgm.resource_names.get("spr_b").unwrap().order, 7);
    assert!(fgm.order_fits_at("folders/Sprites.yy", "folders"));
    assert!(fgm.order_fits_at("folders/Nope.yy", "folders"));
}
