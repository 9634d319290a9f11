use yy_boss::textures::{default_texture_path, texture_path};
use yy_boss::folders::Files;
use yy_boss::view_paths::{component_paths, join, trim_yy, PathStrExt};
use yy_boss::{
    DirectoryManager, FilesystemPath, Resource, ResourceDescriptor, ResourceNameError, ResourceNames,
    SerializationFormat, StartupError, YypResource,
};

#[test]
fn locations_split_into_folder_names() {
    assert_eq!(trim_yy("folders/Sprites.yy"), "folders/Sprites");
    assert_eq!(trim_yy("a.yy.yy"), "a");
    assert_eq!(trim_yy("plain"), "plain");
    assert_eq!(component_paths("folders"), Vec::<String>::new());
    assert_eq!(component_paths("folders/Sprites.yy"), vec!["Sprites".to_string()]);
    assert_eq!(
        component_paths("folders/Sprites/Npcs.yy"),
        vec!["Sprites".to_string(), "Npcs".to_string()]
    );
    assert_eq!(join("folders", "Sprites"), "folders/Sprites.yy");
    assert_eq!(join("folders/Sprites.yy", "Npcs"), "folders/Sprites/Npcs.yy");
}

#[test]
fn resource_paths() {
    let p = FilesystemPath::new("sprites", "spr_player");
    assert_eq!(p.name, "spr_player");
    assert_eq!(p.path, "sprites/spr_player/spr_player.yy");
    assert_eq!(Resource::Sprite.base_name(), "sprites");
    assert_eq!(Resource::Object.to_string(), "object");
    assert_eq!(Resource::parse_subpath("scripts"), Some(Resource::Script));
    assert_eq!(Resource::parse_subpath("script"), None);
    assert_eq!(SerializationFormat::Json.file_ending(), "json");
    assert_eq!(SerializationFormat::Yaml.file_ending(), "yaml");
}

#[test]
fn directories_of_a_project() {
    let dm = DirectoryManager::new("projects/game/game.yyp").unwrap();
    assert_eq!(dm.yyp(), "projects/game/game.yyp");
    assert_eq!(dm.root_directory(), "projects/game");
    assert_eq!(dm.boss_directory(), "projects/game/.boss");
    assert_eq!(dm.boss_file("pipelines.json"), "projects/game/.boss/pipelines.json");
    assert_eq!(dm.resource_file("sprites"), "projects/game/sprites");
    assert!(matches!(DirectoryManager::new(""), Err(StartupError::BadYypPath { .. })));
    let dm = DirectoryManager::new("game.yyp").unwrap();
    assert_eq!(dm.root_directory(), "");
    assert_eq!(dm.boss_directory(), ".boss");
}

#[test]
fn files_of_a_folder() {
    let mut rn = ResourceNames::new();
    let mut files = Files::with_vec(vec![FilesystemPath::new("sprites", "spr_a")]);
    assert!(files.contains_name("spr_a"));
    assert!(!files.contains_name("spr_b"));
    files.add("spr_b", Resource::Sprite, "folders/Sprites.yy", 3, &mut rn);
    assert_eq!(files.inner().len(), 2);
    assert_eq!(rn.get("spr_b").unwrap().order, 3);

    files.edit_name("spr_b", "spr_c".to_string(), Resource::Sprite, &mut rn);
    assert!(files.contains_name("spr_c"));
    assert!(!files.contains_name("spr_b"));
    assert!(rn.get("spr_b").is_none());
    assert_eq!(rn.get("spr_c").unwrap().parent_location, "folders/Sprites.yy");

    assert_eq!(files.detach("spr_a"), Some(FilesystemPath::new("sprites", "spr_a")));
    assert_eq!(files.detach("spr_a"), None);
    files.remove("spr_c", &mut rn);
    assert!(files.is_empty());
    assert!(rn.get_all().is_empty());
}

#[test]
fn names_are_checked_by_kind() {
    let mut rn = ResourceNames::new();
    rn.insert("obj_a".to_string(), ResourceDescriptor::new(Resource::Object, 0, "project.yyp".to_string()));
    assert_eq!(rn.get_checked("obj_a", Resource::Object).unwrap().order, 0);
    assert_eq!(
        rn.get_checked("obj_a", Resource::Sprite).err(),
        Some(ResourceNameError::BadResourceName { existing_resource: Resource::Object })
    );
    assert_eq!(rn.get_checked("nope", Resource::Sprite).err(), Some(ResourceNameError::NoResourceByThatName));
}

#[test]
fn names_write_the_resource_list() {
    let mut rn = ResourceNames::new();
    rn.load_in_resource("spr_old".to_string(), ResourceDescriptor::new(Resource::Sprite, 1, "project.yyp".to_string()));
    rn.insert("scr_new".to_string(), ResourceDescriptor::new(Resource::Script, 2, "project.yyp".to_string()));
    rn.remove("spr_old");
    assert!(rn.is_consistent());
    let mut list = vec![YypResource { id: FilesystemPath::new("sprites", "spr_old"), order: 1 }];
    rn.serialize(&mut list);
    assert_eq!(list, vec![YypResource { id: FilesystemPath::new("scripts", "scr_new"), order: 2 }]);
}

#[test]
fn directories_from_a_parent() {
    let dm = DirectoryManager::from_parent("a/b.yyp", Some("a".to_string())).unwrap();
    assert_eq!(dm.root_directory(), "a");
    assert_eq!(dm.yyp(), "a/b.yyp");
    assert_eq!(dm.boss_directory(), "a/.boss");
    assert!(matches!(
        DirectoryManager::from_parent("b.yyp", None),
        Err(StartupError::BadYypPath { yyp_filepath, .. }) if yyp_filepath == "b.yyp"
    ));
}

#[test]
fn path_texts_trim_their_yy_endings() {
    let path: &str = "folders/Sprites.yy";
    assert_eq!(path.trim_yy(), "folders/Sprites");
    let doubled: &str = "a.yy.yy";
    assert_eq!(doubled.trim_yy(), "a");
    let plain: &str = "folders";
    assert_eq!(plain.trim_yy(), "folders");
}

#[test]
fn default_texture_path_is_found_by_name() {
    let groups = vec!["Crops".to_string(), "Default".to_string(), "Enemies".to_string()];
    let t = default_texture_path(&groups).unwrap();
    assert_eq!(t.name, "Default");
    assert_eq!(t.path, "texturegroups/Default");
    assert!(default_texture_path(&vec!["Crops".to_string()]).is_none());
    let crops = texture_path("Crops");
    assert_eq!(crops.path, "texturegroups/Crops");
}
