use yy_boss::names::{texture_path_location, PathError};
use yy_boss::project::{
    can_use_name, check_ide_version, check_ide_version_checked, quick_name, resource_of_listing,
    split_once_dot, version_outcome, ResourceManipulationError,
};
use yy_boss::{FilesystemPath, Resource, StartupError, Vfs, YypResource};

#[test]
fn names_must_be_free_and_valid() {
    let mut vfs = Vfs::new("project");
    assert_eq!(can_use_name(&vfs, "spr_player"), Ok(()));
    assert_eq!(can_use_name(&vfs, "9lives"), Err(ResourceManipulationError::BadName));
    assert_eq!(can_use_name(&vfs, ""), Err(ResourceManipulationError::BadName));
    vfs.new_resource_end("spr_player", Resource::Sprite, "project.yyp").unwrap();
    assert_eq!(
        can_use_name(&vfs, "spr_player"),
        Err(ResourceManipulationError::NameCollision(Resource::Sprite))
    );
}

#[test]
fn listings_name_their_kind() {
    assert_eq!(resource_of_listing("sprites/spr_a/spr_a.yy"), Ok(Resource::Sprite));
    assert_eq!(resource_of_listing("objects/obj_a/obj_a.yy"), Ok(Resource::Object));
    assert_eq!(resource_of_listing("scripts"), Ok(Resource::Script));
    assert_eq!(
        resource_of_listing("rooms/r/r.yy"),
        Err(StartupError::BadResourceListing("rooms/r/r.yy".to_string()))
    );
}

#[test]
fn quick_name_records_until_a_bad_listing() {
    let mut vfs = Vfs::new("project");
    let listings = vec![
        YypResource { id: FilesystemPath::new("sprites", "spr_a"), order: 3 },
        YypResource { id: FilesystemPath::new("scripts", "scr_b"), order: 4 },
    ];
    assert_eq!(quick_name(&mut vfs, &listings, "project.yyp"), Ok(()));
    assert_eq!(vfs.get_resource_type("spr_a"), Some(Resource::Sprite));
    assert_eq!(vfs.get_resource_type("scr_b"), Some(Resource::Script));
    let d = vfs.resource_names.get("scr_b").unwrap();
    assert_eq!(d.order, 4);
    assert_eq!(d.parent_location, "project.yyp");

    let mut vfs = Vfs::new("project");
    let listings = vec![
        YypResource { id: FilesystemPath::new("sprites", "spr_a"), order: 0 },
        YypResource { id: FilesystemPath::new("rooms", "r"), order: 1 },
        YypResource { id: FilesystemPath::new("scripts", "scr_b"), order: 2 },
    ];
    assert_eq!(
        quick_name(&mut vfs, &listings, "project.yyp"),
        Err(StartupError::BadResourceListing("rooms/r/r.yy".to_string()))
    );
    assert!(vfs.resource_exists("spr_a"));
    assert!(!vfs.resource_exists("scr_b"));
}

#[test]
fn versions_split_at_the_first_dot() {
    assert_eq!(split_once_dot("2.3.0.529"), Some(("2", "3.0.529")));
    assert_eq!(split_once_dot("nodot"), None);
    assert_eq!(split_once_dot(".x"), Some(("", "x")));
}

#[test]
fn version_checks() {
    assert_eq!(
        check_ide_version("2.3.0.529"),
        Err(StartupError::YypYearNotMatch("6".to_string(), "2".to_string()))
    );
    assert_eq!(check_ide_version("6.0.23.0"), Ok(()));
    assert_eq!(check_ide_version("6.0.23.7"), Ok(()));
    assert_eq!(
        check_ide_version("6.1.0.0"),
        Err(StartupError::YypDoesNotMatch("0.23".to_string(), "1.0.0".to_string()))
    );
    assert_eq!(check_ide_version_checked("nodot"), None);
    assert_eq!(check_ide_version_checked("6.x"), None);
    // "0.23" alone is a requirement, not a version
    assert_eq!(check_ide_version_checked("6.0.23"), None);
    assert_eq!(check_ide_version_checked("6.0.23.0"), Some(Ok(())));
}

#[test]
fn version_outcomes() {
    assert_eq!(
        version_outcome("6", "2", "0.23", "3.0.0", true),
        Err(StartupError::YypYearNotMatch("6".to_string(), "2".to_string()))
    );
    assert_eq!(
        version_outcome("6", "6", "0.23", "1.0.0", false),
        Err(StartupError::YypDoesNotMatch("0.23".to_string(), "1.0.0".to_string()))
    );
    assert_eq!(version_outcome("6", "6", "0.23", "0.23.1", true), Ok(()));
}

#[test]
fn texture_paths_need_valid_names() {
    let v = yy_typings::utils::ResourceNameValidator::new();
    assert_eq!(texture_path_location("Default", &v), Ok("Default".to_string()));
    assert_eq!(
        texture_path_location("bad name", &v),
        Err(PathError::PathContainsInvalidCharacters)
    );
}
