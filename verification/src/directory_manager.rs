//! The directories of a project: where the project file lies and where the
//! boss keeps its own files.
use vstd::prelude::*;
use crate::paths::{path_join, path_parent, is_simple_component};

verus! {

/// The name of the directory, inside the project's root directory, where the
/// boss keeps its own files.
pub open spec fn boss_dir_name() -> Seq<char> {
    seq!['.', 'b', 'o', 's', 's']
}

/// Why a project could not be opened.
#[derive(Debug, Clone, PartialEq, Eq)]
pub enum StartupError {
    /// The yyp could not be deserialized.
    BadYypDeserialize(String),
    /// The yyp was made by another version of the IDE: needed, got.
    YypIsWrongVersion(String, String),
    /// The yyp was made in another year of the IDE: needed, got.
    YypYearNotMatch(String, String),
    /// The yyp's version within its year does not meet the requirement:
    /// the requirement, the version.
    YypDoesNotMatch(String, String),
    /// The boss directory could not be made or found.
    BossDirectory(String),
    /// A resource listed in the yyp has a path that names no known kind.
    BadResourceListing(String),
    /// A resource could not be placed in the asset browser.
    BadResourceTree { name: String, error: String },
    /// The path given for the yyp was unusable.
    BadYypPath { yyp_filepath: String, error: String },
    /// The working directory given was unusable.
    BadWorkingDirectoryPath,
    /// The command line could not be read.
    BadCliArguments(String),
}

/// The paths of a project's root directory, project file and boss directory.
#[derive(Debug, PartialEq, Eq)]
pub struct DirectoryManager {
    root_directory: String,
    yyp: String,
    boss_directory: String,
}

/// The abstract value of a [`DirectoryManager`].
pub struct DirectoryManagerView {
    pub root_directory: Seq<char>,
    pub yyp: Seq<char>,
    pub boss_directory: Seq<char>,
}

impl View for DirectoryManager {
    type V = DirectoryManagerView;

    closed spec fn view(&self) -> DirectoryManagerView {
        DirectoryManagerView {
            root_directory: self.root_directory@,
            yyp: self.yyp@,
            boss_directory: self.boss_directory@,
        }
    }
}

impl DirectoryManager {
    /// The paths for the project whose file is at `yyp`, given the parent
    /// directory of that path (`None` where it has none). The root directory
    /// is that parent; the boss directory is `.boss` inside it. A path without
    /// a parent is refused.
    pub fn from_parent(yyp: &str, parent: Option<String>) -> (r: Result<Self, StartupError>)
        ensures
            r is Err <==> parent is None,
            r matches Err(e) ==> e is BadYypPath && e->yyp_filepath@ == yyp@,
            r matches Ok(m) ==> m@.root_directory == parent->Some_0@ && m@.yyp == yyp@,
            r matches Ok(m) ==> m@.boss_directory.len() >= m@.root_directory.len() + boss_dir_name().len()
                && m@.boss_directory.subrange(0, m@.root_directory.len() as int) == m@.root_directory
                && m@.boss_directory.subrange(
                m@.boss_directory.len() - boss_dir_name().len(),
                m@.boss_directory.len() as int,
            ) == boss_dir_name(),
    {
        match parent {
            None => Err(
                StartupError::BadYypPath {
                    yyp_filepath: yyp.to_owned(),
                    error: "no parent directory to find".to_owned(),
                },
            ),
            Some(root_directory) => {
                let boss_name = ".boss";
                proof {
                    reveal_strlit(".boss");
                    assert(boss_name@ == boss_dir_name());
                }
                let boss_directory = path_join(root_directory.as_str(), boss_name);
                Ok(DirectoryManager { root_directory, yyp: yyp.to_owned(), boss_directory })
            },
        }
    }

    /// The paths for the project whose file is at `yyp`: those that
    /// [`DirectoryManager::from_parent`] gives for the parent directory of
    /// `yyp`, as `std::path::Path::parent` finds it. Creating the boss
    /// directory on disk is left to the caller.
    pub fn new(yyp: &str) -> (r: Result<Self, StartupError>)
        ensures
            yyp@.len() == 0 ==> r is Err,
            r matches Err(e) ==> e is BadYypPath && e->yyp_filepath@ == yyp@,
            r matches Ok(m) ==> m@.root_directory.len() < yyp@.len() && yyp@.subrange(
                0,
                m@.root_directory.len() as int,
            ) == m@.root_directory,
            r matches Ok(m) ==> m@.yyp == yyp@ && m@.boss_directory.len() >= m@.root_directory.len()
                + boss_dir_name().len() && m@.boss_directory.subrange(0, m@.root_directory.len() as int)
                == m@.root_directory && m@.boss_directory.subrange(
                m@.boss_directory.len() - boss_dir_name().len(),
                m@.boss_directory.len() as int,
            ) == boss_dir_name(),
    {
        DirectoryManager::from_parent(yyp, path_parent(yyp))
    }

    /// Returns the root directory of the project.
    pub fn root_directory(&self) -> (r: &str)
        ensures
            r@ == self@.root_directory,
    {
        self.root_directory.as_str()
    }

    /// Returns the path to the yyp of the project.
    pub fn yyp(&self) -> (r: &str)
        ensures
            r@ == self@.yyp,
    {
        self.yyp.as_str()
    }

    /// Returns the boss directory of the project.
    pub fn boss_directory(&self) -> (r: &str)
        ensures
            r@ == self@.boss_directory,
    {
        self.boss_directory.as_str()
    }

    /// Creates a path into the boss directory.
    pub fn boss_file(&self, relative_path: &str) -> (r: String)
        ensures
            is_simple_component(relative_path@) ==> r@.subrange(0, self@.boss_directory.len() as int)
                == self@.boss_directory && r@.subrange(r@.len() - relative_path@.len(), r@.len() as int)
                == relative_path@,
    {
        path_join(self.boss_directory.as_str(), relative_path)
    }

    /// Creates a path within the root directory, probably to a resource.
    pub fn resource_file(&self, relative_path: &str) -> (r: String)
        ensures
            is_simple_component(relative_path@) ==> r@.subrange(0, self@.root_directory.len() as int)
                == self@.root_directory && r@.subrange(r@.len() - relative_path@.len(), r@.len() as int)
                == relative_path@,
    {
        path_join(self.root_directory.as_str(), relative_path)
    }
}

} // verus!
