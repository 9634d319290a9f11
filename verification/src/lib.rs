//! The verified core of a manager for GameMaker Studio 2 projects: the
//! bookkeeping of which resources must be written or deleted, the pipeline
//! manifests, the resource-name registry and the virtual folder tree.
use vstd::prelude::*;

pub mod text_order;
pub mod string_map;
pub use string_map::StringMap;
pub mod utils;
pub use utils::{FileSerializationError, SerializationFormat};
pub mod paths;
pub use paths::FilesystemPath;
pub mod pipelines;
pub use pipelines::{Pipeline, PipelineError, PipelineManager};
pub mod directory_manager;
pub use directory_manager::{DirectoryManager, StartupError};
pub mod resources;
pub use resources::Resource;
pub mod names;
pub mod resource_names;
pub use resource_names::{ResourceDescriptor, ResourceNameError, ResourceNames, YypResource};
pub mod view_paths;
pub mod folders;
pub use folders::{
    Files, FolderDirtyState, FolderGraph, FolderGraphError, Item, ViewPath, Vfs, YypFolder,
};
pub mod yyp_format;
pub mod project;
pub mod boss;
pub mod sprite_geometry;
pub mod sprite_printer;
pub mod sprite_frames;
pub mod object_events;
pub use sprite_printer::{SpritePrinter, SpritePrinterMode};
pub mod shaders;
pub mod textures;
pub mod resource_handler;
pub mod dirty_handler;
pub use dirty_handler::{DirtyDrain, DirtyHandler, DirtyState};

verus! {

} // verus!
