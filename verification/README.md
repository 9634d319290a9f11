# yy_boss

A library for managing GameMaker Studio 2 projects, written in Verus, with a
small command-line front end.

`src/` holds the verified library:

- `dirty_handler`, `string_map`, `text_order`: the bookkeeping of what must be
  written to or deleted from disk on the next save, over maps keyed by text,
  and the order of texts by which sorted maps keep their keys.
- `pipelines`: the manifests of asset pipelines (sources and destinations),
  kept sorted by name.
- `resource_names`, `resources`, `names`: the registry of resource names and
  the rules for valid names.
- `view_paths`, `folders`: locations in the IDE's asset browser and the virtual
  folder tree (`Vfs`), with its save into the project file's lists.
- `yyp_format`: the text format of the project file.
- `project`: startup decisions (resource listings, version checks, name use).
- `resource_handler`, `boss`: the resources of one kind with their data and
  the plan of what saving them does on disk; a project (`Boss`) made of the
  folder tree and the handlers of sprites, scripts and objects, with loading,
  adding and removing resources and running commands against it.
- `object_events`: the code of an object's events, read from a command's
  data and written to the object's folder.
- `sprite_printer`: the layout in which sprite files are written.
- `sprite_frames`: the records of a new frame of a sprite (its images, one
  per layer, and its keyframe).
- `textures`: the paths of texture groups.
- `directory_manager`, `paths`, `utils`, `sprite_geometry`, `shaders`: paths,
  formats and small pieces of resource data.

`app/` reads the project and its pipelines from disk, answers JSON commands
on stdin (folder commands; adding, removing, getting and checking resources,
loading their associated data, and adding or removing an object's events;
project information, name checks and code paths), carries out the save plans,
writes the pipelines and the project file back, and logs where asked; it also
adapts the sprite printer and new sprite frames to the typings.
