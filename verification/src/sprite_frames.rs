//! The records that a new frame of a sprite adds: the frame with its
//! composite image and one image per layer, and the keyframe that shows it in
//! the sprite's sequence.
use vstd::prelude::*;
use crate::paths::{FilesystemPath, FilesystemPathView};

verus! {

/// An image of a frame: the frame it belongs to, the layer it shows (none
/// for the composite image), and its name (`composite` for the composite
/// image, none otherwise).
#[derive(Debug, Clone, PartialEq, Eq)]
pub struct SpriteImage {
    pub frame_id: FilesystemPath,
    pub layer_id: Option<FilesystemPath>,
    pub name: Option<String>,
}

/// A frame of a sprite: its composite image, its image on each layer, the
/// sprite it belongs to, and its name (the frame's id).
#[derive(Debug, Clone, PartialEq, Eq)]
pub struct SpriteFrame {
    pub composite_image: SpriteImage,
    pub images: Vec<SpriteImage>,
    pub parent: FilesystemPath,
    pub name: String,
}

/// The keyframe that shows a frame in the sprite's sequence: its id, its
/// position in the sequence, and the frame it shows.
#[derive(Debug, Clone, PartialEq, Eq)]
pub struct SpriteKeyframe {
    pub id: String,
    pub key: usize,
    pub channel: FilesystemPath,
}

/// The `.yy` file of the sprite `name`: `sprites/{name}/{name}.yy`.
pub open spec fn sprite_yy_path(name: Seq<char>) -> Seq<char> {
    "sprites"@ + "/"@ + name + "/"@ + name + ".yy"@
}

/// A path of the sprite's `.yy` file under the given name.
pub open spec fn in_sprite(name: Seq<char>, sprite_name: Seq<char>) -> FilesystemPathView {
    FilesystemPathView { name, path: sprite_yy_path(sprite_name) }
}

/// Whether `img` is the image of the frame `frame_name` on the layer
/// `layer_name` of the sprite `sprite_name`.
pub open spec fn is_layer_image(img: SpriteImage, frame_name: Seq<char>, layer_name: Seq<char>, sprite_name: Seq<char>) -> bool {
    &&& img.frame_id@ == in_sprite(frame_name, sprite_name)
    &&& img.name is None
    &&& match img.layer_id {
        Some(l) => l@ == in_sprite(layer_name, sprite_name),
        None => false,
    }
}

fn sprite_path(name: &str, path: &String) -> (r: FilesystemPath)
    ensures
        r@ == (FilesystemPathView { name: name@, path: path@ }),
{
    FilesystemPath { name: name.to_string(), path: path.clone() }
}

/// The records of a new frame named `frame_name` (the frame's id) of the
/// sprite `sprite_name` with the layers `layer_names`, where the sprite has
/// `frames_before` frames already: the frame, its keyframe with the id
/// `sequence_id`, and the sprite's new sequence length.
pub fn sprite_frame(
    sprite_name: &str,
    frame_name: &str,
    layer_names: &Vec<String>,
    frames_before: usize,
    sequence_id: String,
) -> (r: (SpriteFrame, SpriteKeyframe, usize))
    requires
        frames_before < usize::MAX,
    ensures
        r.0.composite_image.frame_id@ == in_sprite(frame_name@, sprite_name@),
        r.0.composite_image.layer_id is None,
        r.0.composite_image.name matches Some(n) && n@ == "composite"@,
        r.0.images.len() == layer_names.len(),
        forall|i: int|
            0 <= i < layer_names.len() ==> is_layer_image(#[trigger] r.0.images[i], frame_name@, layer_names[i]@, sprite_name@),
        r.0.parent@ == in_sprite(sprite_name@, sprite_name@),
        r.0.name@ == frame_name@,
        r.1.id@ == sequence_id@,
        r.1.key == frames_before,
        r.1.channel@ == in_sprite(frame_name@, sprite_name@),
        r.2 == frames_before + 1,
{
    let sprite_file = FilesystemPath::new("sprites", sprite_name);
    let path = sprite_file.path;
    proof {
        reveal_strlit("sprites");
        assert(path@ =~= sprite_yy_path(sprite_name@));
    }
    let composite_image = SpriteImage {
        frame_id: sprite_path(frame_name, &path),
        layer_id: None,
        name: Some("composite".to_string()),
    };
    let mut images: Vec<SpriteImage> = Vec::new();
    let mut i: usize = 0;
    while i < layer_names.len()
        invariant
            i <= layer_names.len(),
            images.len() == i,
            path@ == sprite_yy_path(sprite_name@),
            forall|k: int|
                0 <= k < i ==> is_layer_image(#[trigger] images[k], frame_name@, layer_names[k]@, sprite_name@),
        decreases layer_names.len() - i,
    {
        images.push(
            SpriteImage {
                frame_id: sprite_path(frame_name, &path),
                layer_id: Some(sprite_path(layer_names[i].as_str(), &path)),
                name: None,
            },
        );
        i = i + 1;
    }
    let frame = SpriteFrame {
        composite_image,
        images,
        parent: sprite_path(sprite_name, &path),
        name: frame_name.to_string(),
    };
    let keyframe = SpriteKeyframe { id: sequence_id, key: frames_before, channel: sprite_path(frame_name, &path) };
    (frame, keyframe, frames_before + 1)
}

} // verus!
