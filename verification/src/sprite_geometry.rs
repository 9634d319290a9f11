//! Where a sprite's origin and bounding box lie on its canvas.
use vstd::prelude::*;

verus! {

/// `w` halved, rounding toward zero (Rust's integer division by 2).
pub open spec fn half(w: int) -> int {
    if w >= 0 {
        w / 2
    } else {
        -((-w) / 2)
    }
}

fn halve(w: i32) -> (r: i32)
    ensures
        r == half(w as int),
{
    w / 2
}

/// The named place of a sprite's origin, as a sprite file records it.
#[derive(Debug, Copy, Clone, PartialEq, Eq, Structural)]
pub enum Origin {
    TopLeft,
    TopCenter,
    TopRight,
    MiddleLeft,
    MiddleCenter,
    MiddleRight,
    BottomLeft,
    BottomCenter,
    BottomRight,
    Custom,
}

/// How a sprite's bounding box is found, as a sprite file records it.
#[derive(Debug, Copy, Clone, PartialEq, Eq, Structural)]
pub enum BBoxMode {
    Automatic,
    FullImage,
    Manual,
}

/// A bounding box: its top-left and bottom-right corners.
#[derive(Debug, Default, Copy, Clone, PartialEq, Eq)]
pub struct Bbox {
    pub top_left: (i32, i32),
    pub bottom_right: (i32, i32),
}

/// A sprite's origin: a named place on the canvas, or a custom point.
#[derive(Debug, Copy, Clone, PartialEq, Eq, Structural)]
pub enum OriginUtility {
    TopLeft,
    TopCenter,
    TopRight,
    MiddleLeft,
    MiddleCenter,
    MiddleRight,
    BottomLeft,
    BottomCenter,
    BottomRight,
    Custom { x: i32, y: i32 },
}

/// A sprite's bounding box: found automatically or set by hand (with the box
/// either way), or the full image.
#[derive(Debug, Copy, Clone, PartialEq, Eq)]
pub enum BboxModeUtility {
    Automatic(Bbox),
    FullImage,
    Manual(Bbox),
}

/// The origin that a sprite file's named place and point stand for.
pub open spec fn from_origin_spec(o: Origin, origin_pos: (i32, i32)) -> OriginUtility {
    match o {
        Origin::TopLeft => OriginUtility::TopLeft,
        Origin::TopCenter => OriginUtility::TopCenter,
        Origin::TopRight => OriginUtility::TopRight,
        Origin::MiddleLeft => OriginUtility::MiddleLeft,
        Origin::MiddleCenter => OriginUtility::MiddleCenter,
        Origin::MiddleRight => OriginUtility::MiddleRight,
        Origin::BottomLeft => OriginUtility::BottomLeft,
        Origin::BottomCenter => OriginUtility::BottomCenter,
        Origin::BottomRight => OriginUtility::BottomRight,
        Origin::Custom => OriginUtility::Custom { x: origin_pos.0, y: origin_pos.1 },
    }
}

/// The named place and point of an origin on a canvas of width `w` and
/// height `h`, as the origin utility's own conversion computes them: the
/// left, middle and right columns are at 0, half the width and the width
/// (the sprite builder, [`sprite_origin`], uses the last pixel instead); the top, middle and bottom rows at 0, half the height and
/// the height (halves round toward zero).
pub open spec fn to_origin_spec(u: OriginUtility, w: i32, h: i32) -> (Origin, (int, int)) {
    match u {
        OriginUtility::Custom { x, y } => (Origin::Custom, (x as int, y as int)),
        OriginUtility::TopLeft => (Origin::TopLeft, (0, 0)),
        OriginUtility::TopCenter => (Origin::TopCenter, (half(w as int), 0)),
        OriginUtility::TopRight => (Origin::TopRight, (w as int, 0)),
        OriginUtility::MiddleLeft => (Origin::MiddleLeft, (0, half(h as int))),
        OriginUtility::MiddleCenter => (Origin::MiddleCenter, (half(w as int), half(h as int))),
        OriginUtility::MiddleRight => (Origin::MiddleRight, (w as int, half(h as int))),
        OriginUtility::BottomLeft => (Origin::BottomLeft, (0, h as int)),
        OriginUtility::BottomCenter => (Origin::BottomCenter, (half(w as int), h as int)),
        OriginUtility::BottomRight => (Origin::BottomRight, (w as int, h as int)),
    }
}

impl OriginUtility {
    /// The origin that a sprite file's named place and point stand for; the
    /// point counts only for a custom origin.
    pub fn from_origin(o: Origin, origin_pos: (i32, i32)) -> (r: OriginUtility)
        ensures
            r == from_origin_spec(o, origin_pos),
    {
        match o {
            Origin::TopLeft => OriginUtility::TopLeft,
            Origin::TopCenter => OriginUtility::TopCenter,
            Origin::TopRight => OriginUtility::TopRight,
            Origin::MiddleLeft => OriginUtility::MiddleLeft,
            Origin::MiddleCenter => OriginUtility::MiddleCenter,
            Origin::MiddleRight => OriginUtility::MiddleRight,
            Origin::BottomLeft => OriginUtility::BottomLeft,
            Origin::BottomCenter => OriginUtility::BottomCenter,
            Origin::BottomRight => OriginUtility::BottomRight,
            Origin::Custom => OriginUtility::Custom { x: origin_pos.0, y: origin_pos.1 },
        }
    }

    /// The named place and point of this origin on a canvas of the given
    /// width and height.
    pub fn to_origin(self, canvas_dimensions: (i32, i32)) -> (r: (Origin, (i32, i32)))
        ensures
            ({
                let s = to_origin_spec(self, canvas_dimensions.0, canvas_dimensions.1);
                r.0 == s.0 && r.1.0 as int == s.1.0 && r.1.1 as int == s.1.1
            }),
    {
        let w = canvas_dimensions.0;
        let h = canvas_dimensions.1;
        match self {
            OriginUtility::Custom { x, y } => (Origin::Custom, (x, y)),
            OriginUtility::TopLeft => (Origin::TopLeft, (0, 0)),
            OriginUtility::TopCenter => (Origin::TopCenter, (halve(w), 0)),
            OriginUtility::TopRight => (Origin::TopRight, (w, 0)),
            OriginUtility::MiddleLeft => (Origin::MiddleLeft, (0, halve(h))),
            OriginUtility::MiddleCenter => (Origin::MiddleCenter, (halve(w), halve(h))),
            OriginUtility::MiddleRight => (Origin::MiddleRight, (w, halve(h))),
            OriginUtility::BottomLeft => (Origin::BottomLeft, (0, h)),
            OriginUtility::BottomCenter => (Origin::BottomCenter, (halve(w), h)),
            OriginUtility::BottomRight => (Origin::BottomRight, (w, h)),
        }
    }
}

/// How a bounding box is found, for each kind of [`BboxModeUtility`].
pub open spec fn bbox_mode_spec(u: BboxModeUtility) -> BBoxMode {
    match u {
        BboxModeUtility::Automatic(_) => BBoxMode::Automatic,
        BboxModeUtility::FullImage => BBoxMode::FullImage,
        BboxModeUtility::Manual(_) => BBoxMode::Manual,
    }
}

/// The box of a [`BboxModeUtility`] on a canvas of the given size: its own
/// box, or the whole canvas for the full image.
pub open spec fn bbox_spec(u: BboxModeUtility, canvas_dims: (i32, i32)) -> Bbox {
    match u {
        BboxModeUtility::Automatic(b) => b,
        BboxModeUtility::Manual(b) => b,
        BboxModeUtility::FullImage => Bbox { top_left: (0, 0), bottom_right: canvas_dims },
    }
}

/// The bounding-box setting that a sprite file's mode and box stand for; the
/// box counts except for the full image.
pub open spec fn from_bbox_data_spec(bbox_mode: BBoxMode, bbox: Bbox) -> BboxModeUtility {
    match bbox_mode {
        BBoxMode::Automatic => BboxModeUtility::Automatic(bbox),
        BBoxMode::FullImage => BboxModeUtility::FullImage,
        BBoxMode::Manual => BboxModeUtility::Manual(bbox),
    }
}

impl BBoxMode {
    /// How a bounding box is found under `o`.
    pub fn from_utility(o: BboxModeUtility) -> (r: BBoxMode)
        ensures
            r == bbox_mode_spec(o),
    {
        match o {
            BboxModeUtility::Automatic(_) => BBoxMode::Automatic,
            BboxModeUtility::FullImage => BBoxMode::FullImage,
            BboxModeUtility::Manual(_) => BBoxMode::Manual,
        }
    }
}

impl BboxModeUtility {
    /// The mode and box that a sprite file records for this setting on a
    /// canvas of the given size.
    pub fn to_bbox(self, canvas_dims: (i32, i32)) -> (r: (BBoxMode, Bbox))
        ensures
            r == (bbox_mode_spec(self), bbox_spec(self, canvas_dims)),
    {
        let bbox_mode = BBoxMode::from_utility(self);
        let bbox = match self {
            BboxModeUtility::Automatic(bbox) => bbox,
            BboxModeUtility::Manual(bbox) => bbox,
            BboxModeUtility::FullImage => Bbox { top_left: (0, 0), bottom_right: canvas_dims },
        };
        (bbox_mode, bbox)
    }

    /// The setting that a sprite file's mode and box stand for.
    pub fn from_bbox_data(bbox_mode: BBoxMode, bbox: Bbox) -> (r: BboxModeUtility)
        ensures
            r == from_bbox_data_spec(bbox_mode, bbox),
    {
        match bbox_mode {
            BBoxMode::Automatic => BboxModeUtility::Automatic(bbox),
            BBoxMode::FullImage => BboxModeUtility::FullImage,
            BBoxMode::Manual => BboxModeUtility::Manual(bbox),
        }
    }
}

/// Reading back the named place and point that an origin is written as
/// gives the same origin, on a canvas of any size.
pub proof fn law_origin_round_trip(u: OriginUtility, w: i32, h: i32)
    ensures
        ({
            let s = to_origin_spec(u, w, h);
            from_origin_spec(s.0, (s.1.0 as i32, s.1.1 as i32)) == u
        }),
{
}

/// Reading back the mode and box that a bounding-box setting is written as
/// gives the same setting, on a canvas of any size.
pub proof fn law_bbox_round_trip(u: BboxModeUtility, canvas_dims: (i32, i32))
    ensures
        from_bbox_data_spec(bbox_mode_spec(u), bbox_spec(u, canvas_dims)) == u,
{
}

/// The named place and point that the sprite builder gives a sprite of width
/// `w` and height `h` for an origin: the left, middle and right columns are
/// at 0, half the width and the last pixel (`w - 1`); the top, middle and
/// bottom rows at 0, half the height and the last pixel (`h - 1`); halves
/// round down. (This differs from [`OriginUtility::to_origin`], which puts
/// the right and bottom at the width and height.)
pub open spec fn sprite_origin_spec(u: OriginUtility, w: int, h: int) -> (Origin, (int, int)) {
    match u {
        OriginUtility::Custom { x, y } => (Origin::Custom, (x as int, y as int)),
        OriginUtility::TopLeft => (Origin::TopLeft, (0, 0)),
        OriginUtility::TopCenter => (Origin::TopCenter, (w / 2, 0)),
        OriginUtility::TopRight => (Origin::TopRight, (w - 1, 0)),
        OriginUtility::MiddleLeft => (Origin::MiddleLeft, (0, h / 2)),
        OriginUtility::MiddleCenter => (Origin::MiddleCenter, (w / 2, h / 2)),
        OriginUtility::MiddleRight => (Origin::MiddleRight, (w - 1, h / 2)),
        OriginUtility::BottomLeft => (Origin::BottomLeft, (0, h - 1)),
        OriginUtility::BottomCenter => (Origin::BottomCenter, (w / 2, h - 1)),
        OriginUtility::BottomRight => (Origin::BottomRight, (w - 1, h - 1)),
    }
}

/// The origin that the sprite builder records for a sprite of the given
/// (non-zero) width and height: its named place and its point, on the last
/// pixel for the right and bottom.
pub fn sprite_origin(u: OriginUtility, width: usize, height: usize) -> (r: (Origin, (isize, isize)))
    requires
        0 < width <= isize::MAX,
        0 < height <= isize::MAX,
    ensures
        ({
            let s = sprite_origin_spec(u, width as int, height as int);
            r.0 == s.0 && r.1.0 as int == s.1.0 && r.1.1 as int == s.1.1
        }),
{
    let cx = (width / 2) as isize;
    let cy = (height / 2) as isize;
    let rx = (width - 1) as isize;
    let by = (height - 1) as isize;
    match u {
        OriginUtility::Custom { x, y } => (Origin::Custom, (x as isize, y as isize)),
        OriginUtility::TopLeft => (Origin::TopLeft, (0, 0)),
        OriginUtility::TopCenter => (Origin::TopCenter, (cx, 0)),
        OriginUtility::TopRight => (Origin::TopRight, (rx, 0)),
        OriginUtility::MiddleLeft => (Origin::MiddleLeft, (0, cy)),
        OriginUtility::MiddleCenter => (Origin::MiddleCenter, (cx, cy)),
        OriginUtility::MiddleRight => (Origin::MiddleRight, (rx, cy)),
        OriginUtility::BottomLeft => (Origin::BottomLeft, (0, by)),
        OriginUtility::BottomCenter => (Origin::BottomCenter, (cx, by)),
        OriginUtility::BottomRight => (Origin::BottomRight, (rx, by)),
    }
}

} // verus!
