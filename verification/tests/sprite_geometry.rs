use yy_boss::shaders::{ShaderFile, ShaderKind};
use yy_boss::sprite_geometry::{sprite_origin, BBoxMode, Bbox, BboxModeUtility, Origin, OriginUtility};

#[test]
fn origins_on_a_canvas() {
    let dims = (64, 33);
    assert_eq!(OriginUtility::TopLeft.to_origin(dims), (Origin::TopLeft, (0, 0)));
    assert_eq!(OriginUtility::TopCenter.to_origin(dims), (Origin::TopCenter, (32, 0)));
    assert_eq!(OriginUtility::MiddleCenter.to_origin(dims), (Origin::MiddleCenter, (32, 16)));
    assert_eq!(OriginUtility::BottomRight.to_origin(dims), (Origin::BottomRight, (64, 33)));
    assert_eq!(
        OriginUtility::Custom { x: -3, y: 7 }.to_origin(dims),
        (Origin::Custom, (-3, 7))
    );
    assert_eq!(OriginUtility::MiddleRight.to_origin((-5, -5)), (Origin::MiddleRight, (-5, -2)));
}

#[test]
fn origins_read_back() {
    for u in [
        OriginUtility::TopLeft,
        OriginUtility::BottomCenter,
        OriginUtility::Custom { x: 5, y: 9 },
    ] {
        let (o, pos) = u.to_origin((10, 20));
        assert_eq!(OriginUtility::from_origin(o, pos), u);
    }
    assert_eq!(OriginUtility::from_origin(Origin::MiddleLeft, (1, 2)), OriginUtility::MiddleLeft);
}

#[test]
fn bounding_boxes() {
    let b = Bbox { top_left: (1, 2), bottom_right: (3, 4) };
    assert_eq!(BboxModeUtility::Manual(b).to_bbox((9, 9)), (BBoxMode::Manual, b));
    assert_eq!(
        BboxModeUtility::FullImage.to_bbox((9, 8)),
        (BBoxMode::FullImage, Bbox { top_left: (0, 0), bottom_right: (9, 8) })
    );
    assert_eq!(BboxModeUtility::from_bbox_data(BBoxMode::Automatic, b), BboxModeUtility::Automatic(b));
    assert_eq!(BboxModeUtility::from_bbox_data(BBoxMode::FullImage, b), BboxModeUtility::FullImage);
    assert_eq!(BBoxMode::from_utility(BboxModeUtility::Automatic(b)), BBoxMode::Automatic);
}

#[test]
fn shader_programs() {
    assert_eq!(ShaderKind::Vertex.file_ending(), "vsh");
    assert_eq!(ShaderKind::Frag.file_ending(), "fsh");
    assert_eq!(ShaderKind::iter(), vec![ShaderKind::Vertex, ShaderKind::Frag]);
    let mut f = ShaderFile { vertex: "v".to_string(), pixel: "p".to_string() };
    assert_eq!(f.source(ShaderKind::Frag), "p");
    f.set_source(ShaderKind::Vertex, "v2".to_string());
    assert_eq!(f.vertex, "v2");
    assert_eq!(f.pixel, "p");
}

#[test]
fn sprite_builder_origin_uses_the_last_pixel() {
    assert_eq!(sprite_origin(OriginUtility::MiddleRight, 5, 7), (Origin::MiddleRight, (4, 3)));
    assert_eq!(sprite_origin(OriginUtility::BottomCenter, 5, 7), (Origin::BottomCenter, (2, 6)));
    assert_eq!(sprite_origin(OriginUtility::TopLeft, 5, 7), (Origin::TopLeft, (0, 0)));
    assert_eq!(
        sprite_origin(OriginUtility::Custom { x: -3, y: 9 }, 5, 7),
        (Origin::Custom, (-3, 9))
    );
    // the origin utility's own conversion puts the right edge at the width
    assert_eq!(OriginUtility::MiddleRight.to_origin((5, 7)), (Origin::MiddleRight, (5, 3)));
}
