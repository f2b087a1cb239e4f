//! Batches: how primitives are grouped for drawing.

use gpui_scene::atlas::{AtlasTextureId, AtlasTextureKind, AtlasTile, TileId};
use gpui_scene::batch::PrimitiveBatch;
use gpui_scene::bounds_tree::DrawOrder;
use gpui_scene::color::Hsla;
use gpui_scene::filter::Filter;
use gpui_scene::fixed::Fixed;
use gpui_scene::geometry::{Bounds, ContentMask, Corners, Point, Size};
use gpui_scene::primitive::{
    Backdrop, MonochromeSprite, PaddedBool32, PaintSurface, PolychromeSprite, Shadow,
    SubpixelSprite,
};
use gpui_scene::scalar::{DevicePixels, ScaledPixels};
use gpui_scene::scene::Scene;
use gpui_scene::sort::stable_sort;
use gpui_scene::transform::TransformationMatrix;

fn px(value: i16) -> ScaledPixels<Fixed> {
    ScaledPixels(Fixed::whole(value))
}

fn rect(x: i16, y: i16, width: i16, height: i16) -> Bounds<ScaledPixels<Fixed>> {
    Bounds {
        origin: Point { x: px(x), y: px(y) },
        size: Size { width: px(width), height: px(height) },
    }
}

fn everything() -> ContentMask<ScaledPixels<Fixed>> {
    ContentMask { bounds: rect(0, 0, 1000, 1000) }
}

fn shadow(x: i16) -> Shadow<Fixed> {
    let bounds = rect(x, 0, 10, 10);
    Shadow {
        order: 0,
        blur_radius: px(2),
        bounds,
        corner_radii: Corners::zero(),
        content_mask: everything(),
        color: Hsla::transparent(),
        element_bounds: bounds,
        element_corner_radii: Corners::zero(),
        inset: 0,
        pad: 0,
    }
}

fn backdrop(x: i16) -> Backdrop<Fixed> {
    Backdrop { bounds: rect(x, 0, 10, 10), content_mask: everything(), ..Backdrop::default() }
}

fn surface(x: i16) -> PaintSurface<Fixed> {
    PaintSurface { order: 0, bounds: rect(x, 0, 10, 10), content_mask: everything() }
}

fn texture(index: u32) -> AtlasTextureId {
    AtlasTextureId { index, kind: AtlasTextureKind::Monochrome }
}

fn tile(index: u32, tile_id: u32) -> AtlasTile {
    let zero = DevicePixels(0);
    AtlasTile {
        texture_id: texture(index),
        tile_id: TileId(tile_id),
        padding: 0,
        bounds: Bounds {
            origin: Point { x: zero, y: zero },
            size: Size { width: zero, height: zero },
        },
    }
}

fn glyph(x: i16, index: u32, tile_id: u32) -> MonochromeSprite<Fixed> {
    MonochromeSprite {
        order: 0,
        pad: 0,
        bounds: rect(x, 0, 10, 10),
        content_mask: everything(),
        color: Hsla::transparent(),
        tile: tile(index, tile_id),
        transformation: TransformationMatrix::unit(),
    }
}

fn open_filter(scene: &mut Scene<Fixed>) {
    let bounds = rect(0, 0, 100, 100);
    scene.push_filter(bounds, Point { x: px(50), y: px(50) }, bounds, Filter::default());
}

fn labels(scene: &Scene<Fixed>) -> Vec<String> {
    scene.batches().into_vec().iter().map(|batch| batch.label()).collect()
}

#[test]
fn labels_name_the_kind_and_the_count() {
    assert_eq!(PrimitiveBatch::Shadows(0..3).label(), "shadows (3)");
    assert_eq!(PrimitiveBatch::Backdrops(1..3).label(), "backdrops (2)");
    assert_eq!(PrimitiveBatch::Quads(7..1007).label(), "quads (1000)");
    assert_eq!(PrimitiveBatch::Paths(4..4).label(), "paths (0)");
    assert_eq!(PrimitiveBatch::Underlines(9..2).label(), "underlines (0)");
    assert_eq!(PrimitiveBatch::Surfaces(0..10).label(), "surfaces (10)");
    assert_eq!(
        PrimitiveBatch::MonochromeSprites { texture_id: texture(0), range: 0..12 }.label(),
        "monochrome sprites (12) on atlas 0"
    );
    assert_eq!(
        PrimitiveBatch::SubpixelSprites { texture_id: texture(305), range: 0..1 }.label(),
        "subpixel sprites (1) on atlas 305"
    );
    assert_eq!(
        PrimitiveBatch::PolychromeSprites { texture_id: texture(u32::MAX), range: 0..99 }.label(),
        "polychrome sprites (99) on atlas 4294967295"
    );
    assert_eq!(
        PrimitiveBatch::Shadows(0..usize::MAX).label(),
        format!("shadows ({})", usize::MAX)
    );
}

#[test]
fn labels_tell_kinds_counts_and_atlases_apart() {
    let sprites = |index: u32, end: usize| {
        PrimitiveBatch::MonochromeSprites { texture_id: texture(index), range: 0..end }.label()
    };
    assert_eq!(PrimitiveBatch::Quads(3..5).label(), PrimitiveBatch::Quads(8..10).label());
    assert_ne!(PrimitiveBatch::Quads(0..1).label(), PrimitiveBatch::Quads(0..11).label());
    assert_ne!(PrimitiveBatch::Quads(0..1).label(), PrimitiveBatch::Paths(0..1).label());
    assert_ne!(sprites(1, 11), sprites(11, 1));
    assert_ne!(sprites(1, 2), sprites(2, 2));
    let other_kind = AtlasTextureId { index: 1, kind: AtlasTextureKind::Subpixel };
    assert_eq!(
        sprites(1, 2),
        PrimitiveBatch::MonochromeSprites { texture_id: other_kind, range: 4..6 }.label()
    );
}

#[test]
fn an_empty_scene_has_no_batches() {
    let mut scene: Scene<Fixed> = Scene::default();
    scene.finish();
    let mut batches = scene.batches();
    assert!(batches.next().is_none());
    assert!(batches.next().is_none());
}

#[test]
fn one_kind_makes_one_batch() {
    let mut scene = Scene::default();
    for _ in 0..3 {
        scene.insert_primitive(shadow(0));
    }
    scene.insert_primitive(shadow(50));
    scene.finish();
    assert_eq!(labels(&scene), vec!["shadows (4)"]);
}

#[test]
fn kinds_are_drawn_in_turn_where_they_overlap() {
    let mut scene = Scene::default();
    scene.insert_primitive(surface(0)); // 1
    scene.insert_primitive(shadow(0)); // 2
    scene.insert_primitive(shadow(0)); // 3
    scene.insert_primitive(surface(0)); // 4
    scene.insert_primitive(shadow(500)); // 1
    scene.finish();
    assert_eq!(
        labels(&scene),
        vec!["shadows (1)", "surfaces (1)", "shadows (2)", "surfaces (1)"]
    );
}

#[test]
fn kinds_come_in_their_order_at_one_draw_order() {
    let mut scene = Scene::default();
    scene.push_layer(rect(0, 0, 10, 10));
    scene.insert_primitive(surface(0));
    scene.insert_primitive(PolychromeSprite {
        order: 0,
        pad: 0,
        grayscale: PaddedBool32::default(),
        opacity: Fixed::whole(1),
        bounds: rect(0, 0, 10, 10),
        content_mask: everything(),
        corner_radii: Corners::zero(),
        tile: tile(3, 0),
    });
    scene.insert_primitive(SubpixelSprite {
        order: 0,
        pad: 0,
        bounds: rect(0, 0, 10, 10),
        content_mask: everything(),
        color: Hsla::transparent(),
        tile: tile(2, 0),
        transformation: TransformationMatrix::unit(),
    });
    scene.insert_primitive(glyph(0, 1, 0));
    scene.insert_primitive(backdrop(0));
    scene.insert_primitive(shadow(0));
    scene.insert_primitive(surface(0));
    scene.pop_layer();
    scene.finish();
    assert_eq!(
        labels(&scene),
        vec![
            "shadows (1)",
            "backdrops (1)",
            "monochrome sprites (1) on atlas 1",
            "subpixel sprites (1) on atlas 2",
            "polychrome sprites (1) on atlas 3",
            "surfaces (2)",
        ]
    );
}

#[test]
fn a_batch_stops_before_a_kind_that_comes_first_at_its_order() {
    let mut scene = Scene::default();
    scene.insert_primitive(backdrop(0)); // 1
    scene.insert_primitive(backdrop(0)); // 2
    scene.insert_primitive(shadow(500)); // 1
    scene.insert_primitive(shadow(500)); // 2
    scene.finish();
    assert_eq!(
        labels(&scene),
        vec!["shadows (1)", "backdrops (1)", "shadows (1)", "backdrops (1)"]
    );
}

#[test]
fn sprites_are_split_by_texture() {
    let mut scene = Scene::default();
    scene.insert_primitive(glyph(0, 0, 1));
    scene.insert_primitive(glyph(20, 0, 2));
    scene.insert_primitive(glyph(40, 1, 3));
    scene.insert_primitive(glyph(60, 0, 4));
    scene.finish();
    assert_eq!(
        labels(&scene),
        vec![
            "monochrome sprites (2) on atlas 0",
            "monochrome sprites (1) on atlas 1",
            "monochrome sprites (1) on atlas 0",
        ]
    );
}

#[test]
fn batches_do_not_cross_the_edges_of_a_layer() {
    let mut scene = Scene::default();
    scene.insert_primitive(shadow(0)); // 1
    open_filter(&mut scene); // 2
    scene.insert_primitive(shadow(0)); // 3
    scene.insert_primitive(shadow(0)); // 4
    scene.pop_filter(); // 5
    scene.insert_primitive(shadow(0)); // 6
    scene.finish();
    let batches = scene.batches().into_vec();
    let spans: Vec<(String, DrawOrder, Option<usize>)> = batches
        .iter()
        .map(|batch| {
            let order = scene.batch_order(batch);
            (batch.label(), order, scene.filtered(order))
        })
        .collect();
    assert_eq!(
        spans,
        vec![
            ("shadows (1)".to_string(), 1, None),
            ("shadows (2)".to_string(), 3, Some(0)),
            ("shadows (1)".to_string(), 6, None),
        ]
    );
}

#[test]
fn a_layer_without_contents_splits_nothing() {
    let mut scene = Scene::default();
    scene.insert_primitive(shadow(0)); // 1
    open_filter(&mut scene); // 2
    let mut hidden = shadow(0);
    hidden.content_mask = ContentMask::zero();
    scene.insert_primitive(hidden);
    scene.pop_filter(); // 3
    scene.insert_primitive(shadow(0)); // 4
    scene.finish();
    assert_eq!(labels(&scene), vec!["shadows (2)"]);
}

#[test]
fn a_layer_that_was_left_open_splits_nothing() {
    let mut scene = Scene::default();
    scene.insert_primitive(shadow(0));
    open_filter(&mut scene);
    scene.insert_primitive(shadow(0));
    scene.insert_primitive(shadow(0));
    scene.finish();
    assert_eq!(labels(&scene), vec!["shadows (3)"]);
}

#[test]
fn nested_layers_split_at_every_edge() {
    let mut scene = Scene::default();
    open_filter(&mut scene);
    scene.insert_primitive(shadow(0));
    open_filter(&mut scene);
    scene.insert_primitive(shadow(0));
    scene.pop_filter();
    scene.insert_primitive(shadow(0));
    scene.pop_filter();
    scene.finish();
    let chains: Vec<Vec<usize>> = scene
        .batches()
        .into_vec()
        .iter()
        .map(|batch| scene.filter_chain(scene.filtered(scene.batch_order(batch)).unwrap()))
        .collect();
    assert_eq!(chains, vec![vec![0], vec![0, 1], vec![0]]);
}

#[test]
fn every_primitive_is_in_one_batch() {
    let mut scene = Scene::default();
    for i in 0..20 {
        scene.insert_primitive(shadow(i * 3));
        scene.insert_primitive(backdrop(i * 7));
        scene.insert_primitive(glyph(i * 5, (i % 3) as u32, i as u32));
    }
    scene.finish();
    let (mut shadows, mut backdrops, mut glyphs): (usize, usize, usize) = (0, 0, 0);
    let mut last: (DrawOrder, usize) = (0, 0);
    for batch in scene.batches().into_vec() {
        let order = scene.batch_order(&batch);
        let rank: usize = match &batch {
            PrimitiveBatch::Shadows(range) => {
                assert_eq!(range.start, shadows);
                shadows = range.end;
                0
            }
            PrimitiveBatch::Backdrops(range) => {
                assert_eq!(range.start, backdrops);
                backdrops = range.end;
                1
            }
            PrimitiveBatch::MonochromeSprites { range, .. } => {
                assert_eq!(range.start, glyphs);
                glyphs = range.end;
                5
            }
            _ => unreachable!(),
        };
        assert!(last <= (order, rank));
        last = (order, rank);
    }
    assert_eq!((shadows, backdrops, glyphs), (20, 20, 20));
}

#[test]
fn batch_order_is_that_of_the_first_primitive() {
    let mut scene = Scene::default();
    scene.insert_primitive(glyph(0, 0, 0));
    scene.insert_primitive(glyph(0, 0, 0));
    scene.insert_primitive(surface(0));
    scene.finish();
    let sprites = PrimitiveBatch::MonochromeSprites { texture_id: texture(0), range: 1..2 };
    assert_eq!(scene.batch_order(&sprites), 2);
    assert_eq!(scene.batch_order(&PrimitiveBatch::Surfaces(0..1)), 3);
}

#[test]
fn sorting_is_stable() {
    let mut orders: Vec<DrawOrder> = vec![5, 1, 4, 1, 5, 9, 2, 6];
    stable_sort(&mut orders);
    assert_eq!(orders, vec![1, 1, 2, 4, 5, 5, 6, 9]);

    let mut shadows: Vec<Shadow<Fixed>> = Vec::new();
    for (order, inset) in [(2, 0), (1, 1), (2, 2), (1, 3), (0, 4), (1, 5)] {
        shadows.push(Shadow { order, inset, ..shadow(0) });
    }
    stable_sort(&mut shadows);
    let insets: Vec<u32> = shadows.iter().map(|s| s.inset).collect();
    assert_eq!(insets, vec![4, 1, 3, 5, 0, 2]);
}
