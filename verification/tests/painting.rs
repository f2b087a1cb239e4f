//! Painting, ordering, replaying and finishing scenes.

use gpui_scene::atlas::{AtlasTextureId, AtlasTextureKind, AtlasTile, TileId};
use gpui_scene::bounds_tree::{BoundsTree, DrawOrder};
use gpui_scene::color::{Background, Hsla};
use gpui_scene::filter::Filter;
use gpui_scene::fixed::Fixed;
use gpui_scene::geometry::{Bounds, ContentMask, Corners, Edges, Point, Size};
use gpui_scene::path::Path;
use gpui_scene::primitive::{
    Backdrop, BorderStyle, MonochromeSprite, PaddedBool32, PaintSurface, PolychromeSprite,
    Primitive, Quad, Shadow, SubpixelSprite, Underline,
};
use gpui_scene::scalar::{Coordinate, DevicePixels, Pixels, Scalar, ScaledPixels};
use gpui_scene::scene::Scene;
use gpui_scene::transform::TransformationMatrix;

fn px(value: i16) -> ScaledPixels<Fixed> {
    ScaledPixels(Fixed::whole(value))
}

fn at(x: i16, y: i16) -> Point<ScaledPixels<Fixed>> {
    Point { x: px(x), y: px(y) }
}

fn rect(x: i16, y: i16, width: i16, height: i16) -> Bounds<ScaledPixels<Fixed>> {
    Bounds { origin: at(x, y), size: Size { width: px(width), height: px(height) } }
}

fn everything() -> ContentMask<ScaledPixels<Fixed>> {
    ContentMask { bounds: rect(0, 0, 1000, 1000) }
}

fn quad(bounds: Bounds<ScaledPixels<Fixed>>) -> Quad<Fixed> {
    let zero = ScaledPixels(Fixed::zero());
    Quad {
        order: 77,
        border_style: BorderStyle::default(),
        bounds,
        content_mask: everything(),
        background: Background::transparent(),
        border_color: Hsla::transparent(),
        corner_radii: Corners::zero(),
        border_widths: Edges { top: zero, right: zero, bottom: zero, left: zero },
    }
}

fn shadow(bounds: Bounds<ScaledPixels<Fixed>>) -> Shadow<Fixed> {
    Shadow {
        order: 0,
        blur_radius: px(2),
        bounds,
        corner_radii: Corners::zero(),
        content_mask: everything(),
        color: Hsla::transparent(),
        element_bounds: bounds,
        element_corner_radii: Corners::zero(),
        inset: 0,
        pad: 0,
    }
}

fn underline(bounds: Bounds<ScaledPixels<Fixed>>) -> Underline<Fixed> {
    Underline {
        order: 0,
        pad: 0,
        bounds,
        content_mask: everything(),
        color: Hsla::transparent(),
        thickness: px(1),
        wavy: PaddedBool32::from(true),
    }
}

fn tile(index: u32, tile_id: u32) -> AtlasTile {
    let zero = DevicePixels(0);
    AtlasTile {
        texture_id: AtlasTextureId { index, kind: AtlasTextureKind::Monochrome },
        tile_id: TileId(tile_id),
        padding: 0,
        bounds: Bounds {
            origin: Point { x: zero, y: zero },
            size: Size { width: zero, height: zero },
        },
    }
}

fn glyph(bounds: Bounds<ScaledPixels<Fixed>>, tile_id: u32) -> MonochromeSprite<Fixed> {
    MonochromeSprite {
        order: 0,
        pad: 0,
        bounds,
        content_mask: everything(),
        color: Hsla::transparent(),
        tile: tile(0, tile_id),
        transformation: TransformationMatrix::unit(),
    }
}

fn path(bounds: Bounds<ScaledPixels<Fixed>>) -> Path<ScaledPixels<Fixed>, Fixed> {
    let start = Point { x: Pixels(bounds.origin.x.0), y: Pixels(bounds.origin.y.0) };
    let mut path = Path::new(start).scale(Fixed::one());
    path.bounds = bounds;
    path.content_mask = everything();
    path
}

fn open_filter(scene: &mut Scene<Fixed>) {
    scene.push_filter(rect(0, 0, 100, 100), at(50, 50), rect(0, 0, 500, 500), Filter::default());
}

#[test]
fn overlapping_primitives_stack_and_others_share() {
    let mut scene = Scene::default();
    scene.insert_primitive(quad(rect(0, 0, 10, 10)));
    scene.insert_primitive(quad(rect(20, 0, 10, 10)));
    scene.insert_primitive(quad(rect(5, 5, 10, 10)));
    scene.insert_primitive(quad(rect(10, 0, 10, 5)));
    let orders: Vec<DrawOrder> = scene.quads.iter().map(|q| q.order).collect();
    assert_eq!(orders, vec![1, 1, 2, 1]);
}

#[test]
fn what_is_painted_later_over_the_same_area_is_drawn_later() {
    let mut scene = Scene::default();
    scene.insert_primitive(quad(rect(0, 0, 10, 10)));
    scene.insert_primitive(shadow(rect(50, 50, 10, 10)));
    open_filter(&mut scene);
    scene.insert_primitive(quad(rect(0, 0, 10, 10)));
    scene.pop_filter();
    scene.insert_primitive(underline(rect(0, 9, 10, 1)));
    assert!(scene.quads[0].order < scene.quads[1].order);
    assert!(scene.quads[1].order < scene.underlines[0].order);
}

#[test]
fn hidden_primitives_are_dropped() {
    let mut scene = Scene::default();
    let mut hidden = quad(rect(0, 0, 10, 10));
    hidden.content_mask = ContentMask { bounds: rect(10, 0, 10, 10) };
    scene.insert_primitive(hidden);
    hidden.content_mask = ContentMask::zero();
    scene.insert_primitive(hidden);
    scene.insert_primitive(quad(rect(5, 5, 0, 10)));
    assert_eq!(scene.len(), 0);
    assert!(scene.quads.is_empty());
    assert_eq!(scene.orders_left(), DrawOrder::MAX - 1);

    let mut partly = quad(rect(0, 0, 10, 10));
    partly.content_mask = ContentMask { bounds: rect(9, 9, 10, 10) };
    scene.insert_primitive(partly);
    assert_eq!(scene.len(), 1);
    assert_eq!(scene.orders_left(), DrawOrder::MAX - 2);
}

#[test]
fn clipping_decides_what_overlaps() {
    let mut scene = Scene::default();
    let mut left = quad(rect(0, 0, 100, 100));
    left.content_mask = ContentMask { bounds: rect(0, 0, 50, 100) };
    let mut right = quad(rect(0, 0, 100, 100));
    right.content_mask = ContentMask { bounds: rect(50, 0, 50, 100) };
    scene.insert_primitive(left);
    scene.insert_primitive(right);
    assert_eq!(scene.quads[0].order, scene.quads[1].order);
}

#[test]
fn stacking_layers_share_one_order() {
    let mut scene = Scene::default();
    scene.insert_primitive(quad(rect(0, 0, 10, 10)));
    scene.push_layer(rect(0, 0, 10, 10));
    scene.insert_primitive(quad(rect(0, 0, 10, 10)));
    scene.insert_primitive(shadow(rect(0, 0, 10, 10)));
    scene.push_layer(rect(0, 0, 5, 5));
    scene.insert_primitive(quad(rect(0, 0, 10, 10)));
    scene.pop_layer();
    scene.insert_primitive(underline(rect(0, 0, 10, 10)));
    scene.pop_layer();
    scene.insert_primitive(quad(rect(0, 0, 10, 10)));
    assert_eq!(scene.quads[1].order, 2);
    assert_eq!(scene.shadows[0].order, 2);
    assert_eq!(scene.quads[2].order, 3);
    assert_eq!(scene.underlines[0].order, 2);
    assert_eq!(scene.quads[3].order, 4);
    assert_eq!(scene.len(), 10);
}

#[test]
fn ending_a_layer_that_never_started_is_recorded_only() {
    let mut scene: Scene<Fixed> = Scene::default();
    scene.pop_layer();
    scene.pop_filter();
    assert_eq!(scene.len(), 2);
    assert!(scene.effects.is_empty());
    assert_eq!(scene.orders_left(), DrawOrder::MAX - 1);
}

#[test]
fn a_filtered_layer_owns_its_orders() {
    let mut scene = Scene::default();
    scene.insert_primitive(quad(rect(0, 0, 10, 10)));
    open_filter(&mut scene);
    scene.insert_primitive(quad(rect(0, 0, 10, 10)));
    scene.push_layer(rect(0, 0, 10, 10));
    scene.insert_primitive(quad(rect(200, 200, 10, 10)));
    scene.pop_layer();
    scene.insert_primitive(quad(rect(300, 300, 10, 10)));
    scene.pop_filter();
    scene.insert_primitive(quad(rect(400, 400, 10, 10)));

    let layer = scene.effects[0];
    let orders: Vec<DrawOrder> = scene.quads.iter().map(|q| q.order).collect();
    assert_eq!((layer.start, layer.end), (2, 5));
    assert_eq!(orders, vec![1, 3, 4, 3, 6]);
}

#[test]
fn a_filtered_layer_in_a_stacking_layer_holds_its_contents() {
    let mut scene = Scene::default();
    scene.push_layer(rect(0, 0, 10, 10)); // 1
    scene.insert_primitive(quad(rect(0, 0, 10, 10)));
    assert_eq!(scene.layer_order(), Some(1));
    open_filter(&mut scene); // 2
    assert_eq!(scene.layer_order(), None);
    scene.insert_primitive(quad(rect(0, 0, 10, 10))); // 3
    scene.push_layer(rect(0, 0, 10, 10)); // 4
    scene.insert_primitive(quad(rect(0, 0, 10, 10)));
    assert_eq!(scene.layer_order(), Some(4));
    open_filter(&mut scene); // 5
    scene.insert_primitive(quad(rect(0, 0, 10, 10))); // 6
    scene.pop_filter(); // 7
    scene.insert_primitive(quad(rect(0, 0, 10, 10)));
    scene.pop_layer();
    scene.insert_primitive(quad(rect(0, 0, 10, 10))); // 8
    scene.pop_filter(); // 9
    scene.insert_primitive(quad(rect(0, 0, 10, 10)));
    scene.pop_layer();

    let layer = scene.effects[0];
    assert_eq!((layer.start, layer.end), (2, 9));
    let placed: Vec<(DrawOrder, Option<usize>)> =
        scene.quads.iter().map(|q| (q.order, scene.filtered(q.order))).collect();
    assert_eq!(
        placed,
        vec![
            (1, None),
            (3, Some(0)),
            (4, Some(0)),
            (6, Some(1)),
            (4, Some(0)),
            (8, Some(0)),
            (1, None),
        ]
    );
}

#[test]
fn layers_may_open_at_the_same_order() {
    let mut scene: Scene<Fixed> = Scene::default();
    open_filter(&mut scene);
    open_filter(&mut scene);
    open_filter(&mut scene);
    scene.effects[0].start = 3;
    scene.effects[0].end = 9;
    scene.effects[1].start = 3;
    scene.effects[1].end = 6;
    scene.effects[2].start = 3;
    scene.effects[2].end = 4;
    let found: Vec<Option<usize>> = (2..10).map(|order| scene.filtered(order)).collect();
    assert_eq!(
        found,
        vec![None, Some(2), Some(1), Some(1), Some(0), Some(0), Some(0), None]
    );
}

#[test]
fn contents_order_the_way_they_would_anywhere_else() {
    let contents = [rect(0, 0, 10, 10), rect(5, 5, 10, 10), rect(50, 50, 1, 1), rect(9, 9, 45, 45)];
    let mut alone = Scene::default();
    for bounds in contents {
        alone.insert_primitive(quad(bounds));
    }
    let mut scene = Scene::default();
    scene.insert_primitive(quad(rect(0, 0, 10, 10)));
    open_filter(&mut scene);
    for bounds in contents {
        scene.insert_primitive(quad(bounds));
    }
    scene.pop_filter();
    for i in 0..contents.len() {
        assert_eq!(scene.quads[i + 1].order, alone.quads[i].order + scene.effects[0].start);
    }
}

#[test]
fn filtered_finds_the_innermost_layer() {
    let mut scene = Scene::default();
    open_filter(&mut scene); // 1 .. 8
    scene.insert_primitive(quad(rect(0, 0, 10, 10))); // 2
    open_filter(&mut scene); // 3 .. 5
    scene.insert_primitive(quad(rect(0, 0, 10, 10))); // 4
    scene.pop_filter();
    open_filter(&mut scene); // 6 .. 7
    scene.pop_filter();
    scene.pop_filter();
    let found: Vec<Option<usize>> = (0..10).map(|order| scene.filtered(order)).collect();
    assert_eq!(
        found,
        vec![
            None,
            Some(0),
            Some(0),
            Some(1),
            Some(1),
            Some(0),
            Some(2),
            Some(0),
            None,
            None
        ]
    );
    assert_eq!(scene.filtered(DrawOrder::MAX), None);
}

#[test]
fn chains_run_from_the_outside_in() {
    let mut scene: Scene<Fixed> = Scene::default();
    open_filter(&mut scene);
    open_filter(&mut scene);
    scene.pop_filter();
    for _ in 0..5 {
        open_filter(&mut scene);
    }
    assert_eq!(scene.filter_chain(0), vec![0]);
    assert_eq!(scene.filter_chain(1), vec![0, 1]);
    assert_eq!(scene.filter_chain(4), vec![0, 2, 3, 4]);
    assert_eq!(scene.filter_chain(6), vec![0, 2, 3, 4, 5, 6]);
    assert_eq!(scene.filter_chain_small(3).into_vec(), vec![0, 2, 3]);
    assert_eq!(scene.filter_chain_small(6).into_vec(), vec![0, 2, 3, 4, 5, 6]);
    let small = scene.filter_chain_small(6);
    let walked: Vec<usize> = (0..small.len()).map(|i| small.get(i)).collect();
    assert_eq!(walked, vec![0, 2, 3, 4, 5, 6]);
    assert_eq!(scene.filter_chain_small(0).len(), 1);
    let chain = scene.filter_chain(5);
    assert_eq!(scene.effects[chain[0]].parent, None);
    for link in chain.windows(2) {
        assert_eq!(scene.effects[link[1]].parent, Some(link[0]));
    }
}

#[test]
fn finishing_empties_layers_that_were_left_open() {
    let mut scene = Scene::default();
    open_filter(&mut scene);
    scene.insert_primitive(quad(rect(0, 0, 10, 10)));
    open_filter(&mut scene);
    scene.pop_filter();
    open_filter(&mut scene);
    scene.insert_primitive(quad(rect(0, 0, 10, 10)));
    assert_eq!(scene.effects[0].end, DrawOrder::MAX);
    assert_eq!(scene.filtered(2), Some(0));
    let closed = scene.effects[1];
    scene.finish();
    assert_eq!(scene.effects[0].end, scene.effects[0].start);
    assert_eq!(scene.effects[1], closed);
    assert_eq!(scene.effects[2].end, scene.effects[2].start);
    assert_eq!(scene.filtered(2), None);
    assert!(scene.effect_stack.is_empty());
}

#[test]
fn layers_put_in_by_hand_can_be_finished() {
    let mut made: Scene<Fixed> = Scene::default();
    open_filter(&mut made);
    open_filter(&mut made);
    let mut scene: Scene<Fixed> = Scene::default();
    scene.effects.push(made.effects[1]);
    scene.effects.push(made.effects[0]);
    scene.effect_stack.push(1);
    scene.pop_layer();
    scene.finish();
    assert_eq!(scene.effects[0], made.effects[1]);
    assert_eq!(scene.effects[1].end, scene.effects[1].start);
}

#[test]
fn painting_can_go_on_after_finishing() {
    let mut scene = Scene::default();
    open_filter(&mut scene); // 1
    scene.insert_primitive(quad(rect(0, 0, 10, 10))); // 2
    open_filter(&mut scene); // 3
    scene.insert_primitive(quad(rect(0, 0, 10, 10))); // 4
    scene.pop_filter(); // 5
    scene.finish();
    assert_eq!(scene.filtered(2), None);
    assert_eq!(scene.filtered(4), Some(1));
    assert_eq!(scene.filter_chain(1), vec![0, 1]);
    open_filter(&mut scene); // 6
    scene.insert_primitive(quad(rect(0, 0, 10, 10))); // 7
    scene.pop_filter();
    scene.finish();
    assert_eq!(scene.quads[2].order, 7);
    assert_eq!(scene.filtered(7), Some(2));
    assert_eq!(scene.filter_chain(2), vec![2]);
}

#[test]
fn finishing_sorts_by_order_and_keeps_the_rest_in_place() {
    let mut scene = Scene::default();
    // Orders 1, 2, 1, 2, in painting order; the widths tell the quads apart.
    scene.insert_primitive(quad(rect(0, 0, 1, 10)));
    scene.insert_primitive(quad(rect(0, 0, 2, 10)));
    scene.insert_primitive(quad(rect(100, 0, 3, 10)));
    scene.insert_primitive(quad(rect(100, 0, 4, 10)));
    scene.finish();
    let widths: Vec<ScaledPixels<Fixed>> =
        scene.quads.iter().map(|q| q.bounds.size.width).collect();
    assert_eq!(widths, vec![px(1), px(3), px(2), px(4)]);
}

#[test]
fn finishing_sorts_sprites_by_tile_within_an_order() {
    let mut scene = Scene::default();
    scene.insert_primitive(glyph(rect(0, 0, 1, 10), 9));
    scene.insert_primitive(glyph(rect(20, 0, 2, 10), 4));
    scene.insert_primitive(glyph(rect(40, 0, 3, 10), 9));
    scene.insert_primitive(glyph(rect(0, 0, 4, 10), 1));
    scene.insert_primitive(glyph(rect(60, 0, 5, 10), 4));
    scene.finish();
    let widths: Vec<ScaledPixels<Fixed>> =
        scene.monochrome_sprites.iter().map(|s| s.bounds.size.width).collect();
    assert_eq!(widths, vec![px(2), px(5), px(1), px(3), px(4)]);
}

#[test]
fn paths_are_numbered_in_painting_order() {
    let mut scene = Scene::default();
    scene.insert_primitive(path(rect(0, 0, 10, 10)));
    scene.insert_primitive(path(rect(0, 0, 10, 10)));
    scene.insert_primitive(path(rect(50, 0, 10, 10)));
    scene.finish();
    let numbers: Vec<(usize, DrawOrder)> = scene.paths.iter().map(|p| (p.id.0, p.order)).collect();
    assert_eq!(numbers, vec![(0, 1), (2, 1), (1, 2)]);
}

#[test]
fn replaying_everything_makes_the_same_scene() {
    let mut previous = Scene::default();
    previous.insert_primitive(quad(rect(0, 0, 10, 10)));
    open_filter(&mut previous);
    previous.push_layer(rect(0, 0, 20, 20));
    previous.insert_primitive(path(rect(5, 5, 10, 10)));
    previous.insert_primitive(glyph(rect(5, 5, 10, 10), 3));
    previous.pop_layer();
    previous.insert_primitive(shadow(rect(5, 5, 10, 10)));
    previous.pop_filter();
    previous.insert_primitive(underline(rect(5, 5, 10, 10)));
    previous.finish();

    let mut replayed = Scene::default();
    replayed.replay(0..previous.len(), &previous);
    replayed.finish();
    assert_eq!(replayed.len(), previous.len());
    assert_eq!(replayed.effects, previous.effects);
    assert_eq!(replayed.quads[0].order, previous.quads[0].order);
    assert_eq!(replayed.paths[0].order, previous.paths[0].order);
    assert_eq!(replayed.paths[0].id, previous.paths[0].id);
    assert_eq!(replayed.monochrome_sprites[0].order, previous.monochrome_sprites[0].order);
    assert_eq!(replayed.shadows[0].order, previous.shadows[0].order);
    assert_eq!(replayed.underlines[0].order, previous.underlines[0].order);
    assert_eq!(replayed.orders_left(), previous.orders_left());
}

#[test]
fn replaying_a_range_goes_on_from_what_is_there() {
    let mut previous = Scene::default();
    previous.insert_primitive(quad(rect(0, 0, 10, 10)));
    previous.insert_primitive(quad(rect(0, 0, 20, 20)));
    previous.insert_primitive(quad(rect(0, 0, 30, 30)));

    let mut scene = Scene::default();
    scene.insert_primitive(shadow(rect(0, 0, 10, 10)));
    scene.insert_primitive(shadow(rect(0, 0, 10, 10)));
    scene.replay(1..2, &previous);
    scene.replay(2..2, &previous);
    assert_eq!(scene.len(), 3);
    assert_eq!(scene.quads.len(), 1);
    assert_eq!(scene.quads[0].order, 3);
    assert_eq!(scene.quads[0].bounds, rect(0, 0, 20, 20));
}

#[test]
fn clearing_starts_over() {
    let mut scene = Scene::default();
    open_filter(&mut scene);
    scene.push_layer(rect(0, 0, 10, 10));
    scene.insert_primitive(quad(rect(0, 0, 10, 10)));
    scene.insert_primitive(path(rect(0, 0, 10, 10)));
    scene.clear();
    assert_eq!(scene.len(), 0);
    assert!(scene.quads.is_empty() && scene.paths.is_empty() && scene.effects.is_empty());
    assert!(scene.layer_stack.is_empty() && scene.effect_stack.is_empty());
    assert_eq!(scene.orders_left(), DrawOrder::MAX - 1);
    scene.insert_primitive(quad(rect(0, 0, 10, 10)));
    assert_eq!(scene.quads[0].order, 1);
}

#[test]
fn every_kind_of_primitive_is_kept_with_its_own() {
    let bounds = rect(0, 0, 10, 10);
    let mut scene = Scene::default();
    scene.insert_primitive(shadow(bounds));
    scene.insert_primitive(Backdrop { bounds, content_mask: everything(), ..Backdrop::default() });
    scene.insert_primitive(quad(bounds));
    scene.insert_primitive(path(bounds));
    scene.insert_primitive(underline(bounds));
    scene.insert_primitive(glyph(bounds, 1));
    scene.insert_primitive(SubpixelSprite {
        order: 0,
        pad: 0,
        bounds,
        content_mask: everything(),
        color: Hsla::transparent(),
        tile: tile(0, 1),
        transformation: TransformationMatrix::unit(),
    });
    scene.insert_primitive(PolychromeSprite {
        order: 0,
        pad: 0,
        grayscale: PaddedBool32::from(false),
        opacity: Fixed::one(),
        bounds,
        content_mask: everything(),
        corner_radii: Corners::zero(),
        tile: tile(0, 1),
    });
    scene.insert_primitive(Primitive::from(PaintSurface {
        order: 0,
        bounds,
        content_mask: everything(),
    }));
    assert_eq!(scene.shadows[0].order, 1);
    assert_eq!(scene.backdrops[0].order, 2);
    assert_eq!(scene.quads[0].order, 3);
    assert_eq!(scene.paths[0].order, 4);
    assert_eq!(scene.underlines[0].order, 5);
    assert_eq!(scene.monochrome_sprites[0].order, 6);
    assert_eq!(scene.subpixel_sprites[0].order, 7);
    assert_eq!(scene.polychrome_sprites[0].order, 8);
    assert_eq!(scene.surfaces[0].order, 9);
    assert_eq!(scene.len(), 9);
}

#[test]
fn primitives_tell_their_bounds_and_mask() {
    let bounds = rect(1, 2, 3, 4);
    let primitive = Primitive::from(quad(bounds));
    assert_eq!(*primitive.bounds(), bounds);
    assert_eq!(primitive.content_mask().bounds, everything().bounds);
    let copy = Primitive::from(path(bounds)).clone();
    assert_eq!(*copy.bounds(), bounds);
}

#[test]
fn barriers_keep_earlier_and_later_rectangles_apart() {
    let mut tree = BoundsTree::new();
    assert_eq!(tree.insert(rect(0, 0, 10, 10)), 1);
    assert_eq!(tree.insert(rect(5, 0, 10, 10)), 2);
    assert_eq!(tree.barrier(), 3);
    assert_eq!(tree.insert(rect(100, 0, 10, 10)), 4);
    assert_eq!(tree.barrier(), 5);
    assert_eq!(tree.barrier(), 6);
    assert_eq!(tree.insert(rect(0, 0, 10, 10)), 7);
    assert_eq!(tree.orders_left(), DrawOrder::MAX - 8);
    tree.clear();
    assert_eq!(tree.insert(rect(0, 0, 10, 10)), 1);
}

#[test]
fn no_step_takes_more_than_one_order() {
    let mut scene = Scene::default();
    let mut left = scene.orders_left();
    for step in 0..8 {
        match step {
            0 => scene.push_layer(rect(0, 0, 10, 10)),
            1 => scene.insert_primitive(quad(rect(0, 0, 10, 10))),
            2 => scene.pop_layer(),
            3 => open_filter(&mut scene),
            4 | 5 => scene.insert_primitive(quad(rect(0, 0, 10, 10))),
            6 => scene.pop_filter(),
            _ => scene.pop_filter(),
        }
        assert!(left - scene.orders_left() <= 1);
        left = scene.orders_left();
    }
    assert_eq!(left, DrawOrder::MAX - 6);
}

#[test]
fn a_primitive_goes_in_as_it_is() {
    let mut scene = Scene::default();
    scene.insert_primitive(Primitive::from(quad(rect(1, 2, 3, 4))));
    assert_eq!(scene.quads[0].bounds, rect(1, 2, 3, 4));
    assert_eq!(scene.quads[0].order, 1);
}

#[test]
fn booleans_are_stored_as_words() {
    assert_eq!(PaddedBool32::from(true).to_word(), 1);
    assert_eq!(PaddedBool32::from(false).to_word(), 0);
    assert_eq!(PaddedBool32::default(), PaddedBool32::from(false));
}
