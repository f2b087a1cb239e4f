//! Filtered layers, laid out in hardware floating point.

use gpui_scene::filter::{scale_bounds_around, Filter};
use gpui_scene::geometry::{Bounds, Point, Size};
use gpui_scene::scalar::{Coordinate, Scalar, ScaledPixels};
use gpui_scene::scene::Scene;

#[derive(Clone, Copy, Debug)]
struct Real(f32);

impl Coordinate for Real {
    fn zero() -> Self {
        Real(0.0)
    }

    fn plus(self, other: Self) -> Self {
        Real(self.0 + other.0)
    }

    fn minus(self, other: Self) -> Self {
        Real(self.0 - other.0)
    }

    fn less(self, other: Self) -> bool {
        self.0 < other.0
    }

    fn at_most(self, other: Self) -> bool {
        self.0 <= other.0
    }

    fn same(self, other: Self) -> bool {
        self.0 == other.0
    }
}

impl Scalar for Real {
    fn one() -> Self {
        Real(1.0)
    }

    fn half() -> Self {
        Real(0.5)
    }

    fn times(self, other: Self) -> Self {
        Real(self.0 * other.0)
    }

    fn negate(self) -> Self {
        Real(-self.0)
    }

    fn floor(self) -> Self {
        Real(self.0.floor())
    }

    fn ceil(self) -> Self {
        Real(self.0.ceil())
    }
}

fn px(value: f32) -> ScaledPixels<Real> {
    ScaledPixels(Real(value))
}

fn rect(x: f32, y: f32, width: f32, height: f32) -> Bounds<ScaledPixels<Real>> {
    Bounds { origin: origin(x, y), size: Size { width: px(width), height: px(height) } }
}

fn origin(x: f32, y: f32) -> Point<ScaledPixels<Real>> {
    Point { x: px(x), y: px(y) }
}

fn filter(scale: f32) -> Filter<Real> {
    Filter { scale: Real(scale), ..Default::default() }
}

fn center(bounds: Bounds<ScaledPixels<Real>>) -> Point<ScaledPixels<Real>> {
    origin(
        bounds.origin.x.0.0 + bounds.size.width.0.0 / 2.0,
        bounds.origin.y.0.0 + bounds.size.height.0.0 / 2.0,
    )
}

fn centered_at(
    center: Point<ScaledPixels<Real>>,
    size: Size<ScaledPixels<Real>>,
) -> Bounds<ScaledPixels<Real>> {
    Bounds {
        origin: origin(
            center.x.0.0 - size.width.0.0 / 2.0,
            center.y.0.0 - size.height.0.0 / 2.0,
        ),
        size,
    }
}

fn assert_close(actual: f32, expected: f32) {
    assert!((actual - expected).abs() < 0.0001, "expected {expected}, got {actual}");
}

fn assert_bounds_close(actual: Bounds<ScaledPixels<Real>>, expected: Bounds<ScaledPixels<Real>>) {
    assert_close(actual.origin.x.0.0, expected.origin.x.0.0);
    assert_close(actual.origin.y.0.0, expected.origin.y.0.0);
    assert_close(actual.size.width.0.0, expected.size.width.0.0);
    assert_close(actual.size.height.0.0, expected.size.height.0.0);
}

#[test]
fn filter_scale_participates_in_noop_detection() {
    assert!(Filter::<Real>::default().is_noop());
    assert!(filter(1.0).is_noop());
    assert!(!filter(0.99).is_noop());

    let translated: Filter<Real> = Filter { translate: origin(0.25, -0.75), ..Default::default() };
    assert!(!translated.is_noop());
    assert!(translated.transforms());
}

#[test]
fn fractional_translation_moves_only_the_destination() {
    let source = rect(10.0, 20.0, 100.0, 40.0);
    let mut scene = Scene::default();
    scene.push_filter(
        source,
        origin(60.0, 40.0),
        rect(0.0, 0.0, 200.0, 100.0),
        Filter { translate: origin(0.25, -0.75), ..Default::default() },
    );
    scene.pop_filter();

    assert_eq!(scene.effects[0].source_bounds, source);
    assert_bounds_close(scene.effects[0].destination_bounds, rect(10.25, 19.25, 100.0, 40.0));
}

#[test]
fn center_based_scaling_keeps_the_origin_fixed() {
    let source = rect(10.0, 20.0, 100.0, 40.0);
    let transform_origin = origin(60.0, 40.0);
    let destination = scale_bounds_around(source, transform_origin, Real(0.99));

    assert_bounds_close(destination, rect(10.5, 20.2, 99.0, 39.6));
    assert_bounds_close(centered_at(center(destination), destination.size), destination);
    assert_eq!(center(destination), transform_origin);
}

#[test]
fn fractional_scale_preserves_subpixel_destination_bounds() {
    let destination =
        scale_bounds_around(rect(4.25, 8.5, 137.0, 53.0), origin(72.75, 35.0), Real(0.9973));

    assert_close(destination.origin.x.0.0, 4.43495);
    assert_close(destination.origin.y.0.0, 8.57155);
    assert_close(destination.size.width.0.0, 136.6301);
    assert_close(destination.size.height.0.0, 52.8569);
}

#[test]
fn layer_effect_separates_source_destination_and_parent_clip() {
    let source = rect(10.0, 20.0, 100.0, 40.0);
    let content_mask = rect(20.0, 10.0, 80.0, 80.0);
    let mut scene = Scene::default();
    scene.push_filter(source, origin(60.0, 40.0), content_mask, filter(1.1));
    scene.pop_filter();

    let effect = scene.effects[0];
    assert_eq!(effect.source_bounds, source);
    assert_eq!(effect.transform_origin, origin(60.0, 40.0));
    assert_bounds_close(effect.destination_bounds, rect(5.0, 18.0, 110.0, 44.0));
    assert_bounds_close(effect.destination_clip(), rect(20.0, 18.0, 80.0, 44.0));
    assert_eq!(effect.blur_bounds(effect.destination_clip()), source);

    let fractional_span = rect(20.25, 18.75, 79.5, 43.5);
    assert_eq!(
        effect.destination_scissor_bounds(fractional_span),
        rect(20.0, 18.0, 80.0, 45.0)
    );
}

#[test]
fn nested_effects_keep_their_parent_and_geometry() {
    let mut scene = Scene::default();
    scene.push_filter(
        rect(0.0, 0.0, 200.0, 100.0),
        origin(100.0, 50.0),
        rect(0.0, 0.0, 300.0, 200.0),
        filter(0.99),
    );
    scene.push_filter(
        rect(20.0, 10.0, 50.0, 30.0),
        origin(45.0, 25.0),
        rect(0.0, 0.0, 200.0, 100.0),
        filter(0.9973),
    );
    scene.pop_filter();
    scene.pop_filter();

    assert_eq!(scene.effects[0].parent, None);
    assert_eq!(scene.effects[1].parent, Some(0));
    assert_eq!(scene.filter_chain(1), vec![0, 1]);
    assert_eq!(scene.effects[1].transform_origin, origin(45.0, 25.0));
}

#[test]
fn scene_replay_restores_scaled_layer_effects() {
    let mut previous = Scene::default();
    previous.push_filter(
        rect(10.0, 20.0, 100.0, 40.0),
        origin(60.0, 40.0),
        rect(0.0, 0.0, 120.0, 80.0),
        Filter {
            blur: Real(3.0),
            fade_top: Real(2.0),
            scale: Real(0.9973),
            ..Default::default()
        },
    );
    previous.pop_filter();

    let mut replayed = Scene::default();
    replayed.replay(0..previous.len(), &previous);

    assert_eq!(replayed.effects, previous.effects);
}

#[test]
fn transformed_sibling_layers_cannot_merge() {
    let bounds = rect(0.0, 0.0, 100.0, 50.0);
    let content_mask = rect(0.0, 0.0, 500.0, 500.0);
    let mut scene = Scene::default();
    scene.push_filter(bounds, origin(50.0, 25.0), content_mask, filter(0.99));
    scene.pop_filter();
    scene.push_filter(bounds, origin(150.0, 25.0), content_mask, filter(0.99));
    scene.pop_filter();

    assert!(!scene.effects[0].can_merge_with(&scene.effects[1]));

    let mut unscaled = scene.effects;
    unscaled[0].filter.scale = Real(1.0);
    unscaled[1].filter.scale = Real(1.0);
    assert!(unscaled[0].can_merge_with(&unscaled[1]));
}

#[test]
fn noop_needs_blur_fades_and_transform_to_be_off() {
    assert!(Filter::<Real> { blur: Real(-1.0), ..Default::default() }.is_noop());
    let blurred: Filter<Real> = Filter { blur: Real(0.5), ..Default::default() };
    assert!(!blurred.is_noop());
    assert!(blurred.blurs());
    assert!(!blurred.fades());
    assert!(!blurred.transforms());
    let not_a_number: Filter<Real> = Filter { blur: Real(f32::NAN), ..Default::default() };
    assert!(!not_a_number.is_noop());
    assert!(!not_a_number.blurs());
}

#[test]
fn each_edge_can_fade() {
    let none: Filter<Real> = Filter::default();
    assert!(!none.fades());
    assert!(Filter { fade_top: Real(1.0), ..none }.fades());
    assert!(Filter { fade_bottom: Real(1.0), ..none }.fades());
    assert!(Filter { fade_left: Real(1.0), ..none }.fades());
    assert!(Filter { fade_right: Real(1.0), ..none }.fades());
    assert!(!Filter { fade_right: Real(-1.0), ..none }.fades());
    assert!(!Filter { fade_top: Real(1.0), ..none }.is_noop());
}

#[test]
fn a_fading_layer_is_not_merged_into_the_one_before() {
    let bounds = rect(0.0, 0.0, 10.0, 10.0);
    let faded = Filter { fade_left: Real(2.0), ..Default::default() };
    let mut scene = Scene::default();
    scene.push_filter(bounds, origin(5.0, 5.0), bounds, faded);
    scene.pop_filter();
    scene.push_filter(bounds, origin(5.0, 5.0), bounds, faded);
    scene.pop_filter();
    scene.push_filter(bounds, origin(5.0, 5.0), bounds, Filter::default());
    scene.pop_filter();
    scene.push_filter(bounds, origin(5.0, 5.0), bounds, Filter::default());
    scene.push_filter(bounds, origin(5.0, 5.0), bounds, Filter::default());
    scene.pop_filter();
    scene.pop_filter();

    assert!(!scene.effects[0].can_merge_with(&scene.effects[1]));
    assert!(!scene.effects[1].can_merge_with(&scene.effects[2]));
    assert!(scene.effects[2].can_merge_with(&scene.effects[3]));
    assert!(!scene.effects[3].can_merge_with(&scene.effects[4]));
}

#[test]
fn an_untransformed_layer_keeps_its_span() {
    let bounds = rect(1.5, 2.5, 10.25, 4.75);
    let mut scene = Scene::default();
    scene.push_filter(
        bounds,
        origin(5.0, 5.0),
        bounds,
        Filter { blur: Real(2.0), ..Default::default() },
    );
    scene.pop_filter();

    let effect = scene.effects[0];
    assert_eq!(effect.destination_bounds, bounds);
    let span = rect(2.25, 3.25, 1.5, 1.5);
    assert_eq!(effect.destination_scissor_bounds(span), span);
    assert_eq!(effect.blur_bounds(span), span);
}

#[test]
fn merging_is_the_same_both_ways() {
    let bounds = rect(0.0, 0.0, 10.0, 10.0);
    let faded = Filter { fade_left: Real(2.0), ..Default::default() };
    let blurred = Filter { blur: Real(2.0), ..Default::default() };
    let mut scene = Scene::default();
    for filter in [Filter::default(), blurred, blurred, faded, filter(0.5), Filter::default()] {
        scene.push_filter(bounds, origin(5.0, 5.0), bounds, filter);
        scene.pop_filter();
    }
    for a in &scene.effects {
        for b in &scene.effects {
            assert_eq!(a.can_merge_with(b), b.can_merge_with(a));
        }
    }
    assert!(scene.effects[1].can_merge_with(&scene.effects[2]));
    assert!(scene.effects[0].can_merge_with(&scene.effects[5]));
}

#[test]
fn scissors_are_whole_and_no_larger_than_needed() {
    let bounds = rect(0.0, 0.0, 10.0, 10.0);
    let mut scene = Scene::default();
    scene.push_filter(bounds, origin(5.0, 5.0), bounds, filter(0.5));
    scene.pop_filter();
    let effect = scene.effects[0];
    let scissor = effect.destination_scissor_bounds(rect(-1.5, 2.0, 3.25, 0.75));
    assert_eq!(scissor, rect(-2.0, 2.0, 4.0, 1.0));
    assert_eq!(effect.destination_scissor_bounds(scissor), scissor);
}

#[test]
fn noop_is_neither_blur_nor_fade_nor_transform() {
    for filter in [
        Filter::default(),
        filter(2.0),
        Filter { blur: Real(1.0), ..Default::default() },
        Filter { blur: Real(-1.0), ..Default::default() },
        Filter { fade_bottom: Real(1.0), ..Default::default() },
        Filter { translate: origin(1.0, 0.0), ..Default::default() },
    ] {
        assert_eq!(
            filter.is_noop(),
            !(filter.blurs() || filter.fades() || filter.transforms())
        );
    }
}

#[test]
fn scaling_around_a_point_leaves_it_in_place() {
    let point = origin(7.5, -3.25);
    let nothing = Bounds::at(point);
    assert_eq!(scale_bounds_around(nothing, point, Real(1.75)), nothing);
    let bounds = rect(4.0, 8.0, 16.0, 32.0);
    assert_eq!(scale_bounds_around(bounds, origin(3.0, 5.0), Real(1.0)), bounds);
    assert_eq!(
        scale_bounds_around(bounds, origin(12.0, 24.0), Real(0.5)),
        rect(8.0, 16.0, 8.0, 16.0)
    );
}
