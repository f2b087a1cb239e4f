//! Numbers, geometry, paths, transformations, and the choice of a platform.

use gpui_scene::decimal::append_decimal;
use gpui_scene::fixed::Fixed;
use gpui_scene::geometry::{Bounds, ContentMask, Point, Size};
use gpui_scene::path::{Path, PathId};
use gpui_scene::platform::{
    application, background_executor, current_headless_renderer, current_platform, headless,
    Backend, Backends, HeadlessRenderer, PlatformChoice, TargetOs,
};
use gpui_scene::primitive::{Backdrop, BorderStyle};
use gpui_scene::scalar::{Coordinate, Pixels, Scalar, ScaledPixels};
use gpui_scene::transform::TransformationMatrix;
use gpui_scene::whole::Whole;

fn whole(value: i16) -> Fixed {
    Fixed::whole(value)
}

fn at(x: i16, y: i16) -> Point<Pixels<Fixed>> {
    Point { x: Pixels(whole(x)), y: Pixels(whole(y)) }
}

fn rect(x: i16, y: i16, width: i16, height: i16) -> Bounds<Pixels<Fixed>> {
    Bounds {
        origin: at(x, y),
        size: Size { width: Pixels(whole(width)), height: Pixels(whole(height)) },
    }
}

#[test]
fn fixed_point_arithmetic() {
    assert_eq!(Fixed::whole(3), Fixed(192));
    assert_eq!(Fixed::zero(), Fixed(0));
    assert_eq!(Fixed::one(), Fixed(64));
    assert_eq!(Fixed::half(), Fixed(32));
    assert_eq!(Fixed(100).plus(Fixed(-30)), Fixed(70));
    assert_eq!(Fixed(100).minus(Fixed(130)), Fixed(-30));
    assert_eq!(Fixed(i32::MAX).plus(Fixed(1)), Fixed(i32::MIN));
    assert_eq!(Fixed(96).times(Fixed(96)), Fixed(144));
    assert_eq!(Fixed(1).times(Fixed(63)), Fixed(0));
    assert_eq!(Fixed(-1).times(Fixed(63)), Fixed(-1));
    assert_eq!(Fixed(96).negate(), Fixed(-96));
    assert_eq!(Fixed(100).floor(), Fixed(64));
    assert_eq!(Fixed(-100).floor(), Fixed(-128));
    assert_eq!(Fixed(100).ceil(), Fixed(128));
    assert_eq!(Fixed(-100).ceil(), Fixed(-64));
    assert_eq!(Fixed(128).ceil(), Fixed(128));
    assert!(Fixed(1).less(Fixed(2)) && !Fixed(2).less(Fixed(2)));
    assert!(Fixed(2).at_most(Fixed(2)) && !Fixed(3).at_most(Fixed(2)));
    assert!(Fixed(2).same(Fixed(2)) && !Fixed(3).same(Fixed(2)));
}

#[test]
fn fixed_point_differences_cancel() {
    for (x, y) in [(5, -9), (i32::MAX, -2), (i32::MIN, 7)] {
        let (x, y) = (Fixed(x), Fixed(y));
        assert_eq!(x.minus(x), Fixed::zero());
        assert_eq!(x.plus(y.minus(x)), y);
        assert_eq!(x.plus(y).minus(x), y);
        assert_eq!(x.plus(Fixed::zero()), x);
        assert_eq!(x.times(Fixed::one()), x);
        assert_eq!(Fixed::zero().times(x), Fixed::zero());
    }
}

#[test]
fn whole_numbers_compute_exactly() {
    assert_eq!((Whole::zero(), Whole::one(), Whole::half()), (Whole(0), Whole(1), Whole(0)));
    assert_eq!(Whole(7).times(Whole(-6)), Whole(-42));
    assert_eq!(Whole(i32::MAX).plus(Whole(1)), Whole(i32::MIN));
    assert_eq!(Whole(i32::MIN).minus(Whole(1)), Whole(i32::MAX));
    assert_eq!(Whole(0x1_0000).times(Whole(0x1_0000)), Whole(0));
    assert_eq!(Whole(5).negate(), Whole(-5));
    assert_eq!((Whole(-3).floor(), Whole(-3).ceil()), (Whole(-3), Whole(-3)));
    assert!(Whole(1).less(Whole(2)) && !Whole(2).less(Whole(2)));
    assert!(Whole(2).at_most(Whole(2)) && Whole(2).same(Whole(2)) && !Whole(1).same(Whole(2)));
    for (x, y, z) in [(3, -5, 7), (i32::MAX, i32::MIN, 3), (123_456_789, -987_654_321, 55)] {
        let (x, y, z) = (Whole(x), Whole(y), Whole(z));
        assert_eq!(x.times(y).times(z), x.times(y.times(z)));
        assert_eq!(x.times(y.plus(z)), x.times(y).plus(x.times(z)));
    }
    let turn = TransformationMatrix::<Whole>::unit().rotate(Whole(0), Whole(1));
    let stretch = TransformationMatrix::unit().scale(Size { width: Whole(2), height: Whole(3) });
    let point = Point { x: Pixels(Whole(4)), y: Pixels(Whole(5)) };
    assert_eq!(turn.compose(stretch).apply(point), turn.apply(stretch.apply(point)));
    assert_eq!(
        turn.compose(stretch).apply(point),
        Point { x: Pixels(Whole(-15)), y: Pixels(Whole(8)) }
    );
}

#[test]
fn rectangles_intersect_and_unite() {
    let (a, b) = (rect(0, 0, 10, 10), rect(5, 2, 10, 4));
    assert_eq!(a.intersect(b), rect(5, 2, 5, 4));
    assert_eq!(a.union(b), rect(0, 0, 15, 10));
    assert_eq!(a.bottom_right(), at(10, 10));
    assert_eq!(Bounds::from_corners(at(1, 2), at(4, 8)), rect(1, 2, 3, 6));
    assert!(a.intersects(b) && b.intersects(a));
    let beside = rect(10, 0, 5, 5);
    assert!(!a.intersects(beside));
    assert!(a.intersect(beside).is_empty());
    assert!(!a.is_empty());
    assert!(rect(0, 0, 0, 5).is_empty() && rect(0, 0, 5, -1).is_empty());
    assert!(Bounds::at(at(3, 3)).is_empty());
}

#[test]
fn scaling_for_a_display() {
    let factor = Fixed(96);
    assert_eq!(Pixels(whole(2)).scale(factor), ScaledPixels(whole(3)));
    let scaled = rect(2, 4, 6, 8).scale(factor);
    assert_eq!(scaled.origin, Point { x: ScaledPixels(whole(3)), y: ScaledPixels(whole(6)) });
    assert_eq!(
        scaled.size,
        Size { width: ScaledPixels(whole(9)), height: ScaledPixels(whole(12)) }
    );
    assert_eq!(ContentMask { bounds: rect(2, 4, 6, 8) }.scale(factor).bounds, scaled);
}

#[test]
fn a_new_path_is_a_point() {
    let path = Path::new(at(3, 4));
    assert_eq!(path.bounds, rect(3, 4, 0, 0));
    assert_eq!(path.content_mask.bounds, rect(0, 0, 0, 0));
    assert_eq!(path.id, PathId(0));
    assert_eq!(path.order, 0);
    assert!(path.vertices.is_empty());
    assert_eq!((path.start, path.current, path.contour_count), (at(3, 4), at(3, 4), 0));
}

#[test]
fn lines_fan_out_from_the_start() {
    let mut path = Path::new(at(0, 0));
    path.line_to(at(10, 0));
    assert!(path.vertices.is_empty());
    assert_eq!(path.current, at(10, 0));
    path.line_to(at(10, 10));
    let corners: Vec<Point<Pixels<Fixed>>> = path.vertices.iter().map(|v| v.xy_position).collect();
    assert_eq!(corners, vec![at(0, 0), at(10, 0), at(10, 10)]);
    for vertex in &path.vertices {
        assert_eq!(vertex.st_position, Point { x: Fixed::zero(), y: Fixed::one() });
        assert_eq!(vertex.content_mask.bounds, rect(0, 0, 0, 0));
    }
    assert_eq!(path.bounds, rect(0, 0, 10, 10));
    assert_eq!(path.contour_count, 2);
}

#[test]
fn curves_add_a_triangle_of_their_own() {
    let mut path = Path::new(at(0, 0));
    path.curve_to(at(10, 0), at(5, 8));
    let corners: Vec<Point<Pixels<Fixed>>> = path.vertices.iter().map(|v| v.xy_position).collect();
    assert_eq!(corners, vec![at(0, 0), at(5, 8), at(10, 0)]);
    let curve: Vec<Point<Fixed>> = path.vertices.iter().map(|v| v.st_position).collect();
    let (zero, half, one) = (Fixed::zero(), Fixed::half(), Fixed::one());
    assert_eq!(
        curve,
        vec![Point { x: zero, y: zero }, Point { x: half, y: zero }, Point { x: one, y: one }]
    );
    path.curve_to(at(0, 10), at(10, 10));
    assert_eq!(path.vertices.len(), 9);
    assert_eq!(path.vertices[3].xy_position, at(0, 0));
    assert_eq!(path.vertices[4].xy_position, at(10, 0));
    assert_eq!(path.vertices[7].xy_position, at(10, 10));
    assert_eq!(path.bounds, rect(0, 0, 10, 10));
    assert_eq!(path.current, at(0, 10));
}

#[test]
fn moving_starts_a_contour() {
    let mut path = Path::new(at(0, 0));
    path.move_to(at(5, 5));
    assert_eq!((path.start, path.current, path.contour_count), (at(5, 5), at(5, 5), 1));
    path.line_to(at(9, 5));
    assert_eq!(path.vertices.len(), 3);
    assert_eq!(path.vertices[0].xy_position, at(5, 5));
    assert_eq!(path.bounds, rect(0, 0, 9, 5));
}

#[test]
fn bounds_hold_every_vertex_and_no_more() {
    let mut path = Path::new(at(3, 3));
    path.line_to(at(-4, 2));
    path.curve_to(at(5, 9), at(8, -1));
    path.move_to(at(50, 50));
    path.line_to(at(6, 6));
    assert_eq!(path.vertices.len() % 3, 0);
    let far = path.bounds.bottom_right();
    for vertex in &path.vertices {
        let p = vertex.xy_position;
        assert!(path.bounds.origin.x.at_most(p.x) && p.x.at_most(far.x));
        assert!(path.bounds.origin.y.at_most(p.y) && p.y.at_most(far.y));
    }
    assert_eq!(path.bounds, rect(-4, -1, 54, 51));
}

#[test]
fn scaling_a_path_scales_all_of_it() {
    let mut path = Path::new(at(2, 2));
    path.line_to(at(4, 2));
    path.line_to(at(4, 6));
    path.content_mask = ContentMask { bounds: rect(3, 0, 10, 10) };
    assert_eq!(path.clipped_bounds(), rect(3, 2, 1, 4));
    let scaled = path.scale(whole(2));
    let double = |x: i16, y: i16| Point { x: ScaledPixels(whole(x)), y: ScaledPixels(whole(y)) };
    assert_eq!(scaled.bounds.origin, double(4, 4));
    assert_eq!(scaled.vertices.len(), 3);
    assert_eq!(scaled.vertices[2].xy_position, double(8, 12));
    assert_eq!(scaled.vertices[2].st_position, path.vertices[2].st_position);
    assert_eq!((scaled.start, scaled.current), (double(4, 4), double(8, 12)));
    assert_eq!(scaled.contour_count, 2);
    assert_eq!(scaled.clipped_bounds().origin, double(6, 4));
    assert_eq!(scaled.clone().vertices.len(), 3);
}

#[test]
fn the_unit_matrix_has_no_effect() {
    let unit = TransformationMatrix::<Fixed>::unit();
    assert_eq!(unit, TransformationMatrix::default());
    assert_eq!(unit.apply(at(3, -4)), at(3, -4));
    let scaled = unit.scale(Size { width: whole(2), height: whole(3) });
    assert_eq!(scaled.compose(unit), scaled);
    assert_eq!(unit.compose(scaled), scaled);
}

#[test]
fn transformations_compose_inside_out() {
    let unit = TransformationMatrix::<Fixed>::unit();
    let by = Point { x: ScaledPixels(whole(5)), y: ScaledPixels(whole(7)) };
    let moved = unit.translate(by);
    assert_eq!(moved.apply(at(1, 1)), at(6, 8));
    let scaled = unit.scale(Size { width: whole(2), height: whole(3) });
    assert_eq!(scaled.apply(at(1, 1)), at(2, 3));
    assert_eq!(moved.compose(scaled).apply(at(1, 1)), at(7, 10));
    assert_eq!(scaled.compose(moved).apply(at(1, 1)), at(12, 24));
    assert_eq!(scaled.translate(by), scaled.compose(moved));
    assert_eq!(scaled.compose(moved).apply(at(1, 1)), scaled.apply(moved.apply(at(1, 1))));
}

#[test]
fn a_quarter_turn() {
    let turn = TransformationMatrix::<Fixed>::unit().rotate(Fixed::zero(), Fixed::one());
    assert_eq!(turn.rotation_scale, [[Fixed(0), Fixed(-64)], [Fixed(64), Fixed(0)]]);
    assert_eq!(turn.apply(at(1, 0)), at(0, 1));
    assert_eq!(turn.apply(at(0, 1)), at(-1, 0));
    assert_eq!(turn.compose(turn).apply(at(2, 3)), at(-2, -3));
}

#[test]
fn defaults() {
    assert_eq!(BorderStyle::default(), BorderStyle::Solid);
    let backdrop = Backdrop::<Fixed>::default();
    assert_eq!((backdrop.order, backdrop.pad), (0, 0));
    assert_eq!((backdrop.blur, backdrop.opacity), (Fixed(0), Fixed(0)));
    assert!(backdrop.bounds.is_empty());
}

#[test]
fn numbers_are_written_in_decimal() {
    let mut text = String::from("n = ");
    append_decimal(&mut text, 0);
    append_decimal(&mut text, 907);
    append_decimal(&mut text, u64::MAX);
    assert_eq!(text, "n = 090718446744073709551615");
}

#[test]
fn linux_has_a_backend() {
    let available = Backends::available();
    for os in [TargetOs::Linux, TargetOs::FreeBsd] {
        let choice = |headless| Some(PlatformChoice { backend: Backend::Linux, headless });
        assert_eq!(current_platform(os, available, true), choice(true));
        assert_eq!(current_platform(os, available, false), choice(false));
        assert_eq!(background_executor(os, available), choice(true));
        assert_eq!(application(os, available), choice(false));
        assert_eq!(headless(os, available), choice(true));
    }
}

#[test]
fn other_systems_wait_for_theirs() {
    let available = Backends::available();
    for os in [TargetOs::MacOs, TargetOs::Windows, TargetOs::Other] {
        assert_eq!(current_platform(os, available, false), None);
        assert_eq!(application(os, available), None);
    }
    let all = Backends { linux: true, macos: true, windows: true };
    assert_eq!(
        application(TargetOs::MacOs, all),
        Some(PlatformChoice { backend: Backend::MacOs, headless: false })
    );
    assert_eq!(
        headless(TargetOs::Windows, all),
        Some(PlatformChoice { backend: Backend::Windows, headless: true })
    );
    assert_eq!(headless(TargetOs::Other, all), None);
}

#[test]
fn only_mac_os_renders_without_a_display() {
    let all = Backends { linux: true, macos: true, windows: true };
    assert_eq!(
        current_headless_renderer(TargetOs::MacOs, all),
        Some(HeadlessRenderer::Metal)
    );
    assert_eq!(current_headless_renderer(TargetOs::MacOs, Backends::available()), None);
    for os in [TargetOs::Linux, TargetOs::FreeBsd, TargetOs::Windows, TargetOs::Other] {
        assert_eq!(current_headless_renderer(os, all), None);
    }
}
