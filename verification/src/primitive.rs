//! What a scene is made of.

use crate::atlas::AtlasTile;
use crate::bounds_tree::DrawOrder;
use crate::color::{Background, Hsla};
use crate::geometry::{Bounds, ContentMask, Corners, Edges, Point};
use crate::path::{Path, PathId, PathView};
use crate::scalar::{Coordinate, Scalar, ScaledPixels};
use crate::sort::{Keyed, SortKey};
use crate::transform::TransformationMatrix;
use vstd::prelude::*;
use vstd::std_specs::convert::FromSpecImpl;

verus! {

/// A boolean stored as a `u32`, so that structures handed to the GPU contain no padding bytes.
/// It is 0 or 1; shaders read it as a `u32`/`uint`.
#[derive(Copy, Clone, Debug, PartialEq, Eq, Structural)]
pub struct PaddedBool32(u32);

impl PaddedBool32 {
    /// It is 0 or 1 by construction.
    #[verifier::type_invariant]
    spec fn inv(self) -> bool {
        self.0 <= 1
    }

    /// What shaders read.
    pub closed spec fn word(self) -> u32 {
        self.0
    }

    /// The stored form of `value`.
    pub closed spec fn of(value: bool) -> Self {
        PaddedBool32(
            if value {
                1
            } else {
                0
            },
        )
    }

    /// Shaders read 1 for `true` and 0 for `false`.
    pub broadcast proof fn word_of_bool(value: bool)
        ensures
            (#[trigger] Self::of(value)).word() == if value {
                1u32
            } else {
                0u32
            },
    {
    }

    /// What shaders read: 0 or 1.
    pub fn to_word(self) -> (r: u32)
        ensures
            r == self.word(),
            r == 0 || r == 1,
    {
        proof {
            use_type_invariant(&self);
        }
        self.0
    }
}

impl Default for PaddedBool32 {
    fn default() -> (r: Self)
        ensures
            r == Self::of(false),
    {
        PaddedBool32(0)
    }
}

impl From<bool> for PaddedBool32 {
    fn from(value: bool) -> (r: Self) {
        PaddedBool32(
            if value {
                1
            } else {
                0
            },
        )
    }
}

impl FromSpecImpl<bool> for PaddedBool32 {
    open spec fn obeys_from_spec() -> bool {
        true
    }

    open spec fn from_spec(value: bool) -> Self {
        Self::of(value)
    }
}

/// The style of a border.
#[derive(Debug, Clone, Copy, PartialEq, Eq, Hash, Structural)]
pub enum BorderStyle {
    /// A solid border.
    Solid,
    /// A dashed border.
    Dashed,
}

impl Default for BorderStyle {
    fn default() -> (r: Self)
        ensures
            r == BorderStyle::Solid,
    {
        BorderStyle::Solid
    }
}

/// A blurred view of what is already drawn.
#[derive(Debug, Copy, Clone)]
pub struct Backdrop<S> {
    pub order: DrawOrder,
    pub pad: u32,
    /// The standard deviation of the blur, in scaled pixels.
    pub blur: S,
    /// How much of the blurred backdrop shows through.
    pub opacity: S,
    pub bounds: Bounds<ScaledPixels<S>>,
    pub content_mask: ContentMask<ScaledPixels<S>>,
    pub corner_radii: Corners<ScaledPixels<S>>,
}

impl<S: Scalar> Default for Backdrop<S> {
    fn default() -> (r: Self)
        ensures
            r == (Backdrop {
                order: 0,
                pad: 0,
                blur: S::zero_spec(),
                opacity: S::zero_spec(),
                bounds: Bounds::at_spec(Point::zero_spec()),
                content_mask: ContentMask::zero_spec(),
                corner_radii: Corners::zero_spec(),
            }),
    {
        Backdrop {
            order: 0,
            pad: 0,
            blur: S::zero(),
            opacity: S::zero(),
            bounds: Bounds::at(Point::zero()),
            content_mask: ContentMask::zero(),
            corner_radii: Corners::zero(),
        }
    }
}

/// A filled rectangle with a border.
#[derive(Debug, Copy, Clone)]
pub struct Quad<S> {
    pub order: DrawOrder,
    pub border_style: BorderStyle,
    pub bounds: Bounds<ScaledPixels<S>>,
    pub content_mask: ContentMask<ScaledPixels<S>>,
    pub background: Background<S>,
    pub border_color: Hsla<S>,
    pub corner_radii: Corners<ScaledPixels<S>>,
    pub border_widths: Edges<ScaledPixels<S>>,
}

/// A line under text.
#[derive(Debug, Copy, Clone)]
pub struct Underline<S> {
    pub order: DrawOrder,
    pub pad: u32,
    pub bounds: Bounds<ScaledPixels<S>>,
    pub content_mask: ContentMask<ScaledPixels<S>>,
    pub color: Hsla<S>,
    pub thickness: ScaledPixels<S>,
    pub wavy: PaddedBool32,
}

/// A shadow around or inside an element.
#[derive(Debug, Copy, Clone)]
pub struct Shadow<S> {
    pub order: DrawOrder,
    pub blur_radius: ScaledPixels<S>,
    pub bounds: Bounds<ScaledPixels<S>>,
    pub corner_radii: Corners<ScaledPixels<S>>,
    pub content_mask: ContentMask<ScaledPixels<S>>,
    pub color: Hsla<S>,
    pub element_bounds: Bounds<ScaledPixels<S>>,
    pub element_corner_radii: Corners<ScaledPixels<S>>,
    /// 0 = drop shadow (rendered outside the element), 1 = inset shadow (rendered inside).
    pub inset: u32,
    pub pad: u32,
}

/// A glyph or icon in one colour.
#[derive(Debug, Copy, Clone)]
pub struct MonochromeSprite<S> {
    pub order: DrawOrder,
    pub pad: u32,
    pub bounds: Bounds<ScaledPixels<S>>,
    pub content_mask: ContentMask<ScaledPixels<S>>,
    pub color: Hsla<S>,
    pub tile: AtlasTile,
    pub transformation: TransformationMatrix<S>,
}

/// A glyph with subpixel antialiasing.
#[derive(Debug, Copy, Clone)]
pub struct SubpixelSprite<S> {
    pub order: DrawOrder,
    pub pad: u32,
    pub bounds: Bounds<ScaledPixels<S>>,
    pub content_mask: ContentMask<ScaledPixels<S>>,
    pub color: Hsla<S>,
    pub tile: AtlasTile,
    pub transformation: TransformationMatrix<S>,
}

/// An image.
#[derive(Debug, Copy, Clone)]
pub struct PolychromeSprite<S> {
    pub order: DrawOrder,
    pub pad: u32,
    pub grayscale: PaddedBool32,
    pub opacity: S,
    pub bounds: Bounds<ScaledPixels<S>>,
    pub content_mask: ContentMask<ScaledPixels<S>>,
    pub corner_radii: Corners<ScaledPixels<S>>,
    pub tile: AtlasTile,
}

/// An area that something else draws into.
#[derive(Debug, Copy, Clone)]
pub struct PaintSurface<S> {
    pub order: DrawOrder,
    pub bounds: Bounds<ScaledPixels<S>>,
    pub content_mask: ContentMask<ScaledPixels<S>>,
}

/// The kinds of primitives, in the order in which they are drawn at one draw order.
#[derive(Clone, Copy, Debug, Eq, PartialEq, Ord, PartialOrd, Default, Structural)]
pub enum PrimitiveKind {
    Shadow,
    Backdrop,
    #[default]
    Quad,
    Path,
    Underline,
    MonochromeSprite,
    SubpixelSprite,
    PolychromeSprite,
    Surface,
}

/// How many kinds of primitives there are.
pub const KINDS: usize = 9;

impl PrimitiveKind {
    /// The place of the kind among all kinds.
    pub open spec fn rank(self) -> int {
        match self {
            PrimitiveKind::Shadow => 0,
            PrimitiveKind::Backdrop => 1,
            PrimitiveKind::Quad => 2,
            PrimitiveKind::Path => 3,
            PrimitiveKind::Underline => 4,
            PrimitiveKind::MonochromeSprite => 5,
            PrimitiveKind::SubpixelSprite => 6,
            PrimitiveKind::PolychromeSprite => 7,
            PrimitiveKind::Surface => 8,
        }
    }

    /// The kind with the given place.
    pub open spec fn of_rank(rank: int) -> PrimitiveKind {
        if rank == 0 {
            PrimitiveKind::Shadow
        } else if rank == 1 {
            PrimitiveKind::Backdrop
        } else if rank == 2 {
            PrimitiveKind::Quad
        } else if rank == 3 {
            PrimitiveKind::Path
        } else if rank == 4 {
            PrimitiveKind::Underline
        } else if rank == 5 {
            PrimitiveKind::MonochromeSprite
        } else if rank == 6 {
            PrimitiveKind::SubpixelSprite
        } else if rank == 7 {
            PrimitiveKind::PolychromeSprite
        } else {
            PrimitiveKind::Surface
        }
    }

    /// The kind with the given place.
    pub(crate) fn from_rank(rank: usize) -> (r: PrimitiveKind)
        requires
            rank < KINDS,
        ensures
            r == Self::of_rank(rank as int),
            r.rank() == rank,
    {
        match rank {
            0 => PrimitiveKind::Shadow,
            1 => PrimitiveKind::Backdrop,
            2 => PrimitiveKind::Quad,
            3 => PrimitiveKind::Path,
            4 => PrimitiveKind::Underline,
            5 => PrimitiveKind::MonochromeSprite,
            6 => PrimitiveKind::SubpixelSprite,
            7 => PrimitiveKind::PolychromeSprite,
            _ => PrimitiveKind::Surface,
        }
    }
}

/// Something to draw.
#[derive(Debug)]
pub enum Primitive<S> {
    Shadow(Shadow<S>),
    Backdrop(Backdrop<S>),
    Quad(Quad<S>),
    Path(Path<ScaledPixels<S>, S>),
    Underline(Underline<S>),
    MonochromeSprite(MonochromeSprite<S>),
    SubpixelSprite(SubpixelSprite<S>),
    PolychromeSprite(PolychromeSprite<S>),
    Surface(PaintSurface<S>),
}

/// The contents of a [`Primitive`].
#[verifier::ext_equal]
pub enum PrimitiveView<S> {
    Shadow(Shadow<S>),
    Backdrop(Backdrop<S>),
    Quad(Quad<S>),
    Path(PathView<ScaledPixels<S>, S>),
    Underline(Underline<S>),
    MonochromeSprite(MonochromeSprite<S>),
    SubpixelSprite(SubpixelSprite<S>),
    PolychromeSprite(PolychromeSprite<S>),
    Surface(PaintSurface<S>),
}

impl<S> View for Primitive<S> {
    type V = PrimitiveView<S>;

    open spec fn view(&self) -> PrimitiveView<S> {
        match *self {
            Primitive::Shadow(shadow) => PrimitiveView::Shadow(shadow),
            Primitive::Backdrop(backdrop) => PrimitiveView::Backdrop(backdrop),
            Primitive::Quad(quad) => PrimitiveView::Quad(quad),
            Primitive::Path(path) => PrimitiveView::Path(path@),
            Primitive::Underline(underline) => PrimitiveView::Underline(underline),
            Primitive::MonochromeSprite(sprite) => PrimitiveView::MonochromeSprite(sprite),
            Primitive::SubpixelSprite(sprite) => PrimitiveView::SubpixelSprite(sprite),
            Primitive::PolychromeSprite(sprite) => PrimitiveView::PolychromeSprite(sprite),
            Primitive::Surface(surface) => PrimitiveView::Surface(surface),
        }
    }
}

impl<S: Scalar> PrimitiveView<S> {
    pub open spec fn bounds(self) -> Bounds<ScaledPixels<S>> {
        match self {
            PrimitiveView::Shadow(shadow) => shadow.bounds,
            PrimitiveView::Backdrop(backdrop) => backdrop.bounds,
            PrimitiveView::Quad(quad) => quad.bounds,
            PrimitiveView::Path(path) => path.bounds,
            PrimitiveView::Underline(underline) => underline.bounds,
            PrimitiveView::MonochromeSprite(sprite) => sprite.bounds,
            PrimitiveView::SubpixelSprite(sprite) => sprite.bounds,
            PrimitiveView::PolychromeSprite(sprite) => sprite.bounds,
            PrimitiveView::Surface(surface) => surface.bounds,
        }
    }

    pub open spec fn content_mask(self) -> ContentMask<ScaledPixels<S>> {
        match self {
            PrimitiveView::Shadow(shadow) => shadow.content_mask,
            PrimitiveView::Backdrop(backdrop) => backdrop.content_mask,
            PrimitiveView::Quad(quad) => quad.content_mask,
            PrimitiveView::Path(path) => path.content_mask,
            PrimitiveView::Underline(underline) => underline.content_mask,
            PrimitiveView::MonochromeSprite(sprite) => sprite.content_mask,
            PrimitiveView::SubpixelSprite(sprite) => sprite.content_mask,
            PrimitiveView::PolychromeSprite(sprite) => sprite.content_mask,
            PrimitiveView::Surface(surface) => surface.content_mask,
        }
    }

    /// The part of the primitive that its content mask lets through.
    pub open spec fn clipped_bounds(self) -> Bounds<ScaledPixels<S>> {
        self.bounds().intersect_spec(self.content_mask().bounds)
    }

    pub open spec fn order(self) -> DrawOrder {
        match self {
            PrimitiveView::Shadow(shadow) => shadow.order,
            PrimitiveView::Backdrop(backdrop) => backdrop.order,
            PrimitiveView::Quad(quad) => quad.order,
            PrimitiveView::Path(path) => path.order,
            PrimitiveView::Underline(underline) => underline.order,
            PrimitiveView::MonochromeSprite(sprite) => sprite.order,
            PrimitiveView::SubpixelSprite(sprite) => sprite.order,
            PrimitiveView::PolychromeSprite(sprite) => sprite.order,
            PrimitiveView::Surface(surface) => surface.order,
        }
    }

    /// The primitive with its place in a scene: its draw order, and for a path its number.
    pub open spec fn placed(self, order: DrawOrder, id: PathId) -> Self {
        match self {
            PrimitiveView::Shadow(shadow) => PrimitiveView::Shadow(Shadow { order, ..shadow }),
            PrimitiveView::Backdrop(backdrop) => PrimitiveView::Backdrop(
                Backdrop { order, ..backdrop },
            ),
            PrimitiveView::Quad(quad) => PrimitiveView::Quad(Quad { order, ..quad }),
            PrimitiveView::Path(path) => PrimitiveView::Path(PathView { order, id, ..path }),
            PrimitiveView::Underline(underline) => PrimitiveView::Underline(
                Underline { order, ..underline },
            ),
            PrimitiveView::MonochromeSprite(sprite) => PrimitiveView::MonochromeSprite(
                MonochromeSprite { order, ..sprite },
            ),
            PrimitiveView::SubpixelSprite(sprite) => PrimitiveView::SubpixelSprite(
                SubpixelSprite { order, ..sprite },
            ),
            PrimitiveView::PolychromeSprite(sprite) => PrimitiveView::PolychromeSprite(
                PolychromeSprite { order, ..sprite },
            ),
            PrimitiveView::Surface(surface) => PrimitiveView::Surface(
                PaintSurface { order, ..surface },
            ),
        }
    }
}

impl<S: Scalar> Primitive<S> {
    /// The area the primitive covers.
    pub fn bounds(&self) -> (r: &Bounds<ScaledPixels<S>>)
        ensures
            *r == self@.bounds(),
    {
        match self {
            Primitive::Shadow(shadow) => &shadow.bounds,
            Primitive::Backdrop(backdrop) => &backdrop.bounds,
            Primitive::Quad(quad) => &quad.bounds,
            Primitive::Path(path) => &path.bounds,
            Primitive::Underline(underline) => &underline.bounds,
            Primitive::MonochromeSprite(sprite) => &sprite.bounds,
            Primitive::SubpixelSprite(sprite) => &sprite.bounds,
            Primitive::PolychromeSprite(sprite) => &sprite.bounds,
            Primitive::Surface(surface) => &surface.bounds,
        }
    }

    /// The area the primitive is clipped to.
    pub fn content_mask(&self) -> (r: &ContentMask<ScaledPixels<S>>)
        ensures
            *r == self@.content_mask(),
    {
        match self {
            Primitive::Shadow(shadow) => &shadow.content_mask,
            Primitive::Backdrop(backdrop) => &backdrop.content_mask,
            Primitive::Quad(quad) => &quad.content_mask,
            Primitive::Path(path) => &path.content_mask,
            Primitive::Underline(underline) => &underline.content_mask,
            Primitive::MonochromeSprite(sprite) => &sprite.content_mask,
            Primitive::SubpixelSprite(sprite) => &sprite.content_mask,
            Primitive::PolychromeSprite(sprite) => &sprite.content_mask,
            Primitive::Surface(surface) => &surface.content_mask,
        }
    }
}

impl<S: Copy> Clone for Primitive<S> {
    fn clone(&self) -> (r: Self)
        ensures
            r@ == self@,
    {
        match self {
            Primitive::Shadow(shadow) => Primitive::Shadow(*shadow),
            Primitive::Backdrop(backdrop) => Primitive::Backdrop(*backdrop),
            Primitive::Quad(quad) => Primitive::Quad(*quad),
            Primitive::Path(path) => Primitive::Path(path.clone()),
            Primitive::Underline(underline) => Primitive::Underline(*underline),
            Primitive::MonochromeSprite(sprite) => Primitive::MonochromeSprite(*sprite),
            Primitive::SubpixelSprite(sprite) => Primitive::SubpixelSprite(*sprite),
            Primitive::PolychromeSprite(sprite) => Primitive::PolychromeSprite(*sprite),
            Primitive::Surface(surface) => Primitive::Surface(*surface),
        }
    }
}

impl<S> From<Shadow<S>> for Primitive<S> {
    fn from(shadow: Shadow<S>) -> (r: Self) {
        Primitive::Shadow(shadow)
    }
}

impl<S> FromSpecImpl<Shadow<S>> for Primitive<S> {
    open spec fn obeys_from_spec() -> bool {
        true
    }

    open spec fn from_spec(shadow: Shadow<S>) -> Self {
        Primitive::Shadow(shadow)
    }
}

impl<S> From<Backdrop<S>> for Primitive<S> {
    fn from(backdrop: Backdrop<S>) -> (r: Self) {
        Primitive::Backdrop(backdrop)
    }
}

impl<S> FromSpecImpl<Backdrop<S>> for Primitive<S> {
    open spec fn obeys_from_spec() -> bool {
        true
    }

    open spec fn from_spec(backdrop: Backdrop<S>) -> Self {
        Primitive::Backdrop(backdrop)
    }
}

impl<S> From<Quad<S>> for Primitive<S> {
    fn from(quad: Quad<S>) -> (r: Self) {
        Primitive::Quad(quad)
    }
}

impl<S> FromSpecImpl<Quad<S>> for Primitive<S> {
    open spec fn obeys_from_spec() -> bool {
        true
    }

    open spec fn from_spec(quad: Quad<S>) -> Self {
        Primitive::Quad(quad)
    }
}

impl<S> From<Path<ScaledPixels<S>, S>> for Primitive<S> {
    fn from(path: Path<ScaledPixels<S>, S>) -> (r: Self) {
        Primitive::Path(path)
    }
}

impl<S> FromSpecImpl<Path<ScaledPixels<S>, S>> for Primitive<S> {
    open spec fn obeys_from_spec() -> bool {
        true
    }

    open spec fn from_spec(path: Path<ScaledPixels<S>, S>) -> Self {
        Primitive::Path(path)
    }
}

impl<S> From<Underline<S>> for Primitive<S> {
    fn from(underline: Underline<S>) -> (r: Self) {
        Primitive::Underline(underline)
    }
}

impl<S> FromSpecImpl<Underline<S>> for Primitive<S> {
    open spec fn obeys_from_spec() -> bool {
        true
    }

    open spec fn from_spec(underline: Underline<S>) -> Self {
        Primitive::Underline(underline)
    }
}

impl<S> From<MonochromeSprite<S>> for Primitive<S> {
    fn from(sprite: MonochromeSprite<S>) -> (r: Self) {
        Primitive::MonochromeSprite(sprite)
    }
}

impl<S> FromSpecImpl<MonochromeSprite<S>> for Primitive<S> {
    open spec fn obeys_from_spec() -> bool {
        true
    }

    open spec fn from_spec(sprite: MonochromeSprite<S>) -> Self {
        Primitive::MonochromeSprite(sprite)
    }
}

impl<S> From<SubpixelSprite<S>> for Primitive<S> {
    fn from(sprite: SubpixelSprite<S>) -> (r: Self) {
        Primitive::SubpixelSprite(sprite)
    }
}

impl<S> FromSpecImpl<SubpixelSprite<S>> for Primitive<S> {
    open spec fn obeys_from_spec() -> bool {
        true
    }

    open spec fn from_spec(sprite: SubpixelSprite<S>) -> Self {
        Primitive::SubpixelSprite(sprite)
    }
}

impl<S> From<PolychromeSprite<S>> for Primitive<S> {
    fn from(sprite: PolychromeSprite<S>) -> (r: Self) {
        Primitive::PolychromeSprite(sprite)
    }
}

impl<S> FromSpecImpl<PolychromeSprite<S>> for Primitive<S> {
    open spec fn obeys_from_spec() -> bool {
        true
    }

    open spec fn from_spec(sprite: PolychromeSprite<S>) -> Self {
        Primitive::PolychromeSprite(sprite)
    }
}

impl<S> From<PaintSurface<S>> for Primitive<S> {
    fn from(surface: PaintSurface<S>) -> (r: Self) {
        Primitive::Surface(surface)
    }
}

impl<S> FromSpecImpl<PaintSurface<S>> for Primitive<S> {
    open spec fn obeys_from_spec() -> bool {
        true
    }

    open spec fn from_spec(surface: PaintSurface<S>) -> Self {
        Primitive::Surface(surface)
    }
}

impl<S> Keyed for Shadow<S> {
    open spec fn key_spec(self) -> SortKey {
        (self.order, 0)
    }

    fn key(&self) -> (r: SortKey) {
        (self.order, 0)
    }
}

impl<S> Keyed for Backdrop<S> {
    open spec fn key_spec(self) -> SortKey {
        (self.order, 0)
    }

    fn key(&self) -> (r: SortKey) {
        (self.order, 0)
    }
}

impl<S> Keyed for Quad<S> {
    open spec fn key_spec(self) -> SortKey {
        (self.order, 0)
    }

    fn key(&self) -> (r: SortKey) {
        (self.order, 0)
    }
}

impl<S> Keyed for Path<ScaledPixels<S>, S> {
    open spec fn key_spec(self) -> SortKey {
        (self.order, 0)
    }

    fn key(&self) -> (r: SortKey) {
        (self.order, 0)
    }
}

impl<S> Keyed for Underline<S> {
    open spec fn key_spec(self) -> SortKey {
        (self.order, 0)
    }

    fn key(&self) -> (r: SortKey) {
        (self.order, 0)
    }
}

impl<S> Keyed for PaintSurface<S> {
    open spec fn key_spec(self) -> SortKey {
        (self.order, 0)
    }

    fn key(&self) -> (r: SortKey) {
        (self.order, 0)
    }
}

impl<S> Keyed for MonochromeSprite<S> {
    open spec fn key_spec(self) -> SortKey {
        (self.order, self.tile.tile_id.0)
    }

    fn key(&self) -> (r: SortKey) {
        (self.order, self.tile.tile_id.0)
    }
}

impl<S> Keyed for SubpixelSprite<S> {
    open spec fn key_spec(self) -> SortKey {
        (self.order, self.tile.tile_id.0)
    }

    fn key(&self) -> (r: SortKey) {
        (self.order, self.tile.tile_id.0)
    }
}

impl<S> Keyed for PolychromeSprite<S> {
    open spec fn key_spec(self) -> SortKey {
        (self.order, self.tile.tile_id.0)
    }

    fn key(&self) -> (r: SortKey) {
        (self.order, self.tile.tile_id.0)
    }
}

} // verus!
