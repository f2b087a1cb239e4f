//! Colours and fills. Scenes carry them to the renderer and never look inside.

use crate::scalar::Scalar;
use vstd::prelude::*;

verus! {

/// A colour by hue, saturation, lightness and opacity.
#[derive(Clone, Copy, Debug)]
pub struct Hsla<S> {
    pub h: S,
    pub s: S,
    pub l: S,
    pub a: S,
}

/// How a [`Background`] fills its area.
#[derive(Clone, Copy, Debug, PartialEq, Eq, Structural)]
pub enum BackgroundTag {
    Solid,
    LinearGradient,
    PatternSlash,
    Checkerboard,
}

/// The space in which the colours of a gradient are mixed.
#[derive(Clone, Copy, Debug, PartialEq, Eq, Structural)]
pub enum ColorSpace {
    Srgb,
    Oklab,
}

/// A colour at a place along a gradient.
#[derive(Clone, Copy, Debug)]
pub struct LinearColorStop<S> {
    pub color: Hsla<S>,
    pub percentage: S,
}

/// A fill.
#[derive(Clone, Copy, Debug)]
pub struct Background<S> {
    pub tag: BackgroundTag,
    pub color_space: ColorSpace,
    pub solid: Hsla<S>,
    pub gradient_angle_or_pattern_height: S,
    pub colors: [LinearColorStop<S>; 2],
    pub pad: u32,
}

impl<S: Scalar> Hsla<S> {
    pub open spec fn transparent_spec() -> Self {
        Hsla { h: S::zero_spec(), s: S::zero_spec(), l: S::zero_spec(), a: S::zero_spec() }
    }

    /// Fully transparent black.
    pub fn transparent() -> (r: Self)
        ensures
            r == Self::transparent_spec(),
    {
        Hsla { h: S::zero(), s: S::zero(), l: S::zero(), a: S::zero() }
    }
}

impl<S: Scalar> Background<S> {
    pub open spec fn transparent_spec() -> Self {
        let stop = LinearColorStop { color: Hsla::transparent_spec(), percentage: S::zero_spec() };
        Background {
            tag: BackgroundTag::Solid,
            color_space: ColorSpace::Srgb,
            solid: Hsla::transparent_spec(),
            gradient_angle_or_pattern_height: S::zero_spec(),
            colors: [stop, stop],
            pad: 0,
        }
    }

    /// A fill that paints nothing.
    pub fn transparent() -> (r: Self)
        ensures
            r == Self::transparent_spec(),
    {
        let stop = LinearColorStop { color: Hsla::transparent(), percentage: S::zero() };
        Background {
            tag: BackgroundTag::Solid,
            color_space: ColorSpace::Srgb,
            solid: Hsla::transparent(),
            gradient_angle_or_pattern_height: S::zero(),
            colors: [stop, stop],
            pad: 0,
        }
    }
}

} // verus!
