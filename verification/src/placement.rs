//! The 9-grid of watermark anchors.
//!
//! An [`Anchor`] names one cell of a 3x3 grid; it splits into a horizontal
//! band (left/center/right) and a vertical band (top/middle/bottom). The
//! fractional placement arithmetic built on it works in floating point and
//! lives outside the verified library.

use vstd::prelude::*;

verus! {

/// The 9-grid of placement presets. Row (vertical) is Top/Middle/Bottom,
/// column (horizontal) is Left/Center/Right; the dead-center cell is
/// [`Anchor::Center`].
#[derive(Debug, Clone, Copy, PartialEq, Eq, Structural)]
pub enum Anchor {
    TopLeft,
    TopCenter,
    TopRight,
    MiddleLeft,
    Center,
    MiddleRight,
    BottomLeft,
    BottomCenter,
    BottomRight,
}

/// Horizontal band of an [`Anchor`].
#[derive(Debug, Clone, Copy, PartialEq, Eq, Structural)]
pub enum H {
    Left,
    Center,
    Right,
}

/// Vertical band of an [`Anchor`].
#[derive(Debug, Clone, Copy, PartialEq, Eq, Structural)]
pub enum V {
    Top,
    Middle,
    Bottom,
}

/// The column of an anchor.
pub open spec fn column(a: Anchor) -> H {
    match a {
        Anchor::TopLeft | Anchor::MiddleLeft | Anchor::BottomLeft => H::Left,
        Anchor::TopCenter | Anchor::Center | Anchor::BottomCenter => H::Center,
        Anchor::TopRight | Anchor::MiddleRight | Anchor::BottomRight => H::Right,
    }
}

/// The row of an anchor.
pub open spec fn row(a: Anchor) -> V {
    match a {
        Anchor::TopLeft | Anchor::TopCenter | Anchor::TopRight => V::Top,
        Anchor::MiddleLeft | Anchor::Center | Anchor::MiddleRight => V::Middle,
        Anchor::BottomLeft | Anchor::BottomCenter | Anchor::BottomRight => V::Bottom,
    }
}

/// The anchor in row `v` and column `h`.
pub open spec fn cell(v: V, h: H) -> Anchor {
    match (v, h) {
        (V::Top, H::Left) => Anchor::TopLeft,
        (V::Top, H::Center) => Anchor::TopCenter,
        (V::Top, H::Right) => Anchor::TopRight,
        (V::Middle, H::Left) => Anchor::MiddleLeft,
        (V::Middle, H::Center) => Anchor::Center,
        (V::Middle, H::Right) => Anchor::MiddleRight,
        (V::Bottom, H::Left) => Anchor::BottomLeft,
        (V::Bottom, H::Center) => Anchor::BottomCenter,
        (V::Bottom, H::Right) => Anchor::BottomRight,
    }
}

impl Anchor {
    /// Horizontal band of this anchor.
    pub fn horizontal(self) -> (r: H)
        ensures
            r == column(self),
    {
        match self {
            Anchor::TopLeft | Anchor::MiddleLeft | Anchor::BottomLeft => H::Left,
            Anchor::TopCenter | Anchor::Center | Anchor::BottomCenter => H::Center,
            Anchor::TopRight | Anchor::MiddleRight | Anchor::BottomRight => H::Right,
        }
    }

    /// Vertical band of this anchor.
    pub fn vertical(self) -> (r: V)
        ensures
            r == row(self),
    {
        match self {
            Anchor::TopLeft | Anchor::TopCenter | Anchor::TopRight => V::Top,
            Anchor::MiddleLeft | Anchor::Center | Anchor::MiddleRight => V::Middle,
            Anchor::BottomLeft | Anchor::BottomCenter | Anchor::BottomRight => V::Bottom,
        }
    }
}

/// The anchors form a 3x3 grid: every anchor is the cell of its own row and
/// column, and every (row, column) pair names exactly one anchor.
pub proof fn anchors_form_a_grid(a: Anchor, v: V, h: H)
    ensures
        cell(row(a), column(a)) == a,
        row(cell(v, h)) == v && column(cell(v, h)) == h,
{
}

/// Two anchors with the same row and column are the same anchor.
pub proof fn anchor_determined_by_bands(a: Anchor, b: Anchor)
    requires
        row(a) == row(b),
        column(a) == column(b),
    ensures
        a == b,
{
    anchors_form_a_grid(a, V::Top, H::Left);
    anchors_form_a_grid(b, V::Top, H::Left);
}

} // verus!
