//! Draw commands: what a blob image is made of.

use crate::geometry::{LayoutPoint, LayoutRect};
use vstd::prelude::*;

verus! {

/// Which points a path that crosses itself encloses.
#[derive(Debug, Clone, Copy, PartialEq, Eq, Structural)]
pub enum FillRule {
    /// A point is inside where the edges wind around it a number of times
    /// that is not zero.
    Nonzero,
    /// A point is inside where a ray from it crosses an odd number of edges.
    Evenodd,
}

/// What a command draws.
#[derive(Debug, Clone, PartialEq, Eq)]
pub enum BlobImageCommandKind {
    /// Fill the command's bounds.
    FillRect,
    /// Fill the closed polygon through these points, in this order, by this
    /// rule.
    DrawPolygon(Vec<LayoutPoint>, FillRule),
}

/// One drawing operation with the rectangle that bounds it.
#[derive(Debug, Clone, PartialEq, Eq)]
pub struct BlobImageCommand {
    pub kind: BlobImageCommandKind,
    pub bounds: LayoutRect,
}

/// The mathematical value of a [`BlobImageCommandKind`].
pub enum DrawCommandKind {
    FillRect,
    DrawPolygon(Seq<LayoutPoint>, FillRule),
}

/// The mathematical value of a [`BlobImageCommand`].
pub struct DrawCommand {
    pub kind: DrawCommandKind,
    pub bounds: LayoutRect,
}

impl View for BlobImageCommandKind {
    type V = DrawCommandKind;

    open spec fn view(&self) -> DrawCommandKind {
        match self {
            BlobImageCommandKind::FillRect => DrawCommandKind::FillRect,
            BlobImageCommandKind::DrawPolygon(points, fill) => DrawCommandKind::DrawPolygon(
                points@,
                *fill,
            ),
        }
    }
}

impl View for BlobImageCommand {
    type V = DrawCommand;

    open spec fn view(&self) -> DrawCommand {
        DrawCommand { kind: self.kind@, bounds: self.bounds }
    }
}

impl DeepView for BlobImageCommand {
    type V = DrawCommand;

    open spec fn deep_view(&self) -> DrawCommand {
        self@
    }
}

impl BlobImageCommand {
    /// A command that fills `bounds`.
    pub fn fill_rect(bounds: LayoutRect) -> (command: BlobImageCommand)
        ensures
            command@ == (DrawCommand { kind: DrawCommandKind::FillRect, bounds }),
    {
        BlobImageCommand { kind: BlobImageCommandKind::FillRect, bounds }
    }

    /// A command that fills the polygon through `points` by the rule `fill`,
    /// bounded by `bounds`.
    pub fn draw_polygon(points: Vec<LayoutPoint>, fill: FillRule, bounds: LayoutRect) -> (command:
        BlobImageCommand)
        ensures
            command@ == (DrawCommand { kind: DrawCommandKind::DrawPolygon(points@, fill), bounds }),
    {
        BlobImageCommand { kind: BlobImageCommandKind::DrawPolygon(points, fill), bounds }
    }
}

} // verus!
