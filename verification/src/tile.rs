//! Tile variants: a raster of samples with a weight and a set of four edges,
//! and the derived flipped, mirrored and rotated variants.

use crate::edges::{
    edges_compatible, spec_flipped_set, spec_mirrored_set, spec_rotated90_set, Edge, EdgeSet,
};
use crate::geometry::Size;
use crate::vec2d::Vec2D;
use vstd::prelude::*;

verus! {

/// On which side of the first tile the second tile would sit.
#[derive(PartialEq, Eq, Clone, Copy, Debug, Structural)]
pub enum MatchSide {
    OnTop,
    OnRight,
    OnBottom,
    OnLeft,
}

impl MatchSide {
    /// The side as seen from the other tile.
    pub open spec fn spec_mirrored(self) -> MatchSide {
        match self {
            MatchSide::OnTop => MatchSide::OnBottom,
            MatchSide::OnBottom => MatchSide::OnTop,
            MatchSide::OnLeft => MatchSide::OnRight,
            MatchSide::OnRight => MatchSide::OnLeft,
        }
    }

    #[verifier::when_used_as_spec(spec_mirrored)]
    pub fn mirrored(self) -> (r: MatchSide)
        ensures
            r == self.spec_mirrored(),
    {
        match self {
            MatchSide::OnTop => MatchSide::OnBottom,
            MatchSide::OnBottom => MatchSide::OnTop,
            MatchSide::OnLeft => MatchSide::OnRight,
            MatchSide::OnRight => MatchSide::OnLeft,
        }
    }
}

/// A tile variant: a raster of samples, a selection weight, its four edges
/// and an anti-match mask carried through from the template.
pub struct TileImage<T> {
    image: Vec2D<T>,
    weight: u8,
    edges: EdgeSet,
    anti_match: [u64; 4],
}

/// Whether a tile with edge set `a` accepts a tile with edge set `b` on the
/// given side of itself: the two facing edges must be compatible.
pub open spec fn tiles_compatible(a: EdgeSet, b: EdgeSet, side: MatchSide) -> bool {
    match side {
        MatchSide::OnTop => edges_compatible(a.spec_top(), b.spec_bottom()),
        MatchSide::OnBottom => edges_compatible(a.spec_bottom(), b.spec_top()),
        MatchSide::OnLeft => edges_compatible(a.spec_left(), b.spec_right()),
        MatchSide::OnRight => edges_compatible(a.spec_right(), b.spec_left()),
    }
}

/// Tile compatibility is symmetric: whether `b` may sit on a side of `a`
/// agrees with whether `a` may sit on the mirrored side of `b`.
pub proof fn lemma_tiles_compatible_symmetric(a: EdgeSet, b: EdgeSet, side: MatchSide)
    ensures
        tiles_compatible(a, b, side) == tiles_compatible(b, a, side.spec_mirrored()),
{
}

impl<T> TileImage<T> {
    /// The raster is rectangular and its extents fit the `u32` sizes the
    /// template speaks in.
    pub open spec fn wf(self) -> bool {
        &&& self.spec_image().wf()
        &&& self.spec_image().spec_width() <= u32::MAX
        &&& self.spec_image().spec_height() <= u32::MAX
    }

    pub closed spec fn spec_image(self) -> Vec2D<T> {
        self.image
    }

    pub closed spec fn spec_weight(self) -> u8 {
        self.weight
    }

    pub closed spec fn spec_edges(self) -> EdgeSet {
        self.edges
    }

    pub closed spec fn spec_anti_match(self) -> [u64; 4] {
        self.anti_match
    }
}

impl<T: Copy> TileImage<T> {
    pub fn new(image: Vec2D<T>, weight: u8, edges: EdgeSet, anti_match: [u64; 4]) -> (r: Self)
        requires
            image.wf(),
            image.spec_width() <= u32::MAX,
            image.spec_height() <= u32::MAX,
        ensures
            r.wf(),
            r.spec_image() == image,
            r.spec_weight() == weight,
            r.spec_edges() == edges,
            r.spec_anti_match() == anti_match,
    {
        Self { image, weight, edges, anti_match }
    }

    pub fn weight(&self) -> (r: u8)
        ensures
            r == self.spec_weight(),
    {
        self.weight
    }

    pub fn edge_set(&self) -> (r: &EdgeSet)
        ensures
            *r == self.spec_edges(),
    {
        &self.edges
    }

    pub fn anti_match(&self) -> (r: [u64; 4])
        ensures
            r == self.spec_anti_match(),
    {
        self.anti_match
    }

    pub fn size(&self) -> (r: Size)
        requires
            self.wf(),
        ensures
            r.width == self.spec_image().spec_width(),
            r.height == self.spec_image().spec_height(),
    {
        Size::new(self.image.width() as u32, self.image.height() as u32)
    }

    /// The sample at the given cell, or nothing outside the raster.
    pub fn get(&self, row: usize, col: usize) -> (r: Option<T>)
        requires
            self.wf(),
        ensures
            r is Some <==> (row < self.spec_image().spec_height() && col
                < self.spec_image().spec_width()),
            r matches Some(v) ==> v == self.spec_image().spec_at(row as int, col as int),
    {
        self.image.get(row, col)
    }

    /// Whether `other` may sit on the given side of this tile.
    pub fn is_compatible(&self, other: &TileImage<T>, side: MatchSide) -> (r: bool)
        ensures
            r == tiles_compatible(self.spec_edges(), other.spec_edges(), side),
    {
        match side {
            MatchSide::OnTop => self.edges.top().is_compatible(other.edges.bottom()),
            MatchSide::OnBottom => self.edges.bottom().is_compatible(other.edges.top()),
            MatchSide::OnLeft => self.edges.left().is_compatible(other.edges.right()),
            MatchSide::OnRight => self.edges.right().is_compatible(other.edges.left()),
        }
    }

    /// The tile flipped upside down.
    pub fn flipped(&self) -> (r: Self)
        requires
            self.wf(),
        ensures
            r.wf(),
            r.spec_weight() == self.spec_weight(),
            r.spec_anti_match() == self.spec_anti_match(),
            r.spec_edges() == spec_flipped_set(self.spec_edges()),
            r.spec_image().spec_width() == self.spec_image().spec_width(),
            r.spec_image().spec_height() == self.spec_image().spec_height(),
            forall|row: int, col: int|
                0 <= row < r.spec_image().spec_height() && 0 <= col
                    < r.spec_image().spec_width() ==> r.spec_image().spec_at(row, col)
                    == self.spec_image().spec_at(self.spec_image().spec_height() - 1 - row, col),
    {
        Self {
            image: self.image.flipped(),
            weight: self.weight,
            edges: self.edges.flipped(),
            anti_match: self.anti_match,
        }
    }

    /// The tile mirrored left to right.
    pub fn mirrored(&self) -> (r: Self)
        requires
            self.wf(),
        ensures
            r.wf(),
            r.spec_weight() == self.spec_weight(),
            r.spec_anti_match() == self.spec_anti_match(),
            r.spec_edges() == spec_mirrored_set(self.spec_edges()),
            r.spec_image().spec_width() == self.spec_image().spec_width(),
            r.spec_image().spec_height() == self.spec_image().spec_height(),
            forall|row: int, col: int|
                0 <= row < r.spec_image().spec_height() && 0 <= col
                    < r.spec_image().spec_width() ==> r.spec_image().spec_at(row, col)
                    == self.spec_image().spec_at(row, self.spec_image().spec_width() - 1 - col),
    {
        Self {
            image: self.image.mirrored(),
            weight: self.weight,
            edges: self.edges.mirrored(),
            anti_match: self.anti_match,
        }
    }

    /// The tile rotated a quarter turn clockwise.
    pub fn rotated90(&self) -> (r: Self)
        requires
            self.wf(),
        ensures
            r.wf(),
            r.spec_weight() == self.spec_weight(),
            r.spec_anti_match() == self.spec_anti_match(),
            r.spec_edges() == spec_rotated90_set(self.spec_edges()),
            r.spec_image().spec_width() == self.spec_image().spec_height(),
            r.spec_image().spec_height() == self.spec_image().spec_width(),
            forall|row: int, col: int|
                0 <= row < r.spec_image().spec_height() && 0 <= col
                    < r.spec_image().spec_width() ==> r.spec_image().spec_at(row, col)
                    == self.spec_image().spec_at(self.spec_image().spec_height() - 1 - col, row),
    {
        Self {
            image: self.image.rotated90(),
            weight: self.weight,
            edges: self.edges.rotated90(),
            anti_match: self.anti_match,
        }
    }

    /// The tile rotated a half turn: two quarter turns.
    pub fn rotated180(&self) -> (r: Self)
        requires
            self.wf(),
        ensures
            r.wf(),
            r.spec_weight() == self.spec_weight(),
            r.spec_anti_match() == self.spec_anti_match(),
            r.spec_edges() == spec_rotated90_set(spec_rotated90_set(self.spec_edges())),
            r.spec_image().spec_width() == self.spec_image().spec_width(),
            r.spec_image().spec_height() == self.spec_image().spec_height(),
            forall|row: int, col: int|
                0 <= row < r.spec_image().spec_height() && 0 <= col
                    < r.spec_image().spec_width() ==> r.spec_image().spec_at(row, col)
                    == self.spec_image().spec_at(
                    self.spec_image().spec_height() - 1 - row,
                    self.spec_image().spec_width() - 1 - col,
                ),
    {
        self.rotated90().rotated90()
    }

    /// The tile rotated three quarter turns clockwise.
    pub fn rotated270(&self) -> (r: Self)
        requires
            self.wf(),
        ensures
            r.wf(),
            r.spec_weight() == self.spec_weight(),
            r.spec_anti_match() == self.spec_anti_match(),
            r.spec_edges() == spec_rotated90_set(
                spec_rotated90_set(spec_rotated90_set(self.spec_edges())),
            ),
            r.spec_image().spec_width() == self.spec_image().spec_height(),
            r.spec_image().spec_height() == self.spec_image().spec_width(),
            forall|row: int, col: int|
                0 <= row < r.spec_image().spec_height() && 0 <= col
                    < r.spec_image().spec_width() ==> r.spec_image().spec_at(row, col)
                    == self.spec_image().spec_at(col, self.spec_image().spec_width() - 1 - row),
    {
        self.rotated180().rotated90()
    }
}

} // verus!
