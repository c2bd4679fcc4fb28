//! The land generator: template descriptions, the derivation of tile
//! variants from raw image samples, rule compilation for a template, and the
//! renderer that projects a collapsed grid onto a land buffer.

use crate::edges::{
    canonical_name, canonical_reversed, canonical_symmetrical, canonicalize_descriptor,
    descriptor_body, descriptor_hard, spec_flipped_set, spec_mirrored_set, spec_rotated90_set,
    Edge, EdgeSet,
};
use crate::geometry::Size;
use crate::rules::{compile_rules, rule_exact, BorderSide, Borders, CollapseRule};
use crate::tile::TileImage;
use crate::tokens::Tile;
use crate::vec2d::Vec2D;
use crate::wfc::{
    locally_consistent, spec_initial_cells, spec_run, spec_select, WavefrontCollapse,
};
use crate::LandGenerationParameters;
use vstd::prelude::*;

verus! {

/// A raw edge description: a name with optional orientation and matching
/// flags, as a template author writes it.
pub struct EdgeDescription {
    pub name: String,
    pub reversed: Option<bool>,
    pub symmetrical: Option<bool>,
    pub hard_match: Option<bool>,
}

/// The four edge descriptions of a tile.
pub struct EdgesDescription {
    pub top: EdgeDescription,
    pub right: EdgeDescription,
    pub bottom: EdgeDescription,
    pub left: EdgeDescription,
}

/// One tile of a template: its image name, weight, edges and the variants to
/// derive from it.
pub struct TileDescription {
    pub name: String,
    pub weight: u8,
    pub edges: EdgesDescription,
    pub anti_match: Option<[u64; 4]>,
    pub is_negative: Option<bool>,
    pub can_flip: Option<bool>,
    pub can_mirror: Option<bool>,
    pub can_rotate90: Option<bool>,
    pub can_rotate180: Option<bool>,
    pub can_rotate270: Option<bool>,
}

/// Up to three border segments of one side of the template.
pub struct ComplexEdgeDescription {
    pub begin: Option<EdgeDescription>,
    pub fill: Option<EdgeDescription>,
    pub end: Option<EdgeDescription>,
}

/// The optional border descriptions of the template's four sides.
pub struct NonStrictComplexEdgesDescription {
    pub top: Option<ComplexEdgeDescription>,
    pub right: Option<ComplexEdgeDescription>,
    pub bottom: Option<ComplexEdgeDescription>,
    pub left: Option<ComplexEdgeDescription>,
}

/// A whole template: the map size in samples, the tiles, the borders, and
/// the inversion and wrap flags.
pub struct TemplateDescription {
    pub size: Size,
    pub tiles: Vec<TileDescription>,
    pub edges: NonStrictComplexEdgesDescription,
    pub can_invert: bool,
    pub is_negative: bool,
    pub wrap: bool,
}

/// The value of an optional flag, unset meaning false.
pub open spec fn flag_set(f: Option<bool>) -> bool {
    f == Option::Some(true)
}

/// Whether a canonical edge is the one a description denotes: the name is
/// taken as it stands, and asking for the reversed reading of a symmetrical
/// edge changes nothing.
pub open spec fn edge_matches_description(e: Edge, d: EdgeDescription) -> bool {
    &&& e.spec_name() == d.name@
    &&& e.spec_symmetrical() == flag_set(d.symmetrical)
    &&& e.spec_hard_match() == flag_set(d.hard_match)
    &&& e.spec_reverse() == (flag_set(d.reversed) && !flag_set(d.symmetrical))
}

impl EdgeDescription {
    /// Parses a raw descriptor string into its canonical description: the
    /// hard-match marker is stripped, and the lexicographically smaller of
    /// the remaining body and its reverse becomes the name.
    pub fn from_descriptor(s: &str) -> (r: EdgeDescription)
        ensures
            r.name@ == canonical_name(descriptor_body(s@)),
            r.symmetrical == Option::Some(canonical_symmetrical(descriptor_body(s@))),
            r.reversed == Option::Some(canonical_reversed(descriptor_body(s@))),
            r.hard_match == Option::Some(descriptor_hard(s@)),
    {
        let e = canonicalize_descriptor(s);
        EdgeDescription {
            name: e.name(),
            reversed: Some(e.is_reversed()),
            symmetrical: Some(e.symmetrical()),
            hard_match: Some(e.hard_match()),
        }
    }
}

impl Edge {
    /// The canonical edge a description denotes.
    pub fn from_description(d: &EdgeDescription) -> (r: Edge)
        ensures
            edge_matches_description(r, *d),
    {
        let symmetrical = match d.symmetrical {
            Some(b) => b,
            None => false,
        };
        let hard = match d.hard_match {
            Some(b) => b,
            None => false,
        };
        let reversed = match d.reversed {
            Some(b) => b,
            None => false,
        };
        let e = Edge::new(d.name.clone(), symmetrical, hard);
        if reversed {
            e.reversed()
        } else {
            e
        }
    }
}

/// Whether an optional border segment is the one an optional description
/// denotes.
pub open spec fn segment_matches(seg: Option<Edge>, d: Option<EdgeDescription>) -> bool {
    match (seg, d) {
        (Option::None, Option::None) => true,
        (Option::Some(e), Option::Some(dd)) => edge_matches_description(e, dd),
        _ => false,
    }
}

/// Whether one side's borders are the ones its description denotes.
pub open spec fn border_side_matches(
    bs: Option<BorderSide>,
    d: Option<ComplexEdgeDescription>,
) -> bool {
    match (bs, d) {
        (Option::None, Option::None) => true,
        (Option::Some(b), Option::Some(dd)) => segment_matches(b.begin, dd.begin)
            && segment_matches(b.fill, dd.fill) && segment_matches(b.end, dd.end),
        _ => false,
    }
}

/// Whether a border table is the one the template's edges denote.
pub open spec fn borders_match(b: Borders, d: NonStrictComplexEdgesDescription) -> bool {
    &&& border_side_matches(b.top, d.top)
    &&& border_side_matches(b.right, d.right)
    &&& border_side_matches(b.bottom, d.bottom)
    &&& border_side_matches(b.left, d.left)
}

/// Converts one optional border segment.
fn segment_from(d: &Option<EdgeDescription>) -> (r: Option<Edge>)
    ensures
        segment_matches(r, *d),
{
    match d {
        Some(dd) => Some(Edge::from_description(dd)),
        None => None,
    }
}

/// Converts one side's border description.
fn border_side_from(d: &Option<ComplexEdgeDescription>) -> (r: Option<BorderSide>)
    ensures
        border_side_matches(r, *d),
{
    match d {
        Some(dd) => Some(
            BorderSide {
                begin: segment_from(&dd.begin),
                fill: segment_from(&dd.fill),
                end: segment_from(&dd.end),
            },
        ),
        None => None,
    }
}

/// The derived variants a tile description asks for, in registration order.
#[derive(PartialEq, Eq, Clone, Copy, Debug, Structural)]
pub enum VariantKind {
    Base,
    Flipped,
    Mirrored,
    FlippedMirrored,
    Rotated90,
    Rotated180,
    Rotated270,
}

/// The variants a description registers: the base tile, then each enabled
/// transform.
pub open spec fn spec_variant_kinds(td: TileDescription) -> Seq<VariantKind> {
    seq![VariantKind::Base] + (if flag_set(td.can_flip) {
        seq![VariantKind::Flipped]
    } else {
        Seq::empty()
    }) + (if flag_set(td.can_mirror) {
        seq![VariantKind::Mirrored]
    } else {
        Seq::empty()
    }) + (if flag_set(td.can_flip) && flag_set(td.can_mirror) {
        seq![VariantKind::FlippedMirrored]
    } else {
        Seq::empty()
    }) + (if flag_set(td.can_rotate90) {
        seq![VariantKind::Rotated90]
    } else {
        Seq::empty()
    }) + (if flag_set(td.can_rotate180) {
        seq![VariantKind::Rotated180]
    } else {
        Seq::empty()
    }) + (if flag_set(td.can_rotate270) {
        seq![VariantKind::Rotated270]
    } else {
        Seq::empty()
    })
}

/// The edge set of a variant, as the transforms compose it.
pub open spec fn variant_edges(es: EdgeSet, k: VariantKind) -> EdgeSet {
    match k {
        VariantKind::Base => es,
        VariantKind::Flipped => spec_flipped_set(es),
        VariantKind::Mirrored => spec_mirrored_set(es),
        VariantKind::FlippedMirrored => spec_flipped_set(spec_mirrored_set(es)),
        VariantKind::Rotated90 => spec_rotated90_set(es),
        VariantKind::Rotated180 => spec_rotated90_set(spec_rotated90_set(es)),
        VariantKind::Rotated270 => spec_rotated90_set(spec_rotated90_set(spec_rotated90_set(es))),
    }
}

/// The base-raster cell a variant reads for its own cell `(r, c)`, given the
/// base raster's height and width.
pub open spec fn variant_source(k: VariantKind, h: int, w: int, r: int, c: int) -> (int, int) {
    match k {
        VariantKind::Base => (r, c),
        VariantKind::Flipped => (h - 1 - r, c),
        VariantKind::Mirrored => (r, w - 1 - c),
        VariantKind::FlippedMirrored => (h - 1 - r, w - 1 - c),
        VariantKind::Rotated90 => (h - 1 - c, r),
        VariantKind::Rotated180 => (h - 1 - r, w - 1 - c),
        VariantKind::Rotated270 => (c, w - 1 - r),
    }
}

/// Whether a variant's raster swaps the base raster's extents.
pub open spec fn variant_swaps_extents(k: VariantKind) -> bool {
    k == VariantKind::Rotated90 || k == VariantKind::Rotated270
}

/// Whether `v` is the `k` variant of `base`: same weight and anti-match
/// mask, transformed edges, and the correspondingly transformed raster.
pub open spec fn variant_matches<T>(v: TileImage<T>, base: TileImage<T>, k: VariantKind) -> bool {
    let h = base.spec_image().spec_height();
    let w = base.spec_image().spec_width();
    &&& v.spec_weight() == base.spec_weight()
    &&& v.spec_anti_match() == base.spec_anti_match()
    &&& v.spec_edges() == variant_edges(base.spec_edges(), k)
    &&& v.spec_image().spec_height() == (if variant_swaps_extents(k) {
        w
    } else {
        h
    })
    &&& v.spec_image().spec_width() == (if variant_swaps_extents(k) {
        h
    } else {
        w
    })
    &&& forall|r: int, c: int|
        0 <= r < v.spec_image().spec_height() && 0 <= c < v.spec_image().spec_width()
            ==> #[trigger] v.spec_image().spec_at(r, c) == base.spec_image().spec_at(
            variant_source(k, h, w, r, c).0,
            variant_source(k, h, w, r, c).1,
        )
}

/// The domain value a raw sample thresholds to: the template's background for
/// a zero sample and its solid value otherwise, the two swapped for a
/// negative tile.
pub open spec fn threshold_value<T>(
    parameters: LandGenerationParameters<T>,
    negative: bool,
    sample: u8,
) -> T {
    let z = if negative {
        parameters.basic
    } else {
        parameters.zero
    };
    let b = if negative {
        parameters.zero
    } else {
        parameters.basic
    };
    if sample == 0 {
        z
    } else {
        b
    }
}

/// Thresholds raw image rows into a raster of the two domain values.
fn threshold_image<T: Copy>(
    width: u32,
    height: u32,
    samples_per_pixel: usize,
    line_size: usize,
    bytes: &Vec<u8>,
    zero: T,
    basic: T,
) -> (image: Vec2D<T>)
    requires
        samples_per_pixel >= 1,
        line_size >= width * samples_per_pixel,
        bytes@.len() >= height * line_size,
        width * height <= usize::MAX,
        height * line_size <= usize::MAX,
    ensures
        image.wf(),
        image.spec_width() == width,
        image.spec_height() == height,
        forall|r2: int, c2: int|
            0 <= r2 < height && 0 <= c2 < width ==> #[trigger] image.spec_at(r2, c2) == (if bytes@[
                r2 * line_size + c2 * samples_per_pixel
            ] == 0 {
                zero
            } else {
                basic
            }),
{
    let size = Size::new(width, height);
    let mut image: Vec2D<T> = Vec2D::new(&size, zero);
    let w = width as usize;
    let h = height as usize;
    let mut rr: usize = 0;
    while rr < h
        invariant
            rr <= h,
            w == width && h == height,
            samples_per_pixel >= 1,
            line_size >= width * samples_per_pixel,
            bytes@.len() >= height * line_size,
            height * line_size <= usize::MAX,
            image.wf(),
            image.spec_width() == w,
            image.spec_height() == h,
            forall|r2: int, c2: int|
                0 <= r2 < rr && 0 <= c2 < w ==> #[trigger] image.spec_at(r2, c2) == (if bytes@[r2
                    * line_size + c2 * samples_per_pixel] == 0 {
                    zero
                } else {
                    basic
                }),
        decreases h - rr,
    {
        let mut cc: usize = 0;
        while cc < w
            invariant
                rr < h,
                cc <= w,
                w == width && h == height,
                samples_per_pixel >= 1,
                line_size >= width * samples_per_pixel,
                bytes@.len() >= height * line_size,
                height * line_size <= usize::MAX,
                image.wf(),
                image.spec_width() == w,
                image.spec_height() == h,
                forall|r2: int, c2: int|
                    0 <= r2 < rr && 0 <= c2 < w ==> #[trigger] image.spec_at(r2, c2) == (if bytes@[
                        r2 * line_size + c2 * samples_per_pixel
                    ] == 0 {
                        zero
                    } else {
                        basic
                    }),
                forall|c2: int|
                    0 <= c2 < cc ==> #[trigger] image.spec_at(rr as int, c2) == (if bytes@[rr as int
                        * line_size + c2 * samples_per_pixel] == 0 {
                        zero
                    } else {
                        basic
                    }),
            decreases w - cc,
        {
            proof {
                lemma_sample_index(
                    width as int,
                    height as int,
                    samples_per_pixel as int,
                    line_size as int,
                    rr as int,
                    cc as int,
                );
            }
            let b = bytes[rr * line_size + cc * samples_per_pixel];
            let v = if b == 0 {
                zero
            } else {
                basic
            };
            image.set(rr, cc, v);
            cc = cc + 1;
        }
        rr = rr + 1;
    }
    image
}

/// Registers a tile and the derived variants its description asks for, in
/// order: the base, then flip, mirror, both, and the three rotations.
fn derive_variants<T: Copy>(tile: TileImage<T>, td: &TileDescription) -> (out: Vec<TileImage<T>>)
    requires
        tile.wf(),
    ensures
        out@.len() == spec_variant_kinds(*td).len(),
        out@[0] == tile,
        forall|i: int|
            0 < i < out@.len() ==> variant_matches(
                #[trigger] out@[i],
                tile,
                spec_variant_kinds(*td)[i],
            ) && out@[i].wf(),
{
    let ghost kinds = spec_variant_kinds(*td);
    let can_flip = match td.can_flip {
        Some(b) => b,
        None => false,
    };
    let can_mirror = match td.can_mirror {
        Some(b) => b,
        None => false,
    };
    let can_rotate90 = match td.can_rotate90 {
        Some(b) => b,
        None => false,
    };
    let can_rotate180 = match td.can_rotate180 {
        Some(b) => b,
        None => false,
    };
    let can_rotate270 = match td.can_rotate270 {
        Some(b) => b,
        None => false,
    };
    let v_flipped: Option<TileImage<T>> = if can_flip {
        Some(tile.flipped())
    } else {
        None
    };
    let v_mirrored: Option<TileImage<T>> = if can_mirror {
        Some(tile.mirrored())
    } else {
        None
    };
    let v_both: Option<TileImage<T>> = if can_flip && can_mirror {
        Some(tile.mirrored().flipped())
    } else {
        None
    };
    let v_r90: Option<TileImage<T>> = if can_rotate90 {
        Some(tile.rotated90())
    } else {
        None
    };
    let v_r180: Option<TileImage<T>> = if can_rotate180 {
        Some(tile.rotated180())
    } else {
        None
    };
    let v_r270: Option<TileImage<T>> = if can_rotate270 {
        Some(tile.rotated270())
    } else {
        None
    };
    let ghost base = tile;
    let mut out: Vec<TileImage<T>> = Vec::new();
    out.push(tile);
    match v_flipped {
        Some(v) => {
            proof {
                assert(kinds[out@.len() as int] == VariantKind::Flipped);
            }
            out.push(v);
        },
        None => (),
    }
    match v_mirrored {
        Some(v) => {
            proof {
                assert(kinds[out@.len() as int] == VariantKind::Mirrored);
            }
            out.push(v);
        },
        None => (),
    }
    match v_both {
        Some(v) => {
            proof {
                assert(kinds[out@.len() as int] == VariantKind::FlippedMirrored);
            }
            out.push(v);
        },
        None => (),
    }
    match v_r90 {
        Some(v) => {
            proof {
                assert(kinds[out@.len() as int] == VariantKind::Rotated90);
            }
            out.push(v);
        },
        None => (),
    }
    match v_r180 {
        Some(v) => {
            proof {
                assert(kinds[out@.len() as int] == VariantKind::Rotated180);
            }
            out.push(v);
        },
        None => (),
    }
    match v_r270 {
        Some(v) => {
            proof {
                assert(kinds[out@.len() as int] == VariantKind::Rotated270);
            }
            out.push(v);
        },
        None => (),
    }
    proof {
        assert(out@.len() == kinds.len());
    }
    out
}

/// Thresholds one decoded image into a tile and registers the variants its
/// description asks for.  The image arrives as raw rows of `line_size` bytes
/// each, one sample group of `samples_per_pixel` bytes per pixel, of which
/// the first byte decides the pixel.
pub fn tiles_from_image_data<T: Copy>(
    parameters: &LandGenerationParameters<T>,
    tile_description: &TileDescription,
    width: u32,
    height: u32,
    samples_per_pixel: usize,
    line_size: usize,
    bytes: &Vec<u8>,
) -> (r: Vec<TileImage<T>>)
    requires
        samples_per_pixel >= 1,
        line_size >= width * samples_per_pixel,
        bytes@.len() >= height * line_size,
        width * height <= usize::MAX,
        height * line_size <= usize::MAX,
    ensures
        r@.len() == spec_variant_kinds(*tile_description).len(),
        r@.len() >= 1,
        ({
            let base = r@[0];
            &&& base.wf()
            &&& base.spec_image().spec_width() == width
            &&& base.spec_image().spec_height() == height
            &&& base.spec_weight() == tile_description.weight
            &&& (match tile_description.anti_match {
                Option::Some(a) => base.spec_anti_match() == a,
                Option::None => base.spec_anti_match()@ == seq![0u64, 0u64, 0u64, 0u64],
            })
            &&& edge_matches_description(
                base.spec_edges().spec_top(),
                tile_description.edges.top,
            )
            &&& edge_matches_description(
                base.spec_edges().spec_right(),
                tile_description.edges.right,
            )
            &&& edge_matches_description(
                base.spec_edges().spec_bottom(),
                tile_description.edges.bottom,
            )
            &&& edge_matches_description(
                base.spec_edges().spec_left(),
                tile_description.edges.left,
            )
            &&& forall|rr: int, cc: int|
                0 <= rr < height && 0 <= cc < width ==> #[trigger] base.spec_image().spec_at(
                    rr,
                    cc,
                ) == threshold_value(
                    *parameters,
                    flag_set(tile_description.is_negative),
                    bytes@[rr * line_size + cc * samples_per_pixel],
                )
            &&& forall|i: int|
                0 < i < r@.len() ==> variant_matches(
                    #[trigger] r@[i],
                    base,
                    spec_variant_kinds(*tile_description)[i],
                ) && r@[i].wf()
        }),
{
    let negative = match tile_description.is_negative {
        Some(b) => b,
        None => false,
    };
    let zero: T = if negative {
        parameters.basic()
    } else {
        parameters.zero()
    };
    let basic: T = if negative {
        parameters.zero()
    } else {
        parameters.basic()
    };
    let image = threshold_image(width, height, samples_per_pixel, line_size, bytes, zero, basic);
    let edge_set = EdgeSet::new(
        Edge::from_description(&tile_description.edges.top),
        Edge::from_description(&tile_description.edges.right),
        Edge::from_description(&tile_description.edges.bottom),
        Edge::from_description(&tile_description.edges.left),
    );
    let anti_match: [u64; 4] = match tile_description.anti_match {
        Some(a) => a,
        None => [0u64, 0u64, 0u64, 0u64],
    };
    let tile = TileImage::new(image, tile_description.weight, edge_set, anti_match);
    derive_variants(tile, tile_description)
}

/// In-range samples lie inside the byte buffer.
proof fn lemma_sample_index(w: int, h: int, spp: int, line: int, r: int, c: int)
    requires
        spp >= 1,
        line >= w * spp,
        0 <= r < h,
        0 <= c < w,
    ensures
        0 <= r * line + c * spp,
        r * line + c * spp < h * line,
{
    assert(r * line >= 0 && c * spp >= 0) by (nonlinear_arith)
        requires
            r >= 0,
            c >= 0,
            line >= 0,
            spp >= 1,
    ;
    assert(c * spp < w * spp) by (nonlinear_arith)
        requires
            c < w,
            spp >= 1,
    ;
    assert((r + 1) * line <= h * line) by (nonlinear_arith)
        requires
            r + 1 <= h,
            line >= 0,
    ;
    assert(r * line + line == (r + 1) * line) by (nonlinear_arith);
}

/// A land buffer: a power-of-two raster with a play area centered at its
/// bottom, as the game's landscape expects.
pub struct Land<T> {
    buffer: Vec2D<T>,
    play_width: usize,
    play_height: usize,
}

impl<T> Land<T> {
    pub closed spec fn spec_buffer(self) -> Vec2D<T> {
        self.buffer
    }

    pub closed spec fn spec_play_width(self) -> int {
        self.play_width as int
    }

    pub closed spec fn spec_play_height(self) -> int {
        self.play_height as int
    }

    /// The play area fits inside the buffer.
    pub open spec fn wf(self) -> bool {
        &&& self.spec_buffer().wf()
        &&& self.spec_play_width() <= self.spec_buffer().spec_width()
        &&& self.spec_play_height() <= self.spec_buffer().spec_height()
    }
}

impl<T: Copy> Land<T> {
    /// A land whose play area has the given size, inside a buffer grown to
    /// the next powers of two, filled with the background value.
    pub fn new(play_size: &Size, fill: T) -> (r: Self)
        requires
            play_size.width <= 0x4000,
            play_size.height <= 0x4000,
        ensures
            r.wf(),
            r.spec_play_width() == play_size.width,
            r.spec_play_height() == play_size.height,
            r.spec_buffer().spec_width() <= 0x8000,
            r.spec_buffer().spec_height() <= 0x8000,
            forall|y: int, x: int|
                0 <= y < r.spec_buffer().spec_height() && 0 <= x < r.spec_buffer().spec_width()
                    ==> r.spec_buffer().spec_at(y, x) == fill,
    {
        let full = play_size.next_power_of_two();
        proof {
            assert(full.width() <= 0x8000 && full.height() <= 0x8000) by {
                if play_size.width >= 1 {
                    assert(full.width() == 1 || full.width() / 2 < play_size.width);
                } else {
                    assert(full.width() >= 0);
                }
                if play_size.height >= 1 {
                    assert(full.height() == 1 || full.height() / 2 < play_size.height);
                }
            }
            assert(full.width() * full.height() <= 0x8000 * 0x8000) by (nonlinear_arith)
                requires
                    full.width() <= 0x8000,
                    full.height() <= 0x8000,
            ;
        }
        let buffer = Vec2D::new(&full.size(), fill);
        Self {
            buffer,
            play_width: play_size.width as usize,
            play_height: play_size.height as usize,
        }
    }

    pub fn width(&self) -> (r: usize)
        requires
            self.wf(),
        ensures
            r == self.spec_buffer().spec_width(),
    {
        self.buffer.width()
    }

    pub fn height(&self) -> (r: usize)
        requires
            self.wf(),
        ensures
            r == self.spec_buffer().spec_height(),
    {
        self.buffer.height()
    }

    pub fn play_width(&self) -> (r: usize)
        ensures
            r == self.spec_play_width(),
    {
        self.play_width
    }

    pub fn play_height(&self) -> (r: usize)
        ensures
            r == self.spec_play_height(),
    {
        self.play_height
    }

    /// The value at a buffer cell, or nothing outside the buffer.
    pub fn get(&self, y: usize, x: usize) -> (r: Option<T>)
        requires
            self.wf(),
        ensures
            r is Some <==> (y < self.spec_buffer().spec_height() && x
                < self.spec_buffer().spec_width()),
            r matches Some(v) ==> v == self.spec_buffer().spec_at(y as int, x as int),
    {
        self.buffer.get(y, x)
    }

    /// Writes one buffer cell; a write outside the buffer does nothing.
    pub fn put(&mut self, y: usize, x: usize, value: T)
        requires
            old(self).wf(),
        ensures
            final(self).wf(),
            final(self).spec_play_width() == old(self).spec_play_width(),
            final(self).spec_play_height() == old(self).spec_play_height(),
            final(self).spec_buffer().spec_width() == old(self).spec_buffer().spec_width(),
            final(self).spec_buffer().spec_height() == old(self).spec_buffer().spec_height(),
            y < old(self).spec_buffer().spec_height() && x < old(self).spec_buffer().spec_width()
                ==> final(self).spec_buffer().spec_at(y as int, x as int) == value,
            forall|r: int, c: int|
                (0 <= r < old(self).spec_buffer().spec_height()
                    && 0 <= c < old(self).spec_buffer().spec_width() && !(r == y && c == x))
                    ==> final(self).spec_buffer().spec_at(r, c)
                    == old(self).spec_buffer().spec_at(r, c),
    {
        if y < self.buffer.height() && x < self.buffer.width() {
            self.buffer.set(y, x, value);
        }
    }
}

/// The generator: a template and the path of the directory its tile images
/// live in.
pub struct WavefrontCollapseLandGenerator {
    pub template: TemplateDescription,
    data_path: String,
}

impl WavefrontCollapseLandGenerator {
    pub fn new(template: TemplateDescription, data_path: &str) -> (r: Self)
        ensures
            r.spec_template() == template,
            r.spec_data_path() == data_path@,
    {
        Self { template, data_path: data_path.to_owned() }
    }

    pub closed spec fn spec_template(self) -> TemplateDescription {
        self.template
    }

    pub closed spec fn spec_data_path(self) -> Seq<char> {
        self.data_path@
    }

    /// The directory the tile images are loaded from.
    pub fn data_path(&self) -> (r: &str)
        ensures
            r@ == self.spec_data_path(),
    {
        self.data_path.as_str()
    }

    /// Generates a whole landscape: compiles this template's rules for the
    /// given tiles, collapses a grid sized by the first tile's extents, and
    /// renders every committed cell's tile into a fresh land buffer.  A
    /// template whose size is not a multiple of the tile size is a content
    /// error and is refused up front, before the collapse starts.  The
    /// witness predicate records everything the run guarantees: the grid is
    /// the function of the compiled rules and the consumed draws, it is
    /// locally consistent, no selectable cell is left, every buffer sample
    /// is the background or a sample some committed tile put there, and for
    /// same-extent tiles every committed cell's raster stands in the buffer
    /// in full.
    pub fn generate_land<T: Copy>(
        &self,
        parameters: &LandGenerationParameters<T>,
        tiles: &Vec<TileImage<T>>,
        random_numbers: &mut rand::rngs::StdRng,
    ) -> (r: Land<T>)
        requires
            1 <= parameters.distance_divisor <= 25,
            tiles@.len() <= 0x0100_0000,
            forall|i: int| 0 <= i < tiles@.len() ==> (#[trigger] tiles@[i]).wf(),
            forall|i: int| 0 <= i < tiles@.len() ==> (#[trigger] tiles@[i]).spec_weight() >= 1,
            forall|i: int|
                0 <= i < tiles@.len() ==> 1 <= (
                #[trigger] tiles@[i]).spec_image().spec_width() <= 0x4000 && 1 <= tiles@[
                    i
                ].spec_image().spec_height() <= 0x4000,
            self.spec_template().size.width <= 0x4000,
            self.spec_template().size.height <= 0x4000,
            tiles@.len() > 0 ==> self.spec_template().size.width as int % tiles@[0
                ].spec_image().spec_width() == 0,
            tiles@.len() > 0 ==> self.spec_template().size.height as int % tiles@[0
                ].spec_image().spec_height() == 0,
        ensures
            r.wf(),
            r.spec_play_width() == self.spec_template().size.width,
            r.spec_play_height() == self.spec_template().size.height,
            exists|borders: Borders, rules_s: Seq<CollapseRule>, draws: Seq<u32>|
                #[trigger] generation_witness(
                    r,
                    self.spec_template(),
                    *parameters,
                    tiles@,
                    borders,
                    rules_s,
                    draws,
                ),
    {
        let distribution_factor: i32 = (parameters.distance_divisor as i32 - 1) * 8 - 96;
        let rules = self.build_rules(tiles, distribution_factor);
        let ghost rules_seq = rules@;
        let ghost borders = choose|b: Borders|
            #[trigger] borders_match(b, self.spec_template().edges) && forall|i: int|
                0 <= i < rules_seq.len() ==> rule_exact(
                    #[trigger] rules_seq[i],
                    tiles@,
                    b,
                    i,
                    distribution_factor as int,
                );
        proof {
            crate::wfc::lemma_exact_rules_engine_ready(
                rules_seq,
                tiles@,
                borders,
                distribution_factor as int,
            );
        }
        let mut wfc = WavefrontCollapse::new(self.template.wrap);
        wfc.set_rules(rules);
        let wfc_size = if tiles.len() > 0 {
            let ts = tiles[0].size();
            Size::new(self.template.size.width / ts.width, self.template.size.height / ts.height)
        } else {
            Size::new(1, 1)
        };
        proof {
            assert(wfc_size.width <= 0x4000 && wfc_size.height <= 0x4000) by {
                if tiles@.len() > 0 {
                    vstd::arithmetic::div_mod::lemma_div_is_ordered_by_denominator(
                        self.spec_template().size.width as int,
                        1,
                        tiles@[0].spec_image().spec_width(),
                    );
                    vstd::arithmetic::div_mod::lemma_div_is_ordered_by_denominator(
                        self.spec_template().size.height as int,
                        1,
                        tiles@[0].spec_image().spec_height(),
                    );
                    vstd::arithmetic::div_mod::lemma_div_basics(
                        self.spec_template().size.width as int,
                    );
                    vstd::arithmetic::div_mod::lemma_div_basics(
                        self.spec_template().size.height as int,
                    );
                }
            }
            assert(wfc_size.width * wfc_size.height <= 0x4000 * 0x4000) by (nonlinear_arith)
                requires
                    wfc_size.width <= 0x4000,
                    wfc_size.height <= 0x4000,
            ;
        }
        let draws = wfc.generate_map(&wfc_size, random_numbers);
        let ghost grid = wfc.spec_cells();

        let mut result: Land<T> = Land::new(&self.template.size, parameters.zero());
        let bw = result.width();
        let bh = result.height();
        let offset_y: usize = bh - result.play_height();
        let offset_x: usize = (bw - result.play_width()) / 2;
        let tokens = wfc.resolved_tokens();
        let n_tokens = tokens.len();
        let ghost tokens_seq = tokens@;
        let zero = parameters.zero();
        let gw = wfc.width();
        let gh = wfc.height();
        let ghost th0: int = if tiles@.len() > 0 {
            tiles@[0].spec_image().spec_height()
        } else {
            1int
        };
        let ghost tw0: int = if tiles@.len() > 0 {
            tiles@[0].spec_image().spec_width()
        } else {
            1int
        };
        let ghost uni: bool = tiles@.len() > 0 && uniform_extents(tiles@);
        proof {
            assert(tokens_seq =~= Seq::new(
                grid.len(),
                |i: int|
                    match grid[i].resolved {
                        Option::Some(t) => t,
                        Option::None => Tile::Empty,
                    },
            ));
            assert(all_pixels_ok(result, zero, tokens_seq, tiles@, gw as int, offset_y as int, offset_x as int));
            assert(prefix_rendered(
                result,
                tokens_seq,
                tiles@,
                gw as int,
                th0,
                tw0,
                offset_y as int,
                offset_x as int,
                0,
            )) by {
                assert forall|gy: int, gx: int, ty: int, tx: int|
                    (0 <= gy && 0 <= gx < gw && gy * (gw as int) + gx < 0 && gy * (gw as int) + gx
                        < tokens_seq.len() && 0 <= ty < th0 && 0 <= tx < tw0 && gy * th0 + ty
                        + offset_y < result.spec_buffer().spec_height() && gx * tw0 + tx + offset_x
                        < result.spec_buffer().spec_width()) implies (tokens_seq[gy * (gw as int)
                    + gx] matches Tile::Numbered(t) ==> t < tiles@.len()
                    ==> #[trigger] result.spec_buffer().spec_at(gy * th0 + ty + offset_y, gx * tw0
                        + tx + offset_x) == tiles@[t as int].spec_image().spec_at(ty, tx)) by {
                    assert(gy * (gw as int) >= 0) by (nonlinear_arith)
                        requires
                            gy >= 0,
                            gw as int >= 0,
                    ;
                }
            }
        }
        let mut row: usize = 0;
        while row < gh
            invariant
                row <= gh,
                result.wf(),
                result.spec_play_width() == self.spec_template().size.width,
                result.spec_play_height() == self.spec_template().size.height,
                result.spec_buffer().spec_width() <= 0x8000,
                result.spec_buffer().spec_height() <= 0x8000,
                result.spec_buffer().spec_width() == bw,
                result.spec_buffer().spec_height() == bh,
                offset_y == bh - result.spec_play_height(),
                offset_x == (bw - result.spec_play_width()) / 2,
                gw <= 0x4000,
                gh <= 0x4000,
                offset_y <= 0x8000,
                offset_x <= 0x8000,
                tokens_seq == tokens@,
                tokens@.len() == gw * gh,
                tokens@.len() == n_tokens,
                forall|i: int| 0 <= i < tiles@.len() ==> (#[trigger] tiles@[i]).wf(),
                forall|i: int|
                    0 <= i < tiles@.len() ==> 1 <= (
                    #[trigger] tiles@[i]).spec_image().spec_width() <= 0x4000 && 1 <= tiles@[
                        i
                    ].spec_image().spec_height() <= 0x4000,
                all_pixels_ok(
                    result,
                    zero,
                    tokens_seq,
                    tiles@,
                    gw as int,
                    offset_y as int,
                    offset_x as int,
                ),
                uni == (tiles@.len() > 0 && uniform_extents(tiles@)),
                uni ==> th0 == tiles@[0].spec_image().spec_height() && tw0 == tiles@[0
                    ].spec_image().spec_width() && 1 <= th0 <= 0x4000 && 1 <= tw0 <= 0x4000,
                uni ==> prefix_rendered(
                    result,
                    tokens_seq,
                    tiles@,
                    gw as int,
                    th0,
                    tw0,
                    offset_y as int,
                    offset_x as int,
                    row as int * (gw as int),
                ),
            decreases gh - row,
        {
            let mut col: usize = 0;
            while col < gw
                invariant
                    row < gh,
                    col <= gw,
                    result.wf(),
                    result.spec_play_width() == self.spec_template().size.width,
                    result.spec_play_height() == self.spec_template().size.height,
                    result.spec_buffer().spec_width() <= 0x8000,
                    result.spec_buffer().spec_height() <= 0x8000,
                    result.spec_buffer().spec_width() == bw,
                    result.spec_buffer().spec_height() == bh,
                    offset_y == bh - result.spec_play_height(),
                    offset_x == (bw - result.spec_play_width()) / 2,
                    gw <= 0x4000,
                    gh <= 0x4000,
                    offset_y <= 0x8000,
                    offset_x <= 0x8000,
                    tokens_seq == tokens@,
                    tokens@.len() == gw * gh,
                    tokens@.len() == n_tokens,
                    forall|i: int| 0 <= i < tiles@.len() ==> (#[trigger] tiles@[i]).wf(),
                    forall|i: int|
                        0 <= i < tiles@.len() ==> 1 <= (
                        #[trigger] tiles@[i]).spec_image().spec_width() <= 0x4000 && 1 <= tiles@[
                            i
                        ].spec_image().spec_height() <= 0x4000,
                    all_pixels_ok(
                        result,
                        zero,
                        tokens_seq,
                        tiles@,
                        gw as int,
                        offset_y as int,
                        offset_x as int,
                    ),
                    uni == (tiles@.len() > 0 && uniform_extents(tiles@)),
                    uni ==> th0 == tiles@[0].spec_image().spec_height() && tw0 == tiles@[0
                        ].spec_image().spec_width() && 1 <= th0 <= 0x4000 && 1 <= tw0 <= 0x4000,
                    uni ==> prefix_rendered(
                        result,
                        tokens_seq,
                        tiles@,
                        gw as int,
                        th0,
                        tw0,
                        offset_y as int,
                        offset_x as int,
                        row as int * (gw as int) + col as int,
                    ),
                decreases gw - col,
            {
                proof {
                    lemma_render_index(gw as int, gh as int, row as int, col as int);
                }
                let idx = row * gw + col;
                let ghost pre_cell = result;
                match tokens[idx] {
                    Tile::Numbered(ti) => {
                        if ti < tiles.len() {
                            blit_tile(
                                &mut result,
                                &tiles[ti],
                                ti,
                                row,
                                col,
                                offset_y,
                                offset_x,
                                Ghost(tokens_seq),
                                Ghost(tiles@),
                                Ghost(gw as int),
                                Ghost(zero),
                            );
                            proof {
                                if uni {
                                    lemma_prefix_rendered_after_blit(
                                        pre_cell,
                                        result,
                                        tokens_seq,
                                        tiles@,
                                        gw as int,
                                        th0,
                                        tw0,
                                        offset_y as int,
                                        offset_x as int,
                                        row as int,
                                        col as int,
                                        ti,
                                    );
                                }
                            }
                        } else {
                            proof {
                                if uni {
                                    lemma_prefix_rendered_skip(
                                        result,
                                        tokens_seq,
                                        tiles@,
                                        gw as int,
                                        th0,
                                        tw0,
                                        offset_y as int,
                                        offset_x as int,
                                        row as int,
                                        col as int,
                                    );
                                }
                            }
                        }
                    },
                    _ => {
                        proof {
                            if uni {
                                lemma_prefix_rendered_skip(
                                    result,
                                    tokens_seq,
                                    tiles@,
                                    gw as int,
                                    th0,
                                    tw0,
                                    offset_y as int,
                                    offset_x as int,
                                    row as int,
                                    col as int,
                                );
                            }
                        }
                    },
                }
                col = col + 1;
            }
            proof {
                assert((row + 1) as int * (gw as int) == row as int * (gw as int) + gw as int)
                    by (nonlinear_arith);
            }
            row = row + 1;
        }
        proof {
            let template = self.spec_template();
            let f = crate::rules::spec_spread_factor(parameters.distance_divisor);
            assert(f == distribution_factor as int);
            let sgw = if tiles@.len() > 0 {
                template.size.width as int / tiles@[0].spec_image().spec_width()
            } else {
                1int
            };
            let sgh = if tiles@.len() > 0 {
                template.size.height as int / tiles@[0].spec_image().spec_height()
            } else {
                1int
            };
            assert(sgw == wfc_size.width && sgh == wfc_size.height);
            assert(gw as int == sgw && gh as int == sgh);
            let sgrid = spec_run(
                rules_seq,
                template.wrap,
                sgw,
                sgh,
                spec_initial_cells(rules_seq, template.wrap, sgw, sgh),
                draws@,
            );
            assert(sgrid == grid);
            assert(spec_select(sgrid) is None);
            assert(locally_consistent(rules_seq, template.wrap, sgw, sgh, sgrid));
            let stokens = Seq::new(
                sgrid.len(),
                |i: int|
                    match sgrid[i].resolved {
                        Option::Some(t) => t,
                        Option::None => Tile::Empty,
                    },
            );
            assert(stokens =~= tokens_seq);
            let soffy = result.spec_buffer().spec_height() - result.spec_play_height();
            let soffx = (result.spec_buffer().spec_width() - result.spec_play_width()) / 2;
            assert(soffy == offset_y as int);
            assert(soffx == offset_x as int);
            assert(all_pixels_ok(result, parameters.zero, stokens, tiles@, sgw, soffy, soffx));
            if tiles@.len() > 0 && uniform_extents(tiles@) {
                assert(gh as int * (gw as int) == (gw as int) * (gh as int)) by (nonlinear_arith);
                assert(rendered_complete(
                    result,
                    stokens,
                    tiles@,
                    sgw,
                    sgh,
                    tiles@[0].spec_image().spec_height(),
                    tiles@[0].spec_image().spec_width(),
                    soffy,
                    soffx,
                ));
            }
            assert(generation_witness(
                result,
                self.spec_template(),
                *parameters,
                tiles@,
                borders,
                rules_seq,
                draws@,
            ));
        }
        result
    }

    /// Compiles the collapse rules of the given tiles against this
    /// template's borders: one rule per tile, weighted by the distribution
    /// factor, whose direction sets hold exactly the tokens `rule_exact`
    /// demands for the borders the template describes.
    pub fn build_rules<T: Copy>(
        &self,
        tiles: &Vec<TileImage<T>>,
        probability_distribution_factor: i32,
    ) -> (r: Vec<CollapseRule>)
        requires
            -96 <= probability_distribution_factor <= 96,
            tiles@.len() <= 0x0100_0000,
        ensures
            r@.len() == tiles@.len(),
            exists|borders: Borders|
                #[trigger] borders_match(borders, self.spec_template().edges) && forall|i: int|
                    0 <= i < r@.len() ==> rule_exact(
                        #[trigger] r@[i],
                        tiles@,
                        borders,
                        i,
                        probability_distribution_factor as int,
                    ),
    {
        let borders = Borders {
            top: border_side_from(&self.template.edges.top),
            right: border_side_from(&self.template.edges.right),
            bottom: border_side_from(&self.template.edges.bottom),
            left: border_side_from(&self.template.edges.left),
        };
        let r = compile_rules(tiles, &borders, probability_distribution_factor);
        proof {
            assert(borders_match(borders, self.spec_template().edges));
        }
        r
    }
}

/// Whether a buffer value at `(py, px)` is one that a committed cell's tile
/// put there: some grid cell holds tile `t`, and the pixel lies where that
/// tile's raster cell `(ty, tx)` lands.
pub open spec fn rendered_from<T>(
    v: T,
    tokens: Seq<Tile>,
    tiles: Seq<TileImage<T>>,
    gw: int,
    offy: int,
    offx: int,
    py: int,
    px: int,
) -> bool {
    exists|gy: int, gx: int, ty: int, tx: int, t: int|
        #![trigger tokens[gy * gw + gx], tiles[t].spec_image().spec_at(ty, tx)]
        {
            &&& 0 <= gy
            &&& 0 <= gx < gw
            &&& 0 <= gy * gw + gx < tokens.len()
            &&& 0 <= t < tiles.len()
            &&& tokens[gy * gw + gx] == Tile::Numbered(t as usize)
            &&& 0 <= ty < tiles[t].spec_image().spec_height()
            &&& 0 <= tx < tiles[t].spec_image().spec_width()
            &&& py == gy * tiles[t].spec_image().spec_height() + ty + offy
            &&& px == gx * tiles[t].spec_image().spec_width() + tx + offx
            &&& v == tiles[t].spec_image().spec_at(ty, tx)
        }
}

/// Every buffer sample is the background value or one a committed tile wrote.
pub open spec fn all_pixels_ok<T>(
    land: Land<T>,
    zero: T,
    tokens: Seq<Tile>,
    tiles: Seq<TileImage<T>>,
    gw: int,
    offy: int,
    offx: int,
) -> bool {
    forall|py: int, px: int|
        0 <= py < land.spec_buffer().spec_height() && 0 <= px < land.spec_buffer().spec_width()
            ==> (#[trigger] land.spec_buffer().spec_at(py, px)) == zero || rendered_from(
            land.spec_buffer().spec_at(py, px),
            tokens,
            tiles,
            gw,
            offy,
            offx,
            py,
            px,
        )
}

/// Whether every tile raster has the extents of the first: the shape in
/// which distinct cells' landing regions cannot overlap.
pub open spec fn uniform_extents<T>(tiles: Seq<TileImage<T>>) -> bool {
    forall|i: int|
        0 <= i < tiles.len() ==> (#[trigger] tiles[i]).spec_image().spec_height()
            == tiles[0].spec_image().spec_height() && tiles[i].spec_image().spec_width()
            == tiles[0].spec_image().spec_width()
}

/// Renderer completeness over the first `bound` cells in scan order: each of
/// those cells that committed to a tile has that tile's raster standing in
/// the buffer, sample for sample, wherever its landing position lies inside.
pub open spec fn prefix_rendered<T>(
    land: Land<T>,
    tokens: Seq<Tile>,
    tiles: Seq<TileImage<T>>,
    gw: int,
    th: int,
    tw: int,
    offy: int,
    offx: int,
    bound: int,
) -> bool {
    forall|gy: int, gx: int, ty: int, tx: int|
        (0 <= gy && 0 <= gx < gw && gy * gw + gx < bound && gy * gw + gx < tokens.len() && 0 <= ty
            < th && 0 <= tx < tw && gy * th + ty + offy < land.spec_buffer().spec_height() && gx
            * tw + tx + offx < land.spec_buffer().spec_width()) ==> (tokens[gy * gw
            + gx] matches Tile::Numbered(t) ==> t < tiles.len()
            ==> #[trigger] land.spec_buffer().spec_at(gy * th + ty + offy, gx * tw + tx + offx)
            == tiles[t as int].spec_image().spec_at(ty, tx))
}

/// Renderer completeness for the whole grid.
pub open spec fn rendered_complete<T>(
    land: Land<T>,
    tokens: Seq<Tile>,
    tiles: Seq<TileImage<T>>,
    gw: int,
    gh: int,
    th: int,
    tw: int,
    offy: int,
    offx: int,
) -> bool {
    prefix_rendered(land, tokens, tiles, gw, th, tw, offy, offx, gw * gh)
}

/// Everything one generation run guarantees of its result, for one choice of
/// compiled borders, rule table and consumed draws: the rules are exactly
/// the compiled ones, the grid is the run of those rules over the drawn
/// values, it finished, it is locally consistent, the buffer holds only
/// background or faithfully copied tile samples, and, whenever the tiles
/// share one extent so regions cannot overlap, every committed cell's
/// raster actually stands in the buffer.
pub open spec fn generation_witness<T>(
    r: Land<T>,
    template: TemplateDescription,
    parameters: LandGenerationParameters<T>,
    tiles: Seq<TileImage<T>>,
    borders: Borders,
    rules_s: Seq<CollapseRule>,
    draws: Seq<u32>,
) -> bool {
    let f = crate::rules::spec_spread_factor(parameters.distance_divisor);
    let gw = if tiles.len() > 0 {
        template.size.width as int / tiles[0].spec_image().spec_width()
    } else {
        1
    };
    let gh = if tiles.len() > 0 {
        template.size.height as int / tiles[0].spec_image().spec_height()
    } else {
        1
    };
    let grid = spec_run(
        rules_s,
        template.wrap,
        gw,
        gh,
        spec_initial_cells(rules_s, template.wrap, gw, gh),
        draws,
    );
    let tokens = Seq::new(
        grid.len(),
        |i: int|
            match grid[i].resolved {
                Option::Some(t) => t,
                Option::None => Tile::Empty,
            },
    );
    let offy = r.spec_buffer().spec_height() - r.spec_play_height();
    let offx = (r.spec_buffer().spec_width() - r.spec_play_width()) / 2;
    &&& borders_match(borders, template.edges)
    &&& rules_s.len() == tiles.len()
    &&& (forall|i: int|
        0 <= i < rules_s.len() ==> rule_exact(#[trigger] rules_s[i], tiles, borders, i, f))
    &&& spec_select(grid) is None
    &&& locally_consistent(rules_s, template.wrap, gw, gh, grid)
    &&& all_pixels_ok(r, parameters.zero, tokens, tiles, gw, offy, offx)
    &&& (tiles.len() > 0 && uniform_extents(tiles)) ==> rendered_complete(
        r,
        tokens,
        tiles,
        gw,
        gh,
        tiles[0].spec_image().spec_height(),
        tiles[0].spec_image().spec_width(),
        offy,
        offx,
    )
}

/// Copies one tile's raster into the land buffer at its cell's position:
/// the landing region receives the raster sample for sample, and no pixel
/// outside the region changes.
fn blit_tile<T: Copy>(
    result: &mut Land<T>,
    tile: &TileImage<T>,
    ti: usize,
    row: usize,
    col: usize,
    offy: usize,
    offx: usize,
    tokens: Ghost<Seq<Tile>>,
    tiles: Ghost<Seq<TileImage<T>>>,
    gw: Ghost<int>,
    zero: Ghost<T>,
)
    requires
        old(result).wf(),
        tile.wf(),
        ti < tiles@.len(),
        tiles@[ti as int] == *tile,
        0 <= row * gw@ + col < tokens@.len(),
        col < gw@,
        tokens@[row * gw@ + col] == Tile::Numbered(ti),
        1 <= tile.spec_image().spec_width() <= 0x4000,
        1 <= tile.spec_image().spec_height() <= 0x4000,
        row <= 0x4000,
        col <= 0x4000,
        offy <= 0x8000,
        offx <= 0x8000,
        all_pixels_ok(*old(result), zero@, tokens@, tiles@, gw@, offy as int, offx as int),
    ensures
        final(result).wf(),
        final(result).spec_play_width() == old(result).spec_play_width(),
        final(result).spec_play_height() == old(result).spec_play_height(),
        final(result).spec_buffer().spec_width() == old(result).spec_buffer().spec_width(),
        final(result).spec_buffer().spec_height() == old(result).spec_buffer().spec_height(),
        all_pixels_ok(*final(result), zero@, tokens@, tiles@, gw@, offy as int, offx as int),
        forall|qy: int, qx: int|
            0 <= qy < old(result).spec_buffer().spec_height() && 0 <= qx < old(
                result,
            ).spec_buffer().spec_width() && !(row * tile.spec_image().spec_height() + offy <= qy
                < row * tile.spec_image().spec_height() + offy + tile.spec_image().spec_height()
                && col * tile.spec_image().spec_width() + offx <= qx < col
                * tile.spec_image().spec_width() + offx + tile.spec_image().spec_width())
                ==> #[trigger] final(result).spec_buffer().spec_at(qy, qx) == old(
                result,
            ).spec_buffer().spec_at(qy, qx),
        forall|ty: int, tx: int|
            0 <= ty < tile.spec_image().spec_height() && 0 <= tx
                < tile.spec_image().spec_width() && row * tile.spec_image().spec_height() + ty
                + offy < old(result).spec_buffer().spec_height() && col
                * tile.spec_image().spec_width() + tx + offx < old(
                result,
            ).spec_buffer().spec_width() ==> final(result).spec_buffer().spec_at(
                row * tile.spec_image().spec_height() + ty + offy,
                col * tile.spec_image().spec_width() + tx + offx,
            ) == #[trigger] tile.spec_image().spec_at(ty, tx),
{
    let ghost entry = *old(result);
    let th = tile.size().height as usize;
    let tw = tile.size().width as usize;
    let ghost base_y = row * th + offy;
    let ghost base_x = col * tw + offx;
    let mut tr: usize = 0;
    while tr < th
        invariant
            tr <= th,
            result.wf(),
            result.spec_play_width() == entry.spec_play_width(),
            result.spec_play_height() == entry.spec_play_height(),
            result.spec_buffer().spec_width() == entry.spec_buffer().spec_width(),
            result.spec_buffer().spec_height() == entry.spec_buffer().spec_height(),
            entry == *old(result),
            tile.wf(),
            ti < tiles@.len(),
            tiles@[ti as int] == *tile,
            0 <= row * gw@ + col < tokens@.len(),
            col < gw@,
            tokens@[row * gw@ + col] == Tile::Numbered(ti),
            th == tile.spec_image().spec_height(),
            tw == tile.spec_image().spec_width(),
            1 <= tw <= 0x4000,
            1 <= th <= 0x4000,
            row <= 0x4000,
            col <= 0x4000,
            offy <= 0x8000,
            offx <= 0x8000,
            base_y == row * th + offy,
            base_x == col * tw + offx,
            all_pixels_ok(*result, zero@, tokens@, tiles@, gw@, offy as int, offx as int),
            forall|qy: int, qx: int|
                0 <= qy < entry.spec_buffer().spec_height() && 0 <= qx
                    < entry.spec_buffer().spec_width() && !(base_y <= qy < base_y + th && base_x
                    <= qx < base_x + tw) ==> #[trigger] result.spec_buffer().spec_at(qy, qx)
                    == entry.spec_buffer().spec_at(qy, qx),
            forall|ty: int, tx: int|
                0 <= ty < tr && 0 <= tx < tw && base_y + ty < entry.spec_buffer().spec_height()
                    && base_x + tx < entry.spec_buffer().spec_width()
                    ==> result.spec_buffer().spec_at(base_y + ty, base_x + tx) == #[trigger]
                    tile.spec_image().spec_at(ty, tx),
        decreases th - tr,
    {
        let mut tc: usize = 0;
        while tc < tw
            invariant
                tr < th,
                tc <= tw,
                result.wf(),
                result.spec_play_width() == entry.spec_play_width(),
                result.spec_play_height() == entry.spec_play_height(),
                result.spec_buffer().spec_width() == entry.spec_buffer().spec_width(),
                result.spec_buffer().spec_height() == entry.spec_buffer().spec_height(),
                entry == *old(result),
                tile.wf(),
                ti < tiles@.len(),
                tiles@[ti as int] == *tile,
                0 <= row * gw@ + col < tokens@.len(),
                col < gw@,
                tokens@[row * gw@ + col] == Tile::Numbered(ti),
                th == tile.spec_image().spec_height(),
                tw == tile.spec_image().spec_width(),
                1 <= tw <= 0x4000,
                1 <= th <= 0x4000,
                row <= 0x4000,
                col <= 0x4000,
                offy <= 0x8000,
                offx <= 0x8000,
                base_y == row * th + offy,
                base_x == col * tw + offx,
                all_pixels_ok(*result, zero@, tokens@, tiles@, gw@, offy as int, offx as int),
                forall|qy: int, qx: int|
                    0 <= qy < entry.spec_buffer().spec_height() && 0 <= qx
                        < entry.spec_buffer().spec_width() && !(base_y <= qy < base_y + th
                        && base_x <= qx < base_x + tw) ==> #[trigger] result.spec_buffer().spec_at(
                        qy,
                        qx,
                    ) == entry.spec_buffer().spec_at(qy, qx),
                forall|ty: int, tx: int|
                    0 <= ty < tr && 0 <= tx < tw && base_y + ty
                        < entry.spec_buffer().spec_height() && base_x + tx
                        < entry.spec_buffer().spec_width() ==> result.spec_buffer().spec_at(
                        base_y + ty,
                        base_x + tx,
                    ) == #[trigger] tile.spec_image().spec_at(ty, tx),
                forall|tx: int|
                    0 <= tx < tc && base_y + tr < entry.spec_buffer().spec_height() && base_x + tx
                        < entry.spec_buffer().spec_width() ==> result.spec_buffer().spec_at(
                        base_y + tr as int,
                        base_x + tx,
                    ) == #[trigger] tile.spec_image().spec_at(tr as int, tx),
            decreases tw - tc,
        {
            let v = match tile.get(tr, tc) {
                Some(v) => v,
                None => {
                    proof {
                        assert(false);
                    }
                    tile.get(0, 0).unwrap()
                },
            };
            proof {
                assert(row * th <= 0x4000 * 0x4000) by (nonlinear_arith)
                    requires
                        row <= 0x4000,
                        th <= 0x4000,
                ;
                assert(col * tw <= 0x4000 * 0x4000) by (nonlinear_arith)
                    requires
                        col <= 0x4000,
                        tw <= 0x4000,
                ;
            }
            let py = row * th + tr + offy;
            let px = col * tw + tc + offx;
            let ghost pre = *result;
            result.put(py, px, v);
            proof {
                assert(py == base_y + tr && px == base_x + tc);
                assert forall|qy: int, qx: int|
                    0 <= qy < result.spec_buffer().spec_height() && 0 <= qx
                        < result.spec_buffer().spec_width() implies (
                #[trigger] result.spec_buffer().spec_at(qy, qx)) == zero@ || rendered_from(
                    result.spec_buffer().spec_at(qy, qx),
                    tokens@,
                    tiles@,
                    gw@,
                    offy as int,
                    offx as int,
                    qy,
                    qx,
                ) by {
                    if qy == py && qx == px && py < result.spec_buffer().spec_height() && px
                        < result.spec_buffer().spec_width() {
                        assert(result.spec_buffer().spec_at(qy, qx) == v);
                        assert(rendered_from(
                            v,
                            tokens@,
                            tiles@,
                            gw@,
                            offy as int,
                            offx as int,
                            qy,
                            qx,
                        )) by {
                            assert(tokens@[row as int * gw@ + col as int] == Tile::Numbered(
                                (ti as int) as usize,
                            ));
                            assert(tiles@[ti as int].spec_image().spec_at(tr as int, tc as int)
                                == v);
                            assert(qy == row as int * tiles@[ti as int].spec_image().spec_height()
                                + tr as int + offy as int);
                            assert(qx == col as int * tiles@[ti as int].spec_image().spec_width()
                                + tc as int + offx as int);
                        }
                    } else {
                        assert(result.spec_buffer().spec_at(qy, qx) == pre.spec_buffer().spec_at(
                            qy,
                            qx,
                        ));
                    }
                }
            }
            tc = tc + 1;
        }
        tr = tr + 1;
    }
}

/// Distinct nonnegative block coordinates with in-block remainders give
/// distinct positions.
proof fn lemma_block_coord_unique(extent: int, a: int, ra: int, b: int, rb: int)
    requires
        extent >= 1,
        a >= 0,
        b >= 0,
        0 <= ra < extent,
        0 <= rb < extent,
        a * extent + ra == b * extent + rb,
    ensures
        a == b,
        ra == rb,
{
    if a != b {
        assert(false) by (nonlinear_arith)
            requires
                extent >= 1,
                a >= 0,
                b >= 0,
                0 <= ra < extent,
                0 <= rb < extent,
                a * extent + ra == b * extent + rb,
                a != b,
        ;
    }
}

/// Extending the rendered prefix over a cell that committed to no known
/// tile: the buffer is unchanged and the new cell claims nothing.
proof fn lemma_prefix_rendered_skip<T>(
    land: Land<T>,
    tokens: Seq<Tile>,
    tiles: Seq<TileImage<T>>,
    gw: int,
    th: int,
    tw: int,
    offy: int,
    offx: int,
    row: int,
    col: int,
)
    requires
        0 <= row,
        0 <= col < gw,
        prefix_rendered(land, tokens, tiles, gw, th, tw, offy, offx, row * gw + col),
        row * gw + col < tokens.len() ==> match tokens[row * gw + col] {
            Tile::Numbered(t) => t >= tiles.len(),
            _ => true,
        },
    ensures
        prefix_rendered(land, tokens, tiles, gw, th, tw, offy, offx, row * gw + col + 1),
{
    let bound = row * gw + col;
    assert forall|gy: int, gx: int, ty: int, tx: int|
        (0 <= gy && 0 <= gx < gw && gy * gw + gx < bound + 1 && gy * gw + gx < tokens.len() && 0
            <= ty < th && 0 <= tx < tw && gy * th + ty + offy < land.spec_buffer().spec_height()
            && gx * tw + tx + offx < land.spec_buffer().spec_width()) implies (tokens[gy * gw
        + gx] matches Tile::Numbered(t) ==> t < tiles.len()
        ==> #[trigger] land.spec_buffer().spec_at(gy * th + ty + offy, gx * tw + tx + offx)
        == tiles[t as int].spec_image().spec_at(ty, tx)) by {
        if gy * gw + gx == bound {
        } else {
            assert(gy * gw + gx < bound);
        }
    }
}

/// Extending the rendered prefix over a freshly blitted cell: the blit wrote
/// that cell's region exactly and left every other cell's region untouched,
/// because regions of distinct cells cannot overlap when all tiles share one
/// extent.
#[verifier::rlimit(60)]
proof fn lemma_prefix_rendered_after_blit<T>(
    pre: Land<T>,
    post: Land<T>,
    tokens: Seq<Tile>,
    tiles: Seq<TileImage<T>>,
    gw: int,
    th: int,
    tw: int,
    offy: int,
    offx: int,
    row: int,
    col: int,
    ti: usize,
)
    requires
        0 <= row,
        0 <= col < gw,
        th >= 1,
        tw >= 1,
        offy >= 0,
        offx >= 0,
        (ti as int) < tiles.len(),
        tiles[ti as int].spec_image().spec_height() == th,
        tiles[ti as int].spec_image().spec_width() == tw,
        0 <= row * gw + col < tokens.len(),
        tokens[row * gw + col] == Tile::Numbered(ti),
        post.spec_buffer().spec_height() == pre.spec_buffer().spec_height(),
        post.spec_buffer().spec_width() == pre.spec_buffer().spec_width(),
        forall|qy: int, qx: int|
            0 <= qy < pre.spec_buffer().spec_height() && 0 <= qx < pre.spec_buffer().spec_width()
                && !(row * th + offy <= qy < row * th + offy + th && col * tw + offx <= qx < col
                * tw + offx + tw) ==> #[trigger] post.spec_buffer().spec_at(qy, qx)
                == pre.spec_buffer().spec_at(qy, qx),
        forall|ty: int, tx: int|
            0 <= ty < th && 0 <= tx < tw && row * th + ty + offy
                < pre.spec_buffer().spec_height() && col * tw + tx + offx
                < pre.spec_buffer().spec_width() ==> post.spec_buffer().spec_at(
                row * th + ty + offy,
                col * tw + tx + offx,
            ) == #[trigger] tiles[ti as int].spec_image().spec_at(ty, tx),
        prefix_rendered(pre, tokens, tiles, gw, th, tw, offy, offx, row * gw + col),
    ensures
        prefix_rendered(post, tokens, tiles, gw, th, tw, offy, offx, row * gw + col + 1),
{
    let bound = row * gw + col;
    let base_y = row * th + offy;
    let base_x = col * tw + offx;
    assert forall|gy: int, gx: int, ty: int, tx: int|
        (0 <= gy && 0 <= gx < gw && gy * gw + gx < bound + 1 && gy * gw + gx < tokens.len() && 0
            <= ty < th && 0 <= tx < tw && gy * th + ty + offy < post.spec_buffer().spec_height()
            && gx * tw + tx + offx < post.spec_buffer().spec_width()) implies (tokens[gy * gw
        + gx] matches Tile::Numbered(t) ==> t < tiles.len()
        ==> #[trigger] post.spec_buffer().spec_at(gy * th + ty + offy, gx * tw + tx + offx)
        == tiles[t as int].spec_image().spec_at(ty, tx)) by {
        let qy = gy * th + ty + offy;
        let qx = gx * tw + tx + offx;
        if gy * gw + gx == bound {
            lemma_block_coord_unique(gw, gy, gx, row, col);
            assert(gy == row && gx == col);
            assert(post.spec_buffer().spec_at(qy, qx) == tiles[ti as int].spec_image().spec_at(
                ty,
                tx,
            ));
        } else {
            assert(gy * gw + gx < bound);
            if base_y <= qy < base_y + th && base_x <= qx < base_x + tw {
                let sy = qy - base_y;
                let sx = qx - base_x;
                assert(gy * th + ty == row * th + sy);
                lemma_block_coord_unique(th, gy, ty, row, sy);
                assert(gx * tw + tx == col * tw + sx);
                lemma_block_coord_unique(tw, gx, tx, col, sx);
                assert(gy == row && gx == col);
                assert(false);
            }
            assert(post.spec_buffer().spec_at(qy, qx) == pre.spec_buffer().spec_at(qy, qx));
            assert((tokens[gy * gw + gx] matches Tile::Numbered(t) ==> t < tiles.len()
                ==> pre.spec_buffer().spec_at(qy, qx) == tiles[t as int].spec_image().spec_at(
                ty,
                tx,
            )));
        }
    }
}

/// Render positions stay inside the token table.
proof fn lemma_render_index(gw: int, gh: int, row: int, col: int)
    requires
        0 <= row < gh,
        0 <= col < gw,
    ensures
        0 <= row * gw + col < gw * gh,
{
    assert(row * gw >= 0) by (nonlinear_arith)
        requires
            row >= 0,
            gw >= 0,
    ;
    assert((row + 1) * gw <= gh * gw) by (nonlinear_arith)
        requires
            row + 1 <= gh,
            gw >= 0,
    ;
    assert(row * gw + col < (row + 1) * gw) by (nonlinear_arith)
        requires
            col < gw,
    ;
    assert(gh * gw == gw * gh) by (nonlinear_arith);
}

} // verus!
