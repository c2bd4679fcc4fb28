//! The rule compiler: one collapse rule per tile variant, holding the tile's
//! selection weight and, for each of the four directions, the set of tokens
//! allowed next to it.

use crate::edges::{edges_compatible, Edge, EdgeSet};
use crate::tile::{tiles_compatible, MatchSide, TileImage};
use crate::tokens::{Tile, TokenSet};
use vstd::arithmetic::div_mod::{lemma_div_by_multiple, lemma_div_is_ordered, lemma_div_pos_is_pos};
use vstd::prelude::*;

verus! {

/// One of the four neighbor directions of a grid cell.
#[derive(PartialEq, Eq, Clone, Copy, Debug, Structural)]
pub enum Direction {
    Top,
    Right,
    Bottom,
    Left,
}

impl Direction {
    /// The matching side: a token in a rule's direction set sits on that side
    /// of the rule's own tile.
    pub open spec fn spec_side(self) -> MatchSide {
        match self {
            Direction::Top => MatchSide::OnTop,
            Direction::Right => MatchSide::OnRight,
            Direction::Bottom => MatchSide::OnBottom,
            Direction::Left => MatchSide::OnLeft,
        }
    }

    #[verifier::when_used_as_spec(spec_side)]
    pub fn side(self) -> (r: MatchSide)
        ensures
            r == self.spec_side(),
    {
        match self {
            Direction::Top => MatchSide::OnTop,
            Direction::Right => MatchSide::OnRight,
            Direction::Bottom => MatchSide::OnBottom,
            Direction::Left => MatchSide::OnLeft,
        }
    }

    /// The direction as seen from the neighbor.
    pub open spec fn spec_opposite(self) -> Direction {
        match self {
            Direction::Top => Direction::Bottom,
            Direction::Bottom => Direction::Top,
            Direction::Left => Direction::Right,
            Direction::Right => Direction::Left,
        }
    }

    #[verifier::when_used_as_spec(spec_opposite)]
    pub fn opposite(self) -> (r: Direction)
        ensures
            r == self.spec_opposite(),
    {
        match self {
            Direction::Top => Direction::Bottom,
            Direction::Bottom => Direction::Top,
            Direction::Left => Direction::Right,
            Direction::Right => Direction::Left,
        }
    }
}

/// The edge a tile presents in a direction.
pub open spec fn tile_edge(es: EdgeSet, d: Direction) -> Edge {
    match d {
        Direction::Top => es.spec_top(),
        Direction::Right => es.spec_right(),
        Direction::Bottom => es.spec_bottom(),
        Direction::Left => es.spec_left(),
    }
}

/// Up to three declared border segments of one side of the template.
pub struct BorderSide {
    pub begin: Option<Edge>,
    pub fill: Option<Edge>,
    pub end: Option<Edge>,
}

/// The declared border segments of the template, one optional entry per side.
pub struct Borders {
    pub top: Option<BorderSide>,
    pub right: Option<BorderSide>,
    pub bottom: Option<BorderSide>,
    pub left: Option<BorderSide>,
}

impl Borders {
    pub open spec fn spec_side(self, d: Direction) -> Option<BorderSide> {
        match d {
            Direction::Top => self.top,
            Direction::Right => self.right,
            Direction::Bottom => self.bottom,
            Direction::Left => self.left,
        }
    }
}

/// Whether an optional border segment accepts a tile edge: an undeclared
/// segment accepts everything.
pub open spec fn segment_allows(seg: Option<Edge>, e: Edge) -> bool {
    match seg {
        Option::None => true,
        Option::Some(b) => edges_compatible(b, e),
    }
}

/// Whether the token `t` is allowed next to tile `i`, in direction `d`, for
/// the given tile edge sets and template borders.  This is the defining
/// membership condition of a compiled rule's direction set.
pub open spec fn rule_allows(
    es: Seq<EdgeSet>,
    borders: Borders,
    i: int,
    d: Direction,
    t: Tile,
) -> bool {
    match t {
        Tile::Numbered(j) => j < es.len() && tiles_compatible(es[i], es[j as int], d.spec_side()),
        Tile::Empty => !tile_edge(es[i], d).spec_hard_match(),
        Tile::OutsideBegin => match borders.spec_side(d) {
            Option::None => true,
            Option::Some(bs) => segment_allows(bs.begin, tile_edge(es[i], d)),
        },
        Tile::OutsideFill => match borders.spec_side(d) {
            Option::None => true,
            Option::Some(bs) => segment_allows(bs.fill, tile_edge(es[i], d)),
        },
        Tile::OutsideEnd => match borders.spec_side(d) {
            Option::None => true,
            Option::Some(bs) => segment_allows(bs.end, tile_edge(es[i], d)),
        },
    }
}

/// One compiled rule: the tile token it is for, its scalar selection weight,
/// and the set of tokens allowed on each side.
pub struct CollapseRule {
    pub tile: Tile,
    pub weight: u32,
    pub top: TokenSet,
    pub right: TokenSet,
    pub bottom: TokenSet,
    pub left: TokenSet,
}

impl CollapseRule {
    pub open spec fn spec_set(self, d: Direction) -> TokenSet {
        match d {
            Direction::Top => self.top,
            Direction::Right => self.right,
            Direction::Bottom => self.bottom,
            Direction::Left => self.left,
        }
    }

    /// A shared reference to the direction set.
    pub fn set(&self, d: Direction) -> (r: &TokenSet)
        ensures
            *r == self.spec_set(d),
    {
        match d {
            Direction::Top => &self.top,
            Direction::Right => &self.right,
            Direction::Bottom => &self.bottom,
            Direction::Left => &self.left,
        }
    }
}

/// The distribution spread derived from the caller's distance divisor.
pub open spec fn spec_spread_factor(distance_divisor: u32) -> int {
    (distance_divisor - 1) * 8 - 96
}

/// The spread factor starts at its minimum and grows strictly with the
/// distance divisor.
pub proof fn lemma_spread_factor_monotonic(d1: u32, d2: u32)
    requires
        1 <= d1 < d2 <= 25,
    ensures
        spec_spread_factor(d1) < spec_spread_factor(d2),
        spec_spread_factor(1) == -96,
        -96 <= spec_spread_factor(d1) <= spec_spread_factor(25) == 96,
{
}

/// The interpolation factor of tile `i` among `n`: it runs from `100 - f` at
/// the first tile to `100 + f` at the last, in integer steps.  A lone tile
/// gets the midpoint.
pub open spec fn spec_interp_factor(f: int, i: int, n: int) -> int {
    if n <= 1 {
        100
    } else if f >= 0 {
        100 - f + (2 * f * i) / (n - 1)
    } else {
        100 + (-f) - (2 * (-f) * i) / (n - 1)
    }
}

/// The compiled scalar weight of tile `i`: its authored weight scaled by the
/// interpolation factor.
pub open spec fn spec_rule_weight(f: int, i: int, n: int, tile_weight: u8) -> int {
    spec_interp_factor(f, i, n) * tile_weight
}

/// The interpolation factor stays between 4 and 196 for spreads within the
/// supported range.
pub proof fn lemma_interp_factor_bounds(f: int, i: int, n: int)
    requires
        -96 <= f <= 96,
        0 <= i < n,
    ensures
        4 <= spec_interp_factor(f, i, n) <= 196,
{
    if n > 1 {
        let g = if f >= 0 {
            f
        } else {
            -f
        };
        lemma_quotient_of_scaled_index(g, i, n);
    }
}

/// For `0 <= g` and `i < n`, the scaled quotient lies between 0 and `2 g`.
proof fn lemma_quotient_of_scaled_index(g: int, i: int, n: int)
    requires
        0 <= g,
        0 <= i < n,
        n > 1,
    ensures
        0 <= (2 * g * i) / (n - 1) <= 2 * g,
{
    assert(2 * g * i >= 0) by (nonlinear_arith)
        requires
            g >= 0,
            i >= 0,
    ;
    lemma_div_pos_is_pos(2 * g * i, n - 1);
    assert(2 * g * i <= 2 * g * (n - 1)) by (nonlinear_arith)
        requires
            g >= 0,
            i <= n - 1,
    ;
    lemma_div_is_ordered(2 * g * i, 2 * g * (n - 1), n - 1);
    lemma_div_by_multiple(2 * g, n - 1);
}

/// The edge a tile presents in a direction, as a reference.
fn edge_of<'a>(es: &'a EdgeSet, d: Direction) -> (r: &'a Edge)
    ensures
        *r == tile_edge(*es, d),
{
    match d {
        Direction::Top => es.top(),
        Direction::Right => es.right(),
        Direction::Bottom => es.bottom(),
        Direction::Left => es.left(),
    }
}

/// The edge sets of a tile list.
pub open spec fn edge_sets_of<T>(tiles: Seq<TileImage<T>>) -> Seq<EdgeSet> {
    tiles.map_values(|t: TileImage<T>| t.spec_edges())
}

/// Membership restricted to tile tokens below `j`: the state of a direction
/// set midway through the tile scan.
spec fn partial_allows(
    es: Seq<EdgeSet>,
    borders: Borders,
    i: int,
    d: Direction,
    t: Tile,
    j: int,
) -> bool {
    match t {
        Tile::Numbered(k) => k < j && rule_allows(es, borders, i, d, t),
        _ => rule_allows(es, borders, i, d, t),
    }
}

/// Builds the direction set of tile `i`: the synthetic tokens its edge
/// accepts, then every tile token whose facing edge is compatible.
fn direction_set<T: Copy>(tiles: &Vec<TileImage<T>>, i: usize, borders: &Borders, d: Direction) -> (r:
    TokenSet)
    requires
        i < tiles@.len(),
        tiles@.len() + 4 <= usize::MAX,
    ensures
        r.wf(),
        r.spec_n() == tiles@.len(),
        forall|t: Tile|
            #[trigger] r.spec_contains(t) == rule_allows(
                edge_sets_of(tiles@),
                *borders,
                i as int,
                d,
                t,
            ),
{
    let ghost es = edge_sets_of(tiles@);
    let n = tiles.len();
    let mut s = TokenSet::empty(n);
    let e = edge_of(tiles[i].edge_set(), d);
    if !e.hard_match() {
        s.insert(Tile::Empty);
    }
    let bside: &Option<BorderSide> = match d {
        Direction::Top => &borders.top,
        Direction::Right => &borders.right,
        Direction::Bottom => &borders.bottom,
        Direction::Left => &borders.left,
    };
    match bside {
        Option::None => {
            s.insert(Tile::OutsideBegin);
            s.insert(Tile::OutsideFill);
            s.insert(Tile::OutsideEnd);
        },
        Option::Some(bs) => {
            match &bs.begin {
                Option::None => s.insert(Tile::OutsideBegin),
                Option::Some(b) => if b.is_compatible(e) {
                    s.insert(Tile::OutsideBegin);
                },
            }
            match &bs.fill {
                Option::None => s.insert(Tile::OutsideFill),
                Option::Some(b) => if b.is_compatible(e) {
                    s.insert(Tile::OutsideFill);
                },
            }
            match &bs.end {
                Option::None => s.insert(Tile::OutsideEnd),
                Option::Some(b) => if b.is_compatible(e) {
                    s.insert(Tile::OutsideEnd);
                },
            }
        },
    }
    proof {
        assert(forall|t: Tile| #[trigger] s.spec_contains(t) == partial_allows(es, *borders, i as int, d, t, 0));
    }
    let mut j: usize = 0;
    while j < n
        invariant
            j <= n,
            n == tiles@.len(),
            n == es.len(),
            es == edge_sets_of(tiles@),
            i < n,
            s.wf(),
            s.spec_n() == n,
            forall|t: Tile|
                #[trigger] s.spec_contains(t) == partial_allows(es, *borders, i as int, d, t, j as int),
        decreases n - j,
    {
        if tiles[i].is_compatible(&tiles[j], d.side()) {
            s.insert(Tile::Numbered(j));
        }
        proof {
            assert(es[j as int] == tiles@[j as int].spec_edges());
            assert(es[i as int] == tiles@[i as int].spec_edges());
        }
        j = j + 1;
    }
    s
}

/// Compiles one rule per tile: the weight interpolated across the registry,
/// and the four direction sets with exactly the tokens `rule_allows` admits.
pub fn compile_rules<T: Copy>(
    tiles: &Vec<TileImage<T>>,
    borders: &Borders,
    distribution_factor: i32,
) -> (r: Vec<CollapseRule>)
    requires
        -96 <= distribution_factor <= 96,
        tiles@.len() <= 0x0100_0000,
    ensures
        r@.len() == tiles@.len(),
        forall|i: int|
            0 <= i < r@.len() ==> rule_exact(
                #[trigger] r@[i],
                tiles@,
                *borders,
                i,
                distribution_factor as int,
            ),
{
    let n = tiles.len();
    let mut rules: Vec<CollapseRule> = Vec::new();
    let mut i: usize = 0;
    while i < n
        invariant
            i <= n,
            n == tiles@.len(),
            n <= 0x0100_0000,
            -96 <= distribution_factor <= 96,
            rules@.len() == i,
            forall|k: int|
                0 <= k < i ==> rule_exact(
                    #[trigger] rules@[k],
                    tiles@,
                    *borders,
                    k,
                    distribution_factor as int,
                ),
        decreases n - i,
    {
        let factor = interp_factor(distribution_factor, i, n);
        let tw = tiles[i].weight();
        proof {
            assert(factor * tw <= 196 * 255) by (nonlinear_arith)
                requires
                    factor <= 196,
                    tw <= 255,
            ;
        }
        let weight = factor * (tw as u32);
        let rule = CollapseRule {
            tile: Tile::Numbered(i),
            weight,
            top: direction_set(tiles, i, borders, Direction::Top),
            right: direction_set(tiles, i, borders, Direction::Right),
            bottom: direction_set(tiles, i, borders, Direction::Bottom),
            left: direction_set(tiles, i, borders, Direction::Left),
        };
        rules.push(rule);
        i = i + 1;
    }
    rules
}

/// What `compile_rules` guarantees of the rule at index `i`.
pub open spec fn rule_exact<T>(
    rule: CollapseRule,
    tiles: Seq<TileImage<T>>,
    borders: Borders,
    i: int,
    f: int,
) -> bool {
    &&& rule.tile == Tile::Numbered(i as usize)
    &&& i == i as usize as int
    &&& rule.weight == spec_rule_weight(f, i, tiles.len() as int, tiles[i].spec_weight())
    &&& forall|d: Direction, t: Tile|
        #[trigger] rule.spec_set(d).spec_contains(t) == rule_allows(
            edge_sets_of(tiles),
            borders,
            i,
            d,
            t,
        )
    &&& forall|d: Direction| (#[trigger] rule.spec_set(d)).wf() && rule.spec_set(d).spec_n() == tiles.len()
}

/// Computes the interpolation factor of tile `i` among `n`.
fn interp_factor(f: i32, i: usize, n: usize) -> (r: u32)
    requires
        -96 <= f <= 96,
        i < n,
        n <= 0x0100_0000,
    ensures
        r == spec_interp_factor(f as int, i as int, n as int),
        4 <= r <= 196,
{
    proof {
        lemma_interp_factor_bounds(f as int, i as int, n as int);
    }
    if n == 1 {
        100
    } else if f >= 0 {
        proof {
            assert(2 * (f as int) * (i as int) <= 2 * 96 * 0x0100_0000) by (nonlinear_arith)
                requires
                    0 <= f <= 96,
                    0 <= i <= 0x0100_0000,
            ;
        }
        let q: u64 = (2 * (f as u64) * (i as u64)) / ((n - 1) as u64);
        proof {
            lemma_quotient_of_scaled_index(f as int, i as int, n as int);
        }
        (100 - f) as u32 + (q as u32)
    } else {
        let g: u64 = (-f) as u64;
        proof {
            assert(2 * (g as int) * (i as int) <= 2 * 96 * 0x0100_0000) by (nonlinear_arith)
                requires
                    0 <= g <= 96,
                    0 <= i <= 0x0100_0000,
            ;
        }
        let q: u64 = (2 * g * (i as u64)) / ((n - 1) as u64);
        proof {
            lemma_quotient_of_scaled_index(g as int, i as int, n as int);
        }
        ((100 + (-f)) as u32) - (q as u32)
    }
}

} // verus!
