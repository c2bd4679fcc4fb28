use landgen::generator::{
    tiles_from_image_data, ComplexEdgeDescription, EdgeDescription, EdgesDescription,
    NonStrictComplexEdgesDescription, TemplateDescription, TileDescription,
    WavefrontCollapseLandGenerator,
};
use landgen::geometry::Size;
use landgen::rules::Direction;
use landgen::tile::TileImage;
use landgen::tokens::Tile;
use landgen::wfc::WavefrontCollapse;
use landgen::LandGenerationParameters;
use rand::rngs::StdRng;
use rand::SeedableRng;

fn desc(s: &str) -> EdgeDescription {
    EdgeDescription::from_descriptor(s)
}

fn tile_description(name: &str, edge: &str, weight: u8) -> TileDescription {
    TileDescription {
        name: String::from(name),
        weight,
        edges: EdgesDescription {
            top: desc(edge),
            right: desc(edge),
            bottom: desc(edge),
            left: desc(edge),
        },
        anti_match: None,
        is_negative: None,
        can_flip: None,
        can_mirror: None,
        can_rotate90: None,
        can_rotate180: None,
        can_rotate270: None,
    }
}

fn one_pixel_tile(td: &TileDescription, params: &LandGenerationParameters<u8>) -> TileImage<u8> {
    let bytes = vec![255u8];
    let mut tiles = tiles_from_image_data(params, td, 1, 1, 1, 1, &bytes);
    tiles.remove(0)
}

fn no_borders() -> NonStrictComplexEdgesDescription {
    NonStrictComplexEdgesDescription { top: None, right: None, bottom: None, left: None }
}

fn params() -> LandGenerationParameters<u8> {
    LandGenerationParameters::new(0u8, 255u8, 1, false, false)
}

fn template(width: u32, height: u32, tiles: Vec<TileDescription>, wrap: bool) -> TemplateDescription {
    TemplateDescription {
        size: Size::new(width, height),
        tiles,
        edges: no_borders(),
        can_invert: false,
        is_negative: false,
        wrap,
    }
}

#[test]
fn two_incompatible_tiles_never_mix() {
    // two mutually incompatible self-compatible tiles: a completed run is
    // uniform, because the first commitment excludes the other everywhere
    let p = params();
    let descs = vec![tile_description("a.png", "aa", 1), tile_description("b.png", "bb", 1)];
    let tiles = vec![one_pixel_tile(&descs[0], &p), one_pixel_tile(&descs[1], &p)];
    let gen = WavefrontCollapseLandGenerator::new(template(2, 2, descs, false), "data");
    for seed in 0u8..16 {
        let rules = gen.build_rules(&tiles, -96);
        let mut wfc = WavefrontCollapse::new(false);
        wfc.set_rules(rules);
        let mut rng = StdRng::from_seed([seed; 32]);
        wfc.generate_map(&Size::new(2, 2), &mut rng);
        let tokens = wfc.resolved_tokens();
        assert_eq!(tokens.len(), 4);
        assert!(tokens[0] == Tile::Numbered(0) || tokens[0] == Tile::Numbered(1));
        for t in tokens.iter() {
            assert_eq!(*t, tokens[0]);
        }
    }
}

#[test]
fn hard_mismatched_borders_leave_the_cell_unresolved() {
    // a single cell whose tile cannot sit next to any declared border ends
    // in contradiction, and the rendered buffer keeps the background value
    let p = params();
    let descs = vec![tile_description("x.png", "!xy", 1)];
    let tiles = vec![one_pixel_tile(&descs[0], &p)];
    let border_side = || {
        Some(ComplexEdgeDescription {
            begin: Some(desc("!zw")),
            fill: Some(desc("!zw")),
            end: Some(desc("!zw")),
        })
    };
    let mut t = template(1, 1, descs, false);
    t.edges = NonStrictComplexEdgesDescription {
        top: border_side(),
        right: border_side(),
        bottom: border_side(),
        left: border_side(),
    };
    let gen = WavefrontCollapseLandGenerator::new(t, "data");
    let mut rng = StdRng::from_seed([3; 32]);
    let land = gen.generate_land(&p, &tiles, &mut rng);
    assert_eq!(land.play_width(), 1);
    assert_eq!(land.play_height(), 1);
    for y in 0..land.height() {
        for x in 0..land.width() {
            assert_eq!(land.get(y, x), Some(0u8));
        }
    }
}

#[test]
fn wrap_consults_the_opposite_edge_instead_of_the_border() {
    // on a wrapping row the rightmost cell is matched against the leftmost
    // cell; without wrap it is matched against the declared border segments
    let p = params();
    let make_descs = || vec![tile_description("e.png", "ee", 1)];
    let border_side = || {
        Some(ComplexEdgeDescription {
            begin: Some(desc("zz")),
            fill: Some(desc("zz")),
            end: Some(desc("zz")),
        })
    };
    let make_template = |wrap: bool| {
        let mut t = template(3, 1, make_descs(), wrap);
        t.edges = NonStrictComplexEdgesDescription {
            top: None,
            bottom: None,
            left: border_side(),
            right: border_side(),
        };
        t
    };
    let tiles = vec![one_pixel_tile(&make_descs()[0], &p)];

    let wrapped = WavefrontCollapseLandGenerator::new(make_template(true), "data");
    let rules = wrapped.build_rules(&tiles, 0);
    let mut wfc = WavefrontCollapse::new(true);
    wfc.set_rules(rules);
    let mut rng = StdRng::from_seed([5; 32]);
    wfc.generate_map(&Size::new(3, 1), &mut rng);
    assert_eq!(
        wfc.resolved_tokens(),
        vec![Tile::Numbered(0), Tile::Numbered(0), Tile::Numbered(0)]
    );

    let bounded = WavefrontCollapseLandGenerator::new(make_template(false), "data");
    let rules = bounded.build_rules(&tiles, 0);
    let mut wfc = WavefrontCollapse::new(false);
    wfc.set_rules(rules);
    let mut rng = StdRng::from_seed([5; 32]);
    wfc.generate_map(&Size::new(3, 1), &mut rng);
    assert_eq!(wfc.resolved_tokens(), vec![Tile::Empty, Tile::Numbered(0), Tile::Empty]);
}

#[test]
fn same_seed_gives_identical_grids_and_buffers() {
    // same template, same tiles, same seed: bit-identical outcome
    let p = params();
    let descs = vec![tile_description("a.png", "aa", 3), tile_description("b.png", "ab", 2)];
    let make_tiles =
        |p: &LandGenerationParameters<u8>| -> Vec<TileImage<u8>> {
            vec![one_pixel_tile(&descs[0], p), one_pixel_tile(&descs[1], p)]
        };
    let gen = WavefrontCollapseLandGenerator::new(
        template(4, 4, vec![tile_description("a.png", "aa", 3), tile_description("b.png", "ab", 2)], false),
        "data",
    );

    let run = |seed: [u8; 32]| {
        let tiles = make_tiles(&p);
        let mut rng = StdRng::from_seed(seed);
        let land = gen.generate_land(&p, &tiles, &mut rng);
        let mut pixels = Vec::new();
        for y in 0..land.height() {
            for x in 0..land.width() {
                pixels.push(land.get(y, x).unwrap());
            }
        }
        pixels
    };

    let first = run([9; 32]);
    let second = run([9; 32]);
    assert_eq!(first, second);

    let engine_run = |seed: [u8; 32]| {
        let tiles = make_tiles(&p);
        let rules = gen.build_rules(&tiles, 8);
        let mut wfc = WavefrontCollapse::new(false);
        wfc.set_rules(rules);
        let mut rng = StdRng::from_seed(seed);
        wfc.generate_map(&Size::new(4, 4), &mut rng);
        wfc.resolved_tokens()
    };
    assert_eq!(engine_run([11; 32]), engine_run([11; 32]));
}

#[test]
fn candidate_sets_only_shrink() {
    // stepping the engine never grows any cell's candidate set
    let p = params();
    let descs = vec![tile_description("a.png", "aa", 1), tile_description("b.png", "bb", 1)];
    let tiles = vec![one_pixel_tile(&descs[0], &p), one_pixel_tile(&descs[1], &p)];
    let gen = WavefrontCollapseLandGenerator::new(template(3, 3, descs, false), "data");
    let rules = gen.build_rules(&tiles, 0);
    let mut wfc = WavefrontCollapse::new(false);
    wfc.set_rules(rules);
    wfc.init_map(&Size::new(3, 3));
    let counts = |w: &WavefrontCollapse| -> Vec<usize> {
        let mut v = Vec::new();
        for r in 0..3 {
            for c in 0..3 {
                v.push(w.candidate_count(r, c).unwrap());
            }
        }
        v
    };
    let mut before = counts(&wfc);
    assert_eq!(before, vec![2; 9]);
    let mut draw = 1u32;
    while wfc.collapse_step(draw) {
        let after = counts(&wfc);
        for (a, b) in after.iter().zip(before.iter()) {
            assert!(a <= b);
        }
        before = after;
        draw = draw.wrapping_mul(48271).wrapping_add(11);
    }
}

#[test]
fn committed_neighbors_respect_the_rules() {
    // after a run, every committed pair of adjacent cells is allowed by the
    // committed cell's directional rule set
    let p = params();
    let make_descs = || {
        let mut a = tile_description("a.png", "v", 2);
        a.edges = EdgesDescription {
            top: desc("v"),
            right: desc("h1"),
            bottom: desc("v"),
            left: desc("h1"),
        };
        let mut b = tile_description("b.png", "v", 1);
        b.edges = EdgesDescription {
            top: desc("v"),
            right: desc("h2"),
            bottom: desc("v"),
            left: desc("h2"),
        };
        vec![a, b]
    };
    let descs = make_descs();
    let tiles = vec![one_pixel_tile(&descs[0], &p), one_pixel_tile(&descs[1], &p)];
    let gen = WavefrontCollapseLandGenerator::new(template(4, 4, make_descs(), false), "data");
    let rules = gen.build_rules(&tiles, 0);
    let mut wfc = WavefrontCollapse::new(false);
    wfc.set_rules(rules);
    let mut rng = StdRng::from_seed([21; 32]);
    wfc.generate_map(&Size::new(4, 4), &mut rng);
    let tokens = wfc.resolved_tokens();
    let check_rules = gen.build_rules(&tiles, 0);
    let idx = |r: usize, c: usize| r * 4 + c;
    for r in 0..4usize {
        for c in 0..4usize {
            if let Tile::Numbered(t) = tokens[idx(r, c)] {
                if c + 1 < 4 {
                    assert!(check_rules[t].set(Direction::Right).contains(tokens[idx(r, c + 1)]));
                }
                if r + 1 < 4 {
                    assert!(check_rules[t].set(Direction::Bottom).contains(tokens[idx(r + 1, c)]));
                }
            }
        }
    }
}

#[test]
fn rule_sets_hold_exactly_the_compatible_tokens() {
    let p = params();
    let descs = vec![tile_description("a.png", "aa", 1), tile_description("b.png", "bb", 1)];
    let tiles = vec![one_pixel_tile(&descs[0], &p), one_pixel_tile(&descs[1], &p)];
    let gen = WavefrontCollapseLandGenerator::new(template(2, 2, descs, false), "data");
    let rules = gen.build_rules(&tiles, 0);
    assert_eq!(rules.len(), 2);
    for d in [Direction::Top, Direction::Right, Direction::Bottom, Direction::Left] {
        assert!(rules[0].set(d).contains(Tile::Numbered(0)));
        assert!(!rules[0].set(d).contains(Tile::Numbered(1)));
        assert!(rules[1].set(d).contains(Tile::Numbered(1)));
        // soft edges accept absence, and undeclared borders accept all three
        // synthetic border tokens
        assert!(rules[0].set(d).contains(Tile::Empty));
        assert!(rules[0].set(d).contains(Tile::OutsideBegin));
        assert!(rules[0].set(d).contains(Tile::OutsideFill));
        assert!(rules[0].set(d).contains(Tile::OutsideEnd));
    }
}

#[test]
fn weights_interpolate_across_the_registry() {
    let p = params();
    let descs = vec![tile_description("a.png", "aa", 1), tile_description("b.png", "bb", 1)];
    let tiles = vec![one_pixel_tile(&descs[0], &p), one_pixel_tile(&descs[1], &p)];
    let gen = WavefrontCollapseLandGenerator::new(template(2, 2, descs, false), "data");

    // the spread factor of the smallest distance divisor is the minimum -96
    let rules = gen.build_rules(&tiles, -96);
    assert_eq!(rules[0].weight, 196);
    assert_eq!(rules[1].weight, 4);

    let rules = gen.build_rules(&tiles, 96);
    assert_eq!(rules[0].weight, 4);
    assert_eq!(rules[1].weight, 196);

    let rules = gen.build_rules(&tiles, 0);
    assert_eq!(rules[0].weight, 100);
    assert_eq!(rules[1].weight, 100);
}

#[test]
fn derived_variants_transform_raster_and_edges() {
    let p = params();
    let mut td = tile_description("v.png", "ve", 7);
    td.edges = EdgesDescription {
        top: desc("tt"),
        right: desc("rr"),
        bottom: desc("bb"),
        left: desc("ll"),
    };
    td.can_flip = Some(true);
    td.can_rotate90 = Some(true);
    // a 2 by 1 image: left pixel solid, right pixel background
    let bytes = vec![255u8, 0u8];
    let tiles = tiles_from_image_data(&p, &td, 2, 1, 1, 2, &bytes);
    assert_eq!(tiles.len(), 3);
    assert_eq!(tiles[0].get(0, 0), Some(255u8));
    assert_eq!(tiles[0].get(0, 1), Some(0u8));
    // the flipped variant keeps the single row
    assert_eq!(tiles[1].get(0, 0), Some(255u8));
    // the quarter turn stands the row upright, the left pixel on top
    assert_eq!(tiles[2].get(0, 0), Some(255u8));
    assert_eq!(tiles[2].get(1, 0), Some(0u8));
    assert_eq!(tiles[2].edge_set().right().name(), tiles[0].edge_set().top().name());
    assert_eq!(tiles[2].edge_set().left().name(), tiles[0].edge_set().bottom().name());
    assert_eq!(tiles[0].weight(), 7);
    assert_eq!(tiles[2].weight(), 7);
}

#[test]
fn negative_tiles_swap_the_domain_values() {
    let p = params();
    let mut td = tile_description("n.png", "nn", 1);
    td.is_negative = Some(true);
    let bytes = vec![255u8, 0u8];
    let tiles = tiles_from_image_data(&p, &td, 2, 1, 1, 2, &bytes);
    assert_eq!(tiles[0].get(0, 0), Some(0u8));
    assert_eq!(tiles[0].get(0, 1), Some(255u8));
}
