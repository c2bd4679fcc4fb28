//! The collapse engine: a grid of cells with shrinking candidate sets,
//! driven by a minimum-entropy selection, a weighted random choice, and
//! constraint propagation to the four neighbors.
//!
//! Every mutation of the grid is a mathematical function of the state and
//! the drawn random value, so a whole run is a function of the initial state
//! and the sequence of draws.

use crate::geometry::Size;
use crate::rules::{CollapseRule, Direction};
use crate::tokens::{count_true, lemma_count_true_zero, Tile, TokenSet};
use vstd::prelude::*;

verus! {

/// The mathematical view of one cell: its candidate bits and its committed
/// token, if any.
pub struct CellView {
    pub cands: Seq<bool>,
    pub resolved: Option<Tile>,
}

/// One grid cell: the tokens still assignable to it, and the committed token
/// once it has collapsed.
pub struct Cell {
    pub candidates: TokenSet,
    pub resolved: Option<Tile>,
}

impl View for Cell {
    type V = CellView;

    open spec fn view(&self) -> CellView {
        CellView { cands: self.candidates.spec_bits(), resolved: self.resolved }
    }
}

/// The views of a row-major cell vector.
pub open spec fn cells_view(cells: Seq<Cell>) -> Seq<CellView> {
    cells.map_values(|c: Cell| c@)
}

/// The bit slot of a token among `n` tiles.
pub open spec fn slot_of(n: int, t: Tile) -> int {
    match t {
        Tile::Numbered(i) => i as int,
        Tile::Empty => n,
        Tile::OutsideBegin => n + 1,
        Tile::OutsideFill => n + 2,
        Tile::OutsideEnd => n + 3,
    }
}

/// The token in a bit slot among `n` tiles.
pub open spec fn token_of_slot(n: int, s: int) -> Tile {
    if s < n {
        Tile::Numbered(s as usize)
    } else if s == n {
        Tile::Empty
    } else if s == n + 1 {
        Tile::OutsideBegin
    } else if s == n + 2 {
        Tile::OutsideFill
    } else {
        Tile::OutsideEnd
    }
}

/// The candidate bits of a cell committed to the token in slot `s`.
pub open spec fn singleton_bits(n: int, s: int) -> Seq<bool> {
    Seq::new((n + 4) as nat, |j: int| j == s)
}

/// Well-formedness of a rule table for a registry of `n` tiles: every
/// direction set carries one bit per token.
pub open spec fn rules_wf(rules: Seq<CollapseRule>) -> bool {
    forall|i: int, d: Direction|
        0 <= i < rules.len() ==> (#[trigger] rules[i].spec_set(d)).spec_bits().len() == rules.len()
            + 4
}

/// A symmetric rule table: tile `j` may sit next to tile `i` exactly when
/// `i` may sit on the mirrored side of `j`.  The rule compiler always
/// produces such a table.
pub open spec fn rules_symmetric(rules: Seq<CollapseRule>) -> bool {
    forall|i: int, j: int, d: Direction|
        0 <= i < rules.len() && 0 <= j < rules.len() ==> (#[trigger] rules[i].spec_set(
            d,
        ).spec_contains(Tile::Numbered(j as usize)) == rules[j].spec_set(
            d.spec_opposite(),
        ).spec_contains(Tile::Numbered(i as usize)))
}

/// Well-formedness of one cell view for `n` tiles: the bits cover every
/// token, and a resolved cell holds exactly its committed tile token.
pub open spec fn cell_wf(c: CellView, n: int) -> bool {
    &&& c.cands.len() == n + 4
    &&& match c.resolved {
        Option::Some(t) => {
            &&& (t matches Tile::Numbered(k) ==> k < n)
            &&& c.cands == singleton_bits(n, slot_of(n, t))
        },
        Option::None => true,
    }
}

/// Well-formedness of a whole grid of cell views.
pub open spec fn grid_wf(cells: Seq<CellView>, n: int) -> bool {
    forall|i: int| 0 <= i < cells.len() ==> cell_wf(#[trigger] cells[i], n)
}

/// The neighbor of cell `(r, c)` in direction `d` on a `w` by `h` grid:
/// across a true boundary there is none unless the grid wraps, in which case
/// it is the cell on the opposite edge.
pub open spec fn spec_neighbor(w: int, h: int, wrap: bool, r: int, c: int, d: Direction) -> Option<
    (int, int),
> {
    match d {
        Direction::Top => if r > 0 {
            Option::Some((r - 1, c))
        } else if wrap {
            Option::Some((h - 1, c))
        } else {
            Option::None
        },
        Direction::Bottom => if r < h - 1 {
            Option::Some((r + 1, c))
        } else if wrap {
            Option::Some((0, c))
        } else {
            Option::None
        },
        Direction::Left => if c > 0 {
            Option::Some((r, c - 1))
        } else if wrap {
            Option::Some((r, w - 1))
        } else {
            Option::None
        },
        Direction::Right => if c < w - 1 {
            Option::Some((r, c + 1))
        } else if wrap {
            Option::Some((r, 0))
        } else {
            Option::None
        },
    }
}

/// With wrap on, the rightmost cell's right neighbor is the leftmost cell of
/// its row; with wrap off it has none, and the template borders constrain it
/// instead.
pub proof fn lemma_wrap_topology(w: int, h: int, r: int)
    requires
        w >= 1,
    ensures
        spec_neighbor(w, h, true, r, w - 1, Direction::Right) == Option::Some((r, 0int)),
        w > 1 ==> spec_neighbor(w, h, false, r, w - 1, Direction::Right) is None,
{
}

/// Whether a cell is still selectable: uncommitted with candidates left.
pub open spec fn selectable(c: CellView) -> bool {
    c.resolved is None && count_true(c.cands) > 0
}

/// How many cells of the grid are still selectable.
pub open spec fn selectable_count(cells: Seq<CellView>) -> nat
    decreases cells.len(),
{
    if cells.len() == 0 {
        0
    } else {
        selectable_count(cells.drop_last()) + (if selectable(cells.last()) {
            1nat
        } else {
            0nat
        })
    }
}

/// The selection rule: the selectable cell with the fewest candidates among
/// the first `k` cells, earliest first on ties.
pub open spec fn spec_select_prefix(cells: Seq<CellView>, k: int) -> Option<int>
    decreases k,
{
    if k <= 0 {
        Option::None
    } else {
        let rest = spec_select_prefix(cells, k - 1);
        if selectable(cells[k - 1]) {
            match rest {
                Option::None => Option::Some(k - 1),
                Option::Some(b) => if count_true(cells[b].cands) <= count_true(
                    cells[k - 1].cands,
                ) {
                    Option::Some(b)
                } else {
                    Option::Some(k - 1)
                },
            }
        } else {
            rest
        }
    }
}

/// The chosen cell of the whole grid.
pub open spec fn spec_select(cells: Seq<CellView>) -> Option<int> {
    spec_select_prefix(cells, cells.len() as int)
}

/// The selected index is a selectable cell, and none is selected exactly
/// when no cell is selectable.
pub proof fn lemma_select_prefix_sound(cells: Seq<CellView>, k: int)
    requires
        k <= cells.len(),
    ensures
        spec_select_prefix(cells, k) matches Option::Some(i) ==> 0 <= i < k && selectable(
            cells[i],
        ),
        spec_select_prefix(cells, k) is None ==> forall|i: int| 0 <= i < k ==> !selectable(
            #[trigger] cells[i],
        ),
    decreases k,
{
    if k > 0 {
        lemma_select_prefix_sound(cells, k - 1);
    }
}

/// The selection weight of the token in a bit slot: its rule's weight, or a
/// fixed minimal weight for the synthetic tokens, which have no rule.
pub open spec fn spec_slot_weight(rules: Seq<CollapseRule>, s: int) -> int {
    if 0 <= s < rules.len() {
        rules[s].weight as int
    } else {
        1
    }
}

/// The total weight of the candidate slots from `s` on.
pub open spec fn spec_total_weight_from(cands: Seq<bool>, rules: Seq<CollapseRule>, s: int) -> int
    decreases cands.len() - s,
{
    if s < 0 || s >= cands.len() {
        0
    } else {
        (if cands[s] {
            spec_slot_weight(rules, s)
        } else {
            0
        }) + spec_total_weight_from(cands, rules, s + 1)
    }
}

/// The slot the weighted draw lands on, walking candidate slots upward from
/// `s` and spending `target` weight.
pub open spec fn spec_pick_from(
    cands: Seq<bool>,
    rules: Seq<CollapseRule>,
    s: int,
    target: int,
) -> int
    decreases cands.len() - s,
{
    if s < 0 || s >= cands.len() {
        s
    } else if cands[s] {
        if target < spec_slot_weight(rules, s) {
            s
        } else {
            spec_pick_from(cands, rules, s + 1, target - spec_slot_weight(rules, s))
        }
    } else {
        spec_pick_from(cands, rules, s + 1, target)
    }
}

/// A draw below the remaining total lands on a candidate slot.
pub proof fn lemma_pick_lands(cands: Seq<bool>, rules: Seq<CollapseRule>, s: int, target: int)
    requires
        0 <= s <= cands.len(),
        0 <= target < spec_total_weight_from(cands, rules, s),
    ensures
        ({
            let p = spec_pick_from(cands, rules, s, target);
            s <= p < cands.len() && cands[p]
        }),
    decreases cands.len() - s,
{
    if s < cands.len() {
        if cands[s] {
            if target < spec_slot_weight(rules, s) {
            } else {
                lemma_pick_lands(cands, rules, s + 1, target - spec_slot_weight(rules, s));
            }
        } else {
            lemma_pick_lands(cands, rules, s + 1, target);
        }
    }
}

/// The pointwise intersection of candidate bits with a rule set's bits.
pub open spec fn intersect_bits(a: Seq<bool>, b: Seq<bool>) -> Seq<bool> {
    Seq::new(a.len(), |i: int| a[i] && 0 <= i < b.len() && b[i])
}

/// The view of a cell just committed to the token in slot `s`.
pub open spec fn committed_cell(n: int, s: int) -> CellView {
    CellView { cands: singleton_bits(n, s), resolved: Option::Some(token_of_slot(n, s)) }
}

/// Propagation of a commit in slot `s` at `(r, c)` to the neighbor in
/// direction `d`: the neighbor's candidates are intersected with the
/// committed tile's direction set.  Committed neighbors, missing neighbors,
/// and synthetic tokens (which have no rule) constrain nothing.
pub open spec fn spec_propagate_one(
    rules: Seq<CollapseRule>,
    wrap: bool,
    w: int,
    h: int,
    cells: Seq<CellView>,
    r: int,
    c: int,
    d: Direction,
    s: int,
) -> Seq<CellView> {
    match spec_neighbor(w, h, wrap, r, c, d) {
        Option::None => cells,
        Option::Some((nr, nc)) => {
            let idx = nr * w + nc;
            if 0 <= idx < cells.len() && cells[idx].resolved is None && 0 <= s < rules.len() {
                cells.update(
                    idx,
                    CellView {
                        cands: intersect_bits(cells[idx].cands, rules[s].spec_set(d).spec_bits()),
                        resolved: Option::None,
                    },
                )
            } else {
                cells
            }
        },
    }
}

/// One whole engine step: select the cell with the fewest candidates, commit
/// the weighted choice the draw lands on, and propagate to the four
/// neighbors.  Without a selectable cell the grid is unchanged.
pub open spec fn spec_step(
    rules: Seq<CollapseRule>,
    wrap: bool,
    w: int,
    h: int,
    cells: Seq<CellView>,
    draw: u32,
) -> Seq<CellView> {
    let n = rules.len();
    match spec_select(cells) {
        Option::None => cells,
        Option::Some(idx) => {
            let cv = cells[idx];
            let total = spec_total_weight_from(cv.cands, rules, 0);
            let target = (draw as int) % total;
            let s = spec_pick_from(cv.cands, rules, 0, target);
            let cells1 = cells.update(idx, committed_cell(n as int, s));
            let r = idx / w;
            let c = idx % w;
            let c2 = spec_propagate_one(rules, wrap, w, h, cells1, r, c, Direction::Top, s);
            let c3 = spec_propagate_one(rules, wrap, w, h, c2, r, c, Direction::Right, s);
            let c4 = spec_propagate_one(rules, wrap, w, h, c3, r, c, Direction::Bottom, s);
            spec_propagate_one(rules, wrap, w, h, c4, r, c, Direction::Left, s)
        },
    }
}

/// A whole run: the steps taken for the given draws, in order.
pub open spec fn spec_run(
    rules: Seq<CollapseRule>,
    wrap: bool,
    w: int,
    h: int,
    cells: Seq<CellView>,
    draws: Seq<u32>,
) -> Seq<CellView>
    decreases draws.len(),
{
    if draws.len() == 0 {
        cells
    } else {
        spec_run(rules, wrap, w, h, spec_step(rules, wrap, w, h, cells, draws[0]), draws.drop_first())
    }
}

/// Extending a run by one draw is one more step at the end.
pub proof fn lemma_run_snoc(
    rules: Seq<CollapseRule>,
    wrap: bool,
    w: int,
    h: int,
    cells: Seq<CellView>,
    draws: Seq<u32>,
    d: u32,
)
    ensures
        spec_run(rules, wrap, w, h, cells, draws.push(d)) == spec_step(
            rules,
            wrap,
            w,
            h,
            spec_run(rules, wrap, w, h, cells, draws),
            d,
        ),
    decreases draws.len(),
{
    let e = draws.push(d);
    if draws.len() == 0 {
        assert(e.drop_first() =~= draws);
        assert(e[0] == d);
        assert(spec_run(rules, wrap, w, h, cells, e) == spec_run(
            rules,
            wrap,
            w,
            h,
            spec_step(rules, wrap, w, h, cells, d),
            draws,
        ));
    } else {
        assert(e.drop_first() =~= draws.drop_first().push(d));
        assert(e[0] == draws[0]);
        let mid = spec_step(rules, wrap, w, h, cells, draws[0]);
        assert(spec_run(rules, wrap, w, h, cells, e) == spec_run(
            rules,
            wrap,
            w,
            h,
            mid,
            draws.drop_first().push(d),
        ));
        lemma_run_snoc(rules, wrap, w, h, mid, draws.drop_first(), d);
        assert(spec_run(rules, wrap, w, h, cells, draws) == spec_run(
            rules,
            wrap,
            w,
            h,
            mid,
            draws.drop_first(),
        ));
    }
}

/// Weights are positive, so a set with a candidate has positive total.
pub proof fn lemma_total_weight_positive(cands: Seq<bool>, rules: Seq<CollapseRule>, s: int)
    requires
        forall|i: int| 0 <= i < rules.len() ==> (#[trigger] rules[i].weight) >= 1,
        0 <= s <= cands.len(),
    ensures
        spec_total_weight_from(cands, rules, s) >= 0,
        (exists|i: int| s <= i < cands.len() && cands[i]) ==> spec_total_weight_from(
            cands,
            rules,
            s,
        ) >= 1,
    decreases cands.len() - s,
{
    if s < cands.len() {
        lemma_total_weight_positive(cands, rules, s + 1);
        if exists|i: int| s <= i < cands.len() && cands[i] {
            let i = choose|i: int| s <= i < cands.len() && cands[i];
            if i > s {
                assert(exists|j: int| s + 1 <= j < cands.len() && cands[j]);
            }
        }
    }
}

/// A token set whose members are exactly one token has exactly the
/// singleton bit pattern.
proof fn lemma_singleton_bits(ts: TokenSet, n: int, t: Tile)
    requires
        ts.wf(),
        ts.spec_n() == n,
        n + 4 <= usize::MAX,
        forall|u: Tile| #[trigger] ts.spec_contains(u) <==> u == t,
        slot_of(n, t) < n + 4,
        t matches Tile::Numbered(k) ==> k < n,
    ensures
        ts.spec_bits() =~= singleton_bits(n, slot_of(n, t)),
{
    assert forall|j: int| 0 <= j < n + 4 implies ts.spec_bits()[j] == (j == slot_of(n, t)) by {
        let u = token_of_slot(n, j);
        if j < n {
            assert(u == Tile::Numbered(j as usize));
            assert(j as usize as int == j);
            assert(ts.spec_contains(u) == ts.spec_bits()[j]);
        } else if j == n {
            assert(ts.spec_contains(u) == ts.spec_bits()[j]);
        } else if j == n + 1 {
            assert(ts.spec_contains(u) == ts.spec_bits()[j]);
        } else if j == n + 2 {
            assert(ts.spec_contains(u) == ts.spec_bits()[j]);
        } else {
            assert(ts.spec_contains(u) == ts.spec_bits()[j]);
        }
        assert(slot_of(n, u) == j);
        assert(ts.spec_contains(u) <==> u == t);
        if j == slot_of(n, t) {
            assert(u == t) by {
                match t {
                    Tile::Numbered(k) => {
                        assert(k < n);
                    },
                    _ => {
                    },
                }
            }
        }
        if ts.spec_bits()[j] {
            assert(u == t);
        }
    }
}

/// The collapse engine: a rule table, a grid of cells, and the wrap flag.
pub struct WavefrontCollapse {
    rules: Vec<CollapseRule>,
    cells: Vec<Cell>,
    width: usize,
    height: usize,
    wrap: bool,
}

impl WavefrontCollapse {
    pub closed spec fn spec_rules(self) -> Seq<CollapseRule> {
        self.rules@
    }

    pub closed spec fn spec_cells(self) -> Seq<CellView> {
        cells_view(self.cells@)
    }

    pub closed spec fn spec_width(self) -> int {
        self.width as int
    }

    pub closed spec fn spec_height(self) -> int {
        self.height as int
    }

    pub closed spec fn spec_wrap(self) -> bool {
        self.wrap
    }

    /// Engine well-formedness: the grid is rectangular, the rule table has
    /// one bit per token in each direction set and positive weights, and
    /// every cell is well formed.
    pub open spec fn wf(self) -> bool {
        &&& self.spec_cells().len() == self.spec_width() * self.spec_height()
        &&& self.spec_rules().len() <= 0x0100_0000
        &&& rules_wf(self.spec_rules())
        &&& (forall|i: int|
            0 <= i < self.spec_rules().len() ==> (#[trigger] self.spec_rules()[i].weight) >= 1)
        &&& grid_wf(self.spec_cells(), self.spec_rules().len() as int)
    }

    /// A fresh engine with no rules and an empty grid.
    pub fn new(wrap: bool) -> (r: Self)
        ensures
            r.wf(),
            r.spec_wrap() == wrap,
            r.spec_rules().len() == 0,
            r.spec_cells().len() == 0,
            r.spec_width() == 0,
            r.spec_height() == 0,
    {
        let r = Self { rules: Vec::new(), cells: Vec::new(), width: 0, height: 0, wrap };
        proof {
            assert(r.spec_cells() =~= Seq::<CellView>::empty());
        }
        r
    }

    /// Installs the rule table a run will use.
    pub fn set_rules(&mut self, rules: Vec<CollapseRule>)
        requires
            old(self).wf(),
            rules_wf(rules@),
            rules@.len() <= 0x0100_0000,
            forall|i: int| 0 <= i < rules@.len() ==> (#[trigger] rules@[i].weight) >= 1,
        ensures
            final(self).wf(),
            final(self).spec_rules() == rules@,
            final(self).spec_wrap() == old(self).spec_wrap(),
            final(self).spec_cells().len() == 0,
            final(self).spec_width() == 0,
            final(self).spec_height() == 0,
    {
        self.rules = rules;
        self.cells = Vec::new();
        self.width = 0;
        self.height = 0;
        proof {
            assert(self.spec_cells() =~= Seq::<CellView>::empty());
        }
    }

    /// The committed token of a cell, if the cell exists and has collapsed.
    pub fn get(&self, row: usize, col: usize) -> (r: Option<Tile>)
        requires
            self.wf(),
        ensures
            row < self.spec_height() && col < self.spec_width() ==> r == self.spec_cells()[row
                * self.spec_width() + col].resolved,
            !(row < self.spec_height() && col < self.spec_width()) ==> r is None,
    {
        if row < self.height && col < self.width {
            let len = self.cells.len();
            proof {
                lemma_grid_index(self.spec_width(), self.spec_height(), row as int, col as int);
            }
            self.cells[row * self.width + col].resolved
        } else {
            None
        }
    }

    /// The neighbor of a cell in a direction, as grid coordinates.
    fn neighbor(&self, r: usize, c: usize, d: Direction) -> (res: Option<(usize, usize)>)
        requires
            r < self.spec_height(),
            c < self.spec_width(),
        ensures
            res is None <==> spec_neighbor(
                self.spec_width(),
                self.spec_height(),
                self.spec_wrap(),
                r as int,
                c as int,
                d,
            ) is None,
            res matches Some(p) ==> spec_neighbor(
                self.spec_width(),
                self.spec_height(),
                self.spec_wrap(),
                r as int,
                c as int,
                d,
            ) == Option::Some((p.0 as int, p.1 as int)) && p.0 < self.spec_height() && p.1
                < self.spec_width(),
    {
        match d {
            Direction::Top => if r > 0 {
                Some((r - 1, c))
            } else if self.wrap {
                Some((self.height - 1, c))
            } else {
                None
            },
            Direction::Bottom => if r + 1 < self.height {
                Some((r + 1, c))
            } else if self.wrap {
                Some((0, c))
            } else {
                None
            },
            Direction::Left => if c > 0 {
                Some((r, c - 1))
            } else if self.wrap {
                Some((r, self.width - 1))
            } else {
                None
            },
            Direction::Right => if c + 1 < self.width {
                Some((r, c + 1))
            } else if self.wrap {
                Some((r, 0))
            } else {
                None
            },
        }
    }

    /// The selection step: the uncommitted cell with the fewest remaining
    /// candidates, earliest in scan order on ties.
    fn select_cell(&self) -> (r: Option<usize>)
        requires
            self.wf(),
        ensures
            r is None <==> spec_select(self.spec_cells()) is None,
            r matches Some(i) ==> spec_select(self.spec_cells()) == Option::Some(i as int) && i
                < self.spec_cells().len(),
    {
        let len = self.cells.len();
        let mut best: Option<usize> = None;
        let mut best_count: usize = 0;
        let mut i: usize = 0;
        while i < len
            invariant
                i <= len,
                len == self.spec_cells().len(),
                self.wf(),
                best is None ==> spec_select_prefix(self.spec_cells(), i as int) is None,
                best matches Some(b) ==> spec_select_prefix(self.spec_cells(), i as int)
                    == Option::Some(b as int) && b < i && best_count == count_true(
                    self.spec_cells()[b as int].cands,
                ) && best_count > 0,
            decreases len - i,
        {
            proof {
                assert(self.spec_cells()[i as int] == self.cells@[i as int]@);
            }
            if self.cells[i].resolved.is_none() {
                let cnt = self.cells[i].candidates.count();
                if cnt > 0 && (best.is_none() || cnt < best_count) {
                    best = Some(i);
                    best_count = cnt;
                }
            }
            i = i + 1;
        }
        best
    }

    /// The weighted choice: the candidate slot of the selected cell that the
    /// draw lands on, walking slots upward.  Tokens without a rule weigh one.
    fn choose_slot(&self, idx: usize, draw: u32) -> (s: usize)
        requires
            self.wf(),
            idx < self.spec_cells().len(),
            selectable(self.spec_cells()[idx as int]),
        ensures
            ({
                let cv = self.spec_cells()[idx as int];
                let total = spec_total_weight_from(cv.cands, self.spec_rules(), 0);
                &&& s == spec_pick_from(cv.cands, self.spec_rules(), 0, (draw as int) % total)
                &&& s < self.spec_rules().len() + 4
                &&& cv.cands[s as int]
            }),
    {
        let ghost cv = self.spec_cells()[idx as int];
        let nbits = self.cells[idx].candidates.n() + 4;
        proof {
            assert(cv == self.cells@[idx as int]@);
            assert(cv.cands.len() == nbits);
        }
        // total weight of the candidate slots
        let mut total: u64 = 0;
        let mut k: usize = 0;
        while k < nbits
            invariant
                k <= nbits,
                self.wf(),
                idx < self.spec_cells().len(),
                cv == self.spec_cells()[idx as int],
                nbits == cv.cands.len(),
                nbits <= 0x0100_0000 + 4,
                total + spec_total_weight_from(cv.cands, self.spec_rules(), k as int)
                    == spec_total_weight_from(cv.cands, self.spec_rules(), 0),
                total <= k * (u32::MAX as int),
            decreases nbits - k,
        {
            proof {
                assert(self.spec_cells()[idx as int] == self.cells@[idx as int]@);
            }
            if self.cells[idx].candidates.contains_slot(k) {
                let w = self.slot_weight(k);
                total = total + (w as u64);
            }
            k = k + 1;
        }
        proof {
            lemma_total_weight_positive(cv.cands, self.spec_rules(), 0);
            assert(exists|i: int| 0 <= i < cv.cands.len() && cv.cands[i]) by {
                lemma_count_true_zero(cv.cands);
            }
            assert(total >= 1);
        }
        let target0: u64 = (draw as u64) % total;
        let ghost target_spec = (draw as int) % spec_total_weight_from(cv.cands, self.spec_rules(), 0);
        proof {
            assert(target0 == target_spec);
        }
        // walk the candidate slots, spending the target weight
        let mut target: u64 = target0;
        let mut s: usize = 0;
        loop
            invariant_except_break
                s <= nbits,
                self.wf(),
                idx < self.spec_cells().len(),
                cv == self.spec_cells()[idx as int],
                nbits == cv.cands.len(),
                target < spec_total_weight_from(cv.cands, self.spec_rules(), s as int),
                spec_pick_from(cv.cands, self.spec_rules(), s as int, target as int)
                    == spec_pick_from(cv.cands, self.spec_rules(), 0, target_spec),
            ensures
                s == spec_pick_from(cv.cands, self.spec_rules(), 0, target_spec),
                s < nbits,
                cv.cands[s as int],
            decreases nbits - s,
        {
            proof {
                assert(self.spec_cells()[idx as int] == self.cells@[idx as int]@);
                if s as int >= cv.cands.len() {
                    assert(spec_total_weight_from(cv.cands, self.spec_rules(), s as int) == 0);
                    assert(false);
                }
            }
            if self.cells[idx].candidates.contains_slot(s) {
                let w = self.slot_weight(s);
                if target < (w as u64) {
                    break ;
                }
                target = target - (w as u64);
            }
            s = s + 1;
        }
        s
    }

    /// The weight of the token in a bit slot.
    fn slot_weight(&self, s: usize) -> (w: u32)
        requires
            self.wf(),
        ensures
            w == spec_slot_weight(self.spec_rules(), s as int),
            w >= 1,
    {
        if s < self.rules.len() {
            self.rules[s].weight
        } else {
            1
        }
    }

    /// One propagation: intersects the candidate set of the neighbor in
    /// direction `d` with the committed tile's direction set.
    fn propagate(&mut self, r: usize, c: usize, d: Direction, s: usize)
        requires
            old(self).wf(),
            r < old(self).spec_height(),
            c < old(self).spec_width(),
        ensures
            final(self).wf(),
            final(self).spec_rules() == old(self).spec_rules(),
            final(self).spec_width() == old(self).spec_width(),
            final(self).spec_height() == old(self).spec_height(),
            final(self).spec_wrap() == old(self).spec_wrap(),
            final(self).spec_cells() == spec_propagate_one(
                old(self).spec_rules(),
                old(self).spec_wrap(),
                old(self).spec_width(),
                old(self).spec_height(),
                old(self).spec_cells(),
                r as int,
                c as int,
                d,
                s as int,
            ),
    {
        let ghost pre = self.spec_cells();
        match self.neighbor(r, c, d) {
            None => {
                proof {
                    assert(self.spec_cells() =~= spec_propagate_one(
                        self.spec_rules(),
                        self.spec_wrap(),
                        self.spec_width(),
                        self.spec_height(),
                        pre,
                        r as int,
                        c as int,
                        d,
                        s as int,
                    ));
                }
            },
            Some((nr, nc)) => {
                let len = self.cells.len();
                proof {
                    lemma_grid_index(self.spec_width(), self.spec_height(), nr as int, nc as int);
                }
                let idx = nr * self.width + nc;
                proof {
                    assert(pre[idx as int] == self.cells@[idx as int]@);
                }
                if s < self.rules.len() && self.cells[idx].resolved.is_none() {
                    let dir_set = self.rules[s].set(d).duplicate();
                    let new_cands = self.cells[idx].candidates.intersect(&dir_set);
                    let resolved = self.cells[idx].resolved;
                    self.cells.set(idx, Cell { candidates: new_cands, resolved });
                    proof {
                        let expected = pre.update(
                            idx as int,
                            CellView {
                                cands: intersect_bits(
                                    pre[idx as int].cands,
                                    old(self).spec_rules()[s as int].spec_set(d).spec_bits(),
                                ),
                                resolved: Option::None,
                            },
                        );
                        assert(new_cands.spec_bits() =~= intersect_bits(
                            pre[idx as int].cands,
                            old(self).spec_rules()[s as int].spec_set(d).spec_bits(),
                        ));
                        assert(self.spec_cells() =~= expected);
                    }
                } else {
                    proof {
                        assert(self.spec_cells() =~= spec_propagate_one(
                            self.spec_rules(),
                            self.spec_wrap(),
                            self.spec_width(),
                            self.spec_height(),
                            pre,
                            r as int,
                            c as int,
                            d,
                            s as int,
                        ));
                    }
                }
            },
        }
    }

    /// One engine step for one drawn value: selects, commits and propagates.
    /// Returns whether a cell was committed; once no selectable cell is
    /// left, the grid no longer changes.
    pub fn collapse_step(&mut self, draw: u32) -> (progressed: bool)
        requires
            old(self).wf(),
        ensures
            final(self).wf(),
            final(self).spec_rules() == old(self).spec_rules(),
            final(self).spec_width() == old(self).spec_width(),
            final(self).spec_height() == old(self).spec_height(),
            final(self).spec_wrap() == old(self).spec_wrap(),
            progressed <==> spec_select(old(self).spec_cells()) is Some,
            final(self).spec_cells() == spec_step(
                old(self).spec_rules(),
                old(self).spec_wrap(),
                old(self).spec_width(),
                old(self).spec_height(),
                old(self).spec_cells(),
                draw,
            ),
    {
        let ghost pre = self.spec_cells();
        match self.select_cell() {
            None => false,
            Some(idx) => {
                proof {
                    lemma_select_prefix_sound(pre, pre.len() as int);
                }
                let s = self.choose_slot(idx, draw);
                let n = self.rules.len();
                let tok = token_from_slot(n, s);
                let new_cands = TokenSet::singleton(n, tok);
                self.cells.set(idx, Cell { candidates: new_cands, resolved: Some(tok) });
                proof {
                    lemma_singleton_bits(new_cands, n as int, tok);
                    assert(slot_of(n as int, tok) == s);
                    assert(self.spec_cells() =~= pre.update(
                        idx as int,
                        committed_cell(n as int, s as int),
                    ));
                    lemma_grid_coords(
                        self.spec_width(),
                        self.spec_height(),
                        idx as int,
                        pre.len() as int,
                    );
                    assert(cell_wf(committed_cell(n as int, s as int), n as int));
                    assert forall|i: int| 0 <= i < self.spec_cells().len() implies cell_wf(
                        #[trigger] self.spec_cells()[i],
                        n as int,
                    ) by {
                        if i != idx {
                            assert(self.spec_cells()[i] == pre[i]);
                        }
                    }
                    assert(self.wf());
                }
                let r = idx / self.width;
                let c = idx % self.width;
                self.propagate(r, c, Direction::Top, s);
                self.propagate(r, c, Direction::Right, s);
                self.propagate(r, c, Direction::Bottom, s);
                self.propagate(r, c, Direction::Left, s);
                true
            },
        }
    }
}

/// The neighbor relation is symmetric: crossing an edge and crossing back
/// returns to the same cell.
pub proof fn lemma_neighbor_symmetric(
    w: int,
    h: int,
    wrap: bool,
    r: int,
    c: int,
    nr: int,
    nc: int,
    d: Direction,
)
    requires
        0 <= r < h,
        0 <= c < w,
        spec_neighbor(w, h, wrap, r, c, d) == Option::Some((nr, nc)),
    ensures
        0 <= nr < h,
        0 <= nc < w,
        spec_neighbor(w, h, wrap, nr, nc, d.spec_opposite()) == Option::Some((r, c)),
{
}

/// What one propagation does, cell by cell: nothing changes but possibly the
/// one targeted neighbor, whose candidates shrink into the rule set.
proof fn lemma_propagate_one_props(
    rules: Seq<CollapseRule>,
    wrap: bool,
    w: int,
    h: int,
    cells: Seq<CellView>,
    r: int,
    c: int,
    d: Direction,
    s: int,
)
    ensures
        ({
            let f = spec_propagate_one(rules, wrap, w, h, cells, r, c, d, s);
            &&& f.len() == cells.len()
            &&& forall|i: int| 0 <= i < f.len() ==> (#[trigger] f[i]).resolved == cells[i].resolved
            &&& forall|i: int|
                0 <= i < f.len() ==> (#[trigger] f[i]).cands.len() == cells[i].cands.len()
            &&& forall|i: int, j: int|
                0 <= i < f.len() && 0 <= j < f[i].cands.len() && (#[trigger] f[i].cands[j])
                    ==> cells[i].cands[j]
            &&& (match spec_neighbor(w, h, wrap, r, c, d) {
                Option::None => f == cells,
                Option::Some((nr, nc)) => {
                    let idx = nr * w + nc;
                    if 0 <= idx < cells.len() && cells[idx].resolved is None && 0 <= s
                        < rules.len() {
                        &&& (forall|j: int|
                            0 <= j < f[idx].cands.len() && #[trigger] f[idx].cands[j] ==> rules[
                                s
                            ].spec_set(d).spec_bits()[j])
                        &&& (forall|i: int| 0 <= i < f.len() && i != idx ==> #[trigger] f[i]
                            == cells[i])
                    } else {
                        f == cells
                    }
                },
            })
        }),
{
    let f = spec_propagate_one(rules, wrap, w, h, cells, r, c, d, s);
    match spec_neighbor(w, h, wrap, r, c, d) {
        Option::None => {
        },
        Option::Some((nr, nc)) => {
            let idx = nr * w + nc;
            if 0 <= idx < cells.len() && cells[idx].resolved is None && 0 <= s < rules.len() {
                assert(f[idx].cands == intersect_bits(
                    cells[idx].cands,
                    rules[s].spec_set(d).spec_bits(),
                ));
            }
        },
    }
}

/// The engine invariant carried through a run: cells are well formed, no
/// candidate set holds a synthetic token, every committed cell has
/// propagated into its uncommitted neighbors, and committed neighbors agree
/// with the rules.
pub open spec fn engine_inv(
    rules: Seq<CollapseRule>,
    wrap: bool,
    w: int,
    h: int,
    cells: Seq<CellView>,
) -> bool {
    &&& grid_wf(cells, rules.len() as int)
    &&& no_synthetic(rules.len() as int, cells)
    &&& propagated(rules, wrap, w, h, cells)
    &&& locally_consistent(rules, wrap, w, h, cells)
}

/// No cell's candidate set holds a synthetic token: cells only ever hold
/// tile candidates.
pub open spec fn no_synthetic(n: int, cells: Seq<CellView>) -> bool {
    forall|i: int, j: int|
        0 <= i < cells.len() && n <= j < cells[i].cands.len() ==> !(#[trigger] cells[i].cands[j])
}

/// Every committed cell has constrained each uncommitted neighbor: the
/// neighbor's candidates lie inside the committed tile's direction set.
pub open spec fn propagated(
    rules: Seq<CollapseRule>,
    wrap: bool,
    w: int,
    h: int,
    cells: Seq<CellView>,
) -> bool {
    forall|r: int, c: int, d: Direction|
        0 <= r < h && 0 <= c < w ==> propagated_at(rules, wrap, w, h, cells, r, c, d)
}

/// The propagation condition of one committed cell toward one direction.
pub open spec fn propagated_at(
    rules: Seq<CollapseRule>,
    wrap: bool,
    w: int,
    h: int,
    cells: Seq<CellView>,
    r: int,
    c: int,
    d: Direction,
) -> bool {
    match spec_neighbor(w, h, wrap, r, c, d) {
        Option::None => true,
        Option::Some((nr, nc)) => {
            let idx = r * w + c;
            let nidx = nr * w + nc;
            0 <= idx < cells.len() && 0 <= nidx < cells.len() ==> match cells[idx].resolved {
                Option::Some(Tile::Numbered(t)) => cells[nidx].resolved is None && t < rules.len()
                    ==> (forall|j: int|
                    0 <= j < cells[nidx].cands.len() && #[trigger] cells[nidx].cands[j] ==> rules[
                        t as int
                    ].spec_set(d).spec_bits()[j]),
                _ => true,
            }
        },
    }
}

/// Global local consistency: for every pair of committed adjacent cells, the
/// neighbor's token is in the committed cell's directional rule set.
pub open spec fn locally_consistent(
    rules: Seq<CollapseRule>,
    wrap: bool,
    w: int,
    h: int,
    cells: Seq<CellView>,
) -> bool {
    forall|r: int, c: int, d: Direction|
        0 <= r < h && 0 <= c < w ==> consistent_at(rules, wrap, w, h, cells, r, c, d)
}

/// The consistency condition of one committed cell toward one direction.
pub open spec fn consistent_at(
    rules: Seq<CollapseRule>,
    wrap: bool,
    w: int,
    h: int,
    cells: Seq<CellView>,
    r: int,
    c: int,
    d: Direction,
) -> bool {
    match spec_neighbor(w, h, wrap, r, c, d) {
        Option::None => true,
        Option::Some((nr, nc)) => {
            let idx = r * w + c;
            let nidx = nr * w + nc;
            (0 <= idx < cells.len() && 0 <= nidx < cells.len() && nidx != idx) ==> match (
                cells[idx].resolved,
                cells[nidx].resolved,
            ) {
                (Option::Some(Tile::Numbered(t)), Option::Some(u)) => t < rules.len()
                    ==> rules[t as int].spec_set(d).spec_contains(u),
                _ => true,
            }
        },
    }
}

/// A candidate set only ever shrinks: every candidate a cell holds after a
/// step, it already held before the step, and committed cells stay
/// committed.
pub proof fn lemma_step_monotonic(
    rules: Seq<CollapseRule>,
    wrap: bool,
    w: int,
    h: int,
    cells: Seq<CellView>,
    draw: u32,
)
    requires
        forall|i: int| 0 <= i < rules.len() ==> (#[trigger] rules[i].weight) >= 1,
    ensures
        ({
            let f = spec_step(rules, wrap, w, h, cells, draw);
            &&& f.len() == cells.len()
            &&& forall|i: int, j: int|
                0 <= i < f.len() && 0 <= j < f[i].cands.len() && (#[trigger] f[i].cands[j]) ==> 0
                    <= j < cells[i].cands.len() && cells[i].cands[j]
            &&& forall|i: int|
                0 <= i < f.len() && (#[trigger] cells[i].resolved) is Some ==> f[i].resolved
                    == cells[i].resolved
        }),
{
    let n = rules.len() as int;
    match spec_select(cells) {
        Option::None => {
        },
        Option::Some(idx) => {
            lemma_select_prefix_sound(cells, cells.len() as int);
            let cv = cells[idx];
            let total = spec_total_weight_from(cv.cands, rules, 0);
            lemma_total_weight_positive(cv.cands, rules, 0);
            lemma_count_true_zero(cv.cands);
            assert(exists|b: int| 0 <= b < cv.cands.len() && cv.cands[b]);
            let target = (draw as int) % total;
            vstd::arithmetic::div_mod::lemma_mod_bound(draw as int, total);
            let s = spec_pick_from(cv.cands, rules, 0, target);
            lemma_pick_lands(cv.cands, rules, 0, target);
            let cells1 = cells.update(idx, committed_cell(n, s));
            let r = idx / w;
            let c = idx % w;
            let c2 = spec_propagate_one(rules, wrap, w, h, cells1, r, c, Direction::Top, s);
            let c3 = spec_propagate_one(rules, wrap, w, h, c2, r, c, Direction::Right, s);
            let c4 = spec_propagate_one(rules, wrap, w, h, c3, r, c, Direction::Bottom, s);
            let c5 = spec_propagate_one(rules, wrap, w, h, c4, r, c, Direction::Left, s);
            lemma_propagate_one_props(rules, wrap, w, h, cells1, r, c, Direction::Top, s);
            lemma_propagate_one_props(rules, wrap, w, h, c2, r, c, Direction::Right, s);
            lemma_propagate_one_props(rules, wrap, w, h, c3, r, c, Direction::Bottom, s);
            lemma_propagate_one_props(rules, wrap, w, h, c4, r, c, Direction::Left, s);
            assert(cells1[idx].cands == singleton_bits(n, s));
            assert(forall|j: int|
                0 <= j < singleton_bits(n, s).len() && #[trigger] singleton_bits(n, s)[j] ==> j
                    == s);
        },
    }
}

/// Over the lifetime of a whole run, a cell's candidate set only ever
/// shrinks: any candidate it holds after any number of steps, it already
/// held at the start.
pub proof fn lemma_run_monotonic(
    rules: Seq<CollapseRule>,
    wrap: bool,
    w: int,
    h: int,
    cells: Seq<CellView>,
    draws: Seq<u32>,
)
    requires
        forall|i: int| 0 <= i < rules.len() ==> (#[trigger] rules[i].weight) >= 1,
    ensures
        ({
            let f = spec_run(rules, wrap, w, h, cells, draws);
            &&& f.len() == cells.len()
            &&& forall|i: int, j: int|
                0 <= i < f.len() && 0 <= j < f[i].cands.len() && (#[trigger] f[i].cands[j]) ==> 0
                    <= j < cells[i].cands.len() && cells[i].cands[j]
        }),
    decreases draws.len(),
{
    if draws.len() > 0 {
        lemma_step_monotonic(rules, wrap, w, h, cells, draws[0]);
        let mid = spec_step(rules, wrap, w, h, cells, draws[0]);
        lemma_run_monotonic(rules, wrap, w, h, mid, draws.drop_first());
        let f = spec_run(rules, wrap, w, h, cells, draws);
        assert forall|i: int, j: int|
            0 <= i < f.len() && 0 <= j < f[i].cands.len() && (#[trigger] f[i].cands[j]) implies 0
            <= j < cells[i].cands.len() && cells[i].cands[j] by {
            assert(0 <= j < mid[i].cands.len() && mid[i].cands[j]);
        }
    }
}

/// A step with a selectable cell strictly reduces the number of selectable
/// cells.
#[verifier::rlimit(100)]
pub proof fn lemma_step_decreases(
    rules: Seq<CollapseRule>,
    wrap: bool,
    w: int,
    h: int,
    cells: Seq<CellView>,
    draw: u32,
)
    requires
        forall|i: int| 0 <= i < rules.len() ==> (#[trigger] rules[i].weight) >= 1,
        spec_select(cells) is Some,
    ensures
        selectable_count(spec_step(rules, wrap, w, h, cells, draw)) < selectable_count(cells),
{
    let f = spec_step(rules, wrap, w, h, cells, draw);
    let idx = spec_select(cells)->Some_0;
    lemma_select_prefix_sound(cells, cells.len() as int);
    lemma_step_monotonic(rules, wrap, w, h, cells, draw);
    assert forall|i: int| 0 <= i < f.len() && selectable(#[trigger] f[i]) implies selectable(
        cells[i],
    ) by {
        assert(f[i].resolved is None ==> cells[i].resolved is None) by {
            if cells[i].resolved is Some {
                assert(f[i].resolved == cells[i].resolved);
            }
        }
        if f[i].resolved is None {
            lemma_count_true_zero(f[i].cands);
            lemma_count_true_zero(cells[i].cands);
            let b = choose|b: int| 0 <= b < f[i].cands.len() && f[i].cands[b];
            assert(cells[i].cands[b]);
        }
    }
    assert(!selectable(f[idx])) by {
        lemma_step_commits(rules, wrap, w, h, cells, draw);
    }
    lemma_selectable_count_strict(f, cells, idx);
}

/// The selected cell of a step is committed afterwards.
proof fn lemma_step_commits(
    rules: Seq<CollapseRule>,
    wrap: bool,
    w: int,
    h: int,
    cells: Seq<CellView>,
    draw: u32,
)
    requires
        spec_select(cells) is Some,
    ensures
        ({
            let f = spec_step(rules, wrap, w, h, cells, draw);
            let idx = spec_select(cells)->Some_0;
            0 <= idx < f.len() && f.len() == cells.len() && f[idx].resolved is Some
        }),
{
    let idx = spec_select(cells)->Some_0;
    lemma_select_prefix_sound(cells, cells.len() as int);
    let n = rules.len() as int;
    let cv = cells[idx];
    let total = spec_total_weight_from(cv.cands, rules, 0);
    let target = (draw as int) % total;
    let s = spec_pick_from(cv.cands, rules, 0, target);
    let cells1 = cells.update(idx, committed_cell(n, s));
    let r = idx / w;
    let c = idx % w;
    let c2 = spec_propagate_one(rules, wrap, w, h, cells1, r, c, Direction::Top, s);
    let c3 = spec_propagate_one(rules, wrap, w, h, c2, r, c, Direction::Right, s);
    let c4 = spec_propagate_one(rules, wrap, w, h, c3, r, c, Direction::Bottom, s);
    lemma_propagate_one_props(rules, wrap, w, h, cells1, r, c, Direction::Top, s);
    lemma_propagate_one_props(rules, wrap, w, h, c2, r, c, Direction::Right, s);
    lemma_propagate_one_props(rules, wrap, w, h, c3, r, c, Direction::Bottom, s);
    lemma_propagate_one_props(rules, wrap, w, h, c4, r, c, Direction::Left, s);
}

/// Cellwise selectability implication bounds the selectable count.
proof fn lemma_selectable_count_le(a: Seq<CellView>, b: Seq<CellView>)
    requires
        a.len() == b.len(),
        forall|i: int| 0 <= i < a.len() && selectable(#[trigger] a[i]) ==> selectable(b[i]),
    ensures
        selectable_count(a) <= selectable_count(b),
    decreases a.len(),
{
    if a.len() > 0 {
        lemma_selectable_count_le(a.drop_last(), b.drop_last());
    }
}

/// Cellwise selectability implication with one strict difference bounds the
/// selectable count strictly.
proof fn lemma_selectable_count_strict(a: Seq<CellView>, b: Seq<CellView>, idx: int)
    requires
        a.len() == b.len(),
        forall|i: int| 0 <= i < a.len() && selectable(#[trigger] a[i]) ==> selectable(b[i]),
        0 <= idx < a.len(),
        !selectable(a[idx]),
        selectable(b[idx]),
    ensures
        selectable_count(a) < selectable_count(b),
    decreases a.len(),
{
    if idx == a.len() - 1 {
        lemma_selectable_count_le(a.drop_last(), b.drop_last());
    } else {
        lemma_selectable_count_strict(a.drop_last(), b.drop_last(), idx);
    }
}

/// The slot a step commits: where the draw lands among the selected cell's
/// candidates.
pub open spec fn step_slot(rules: Seq<CollapseRule>, cells: Seq<CellView>, draw: u32) -> int {
    let idx = spec_select(cells)->Some_0;
    let cv = cells[idx];
    let total = spec_total_weight_from(cv.cands, rules, 0);
    spec_pick_from(cv.cands, rules, 0, (draw as int) % total)
}

/// What one whole step does, cell by cell: the selected cell commits to the
/// landed slot; no other cell's commitment changes; candidate sets only
/// shrink; committed cells are untouched; and each uncommitted true neighbor
/// of the selected cell ends inside the committed tile's direction set.
#[verifier::rlimit(100)]
proof fn lemma_step_characterization(
    rules: Seq<CollapseRule>,
    wrap: bool,
    w: int,
    h: int,
    cells: Seq<CellView>,
    draw: u32,
)
    requires
        forall|i: int| 0 <= i < rules.len() ==> (#[trigger] rules[i].weight) >= 1,
        spec_select(cells) is Some,
        cells.len() == w * h,
        w >= 0,
        h >= 0,
        rules.len() <= 0x0100_0000,
    ensures
        ({
            let f = spec_step(rules, wrap, w, h, cells, draw);
            let idx = spec_select(cells)->Some_0;
            let n = rules.len() as int;
            let s = step_slot(rules, cells, draw);
            &&& 0 <= idx < cells.len()
            &&& cells[idx].resolved is None
            &&& 0 <= s < cells[idx].cands.len()
            &&& cells[idx].cands[s]
            &&& f.len() == cells.len()
            &&& f[idx] == committed_cell(n, s)
            &&& forall|i: int|
                0 <= i < cells.len() && i != idx ==> (#[trigger] f[i]).resolved
                    == cells[i].resolved && f[i].cands.len() == cells[i].cands.len()
            &&& forall|i: int, j: int|
                0 <= i < cells.len() && i != idx && 0 <= j < f[i].cands.len() && (
                #[trigger] f[i].cands[j]) ==> cells[i].cands[j]
            &&& forall|i: int|
                0 <= i < cells.len() && i != idx && (#[trigger] cells[i]).resolved is Some ==> f[i]
                    == cells[i]
            &&& forall|d: Direction, nr: int, nc: int|
                #![trigger spec_neighbor(w, h, wrap, idx / w, idx % w, d), f[nr * w + nc]]
                (spec_neighbor(w, h, wrap, idx / w, idx % w, d) == Option::Some((nr, nc)) && 0 <= nr
                    * w + nc < cells.len() && nr * w + nc != idx && cells[nr * w
                    + nc].resolved is None && s < n) ==> (forall|j: int|
                    0 <= j < f[nr * w + nc].cands.len() && #[trigger] f[nr * w + nc].cands[j]
                        ==> rules[s].spec_set(d).spec_bits()[j])
        }),
{
    let f = spec_step(rules, wrap, w, h, cells, draw);
    let idx = spec_select(cells)->Some_0;
    let n = rules.len() as int;
    lemma_select_prefix_sound(cells, cells.len() as int);
    let cv = cells[idx];
    let total = spec_total_weight_from(cv.cands, rules, 0);
    lemma_total_weight_positive(cv.cands, rules, 0);
    lemma_count_true_zero(cv.cands);
    assert(exists|b: int| 0 <= b < cv.cands.len() && cv.cands[b]);
    let target = (draw as int) % total;
    vstd::arithmetic::div_mod::lemma_mod_bound(draw as int, total);
    let s = spec_pick_from(cv.cands, rules, 0, target);
    lemma_pick_lands(cv.cands, rules, 0, target);
    let cells1 = cells.update(idx, committed_cell(n, s));
    let r = idx / w;
    let c = idx % w;
    lemma_grid_coords(w, h, idx, cells.len() as int);
    let c2 = spec_propagate_one(rules, wrap, w, h, cells1, r, c, Direction::Top, s);
    let c3 = spec_propagate_one(rules, wrap, w, h, c2, r, c, Direction::Right, s);
    let c4 = spec_propagate_one(rules, wrap, w, h, c3, r, c, Direction::Bottom, s);
    let c5 = spec_propagate_one(rules, wrap, w, h, c4, r, c, Direction::Left, s);
    lemma_propagate_one_props(rules, wrap, w, h, cells1, r, c, Direction::Top, s);
    lemma_propagate_one_props(rules, wrap, w, h, c2, r, c, Direction::Right, s);
    lemma_propagate_one_props(rules, wrap, w, h, c3, r, c, Direction::Bottom, s);
    lemma_propagate_one_props(rules, wrap, w, h, c4, r, c, Direction::Left, s);
    assert(f == c5);
    assert(f[idx] == committed_cell(n, s)) by {
        assert(cells1[idx].resolved is Some);
    }
    assert forall|d: Direction, nr: int, nc: int|
        #![trigger spec_neighbor(w, h, wrap, r, c, d), f[nr * w + nc]]
        (spec_neighbor(w, h, wrap, r, c, d) == Option::Some((nr, nc)) && 0 <= nr * w + nc
            < cells.len() && nr * w + nc != idx && cells[nr * w + nc].resolved is None && s
            < n) implies (forall|j: int|
        0 <= j < f[nr * w + nc].cands.len() && #[trigger] f[nr * w + nc].cands[j]
            ==> rules[s].spec_set(d).spec_bits()[j]) by {
        let nidx = nr * w + nc;
        match d {
            Direction::Top => {
                assert(cells1[nidx].resolved is None);
                assert(forall|j: int|
                    0 <= j < c2[nidx].cands.len() && #[trigger] c2[nidx].cands[j] ==> rules[
                        s
                    ].spec_set(d).spec_bits()[j]);
            },
            Direction::Right => {
                assert(c2[nidx].resolved is None);
                assert(forall|j: int|
                    0 <= j < c3[nidx].cands.len() && #[trigger] c3[nidx].cands[j] ==> rules[
                        s
                    ].spec_set(d).spec_bits()[j]);
            },
            Direction::Bottom => {
                assert(c3[nidx].resolved is None);
                assert(forall|j: int|
                    0 <= j < c4[nidx].cands.len() && #[trigger] c4[nidx].cands[j] ==> rules[
                        s
                    ].spec_set(d).spec_bits()[j]);
            },
            Direction::Left => {
                assert(c4[nidx].resolved is None);
                assert(forall|j: int|
                    0 <= j < c5[nidx].cands.len() && #[trigger] c5[nidx].cands[j] ==> rules[
                        s
                    ].spec_set(d).spec_bits()[j]);
            },
        }
    }
}

/// Distinct in-range coordinates give distinct row-major offsets.
proof fn lemma_coords_unique(w: int, h: int, r1: int, c1: int, r2: int, c2: int)
    requires
        0 <= r1 < h,
        0 <= c1 < w,
        0 <= r2 < h,
        0 <= c2 < w,
        r1 * w + c1 == r2 * w + c2,
    ensures
        r1 == r2 && c1 == c2,
{
    if r1 != r2 {
        assert(false) by (nonlinear_arith)
            requires
                0 <= c1 < w,
                0 <= c2 < w,
                r1 != r2,
                r1 >= 0,
                r2 >= 0,
                r1 * w + c1 == r2 * w + c2,
        ;
    }
}

/// A committed cell holds a tile token when no candidate set holds a
/// synthetic token.
proof fn lemma_committed_is_tile(n: int, cells: Seq<CellView>, i: int)
    requires
        n >= 0,
        grid_wf(cells, n),
        no_synthetic(n, cells),
        0 <= i < cells.len(),
        cells[i].resolved is Some,
    ensures
        cells[i].resolved matches Option::Some(u) && u matches Tile::Numbered(k) && k < n
            && slot_of(n, u) < n && cells[i].cands[slot_of(n, u)],
{
    let u = cells[i].resolved->Some_0;
    assert(cell_wf(cells[i], n));
    assert(cells[i].cands == singleton_bits(n, slot_of(n, u)));
    assert(0 <= slot_of(n, u) < n + 4) by {
        match u {
            Tile::Numbered(k) => {
                assert(k < n);
            },
            _ => {
            },
        }
    }
    assert(singleton_bits(n, slot_of(n, u))[slot_of(n, u)]);
    if slot_of(n, u) >= n {
        assert(!cells[i].cands[slot_of(n, u)]);
    }
    match u {
        Tile::Numbered(k) => {
        },
        _ => {
            assert(slot_of(n, u) >= n);
        },
    }
}

/// One step preserves the engine invariant.
#[verifier::rlimit(100)]
pub proof fn lemma_step_preserves_inv(
    rules: Seq<CollapseRule>,
    wrap: bool,
    w: int,
    h: int,
    cells: Seq<CellView>,
    draw: u32,
)
    requires
        rules_wf(rules),
        rules_symmetric(rules),
        forall|i: int| 0 <= i < rules.len() ==> (#[trigger] rules[i].weight) >= 1,
        cells.len() == w * h,
        w >= 0,
        h >= 0,
        rules.len() <= 0x0100_0000,
        engine_inv(rules, wrap, w, h, cells),
    ensures
        engine_inv(rules, wrap, w, h, spec_step(rules, wrap, w, h, cells, draw)),
{
    let n = rules.len() as int;
    let f = spec_step(rules, wrap, w, h, cells, draw);
    match spec_select(cells) {
        Option::None => {
        },
        Option::Some(idx0) => {
            lemma_step_characterization(rules, wrap, w, h, cells, draw);
            let idx = spec_select(cells)->Some_0;
            let s = step_slot(rules, cells, draw);
            assert(s < n) by {
                if s >= n {
                    assert(!cells[idx].cands[s]);
                }
            }
            lemma_grid_coords(w, h, idx, cells.len() as int);

            assert(grid_wf(f, n)) by {
                assert forall|i: int| 0 <= i < f.len() implies cell_wf(#[trigger] f[i], n) by {
                    if i == idx {
                        assert(f[idx] == committed_cell(n, s));
                    } else {
                        assert(cell_wf(cells[i], n));
                        if cells[i].resolved is Some {
                            assert(f[i] == cells[i]);
                        }
                    }
                }
            }
            assert(no_synthetic(n, f)) by {
                assert forall|i: int, j: int|
                    0 <= i < f.len() && n <= j < f[i].cands.len() implies !(
                #[trigger] f[i].cands[j]) by {
                    if i == idx {
                        assert(f[idx] == committed_cell(n, s));
                        assert(singleton_bits(n, s)[j] == (j == s));
                    } else {
                        assert(cell_wf(cells[i], n));
                        if f[i].cands[j] {
                            assert(cells[i].cands[j]);
                        }
                    }
                }
            }
            assert(propagated(rules, wrap, w, h, f)) by {
                assert forall|pr: int, pc: int, pd: Direction|
                    0 <= pr < h && 0 <= pc < w implies propagated_at(
                    rules,
                    wrap,
                    w,
                    h,
                    f,
                    pr,
                    pc,
                    pd,
                ) by {
                    lemma_propagated_case(rules, wrap, w, h, cells, draw, pr, pc, pd);
                }
            }
            assert(locally_consistent(rules, wrap, w, h, f)) by {
                assert forall|pr: int, pc: int, pd: Direction|
                    0 <= pr < h && 0 <= pc < w implies consistent_at(
                    rules,
                    wrap,
                    w,
                    h,
                    f,
                    pr,
                    pc,
                    pd,
                ) by {
                    let pidx = pr * w + pc;
                    lemma_grid_index(w, h, pr, pc);
                    match spec_neighbor(w, h, wrap, pr, pc, pd) {
                        Option::None => {
                        },
                        Option::Some((nr, nc)) => {
                            lemma_neighbor_symmetric(w, h, wrap, pr, pc, nr, nc, pd);
                            let nidx = nr * w + nc;
                            lemma_grid_index(w, h, nr, nc);
                            if nidx != pidx {
                                match (f[pidx].resolved, f[nidx].resolved) {
                                    (Option::Some(Tile::Numbered(t)), Option::Some(u)) => {
                                        if t < rules.len() {
                                            lemma_consistency_case(
                                                rules, wrap, w, h, cells, draw, pr, pc, nr, nc, pd,
                                                t as int, u,
                                            );
                                        }
                                    },
                                    _ => {
                                    },
                                }
                            }
                        },
                    }
                }
            }
        },
    }
}

/// The propagation argument for one committed cell and direction after a
/// step.
#[verifier::rlimit(100)]
proof fn lemma_propagated_case(
    rules: Seq<CollapseRule>,
    wrap: bool,
    w: int,
    h: int,
    cells: Seq<CellView>,
    draw: u32,
    pr: int,
    pc: int,
    pd: Direction,
)
    requires
        rules_wf(rules),
        forall|i: int| 0 <= i < rules.len() ==> (#[trigger] rules[i].weight) >= 1,
        cells.len() == w * h,
        w >= 0,
        h >= 0,
        rules.len() <= 0x0100_0000,
        engine_inv(rules, wrap, w, h, cells),
        spec_select(cells) is Some,
        0 <= pr < h,
        0 <= pc < w,
    ensures
        propagated_at(rules, wrap, w, h, spec_step(rules, wrap, w, h, cells, draw), pr, pc, pd),
{
    let n = rules.len() as int;
    let f = spec_step(rules, wrap, w, h, cells, draw);
    lemma_step_characterization(rules, wrap, w, h, cells, draw);
    let idx = spec_select(cells)->Some_0;
    let s = step_slot(rules, cells, draw);
    assert(s < n) by {
        if s >= n {
            assert(!cells[idx].cands[s]);
        }
    }
    lemma_grid_coords(w, h, idx, cells.len() as int);
    let pidx = pr * w + pc;
    lemma_grid_index(w, h, pr, pc);
    match spec_neighbor(w, h, wrap, pr, pc, pd) {
        Option::None => {
        },
        Option::Some((nr, nc)) => {
            lemma_neighbor_symmetric(w, h, wrap, pr, pc, nr, nc, pd);
            let nidx = nr * w + nc;
            lemma_grid_index(w, h, nr, nc);
            match f[pidx].resolved {
                Option::Some(Tile::Numbered(t)) => {
                    if f[nidx].resolved is None && t < rules.len() {
                        assert(nidx != idx);
                        assert(cells[nidx].resolved is None);
                        if pidx == idx {
                            lemma_coords_unique(w, h, pr, pc, idx / w, idx % w);
                            assert(f[idx] == committed_cell(n, s));
                            assert(t == s);
                            assert(spec_neighbor(w, h, wrap, idx / w, idx % w, pd)
                                == Option::Some((nr, nc)));
                            assert(forall|j: int|
                                0 <= j < f[nidx].cands.len() && #[trigger] f[nidx].cands[j]
                                    ==> rules[s].spec_set(pd).spec_bits()[j]);
                        } else {
                            assert(f[pidx].resolved == cells[pidx].resolved);
                            assert(propagated_at(rules, wrap, w, h, cells, pr, pc, pd));
                            assert forall|j: int|
                                0 <= j < f[nidx].cands.len() && #[trigger] f[nidx].cands[j] implies
                                rules[t as int].spec_set(pd).spec_bits()[j] by {
                                assert(cells[nidx].cands[j]);
                            }
                        }
                    }
                },
                _ => {
                },
            }
        },
    }
}

/// The consistency argument for one committed pair after a step.
#[verifier::rlimit(100)]
proof fn lemma_consistency_case(
    rules: Seq<CollapseRule>,
    wrap: bool,
    w: int,
    h: int,
    cells: Seq<CellView>,
    draw: u32,
    pr: int,
    pc: int,
    nr: int,
    nc: int,
    pd: Direction,
    t: int,
    u: Tile,
)
    requires
        rules_wf(rules),
        rules_symmetric(rules),
        forall|i: int| 0 <= i < rules.len() ==> (#[trigger] rules[i].weight) >= 1,
        cells.len() == w * h,
        w >= 0,
        h >= 0,
        engine_inv(rules, wrap, w, h, cells),
        spec_select(cells) is Some,
        rules.len() <= 0x0100_0000,
        0 <= pr < h,
        0 <= pc < w,
        0 <= nr < h,
        0 <= nc < w,
        spec_neighbor(w, h, wrap, pr, pc, pd) == Option::Some((nr, nc)),
        nr * w + nc != pr * w + pc,
        0 <= t < rules.len(),
        ({
            let f = spec_step(rules, wrap, w, h, cells, draw);
            f[pr * w + pc].resolved == Option::Some(Tile::Numbered(t as usize)) && t as usize as int
                == t && f[nr * w + nc].resolved == Option::Some(u)
        }),
    ensures
        rules[t].spec_set(pd).spec_contains(u),
{
    let f = spec_step(rules, wrap, w, h, cells, draw);
    let n = rules.len() as int;
    lemma_step_characterization(rules, wrap, w, h, cells, draw);
    let idx = spec_select(cells)->Some_0;
    let s = step_slot(rules, cells, draw);
    assert(s < n) by {
        if s >= n {
            assert(!cells[idx].cands[s]);
        }
    }
    lemma_grid_coords(w, h, idx, cells.len() as int);
    let pidx = pr * w + pc;
    let nidx = nr * w + nc;
    lemma_grid_index(w, h, pr, pc);
    lemma_grid_index(w, h, nr, nc);
    lemma_neighbor_symmetric(w, h, wrap, pr, pc, nr, nc, pd);
    if pidx == idx {
        // the committed cell is the newly selected one
        lemma_coords_unique(w, h, pr, pc, idx / w, idx % w);
        assert(f[idx] == committed_cell(n, s));
        assert(t == s);
        assert(nidx != idx);
        assert(f[nidx] == cells[nidx] || f[nidx].resolved == cells[nidx].resolved);
        assert(cells[nidx].resolved == Option::Some(u));
        lemma_committed_is_tile(n, cells, nidx);
        let uk = slot_of(n, u);
        assert(u == Tile::Numbered(uk as usize) && uk < n);
        // the neighbor saw this cell as its own uncommitted neighbor
        assert(propagated_at(rules, wrap, w, h, cells, nr, nc, pd.spec_opposite()));
        assert(spec_neighbor(w, h, wrap, nr, nc, pd.spec_opposite()) == Option::Some((pr, pc)));
        assert(cells[idx].resolved is None);
        assert(cells[idx].cands[s]);
        assert(rules[uk].spec_set(pd.spec_opposite()).spec_bits()[s]);
        assert(rules[uk].spec_set(pd.spec_opposite()).spec_contains(Tile::Numbered(s as usize)));
        assert(rules[uk].spec_set(pd.spec_opposite()).spec_contains(Tile::Numbered(s as usize))
            == rules[s].spec_set(pd.spec_opposite().spec_opposite()).spec_contains(
            Tile::Numbered(uk as usize),
        ));
        assert(pd.spec_opposite().spec_opposite() == pd);
        assert(rules[t].spec_set(pd).spec_contains(u));
    } else if nidx == idx {
        // the newly committed cell is the neighbor
        lemma_coords_unique(w, h, nr, nc, idx / w, idx % w);
        assert(f[idx] == committed_cell(n, s));
        assert(u == token_of_slot(n, s));
        assert(u == Tile::Numbered(s as usize));
        assert(f[pidx].resolved == cells[pidx].resolved);
        assert(cells[pidx].resolved == Option::Some(Tile::Numbered(t as usize)));
        assert(propagated_at(rules, wrap, w, h, cells, pr, pc, pd));
        assert(cells[idx].resolved is None);
        assert(cells[idx].cands[s]);
        assert(rules[t].spec_set(pd).spec_bits()[s]);
        assert(rules[t].spec_set(pd).spec_contains(u));
    } else {
        // both commitments predate the step
        assert(f[pidx].resolved == cells[pidx].resolved);
        assert(f[nidx].resolved == cells[nidx].resolved);
        assert(consistent_at(rules, wrap, w, h, cells, pr, pc, pd));
        assert(rules[t].spec_set(pd).spec_contains(u));
    }
}

/// A whole run preserves the engine invariant; in particular a finished run
/// is locally consistent wherever cells committed.
pub proof fn lemma_run_preserves_inv(
    rules: Seq<CollapseRule>,
    wrap: bool,
    w: int,
    h: int,
    cells: Seq<CellView>,
    draws: Seq<u32>,
)
    requires
        rules_wf(rules),
        rules_symmetric(rules),
        forall|i: int| 0 <= i < rules.len() ==> (#[trigger] rules[i].weight) >= 1,
        cells.len() == w * h,
        w >= 0,
        h >= 0,
        rules.len() <= 0x0100_0000,
        engine_inv(rules, wrap, w, h, cells),
    ensures
        engine_inv(rules, wrap, w, h, spec_run(rules, wrap, w, h, cells, draws)),
    decreases draws.len(),
{
    if draws.len() > 0 {
        lemma_step_preserves_inv(rules, wrap, w, h, cells, draws[0]);
        let mid = spec_step(rules, wrap, w, h, cells, draws[0]);
        assert(mid.len() == cells.len()) by {
            lemma_step_monotonic(rules, wrap, w, h, cells, draws[0]);
        }
        lemma_run_preserves_inv(rules, wrap, w, h, mid, draws.drop_first());
    }
}

/// The synthetic border token that lies beyond the grid in a direction: the
/// begin segment at the start of the side, the end segment at its end, the
/// fill segment between them.
pub open spec fn outside_token_for(w: int, h: int, r: int, c: int, d: Direction) -> Tile {
    let pos = match d {
        Direction::Top => c,
        Direction::Bottom => c,
        Direction::Left => r,
        Direction::Right => r,
    };
    let last = match d {
        Direction::Top => w - 1,
        Direction::Bottom => w - 1,
        Direction::Left => h - 1,
        Direction::Right => h - 1,
    };
    if pos == 0 {
        Tile::OutsideBegin
    } else if pos == last {
        Tile::OutsideEnd
    } else {
        Tile::OutsideFill
    }
}

/// Whether tile `k` may stand at `(r, c)`: toward every true boundary, the
/// tile's rule must admit the border token beyond it.  This is how the
/// template's declared borders, absorbed into the rules, constrain the grid's
/// edge cells.
pub open spec fn tile_allowed_at(
    rules: Seq<CollapseRule>,
    wrap: bool,
    w: int,
    h: int,
    r: int,
    c: int,
    k: int,
) -> bool {
    forall|d: Direction|
        spec_neighbor(w, h, wrap, r, c, d) is None ==> #[trigger] rules[k].spec_set(
            d,
        ).spec_contains(outside_token_for(w, h, r, c, d))
}

/// The initial grid of a run: every cell uncommitted, holding every tile its
/// position's borders allow, and no synthetic token.
pub open spec fn spec_initial_cells(
    rules: Seq<CollapseRule>,
    wrap: bool,
    w: int,
    h: int,
) -> Seq<CellView> {
    Seq::new(
        (w * h) as nat,
        |idx: int|
            CellView {
                cands: Seq::new(
                    (rules.len() + 4) as nat,
                    |k: int|
                        0 <= k < rules.len() && tile_allowed_at(
                            rules,
                            wrap,
                            w,
                            h,
                            idx / w,
                            idx % w,
                            k,
                        ),
                ),
                resolved: Option::None,
            },
    )
}

/// The exec border token beyond the grid in a direction.
fn outside_token(w: usize, h: usize, r: usize, c: usize, d: Direction) -> (t: Tile)
    requires
        r < h,
        c < w,
    ensures
        t == outside_token_for(w as int, h as int, r as int, c as int, d),
{
    let pos = match d {
        Direction::Top => c,
        Direction::Bottom => c,
        Direction::Left => r,
        Direction::Right => r,
    };
    let last = match d {
        Direction::Top => w - 1,
        Direction::Bottom => w - 1,
        Direction::Left => h - 1,
        Direction::Right => h - 1,
    };
    if pos == 0 {
        Tile::OutsideBegin
    } else if pos == last {
        Tile::OutsideEnd
    } else {
        Tile::OutsideFill
    }
}

/// Decides whether tile `k` may stand at `(r, c)` given the boundaries.
fn tile_allowed(
    rules: &Vec<CollapseRule>,
    wrap: bool,
    w: usize,
    h: usize,
    r: usize,
    c: usize,
    k: usize,
) -> (b: bool)
    requires
        rules_wf(rules@),
        k < rules@.len(),
        r < h,
        c < w,
    ensures
        b == tile_allowed_at(rules@, wrap, w as int, h as int, r as int, c as int, k as int),
{
    let mut ok = true;
    if r == 0 && !wrap {
        ok = ok && rules[k].set(Direction::Top).contains(
            outside_token(w, h, r, c, Direction::Top),
        );
    }
    if r + 1 == h && !wrap {
        ok = ok && rules[k].set(Direction::Bottom).contains(
            outside_token(w, h, r, c, Direction::Bottom),
        );
    }
    if c == 0 && !wrap {
        ok = ok && rules[k].set(Direction::Left).contains(
            outside_token(w, h, r, c, Direction::Left),
        );
    }
    if c + 1 == w && !wrap {
        ok = ok && rules[k].set(Direction::Right).contains(
            outside_token(w, h, r, c, Direction::Right),
        );
    }
    proof {
        let wi = w as int;
        let hi = h as int;
        let ri = r as int;
        let ci = c as int;
        if ok {
            assert forall|d: Direction|
                spec_neighbor(wi, hi, wrap, ri, ci, d) is None implies #[trigger] rules@[
                k as int
            ].spec_set(d).spec_contains(outside_token_for(wi, hi, ri, ci, d)) by {
                match d {
                    Direction::Top => {
                        assert(ri == 0 && !wrap);
                    },
                    Direction::Bottom => {
                        assert(ri == hi - 1 && !wrap);
                    },
                    Direction::Left => {
                        assert(ci == 0 && !wrap);
                    },
                    Direction::Right => {
                        assert(ci == wi - 1 && !wrap);
                    },
                }
            }
        }
    }
    ok
}

/// Builds the initial candidate set of the cell at `(r, c)`.
fn initial_cell_set(
    rules: &Vec<CollapseRule>,
    wrap: bool,
    w: usize,
    h: usize,
    r: usize,
    c: usize,
) -> (ts: TokenSet)
    requires
        rules_wf(rules@),
        rules@.len() + 4 <= usize::MAX,
        r < h,
        c < w,
    ensures
        ts.wf(),
        ts.spec_n() == rules@.len(),
        forall|k: int|
            0 <= k < rules@.len() + 4 ==> #[trigger] ts.spec_bits()[k] == (0 <= k < rules@.len()
                && tile_allowed_at(rules@, wrap, w as int, h as int, r as int, c as int, k)),
{
    let n = rules.len();
    let mut ts = TokenSet::empty(n);
    let mut k: usize = 0;
    while k < n
        invariant
            k <= n,
            n == rules@.len(),
            rules_wf(rules@),
            r < h,
            c < w,
            ts.wf(),
            ts.spec_n() == n,
            forall|t: Tile|
                #[trigger] ts.spec_contains(t) == (t matches Tile::Numbered(j) && j < k
                    && tile_allowed_at(
                    rules@,
                    wrap,
                    w as int,
                    h as int,
                    r as int,
                    c as int,
                    j as int,
                )),
        decreases n - k,
    {
        if tile_allowed(rules, wrap, w, h, r, c, k) {
            ts.insert(Tile::Numbered(k));
        }
        k = k + 1;
    }
    proof {
        assert forall|k2: int| 0 <= k2 < rules@.len() + 4 implies #[trigger] ts.spec_bits()[k2]
            == (0 <= k2 < rules@.len() && tile_allowed_at(
            rules@,
            wrap,
            w as int,
            h as int,
            r as int,
            c as int,
            k2,
        )) by {
            let u = token_of_slot(n as int, k2);
            assert(ts.spec_contains(u) == ts.spec_bits()[k2]) by {
                if k2 < n {
                    assert(u == Tile::Numbered(k2 as usize));
                    assert(k2 as usize as int == k2);
                }
            }
        }
    }
    ts
}

impl WavefrontCollapse {
    /// Builds a fresh grid of the given size: every cell uncommitted,
    /// holding every tile its position's borders allow.
    pub fn init_map(&mut self, map_size: &Size)
        requires
            old(self).wf(),
            map_size.width * map_size.height <= usize::MAX,
        ensures
            final(self).wf(),
            final(self).spec_rules() == old(self).spec_rules(),
            final(self).spec_wrap() == old(self).spec_wrap(),
            final(self).spec_width() == map_size.width,
            final(self).spec_height() == map_size.height,
            final(self).spec_cells() == spec_initial_cells(
                old(self).spec_rules(),
                old(self).spec_wrap(),
                map_size.width as int,
                map_size.height as int,
            ),
            engine_inv(
                old(self).spec_rules(),
                old(self).spec_wrap(),
                map_size.width as int,
                map_size.height as int,
                final(self).spec_cells(),
            ),
    {
        let w = map_size.width as usize;
        let h = map_size.height as usize;
        let n = self.rules.len();
        let ghost rules = self.rules@;
        let ghost wrap = self.wrap;
        let ghost init = spec_initial_cells(rules, wrap, w as int, h as int);
        let total = w * h;
        let mut cells: Vec<Cell> = Vec::new();
        let mut i: usize = 0;
        while i < total
            invariant
                i <= total,
                total == w * h,
                n == rules.len(),
                rules == self.rules@,
                wrap == self.wrap,
                self.wf(),
                init == spec_initial_cells(rules, wrap, w as int, h as int),
                cells@.len() == i,
                forall|p: int| 0 <= p < i ==> #[trigger] cells@[p]@ == init[p],
            decreases total - i,
        {
            proof {
                lemma_grid_coords(w as int, h as int, i as int, total as int);
            }
            let r = i / w;
            let c = i % w;
            let ts = initial_cell_set(&self.rules, self.wrap, w, h, r, c);
            cells.push(Cell { candidates: ts, resolved: None });
            proof {
                assert(cells@[i as int]@.cands =~= init[i as int].cands);
                assert(cells@[i as int]@ == init[i as int]);
            }
            i = i + 1;
        }
        self.cells = cells;
        self.width = w;
        self.height = h;
        proof {
            assert(self.spec_cells() =~= init);
            assert(grid_wf(init, n as int)) by {
                assert forall|p: int| 0 <= p < init.len() implies cell_wf(#[trigger] init[p], n as int) by {
                }
            }
            assert(engine_inv(rules, wrap, w as int, h as int, init));
        }
    }

    /// The number of candidates a cell still holds, or nothing outside the
    /// grid.
    pub fn candidate_count(&self, row: usize, col: usize) -> (r: Option<usize>)
        requires
            self.wf(),
        ensures
            r is Some <==> (row < self.spec_height() && col < self.spec_width()),
            r matches Some(c) ==> c == count_true(
                self.spec_cells()[row * self.spec_width() + col].cands,
            ),
    {
        if row < self.height && col < self.width {
            let len = self.cells.len();
            proof {
                lemma_grid_index(self.spec_width(), self.spec_height(), row as int, col as int);
                assert(self.spec_cells()[row * self.spec_width() + col] == self.cells@[row
                    * self.spec_width() + col]@);
            }
            Some(self.cells[row * self.width + col].candidates.count())
        } else {
            None
        }
    }

    /// A whole run: initializes the grid, then collapses cell after cell
    /// with one random draw each, until no selectable cell is left.  The
    /// result is a function of the rules, the size, the wrap flag and the
    /// sequence of drawn values alone, which the returned ghost sequence
    /// records.
    pub fn generate_map(&mut self, map_size: &Size, rng: &mut rand::rngs::StdRng) -> (draws: Ghost<
        Seq<u32>,
    >)
        requires
            old(self).wf(),
            map_size.width * map_size.height <= usize::MAX,
        ensures
            final(self).wf(),
            final(self).spec_rules() == old(self).spec_rules(),
            final(self).spec_wrap() == old(self).spec_wrap(),
            final(self).spec_width() == map_size.width,
            final(self).spec_height() == map_size.height,
            final(self).spec_cells() == spec_run(
                old(self).spec_rules(),
                old(self).spec_wrap(),
                map_size.width as int,
                map_size.height as int,
                spec_initial_cells(
                    old(self).spec_rules(),
                    old(self).spec_wrap(),
                    map_size.width as int,
                    map_size.height as int,
                ),
                draws@,
            ),
            spec_select(final(self).spec_cells()) is None,
            rules_symmetric(old(self).spec_rules()) ==> locally_consistent(
                old(self).spec_rules(),
                old(self).spec_wrap(),
                map_size.width as int,
                map_size.height as int,
                final(self).spec_cells(),
            ),
    {
        let w = map_size.width as usize;
        let h = map_size.height as usize;
        let n = self.rules.len();
        let ghost rules = self.rules@;
        let ghost wrap = self.wrap;
        let ghost init = spec_initial_cells(rules, wrap, w as int, h as int);
        self.init_map(map_size);
        proof {
            assert(spec_run(rules, wrap, w as int, h as int, init, Seq::<u32>::empty()) == init);
        }
        let ghost mut draws: Seq<u32> = Seq::empty();
        loop
            invariant_except_break
                self.wf(),
                self.spec_rules() == rules,
                self.spec_wrap() == wrap,
                self.spec_width() == w,
                self.spec_height() == h,
                rules.len() == n,
                w * h <= usize::MAX,
                self.spec_cells() == spec_run(rules, wrap, w as int, h as int, init, draws),
                rules_symmetric(rules) ==> engine_inv(
                    rules,
                    wrap,
                    w as int,
                    h as int,
                    self.spec_cells(),
                ),
                engine_inv(rules, wrap, w as int, h as int, init),
            ensures
                self.wf(),
                self.spec_rules() == rules,
                self.spec_wrap() == wrap,
                self.spec_width() == w,
                self.spec_height() == h,
                self.spec_cells() == spec_run(rules, wrap, w as int, h as int, init, draws),
                spec_select(self.spec_cells()) is None,
                rules_symmetric(rules) ==> engine_inv(
                    rules,
                    wrap,
                    w as int,
                    h as int,
                    self.spec_cells(),
                ),
            decreases selectable_count(self.spec_cells()),
        {
            let ghost pre = self.spec_cells();
            let d = crate::rng::next_random_u32(rng);
            proof {
                if spec_select(pre) is Some {
                    lemma_step_decreases(rules, wrap, w as int, h as int, pre, d);
                }
                if rules_symmetric(rules) {
                    lemma_step_preserves_inv(rules, wrap, w as int, h as int, pre, d);
                }
            }
            let progressed = self.collapse_step(d);
            proof {
                lemma_run_snoc(rules, wrap, w as int, h as int, init, draws, d);
                draws = draws.push(d);
            }
            if !progressed {
                break ;
            }
        }
        Ghost(draws)
    }

    /// The committed tokens of the whole grid in row-major order, the
    /// background token standing for every cell that never collapsed.
    pub fn resolved_tokens(&self) -> (r: Vec<Tile>)
        requires
            self.wf(),
        ensures
            r@.len() == self.spec_cells().len(),
            forall|i: int|
                0 <= i < r@.len() ==> #[trigger] r@[i] == match self.spec_cells()[i].resolved {
                    Option::Some(t) => t,
                    Option::None => Tile::Empty,
                },
    {
        let len = self.cells.len();
        let mut out: Vec<Tile> = Vec::new();
        let mut i: usize = 0;
        while i < len
            invariant
                i <= len,
                len == self.spec_cells().len(),
                self.wf(),
                out@.len() == i,
                forall|p: int|
                    0 <= p < i ==> #[trigger] out@[p] == match self.spec_cells()[p].resolved {
                        Option::Some(t) => t,
                        Option::None => Tile::Empty,
                    },
            decreases len - i,
        {
            proof {
                assert(self.spec_cells()[i as int] == self.cells@[i as int]@);
            }
            let t = match self.cells[i].resolved {
                Some(t) => t,
                None => Tile::Empty,
            };
            out.push(t);
            i = i + 1;
        }
        out
    }

    /// The grid width a run was generated with.
    pub fn width(&self) -> (r: usize)
        ensures
            r == self.spec_width(),
    {
        self.width
    }

    /// The grid height a run was generated with.
    pub fn height(&self) -> (r: usize)
        ensures
            r == self.spec_height(),
    {
        self.height
    }

    /// Whether the grid wraps around its edges.
    pub fn wrap(&self) -> (r: bool)
        ensures
            r == self.spec_wrap(),
    {
        self.wrap
    }
}

/// An exactly compiled rule table is ready for the engine: its sets are
/// sized to the registry, its weights are positive when the tiles' are, and
/// it is symmetric, because edge compatibility is.
pub proof fn lemma_exact_rules_engine_ready<T>(
    rules: Seq<CollapseRule>,
    tiles: Seq<crate::tile::TileImage<T>>,
    borders: crate::rules::Borders,
    f: int,
)
    requires
        rules.len() == tiles.len(),
        rules.len() <= 0x0100_0000,
        -96 <= f <= 96,
        forall|i: int|
            0 <= i < rules.len() ==> crate::rules::rule_exact(#[trigger] rules[i], tiles, borders, i, f),
        forall|i: int| 0 <= i < tiles.len() ==> (#[trigger] tiles[i].spec_weight()) >= 1,
    ensures
        rules_wf(rules),
        rules_symmetric(rules),
        forall|i: int| 0 <= i < rules.len() ==> (#[trigger] rules[i].weight) >= 1,
{
    let n = rules.len() as int;
    assert forall|i: int, d: Direction|
        0 <= i < rules.len() implies (#[trigger] rules[i].spec_set(d)).spec_bits().len() == rules.len()
        + 4 by {
        assert(crate::rules::rule_exact(rules[i], tiles, borders, i, f));
        assert(rules[i].spec_set(d).wf() && rules[i].spec_set(d).spec_n() == tiles.len());
    }
    assert forall|i: int| 0 <= i < rules.len() implies (#[trigger] rules[i].weight) >= 1 by {
        assert(crate::rules::rule_exact(rules[i], tiles, borders, i, f));
        crate::rules::lemma_interp_factor_bounds(f, i, n);
        let fac = crate::rules::spec_interp_factor(f, i, n);
        let tw = tiles[i].spec_weight() as int;
        assert(fac * tw >= 1) by (nonlinear_arith)
            requires
                fac >= 4,
                tw >= 1,
        ;
    }
    assert forall|i: int, j: int, d: Direction|
        0 <= i < rules.len() && 0 <= j < rules.len() implies (#[trigger] rules[i].spec_set(
        d,
    ).spec_contains(Tile::Numbered(j as usize)) == rules[j].spec_set(
        d.spec_opposite(),
    ).spec_contains(Tile::Numbered(i as usize))) by {
        assert(crate::rules::rule_exact(rules[i], tiles, borders, i, f));
        assert(crate::rules::rule_exact(rules[j], tiles, borders, j, f));
        let es = crate::rules::edge_sets_of(tiles);
        assert(rules[i].spec_set(d).spec_contains(Tile::Numbered(j as usize))
            == crate::rules::rule_allows(es, borders, i, d, Tile::Numbered(j as usize)));
        assert(rules[j].spec_set(d.spec_opposite()).spec_contains(Tile::Numbered(i as usize))
            == crate::rules::rule_allows(
            es,
            borders,
            j,
            d.spec_opposite(),
            Tile::Numbered(i as usize),
        ));
        assert(d.spec_opposite().spec_side() == d.spec_side().spec_mirrored());
        crate::tile::lemma_tiles_compatible_symmetric(es[i], es[j], d.spec_side());
    }
}

/// The exec token of a bit slot.
fn token_from_slot(n: usize, s: usize) -> (t: Tile)
    requires
        s < n + 4,
    ensures
        t == token_of_slot(n as int, s as int),
        t matches Tile::Numbered(k) ==> k < n,
        slot_of(n as int, t) == s,
{
    if s < n {
        Tile::Numbered(s)
    } else if s == n {
        Tile::Empty
    } else if s == n + 1 {
        Tile::OutsideBegin
    } else if s == n + 2 {
        Tile::OutsideFill
    } else {
        Tile::OutsideEnd
    }
}

/// The row-major offset of an in-range cell is inside the grid.
proof fn lemma_grid_index(w: int, h: int, row: int, col: int)
    requires
        0 <= row < h,
        0 <= col < w,
    ensures
        0 <= row * w + col < h * w,
        0 <= row * w + col < w * h,
{
    assert(row * w >= 0) by (nonlinear_arith)
        requires
            row >= 0,
            w >= 0,
    ;
    assert((row + 1) * w <= h * w) by (nonlinear_arith)
        requires
            row + 1 <= h,
            w >= 0,
    ;
    assert(row * w + col < (row + 1) * w) by (nonlinear_arith)
        requires
            col < w,
    ;
    assert(h * w == w * h) by (nonlinear_arith);
}

/// A valid row-major offset decomposes into in-range coordinates.
proof fn lemma_grid_coords(w: int, h: int, idx: int, len: int)
    requires
        len == w * h,
        0 <= idx < len,
        w >= 0,
        h >= 0,
    ensures
        w >= 1,
        0 <= idx / w < h,
        0 <= idx % w < w,
        (idx / w) * w + (idx % w) == idx,
{
    assert(w > 0) by (nonlinear_arith)
        requires
            w * h > 0,
            w >= 0,
    ;
    vstd::arithmetic::div_mod::lemma_fundamental_div_mod(idx, w);
    let q = idx / w;
    let r = idx % w;
    assert(idx == w * q + r);
    assert(w * q == q * w) by (nonlinear_arith);
    assert(q >= 0) by {
        vstd::arithmetic::div_mod::lemma_div_pos_is_pos(idx, w);
    }
    if q >= h {
        assert(q * w >= h * w) by (nonlinear_arith)
            requires
                q >= h,
                w > 0,
        ;
        assert(w * h == h * w) by (nonlinear_arith);
        assert(idx >= q * w);
        assert(false);
    }
}

} // verus!
