//! Tile tokens and finite token sets.
//!
//! A token is either a concrete tile variant or one of the four synthetic
//! values: absence, and the three border segments of the template itself.  A
//! token set is a bitset over the variants of one registry of `n` tiles plus
//! the four synthetic tokens.

use vstd::prelude::*;

verus! {

/// The unit of grid-cell assignment.
#[derive(PartialEq, Eq, Clone, Copy, Debug, Hash, Structural)]
pub enum Tile {
    /// Absence of a tile: always a legal neighbor of soft-matched edges.
    Empty,
    /// The tile variant with this registry index.
    Numbered(usize),
    /// The template border segment at the start of a side.
    OutsideBegin,
    /// The template border segment along the middle of a side.
    OutsideFill,
    /// The template border segment at the end of a side.
    OutsideEnd,
}

/// How many of the first `i` entries of a bit sequence are set.
pub open spec fn count_true(s: Seq<bool>) -> nat
    decreases s.len(),
{
    if s.len() == 0 {
        0
    } else {
        count_true(s.drop_last()) + (if s.last() {
            1nat
        } else {
            0nat
        })
    }
}

/// Shrinking a bit sequence pointwise cannot raise its count.
pub proof fn lemma_count_true_monotone(a: Seq<bool>, b: Seq<bool>)
    requires
        a.len() == b.len(),
        forall|i: int| 0 <= i < a.len() ==> (a[i] ==> b[i]),
    ensures
        count_true(a) <= count_true(b),
    decreases a.len(),
{
    if a.len() > 0 {
        assert(a.last() ==> b.last());
        lemma_count_true_monotone(a.drop_last(), b.drop_last());
    }
}

/// A sequence with no set bit counts zero, and conversely.
pub proof fn lemma_count_true_zero(s: Seq<bool>)
    ensures
        (count_true(s) == 0) <==> (forall|i: int| 0 <= i < s.len() ==> !s[i]),
    decreases s.len(),
{
    if s.len() > 0 {
        lemma_count_true_zero(s.drop_last());
        if count_true(s) == 0 {
            assert forall|i: int| 0 <= i < s.len() implies !s[i] by {
                if i < s.len() - 1 {
                    assert(s.drop_last()[i] == s[i]);
                }
            }
        }
    }
}

/// A set of tokens for a registry of `n` tiles, stored as `n + 4` bits: one
/// per tile variant, then one for each synthetic token in the order `Empty`,
/// `OutsideBegin`, `OutsideFill`, `OutsideEnd`.
pub struct TokenSet {
    bits: Vec<bool>,
}

impl TokenSet {
    pub closed spec fn spec_bits(self) -> Seq<bool> {
        self.bits@
    }

    /// Every token set carries the four synthetic slots.
    pub open spec fn wf(self) -> bool {
        self.spec_bits().len() >= 4
    }

    /// The tile-registry size this set was made for.
    pub open spec fn spec_n(self) -> int {
        self.spec_bits().len() - 4
    }

    /// Whether the set holds the given token.
    pub open spec fn spec_contains(self, t: Tile) -> bool {
        match t {
            Tile::Numbered(i) => i < self.spec_n() && self.spec_bits()[i as int],
            Tile::Empty => self.spec_bits()[self.spec_n()],
            Tile::OutsideBegin => self.spec_bits()[self.spec_n() + 1],
            Tile::OutsideFill => self.spec_bits()[self.spec_n() + 2],
            Tile::OutsideEnd => self.spec_bits()[self.spec_n() + 3],
        }
    }

    /// Whether every token of this set is also in `other`.
    pub open spec fn spec_subset_of(self, other: TokenSet) -> bool {
        self.spec_n() == other.spec_n() && forall|t: Tile|
            self.spec_contains(t) ==> other.spec_contains(t)
    }

    /// The number of tokens in the set.
    pub open spec fn spec_count(self) -> nat {
        count_true(self.spec_bits())
    }

    /// The set with no tokens, for a registry of `n` tiles.
    pub fn empty(n: usize) -> (r: Self)
        requires
            n + 4 <= usize::MAX,
        ensures
            r.wf(),
            r.spec_n() == n,
            forall|t: Tile| !r.spec_contains(t),
            r.spec_count() == 0,
    {
        let mut bits: Vec<bool> = Vec::new();
        let total = n + 4;
        let mut i: usize = 0;
        while i < total
            invariant
                i <= total,
                bits@.len() == i,
                forall|j: int| 0 <= j < i ==> !bits@[j],
            decreases total - i,
        {
            bits.push(false);
            i = i + 1;
        }
        proof {
            lemma_count_true_zero(bits@);
        }
        Self { bits }
    }

    /// The set of all `n` tile tokens, without the synthetic tokens: the
    /// candidate universe a fresh cell starts from.
    pub fn full_numbered(n: usize) -> (r: Self)
        requires
            n + 4 <= usize::MAX,
        ensures
            r.wf(),
            r.spec_n() == n,
            forall|t: Tile|
                #[trigger] r.spec_contains(t) <==> (t matches Tile::Numbered(i) && i < n),
            r.spec_count() == n,
    {
        let mut bits: Vec<bool> = Vec::new();
        let mut i: usize = 0;
        while i < n
            invariant
                i <= n,
                bits@.len() == i,
                forall|j: int| 0 <= j < i ==> bits@[j],
                count_true(bits@) == i,
            decreases n - i,
        {
            proof {
                assert(bits@.push(true).drop_last() =~= bits@);
            }
            bits.push(true);
            i = i + 1;
        }
        let mut k: usize = 0;
        while k < 4
            invariant
                k <= 4,
                bits@.len() == n + k,
                forall|j: int| 0 <= j < n ==> bits@[j],
                forall|j: int| n <= j < n + k ==> !bits@[j],
                count_true(bits@) == n,
            decreases 4 - k,
        {
            proof {
                assert(bits@.push(false).drop_last() =~= bits@);
            }
            bits.push(false);
            k = k + 1;
        }
        Self { bits }
    }

    /// The number of tiles this set was made for.
    pub fn n(&self) -> (r: usize)
        requires
            self.wf(),
        ensures
            r == self.spec_n(),
    {
        self.bits.len() - 4
    }

    /// The bit slot of a token, for a registry of `n` tiles.
    fn slot(&self, t: Tile) -> (r: Option<usize>)
        requires
            self.wf(),
        ensures
            r is None <==> (t matches Tile::Numbered(i) && i >= self.spec_n()),
            r matches Some(s) ==> s < self.spec_bits().len() && match t {
                Tile::Numbered(i) => s == i,
                Tile::Empty => s == self.spec_n(),
                Tile::OutsideBegin => s == self.spec_n() + 1,
                Tile::OutsideFill => s == self.spec_n() + 2,
                Tile::OutsideEnd => s == self.spec_n() + 3,
            },
    {
        let n = self.bits.len() - 4;
        match t {
            Tile::Numbered(i) => if i < n {
                Some(i)
            } else {
                None
            },
            Tile::Empty => Some(n),
            Tile::OutsideBegin => Some(n + 1),
            Tile::OutsideFill => Some(n + 2),
            Tile::OutsideEnd => Some(n + 3),
        }
    }

    /// Whether the given bit slot is set.
    pub fn contains_slot(&self, k: usize) -> (r: bool)
        requires
            k < self.spec_bits().len(),
        ensures
            r == self.spec_bits()[k as int],
    {
        self.bits[k]
    }

    /// Whether the set holds the token.
    pub fn contains(&self, t: Tile) -> (r: bool)
        requires
            self.wf(),
        ensures
            r == self.spec_contains(t),
    {
        match self.slot(t) {
            Some(s) => self.bits[s],
            None => false,
        }
    }

    /// Adds a token to the set.  A tile token beyond the registry is ignored.
    pub fn insert(&mut self, t: Tile)
        requires
            old(self).wf(),
        ensures
            final(self).wf(),
            final(self).spec_n() == old(self).spec_n(),
            (t matches Tile::Numbered(i) && i >= old(self).spec_n()) ==> *final(self) == *old(self),
            !(t matches Tile::Numbered(i) && i >= old(self).spec_n())
                ==> final(self).spec_contains(t),
            forall|u: Tile| u != t ==> final(self).spec_contains(u) == old(self).spec_contains(u),
            forall|u: Tile|
                old(self).spec_contains(u) ==> final(self).spec_contains(u),
    {
        match self.slot(t) {
            Some(s) => {
                self.bits.set(s, true);
                proof {
                    lemma_distinct_tokens_distinct_slots(*old(self), *self, t);
                }
            },
            None => {
            },
        }
    }

    /// The tokens present in both sets.
    pub fn intersect(&self, other: &TokenSet) -> (r: TokenSet)
        requires
            self.wf(),
            other.wf(),
            self.spec_n() == other.spec_n(),
        ensures
            r.wf(),
            r.spec_n() == self.spec_n(),
            forall|t: Tile|
                #[trigger] r.spec_contains(t) == (self.spec_contains(t) && other.spec_contains(
                    t,
                )),
            forall|i: int|
                0 <= i < r.spec_bits().len() ==> #[trigger] r.spec_bits()[i] == (
                self.spec_bits()[i] && other.spec_bits()[i]),
            r.spec_subset_of(*self),
            r.spec_count() <= self.spec_count(),
    {
        let len = self.bits.len();
        let mut bits: Vec<bool> = Vec::new();
        let mut i: usize = 0;
        while i < len
            invariant
                i <= len,
                len == self.spec_bits().len(),
                len == other.spec_bits().len(),
                bits@.len() == i,
                forall|j: int|
                    0 <= j < i ==> #[trigger] bits@[j] == (self.spec_bits()[j]
                        && other.spec_bits()[j]),
            decreases len - i,
        {
            bits.push(self.bits[i] && other.bits[i]);
            i = i + 1;
        }
        let r = Self { bits };
        proof {
            lemma_count_true_monotone(r.spec_bits(), self.spec_bits());
        }
        r
    }

    /// How many tokens the set holds.
    pub fn count(&self) -> (r: usize)
        ensures
            r == self.spec_count(),
    {
        let len = self.bits.len();
        let mut c: usize = 0;
        let mut i: usize = 0;
        while i < len
            invariant
                i <= len,
                len == self.spec_bits().len(),
                c <= i,
                c == count_true(self.spec_bits().take(i as int)),
            decreases len - i,
        {
            proof {
                assert(self.spec_bits().take(i + 1).drop_last() =~= self.spec_bits().take(
                    i as int,
                ));
            }
            if self.bits[i] {
                c = c + 1;
            }
            i = i + 1;
        }
        proof {
            assert(self.spec_bits().take(len as int) =~= self.spec_bits());
        }
        c
    }

    /// An identical copy.
    pub fn duplicate(&self) -> (r: TokenSet)
        ensures
            r.spec_bits() == self.spec_bits(),
            r.spec_n() == self.spec_n(),
            forall|t: Tile| #[trigger] r.spec_contains(t) == self.spec_contains(t),
            r.spec_count() == self.spec_count(),
    {
        let len = self.bits.len();
        let mut bits: Vec<bool> = Vec::new();
        let mut i: usize = 0;
        while i < len
            invariant
                i <= len,
                len == self.spec_bits().len(),
                bits@ == self.spec_bits().take(i as int),
            decreases len - i,
        {
            bits.push(self.bits[i]);
            proof {
                assert(bits@ =~= self.spec_bits().take(i + 1));
            }
            i = i + 1;
        }
        proof {
            assert(bits@ =~= self.spec_bits());
        }
        Self { bits }
    }

    /// The set holding exactly the one given token (which must be a tile
    /// token inside the registry, or a synthetic token).
    pub fn singleton(n: usize, t: Tile) -> (r: TokenSet)
        requires
            n + 4 <= usize::MAX,
            t matches Tile::Numbered(i) ==> i < n,
        ensures
            r.wf(),
            r.spec_n() == n,
            forall|u: Tile| #[trigger] r.spec_contains(u) <==> u == t,
    {
        let mut r = Self::empty(n);
        r.insert(t);
        proof {
            assert forall|u: Tile| #[trigger] r.spec_contains(u) <==> u == t by {
                if u != t {
                    assert(!r.spec_contains(u));
                }
            }
        }
        r
    }
}

/// Setting the slot of one token leaves every other token's membership
/// unchanged, and makes that token a member.
proof fn lemma_distinct_tokens_distinct_slots(pre: TokenSet, post: TokenSet, t: Tile)
    requires
        pre.wf(),
        post.spec_bits().len() == pre.spec_bits().len(),
        !(t matches Tile::Numbered(i) && i >= pre.spec_n()),
        post.spec_bits() == pre.spec_bits().update(spec_slot(pre, t), true),
    ensures
        post.spec_contains(t),
        forall|u: Tile| u != t ==> post.spec_contains(u) == pre.spec_contains(u),
        forall|u: Tile| pre.spec_contains(u) ==> post.spec_contains(u),
{
    assert forall|u: Tile| u != t implies post.spec_contains(u) == pre.spec_contains(u) by {
        if !(u matches Tile::Numbered(i) && i >= pre.spec_n()) {
            assert(spec_slot(pre, u) != spec_slot(pre, t));
        }
    }
}

/// The bit slot a token occupies.
pub open spec fn spec_slot(s: TokenSet, t: Tile) -> int {
    match t {
        Tile::Numbered(i) => i as int,
        Tile::Empty => s.spec_n(),
        Tile::OutsideBegin => s.spec_n() + 1,
        Tile::OutsideFill => s.spec_n() + 2,
        Tile::OutsideEnd => s.spec_n() + 3,
    }
}

} // verus!
