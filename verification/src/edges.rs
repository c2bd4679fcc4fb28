//! The edge compatibility model: canonical edge descriptors and the decision
//! whether two edges may abut.
//!
//! A raw descriptor string is canonicalized by stripping a leading hard-match
//! marker `'!'`, then picking the lexicographically smaller of the remaining
//! string and its reverse as the canonical name.  The comparison is by
//! character code points, which is the order Rust's own string comparison
//! induces.

use vstd::prelude::*;
use vstd::string::StrSliceExecFns;

verus! {

/// Strict lexicographic order on character sequences, by code point.
pub open spec fn lex_less(a: Seq<char>, b: Seq<char>) -> bool
    decreases a.len(),
{
    if b.len() == 0 {
        false
    } else if a.len() == 0 {
        true
    } else if a[0] != b[0] {
        (a[0] as u32) < (b[0] as u32)
    } else {
        lex_less(a.drop_first(), b.drop_first())
    }
}

/// The body of a raw descriptor: the characters after the hard-match marker,
/// or all of them when there is no marker.
pub open spec fn descriptor_body(s: Seq<char>) -> Seq<char> {
    if s.len() > 0 && s[0] == '!' {
        s.drop_first()
    } else {
        s
    }
}

/// Whether a raw descriptor carries the hard-match marker.
pub open spec fn descriptor_hard(s: Seq<char>) -> bool {
    s.len() > 0 && s[0] == '!'
}

/// The canonical name of an edge body: the smaller of the body and its
/// reverse.
pub open spec fn canonical_name(body: Seq<char>) -> Seq<char> {
    if lex_less(body.reverse(), body) {
        body.reverse()
    } else {
        body
    }
}

/// Whether an edge body reads the same in both directions.
pub open spec fn canonical_symmetrical(body: Seq<char>) -> bool {
    body == body.reverse()
}

/// Whether canonicalization chose the reversed reading of the body.
pub open spec fn canonical_reversed(body: Seq<char>) -> bool {
    lex_less(body.reverse(), body)
}

/// The lexicographic order is irreflexive.
proof fn lemma_lex_less_irreflexive(a: Seq<char>)
    ensures
        !lex_less(a, a),
    decreases a.len(),
{
    if a.len() > 0 {
        lemma_lex_less_irreflexive(a.drop_first());
    }
}

/// The lexicographic order is asymmetric.
proof fn lemma_lex_less_asymmetric(a: Seq<char>, b: Seq<char>)
    requires
        lex_less(a, b),
    ensures
        !lex_less(b, a),
    decreases a.len(),
{
    if b.len() > 0 && a.len() > 0 && a[0] == b[0] {
        lemma_lex_less_asymmetric(a.drop_first(), b.drop_first());
    }
}

/// Canonicalization is idempotent: the canonical form of a canonical name is
/// that name itself, its symmetry is unchanged, and no further reversal is
/// recorded.
pub proof fn lemma_canonicalization_idempotent(body: Seq<char>)
    ensures
        canonical_name(canonical_name(body)) == canonical_name(body),
        canonical_symmetrical(canonical_name(body)) == canonical_symmetrical(body),
        !canonical_reversed(canonical_name(body)),
{
    let rev = body.reverse();
    assert(rev.reverse() =~= body);
    if lex_less(rev, body) {
        lemma_lex_less_asymmetric(rev, body);
        assert(canonical_name(body) == rev);
        assert(!lex_less(rev.reverse(), rev));
        assert(canonical_name(rev) =~= rev);
        if canonical_symmetrical(rev) {
            assert(rev == rev.reverse());
            assert(body == rev);
            lemma_lex_less_irreflexive(body);
            assert(false);
        }
        if canonical_symmetrical(body) {
            lemma_lex_less_irreflexive(body);
            assert(false);
        }
    } else {
        assert(canonical_name(body) == body);
        if canonical_symmetrical(body) {
            assert(body.reverse() == body);
        } else {
            assert(!canonical_reversed(body));
        }
    }
}

/// Relies on std's `String::push`: appends the given character to the end of
/// the string.
#[verifier::external_body]
fn push_char(s: &mut String, c: char)
    ensures
        final(s)@ == old(s)@.push(c),
{
    s.push(c);
}

/// The characters of a string slice, in order.
pub fn chars_of(s: &str) -> (r: Vec<char>)
    ensures
        r@ == s@,
{
    let n = s.unicode_len();
    let mut v: Vec<char> = Vec::new();
    let mut i: usize = 0;
    while i < n
        invariant
            i <= n,
            n == s@.len(),
            v@ == s@.take(i as int),
        decreases n - i,
    {
        v.push(s.get_char(i));
        proof {
            assert(v@ =~= s@.take(i + 1));
        }
        i = i + 1;
    }
    proof {
        assert(v@ =~= s@);
    }
    v
}

/// A string holding exactly the given characters.
pub fn string_of_chars(v: &Vec<char>) -> (r: String)
    ensures
        r@ == v@,
{
    let mut s = String::new();
    let n = v.len();
    let mut i: usize = 0;
    while i < n
        invariant
            i <= n,
            n == v@.len(),
            s@ == v@.take(i as int),
        decreases n - i,
    {
        push_char(&mut s, v[i]);
        proof {
            assert(s@ =~= v@.take(i + 1));
        }
        i = i + 1;
    }
    proof {
        assert(s@ =~= v@);
    }
    s
}

/// The characters in reverse order.
pub fn reversed_chars(v: &Vec<char>) -> (r: Vec<char>)
    ensures
        r@ == v@.reverse(),
{
    let n = v.len();
    let mut r: Vec<char> = Vec::new();
    let mut i: usize = 0;
    while i < n
        invariant
            i <= n,
            n == v@.len(),
            r@.len() == i,
            forall|j: int| 0 <= j < i ==> r@[j] == v@[n - 1 - j],
        decreases n - i,
    {
        r.push(v[n - 1 - i]);
        i = i + 1;
    }
    proof {
        assert(r@ =~= v@.reverse());
    }
    r
}

/// Whether two character vectors hold the same characters.
pub fn chars_equal(a: &Vec<char>, b: &Vec<char>) -> (r: bool)
    ensures
        r == (a@ == b@),
{
    let n = a.len();
    if n != b.len() {
        proof {
            assert(a@.len() != b@.len());
        }
        return false;
    }
    let mut i: usize = 0;
    while i < n
        invariant
            i <= n,
            n == a@.len() && n == b@.len(),
            forall|j: int| 0 <= j < i ==> a@[j] == b@[j],
        decreases n - i,
    {
        if a[i] != b[i] {
            return false;
        }
        i = i + 1;
    }
    proof {
        assert(a@ =~= b@);
    }
    true
}

/// Decides the strict lexicographic order on character vectors.
pub fn lex_less_chars(a: &Vec<char>, b: &Vec<char>) -> (r: bool)
    ensures
        r == lex_less(a@, b@),
{
    let na = a.len();
    let nb = b.len();
    let mut i: usize = 0;
    proof {
        assert(a@.skip(0) =~= a@);
        assert(b@.skip(0) =~= b@);
    }
    loop
        invariant_except_break
            i <= na && i <= nb,
            na == a@.len() && nb == b@.len(),
            lex_less(a@, b@) == lex_less(a@.skip(i as int), b@.skip(i as int)),
        ensures
            lex_less(a@, b@) == lex_less(a@.skip(i as int), b@.skip(i as int)),
            (i == na || i == nb || a@[i as int] != b@[i as int]),
            i <= na && i <= nb,
            na == a@.len() && nb == b@.len(),
        decreases na - i,
    {
        if i == na || i == nb {
            break ;
        }
        if a[i] != b[i] {
            break ;
        }
        proof {
            assert(a@.skip(i as int).drop_first() =~= a@.skip(i as int + 1));
            assert(b@.skip(i as int).drop_first() =~= b@.skip(i as int + 1));
            assert(a@.skip(i as int)[0] == a@[i as int]);
            assert(b@.skip(i as int)[0] == b@[i as int]);
        }
        i = i + 1;
    }
    proof {
        assert(a@.skip(i as int).len() == na - i);
        assert(b@.skip(i as int).len() == nb - i);
        if i < na && i < nb {
            assert(a@.skip(i as int)[0] == a@[i as int]);
            assert(b@.skip(i as int)[0] == b@[i as int]);
        }
    }
    if i == nb {
        false
    } else if i == na {
        true
    } else {
        (a[i] as u32) < (b[i] as u32)
    }
}

/// The canonical edge of a raw descriptor string: the hard-match marker is
/// stripped, and the smaller of the remaining body and its reverse becomes
/// the name.
pub fn canonicalize_descriptor(s: &str) -> (r: Edge)
    ensures
        r.spec_name() == canonical_name(descriptor_body(s@)),
        r.spec_symmetrical() == canonical_symmetrical(descriptor_body(s@)),
        r.spec_reverse() == canonical_reversed(descriptor_body(s@)),
        r.spec_hard_match() == descriptor_hard(s@),
    {
    let all = chars_of(s);
    let hard = all.len() > 0 && all[0] == '!';
    let mut body: Vec<char> = Vec::new();
    if hard {
        let n = all.len();
        let mut i: usize = 1;
        while i < n
            invariant
                1 <= i <= n,
                n == all@.len(),
                body@ == all@.subrange(1, i as int),
            decreases n - i,
        {
            body.push(all[i]);
            proof {
                assert(body@ =~= all@.subrange(1, i as int + 1));
            }
            i = i + 1;
        }
        proof {
            assert(body@ =~= all@.drop_first());
        }
    } else {
        body = all;
    }
    let rev = reversed_chars(&body);
    let symmetrical = chars_equal(&body, &rev);
    let reversed = lex_less_chars(&rev, &body);
    let name = if reversed {
        string_of_chars(&rev)
    } else {
        string_of_chars(&body)
    };
    Edge { name, symmetrical, reverse: reversed, hard_match: hard }
}

/// A canonical edge: the resolved name, whether it is its own reverse,
/// whether the reverse reading was chosen, and whether abutting edges must
/// present opposite orientations.
pub struct Edge {
    name: String,
    symmetrical: bool,
    reverse: bool,
    hard_match: bool,
}

impl Edge {
    pub closed spec fn spec_name(self) -> Seq<char> {
        self.name@
    }

    pub closed spec fn spec_symmetrical(self) -> bool {
        self.symmetrical
    }

    pub closed spec fn spec_reverse(self) -> bool {
        self.reverse
    }

    pub closed spec fn spec_hard_match(self) -> bool {
        self.hard_match
    }

    pub fn new(name: String, symmetrical: bool, hard_match: bool) -> (r: Self)
        ensures
            r.spec_name() == name@,
            r.spec_symmetrical() == symmetrical,
            r.spec_hard_match() == hard_match,
            !r.spec_reverse(),
    {
        Self { name, symmetrical, reverse: false, hard_match }
    }

    /// The same edge read in the opposite direction.  A symmetrical edge is
    /// its own reverse.
    pub fn reversed(&self) -> (r: Self)
        ensures
            r == spec_reversed_edge(*self),
            r.spec_name() == self.spec_name(),
            r.spec_symmetrical() == self.spec_symmetrical(),
            r.spec_hard_match() == self.spec_hard_match(),
            r.spec_reverse() == (!self.spec_symmetrical() && !self.spec_reverse()),
    {
        Self {
            name: self.name.clone(),
            symmetrical: self.symmetrical,
            reverse: !self.symmetrical && !self.reverse,
            hard_match: self.hard_match,
        }
    }

    /// An identical copy.
    pub fn duplicate(&self) -> (r: Self)
        ensures
            r == *self,
    {
        Self {
            name: self.name.clone(),
            symmetrical: self.symmetrical,
            reverse: self.reverse,
            hard_match: self.hard_match,
        }
    }

    pub fn name(&self) -> (r: String)
        ensures
            r@ == self.spec_name(),
    {
        self.name.clone()
    }

    pub fn hard_match(&self) -> (r: bool)
        ensures
            r == self.spec_hard_match(),
    {
        self.hard_match
    }

    pub fn symmetrical(&self) -> (r: bool)
        ensures
            r == self.spec_symmetrical(),
    {
        self.symmetrical
    }

    pub fn is_reversed(&self) -> (r: bool)
        ensures
            r == self.spec_reverse(),
    {
        self.reverse
    }

    /// Whether this edge may abut the other.
    pub fn is_compatible(&self, other: &Edge) -> (r: bool)
        ensures
            r == edges_compatible(*self, *other),
    {
        let names_equal = self.name.eq(&other.name);
        names_equal && (!(self.hard_match || other.hard_match) || self.reverse != other.reverse
            || (self.symmetrical && other.symmetrical))
    }
}

/// The edge read in the opposite direction; a symmetrical edge is its own
/// reverse.
pub closed spec fn spec_reversed_edge(e: Edge) -> Edge {
    Edge {
        name: e.name,
        symmetrical: e.symmetrical,
        reverse: !e.symmetrical && !e.reverse,
        hard_match: e.hard_match,
    }
}

/// Two edges may abut when their canonical names are equal; a hard-matched
/// edge additionally demands that the two sides present opposite physical
/// orientations: one the direct canonical reading, the other its reversed
/// counterpart.  A symmetrical edge is its own reversed counterpart, so the
/// orientation demand asks nothing of it.
pub open spec fn edges_compatible(a: Edge, b: Edge) -> bool {
    a.spec_name() == b.spec_name() && (!(a.spec_hard_match() || b.spec_hard_match()) || (
    a.spec_reverse() != b.spec_reverse()) || (a.spec_symmetrical() && b.spec_symmetrical()))
}

/// Edge compatibility does not depend on the order of the two edges.
pub proof fn lemma_edges_compatible_symmetric(a: Edge, b: Edge)
    ensures
        edges_compatible(a, b) == edges_compatible(b, a),
{
}

/// The edge set of a tile flipped upside down.
pub closed spec fn spec_flipped_set(es: EdgeSet) -> EdgeSet {
    EdgeSet {
        top: es.bottom,
        right: spec_reversed_edge(es.right),
        bottom: es.top,
        left: spec_reversed_edge(es.left),
    }
}

/// The edge set of a tile mirrored left to right.
pub closed spec fn spec_mirrored_set(es: EdgeSet) -> EdgeSet {
    EdgeSet {
        top: spec_reversed_edge(es.top),
        right: es.left,
        bottom: spec_reversed_edge(es.bottom),
        left: es.right,
    }
}

/// The edge set of a tile rotated a quarter turn clockwise.
pub closed spec fn spec_rotated90_set(es: EdgeSet) -> EdgeSet {
    EdgeSet {
        top: spec_reversed_edge(es.left),
        right: es.top,
        bottom: spec_reversed_edge(es.right),
        left: es.bottom,
    }
}

/// The four edges of a tile, one per side.
pub struct EdgeSet {
    top: Edge,
    right: Edge,
    bottom: Edge,
    left: Edge,
}

impl EdgeSet {
    pub closed spec fn spec_top(self) -> Edge {
        self.top
    }

    pub closed spec fn spec_right(self) -> Edge {
        self.right
    }

    pub closed spec fn spec_bottom(self) -> Edge {
        self.bottom
    }

    pub closed spec fn spec_left(self) -> Edge {
        self.left
    }

    pub fn new(top: Edge, right: Edge, bottom: Edge, left: Edge) -> (r: Self)
        ensures
            r.spec_top() == top,
            r.spec_right() == right,
            r.spec_bottom() == bottom,
            r.spec_left() == left,
    {
        Self { top, right, bottom, left }
    }

    pub fn top(&self) -> (r: &Edge)
        ensures
            *r == self.spec_top(),
    {
        &self.top
    }

    pub fn right(&self) -> (r: &Edge)
        ensures
            *r == self.spec_right(),
    {
        &self.right
    }

    pub fn bottom(&self) -> (r: &Edge)
        ensures
            *r == self.spec_bottom(),
    {
        &self.bottom
    }

    pub fn left(&self) -> (r: &Edge)
        ensures
            *r == self.spec_left(),
    {
        &self.left
    }

    pub fn duplicate(&self) -> (r: Self)
        ensures
            r.spec_top() == self.spec_top(),
            r.spec_right() == self.spec_right(),
            r.spec_bottom() == self.spec_bottom(),
            r.spec_left() == self.spec_left(),
    {
        Self {
            top: self.top.duplicate(),
            right: self.right.duplicate(),
            bottom: self.bottom.duplicate(),
            left: self.left.duplicate(),
        }
    }

    /// The edge set after flipping the tile upside down: top and bottom trade
    /// places keeping their reading direction, the vertical edges reverse.
    pub fn flipped(&self) -> (r: Self)
        ensures
            r == spec_flipped_set(*self),
            r.spec_top() == self.spec_bottom(),
            r.spec_bottom() == self.spec_top(),
            r.spec_right().spec_name() == self.spec_right().spec_name(),
            r.spec_right().spec_symmetrical() == self.spec_right().spec_symmetrical(),
            r.spec_right().spec_hard_match() == self.spec_right().spec_hard_match(),
            r.spec_right().spec_reverse() == (!self.spec_right().spec_symmetrical()
                && !self.spec_right().spec_reverse()),
            r.spec_left().spec_name() == self.spec_left().spec_name(),
            r.spec_left().spec_symmetrical() == self.spec_left().spec_symmetrical(),
            r.spec_left().spec_hard_match() == self.spec_left().spec_hard_match(),
            r.spec_left().spec_reverse() == (!self.spec_left().spec_symmetrical()
                && !self.spec_left().spec_reverse()),
    {
        Self {
            top: self.bottom.duplicate(),
            right: self.right.reversed(),
            bottom: self.top.duplicate(),
            left: self.left.reversed(),
        }
    }

    /// The edge set after mirroring the tile left to right: the vertical
    /// edges trade places keeping their reading direction, top and bottom
    /// reverse.
    pub fn mirrored(&self) -> (r: Self)
        ensures
            r == spec_mirrored_set(*self),
            r.spec_left() == self.spec_right(),
            r.spec_right() == self.spec_left(),
            r.spec_top().spec_name() == self.spec_top().spec_name(),
            r.spec_top().spec_symmetrical() == self.spec_top().spec_symmetrical(),
            r.spec_top().spec_hard_match() == self.spec_top().spec_hard_match(),
            r.spec_top().spec_reverse() == (!self.spec_top().spec_symmetrical()
                && !self.spec_top().spec_reverse()),
            r.spec_bottom().spec_name() == self.spec_bottom().spec_name(),
            r.spec_bottom().spec_symmetrical() == self.spec_bottom().spec_symmetrical(),
            r.spec_bottom().spec_hard_match() == self.spec_bottom().spec_hard_match(),
            r.spec_bottom().spec_reverse() == (!self.spec_bottom().spec_symmetrical()
                && !self.spec_bottom().spec_reverse()),
    {
        Self {
            top: self.top.reversed(),
            right: self.left.duplicate(),
            bottom: self.bottom.reversed(),
            left: self.right.duplicate(),
        }
    }

    /// The edge set after rotating the tile a quarter turn clockwise: the old
    /// left edge becomes the top read backwards, the old top becomes the
    /// right, the old right becomes the bottom read backwards, the old bottom
    /// becomes the left.
    pub fn rotated90(&self) -> (r: Self)
        ensures
            r == spec_rotated90_set(*self),
            r.spec_right() == self.spec_top(),
            r.spec_left() == self.spec_bottom(),
            r.spec_top().spec_name() == self.spec_left().spec_name(),
            r.spec_top().spec_symmetrical() == self.spec_left().spec_symmetrical(),
            r.spec_top().spec_hard_match() == self.spec_left().spec_hard_match(),
            r.spec_top().spec_reverse() == (!self.spec_left().spec_symmetrical()
                && !self.spec_left().spec_reverse()),
            r.spec_bottom().spec_name() == self.spec_right().spec_name(),
            r.spec_bottom().spec_symmetrical() == self.spec_right().spec_symmetrical(),
            r.spec_bottom().spec_hard_match() == self.spec_right().spec_hard_match(),
            r.spec_bottom().spec_reverse() == (!self.spec_right().spec_symmetrical()
                && !self.spec_right().spec_reverse()),
    {
        Self {
            top: self.left.reversed(),
            right: self.top.duplicate(),
            bottom: self.right.reversed(),
            left: self.bottom.duplicate(),
        }
    }
}

} // verus!
