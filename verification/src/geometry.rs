use vstd::prelude::*;

use crate::pow4;
use crate::MAX_DEPTH;

verus! {

/// An axis-aligned square on an integer grid. For a fractal set generated at
/// depth `d` from the unit root, coordinates are in units of `1/3^d` of the
/// world square `[0,1]x[0,1]`; for pixel-space rendering they are in pixels.
#[derive(Clone, Copy, PartialEq, Eq, Structural, Debug)]
pub struct Square {
    pub x: u64,
    pub y: u64,
    pub side: u64,
}

/// The square's box does not run past the coordinate range; squares of a
/// fractal set inherit this from their root.
pub open spec fn fits(sq: Square) -> bool {
    sq.x + sq.side <= u64::MAX && sq.y + sq.side <= u64::MAX
}

/// Two squares overlap when their bounding boxes share interior points.
pub open spec fn overlap(a: Square, b: Square) -> bool {
    a.x < b.x + b.side && b.x < a.x + a.side && a.y < b.y + b.side && b.y < a.y + a.side
}

/// `inner` lies within the bounding box of `outer`.
pub open spec fn in_box(inner: Square, outer: Square) -> bool {
    outer.x <= inner.x && inner.x + inner.side <= outer.x + outer.side && outer.y <= inner.y
        && inner.y + inner.side <= outer.y + outer.side
}

pub open spec fn all_in_box(s: Seq<Square>, outer: Square) -> bool {
    forall|i: int| 0 <= i < s.len() ==> in_box(#[trigger] s[i], outer)
}

pub open spec fn pairwise_disjoint(s: Seq<Square>) -> bool {
    forall|i: int, j: int| 0 <= i < j < s.len() ==> !overlap(#[trigger] s[i], #[trigger] s[j])
}

/// The four corner children of a square: side `side/3`, placed at offsets
/// `(0,0)`, `(2t,0)`, `(0,2t)`, `(2t,2t)` where `t = side/3`. The middle
/// cross and the center are discarded.
pub open spec fn children_of(sq: Square) -> Seq<Square> {
    let t = sq.side / 3;
    seq![
        Square { x: sq.x, y: sq.y, side: t },
        Square { x: (sq.x + 2 * t) as u64, y: sq.y, side: t },
        Square { x: sq.x, y: (sq.y + 2 * t) as u64, side: t },
        Square { x: (sq.x + 2 * t) as u64, y: (sq.y + 2 * t) as u64, side: t },
    ]
}

/// One subdivision round: every square is replaced by its four corner
/// children, in place, keeping the order of the parents.
pub open spec fn subdivide(s: Seq<Square>) -> Seq<Square>
    decreases s.len(),
{
    if s.len() == 0 {
        Seq::empty()
    } else {
        children_of(s[0]) + subdivide(s.drop_first())
    }
}

/// The complete fractal set of `root` at depth `d`, root-first, in corner
/// order (top-left, top-right, bottom-left, bottom-right), recursively.
pub open spec fn fractal_set(root: Square, d: nat) -> Seq<Square>
    decreases d,
{
    if d == 0 {
        seq![root]
    } else {
        let c = children_of(root);
        fractal_set(c[0], (d - 1) as nat) + fractal_set(c[1], (d - 1) as nat) + fractal_set(
            c[2],
            (d - 1) as nat,
        ) + fractal_set(c[3], (d - 1) as nat)
    }
}

/// The corner children sit inside their parent, fit whenever it does, and
/// their boxes are pairwise non-overlapping.
proof fn lemma_children_basics(sq: Square)
    requires
        fits(sq),
    ensures
        forall|k: int| 0 <= k < 4 ==> in_box(#[trigger] children_of(sq)[k], sq),
        forall|k: int| 0 <= k < 4 ==> fits(#[trigger] children_of(sq)[k]),
        forall|k: int, l: int|
            0 <= k < l < 4 ==> !overlap(
                #[trigger] children_of(sq)[k],
                #[trigger] children_of(sq)[l],
            ),
{
    vstd::arithmetic::div_mod::lemma_fundamental_div_mod(sq.side as int, 3);
    let t = sq.side / 3;
    assert(0 <= sq.side % 3 < 3);
    assert(3 * t <= sq.side);
}

proof fn lemma_subdivide_concat(a: Seq<Square>, b: Seq<Square>)
    ensures
        subdivide(a + b) == subdivide(a) + subdivide(b),
    decreases a.len(),
{
    if a.len() == 0 {
        assert(a + b =~= b);
        assert(subdivide(a) + subdivide(b) =~= subdivide(b));
    } else {
        assert((a + b).drop_first() =~= a.drop_first() + b);
        lemma_subdivide_concat(a.drop_first(), b);
        assert((a + b).len() != 0);
        assert((a + b)[0] == a[0]);
        assert(subdivide(a + b) =~= subdivide(a) + subdivide(b));
    }
}

proof fn lemma_subdivide_singleton(sq: Square)
    ensures
        subdivide(seq![sq]) == children_of(sq),
{
    reveal_with_fuel(subdivide, 3);
    assert(seq![sq].drop_first() =~= Seq::<Square>::empty());
    assert(subdivide(seq![sq]) =~= children_of(sq));
}

proof fn lemma_subdivide_push(s: Seq<Square>, sq: Square)
    ensures
        subdivide(s.push(sq)) == subdivide(s) + children_of(sq),
{
    assert(s.push(sq) =~= s + seq![sq]);
    lemma_subdivide_concat(s, seq![sq]);
    lemma_subdivide_singleton(sq);
}

/// Subdividing the fractal set at depth `d` yields the set at depth `d + 1`.
proof fn lemma_subdivide_fractal(root: Square, d: nat)
    ensures
        subdivide(fractal_set(root, d)) == fractal_set(root, d + 1),
    decreases d,
{
    let c = children_of(root);
    if d == 0 {
        lemma_subdivide_singleton(root);
        assert(fractal_set(root, 1) =~= fractal_set(c[0], 0) + fractal_set(c[1], 0) + fractal_set(
            c[2],
            0,
        ) + fractal_set(c[3], 0));
        assert(fractal_set(root, 1) =~= children_of(root));
    } else {
        let m = (d - 1) as nat;
        lemma_subdivide_fractal(c[0], m);
        lemma_subdivide_fractal(c[1], m);
        lemma_subdivide_fractal(c[2], m);
        lemma_subdivide_fractal(c[3], m);
        lemma_subdivide_concat(fractal_set(c[0], m), fractal_set(c[1], m));
        lemma_subdivide_concat(
            fractal_set(c[0], m) + fractal_set(c[1], m),
            fractal_set(c[2], m),
        );
        lemma_subdivide_concat(
            fractal_set(c[0], m) + fractal_set(c[1], m) + fractal_set(c[2], m),
            fractal_set(c[3], m),
        );
        assert(subdivide(fractal_set(root, d)) =~= fractal_set(root, d + 1));
    }
}

/// The fractal set at depth `d` holds exactly `4^d` squares.
pub proof fn lemma_fractal_count(root: Square, d: nat)
    ensures
        fractal_set(root, d).len() == pow4(d),
    decreases d,
{
    if d > 0 {
        let c = children_of(root);
        lemma_fractal_count(c[0], (d - 1) as nat);
        lemma_fractal_count(c[1], (d - 1) as nat);
        lemma_fractal_count(c[2], (d - 1) as nat);
        lemma_fractal_count(c[3], (d - 1) as nat);
    }
}

/// Every square of the fractal set lies within the root's bounding box.
pub proof fn lemma_fractal_in_box(root: Square, d: nat)
    requires
        fits(root),
    ensures
        all_in_box(fractal_set(root, d), root),
        forall|i: int|
            0 <= i < fractal_set(root, d).len() ==> fits(#[trigger] fractal_set(root, d)[i]),
    decreases d,
{
    if d > 0 {
        let c = children_of(root);
        let m = (d - 1) as nat;
        lemma_children_basics(root);
        lemma_fractal_in_box(c[0], m);
        lemma_fractal_in_box(c[1], m);
        lemma_fractal_in_box(c[2], m);
        lemma_fractal_in_box(c[3], m);
        let s0 = fractal_set(c[0], m);
        let s1 = fractal_set(c[1], m);
        let s2 = fractal_set(c[2], m);
        let s3 = fractal_set(c[3], m);
        assert forall|i: int| 0 <= i < fractal_set(root, d).len() implies in_box(
            #[trigger] fractal_set(root, d)[i],
            root,
        ) && fits(fractal_set(root, d)[i]) by {
            let n0 = s0.len() as int;
            let n1 = n0 + s1.len() as int;
            let n2 = n1 + s2.len() as int;
            if i < n0 {
                assert(fractal_set(root, d)[i] == s0[i]);
            } else if i < n1 {
                assert(fractal_set(root, d)[i] == s1[i - n0]);
            } else if i < n2 {
                assert(fractal_set(root, d)[i] == s2[i - n1]);
            } else {
                assert(fractal_set(root, d)[i] == s3[i - n2]);
            }
        }
    }
}

/// A root of at least `3^d` grid units keeps every leaf of depth `d` at a
/// positive side: each round divides the side by three exactly once.
pub proof fn lemma_fractal_min_side(root: Square, d: nat)
    requires
        root.side >= crate::pow3(d),
    ensures
        forall|k: int|
            0 <= k < fractal_set(root, d).len() ==> (#[trigger] fractal_set(root, d)[k]).side
                >= 1,
    decreases d,
{
    if d > 0 {
        let c = children_of(root);
        let m = (d - 1) as nat;
        assert(c[0].side >= crate::pow3(m)) by {
            vstd::arithmetic::div_mod::lemma_div_is_ordered(
                crate::pow3(d) as int,
                root.side as int,
                3,
            );
            vstd::arithmetic::div_mod::lemma_div_multiples_vanish(crate::pow3(m) as int, 3);
        }
        lemma_fractal_min_side(c[0], m);
        lemma_fractal_min_side(c[1], m);
        lemma_fractal_min_side(c[2], m);
        lemma_fractal_min_side(c[3], m);
        let s0 = fractal_set(c[0], m);
        let s1 = fractal_set(c[1], m);
        let s2 = fractal_set(c[2], m);
        let s3 = fractal_set(c[3], m);
        assert forall|k: int| 0 <= k < fractal_set(root, d).len() implies (
        #[trigger] fractal_set(root, d)[k]).side >= 1 by {
            let n0 = s0.len() as int;
            let n1 = n0 + s1.len() as int;
            let n2 = n1 + s2.len() as int;
            if k < n0 {
                assert(fractal_set(root, d)[k] == s0[k]);
            } else if k < n1 {
                assert(fractal_set(root, d)[k] == s1[k - n0]);
            } else if k < n2 {
                assert(fractal_set(root, d)[k] == s2[k - n1]);
            } else {
                assert(fractal_set(root, d)[k] == s3[k - n2]);
            }
        }
    }
}

/// Squares contained in non-overlapping boxes do not overlap.
proof fn lemma_boxes_separate(a: Square, b: Square, boxa: Square, boxb: Square)
    requires
        in_box(a, boxa),
        in_box(b, boxb),
        !overlap(boxa, boxb),
    ensures
        !overlap(a, b),
{
}

/// No two squares of a fractal set overlap: each subdivision keeps only the
/// four corner children, which sit in non-overlapping corner boxes of their
/// parent.
pub proof fn lemma_fractal_disjoint(root: Square, d: nat)
    requires
        fits(root),
    ensures
        pairwise_disjoint(fractal_set(root, d)),
    decreases d,
{
    if d > 0 {
        let c = children_of(root);
        let m = (d - 1) as nat;
        lemma_children_basics(root);
        lemma_fractal_disjoint(c[0], m);
        lemma_fractal_disjoint(c[1], m);
        lemma_fractal_disjoint(c[2], m);
        lemma_fractal_disjoint(c[3], m);
        lemma_fractal_in_box(c[0], m);
        lemma_fractal_in_box(c[1], m);
        lemma_fractal_in_box(c[2], m);
        lemma_fractal_in_box(c[3], m);
        let s0 = fractal_set(c[0], m);
        let s1 = fractal_set(c[1], m);
        let s2 = fractal_set(c[2], m);
        let s3 = fractal_set(c[3], m);
        let s = fractal_set(root, d);
        // Index into the four-way concatenation: squares from the same part
        // are disjoint by induction; squares from different parts lie in
        // non-overlapping corner boxes.
        assert forall|i: int, j: int| 0 <= i < j < s.len() implies !overlap(
            #[trigger] s[i],
            #[trigger] s[j],
        ) by {
            let n0 = s0.len() as int;
            let n1 = n0 + s1.len() as int;
            let n2 = n1 + s2.len() as int;
            let (a, pa): (Square, int) = if i < n0 {
                (s0[i], 0)
            } else if i < n1 {
                (s1[i - n0], 1)
            } else if i < n2 {
                (s2[i - n1], 2)
            } else {
                (s3[i - n2], 3)
            };
            let (b, pb): (Square, int) = if j < n0 {
                (s0[j], 0)
            } else if j < n1 {
                (s1[j - n0], 1)
            } else if j < n2 {
                (s2[j - n1], 2)
            } else {
                (s3[j - n2], 3)
            };
            assert(s[i] == a && s[j] == b);
            if pa != pb {
                lemma_boxes_separate(a, b, c[pa], c[pb]);
            }
        }
    }
}

/// Generates the complete Cantor-dust square set for `root` after `depth`
/// subdivision rounds, by an explicit per-round work list. The result is
/// exactly `fractal_set(root, depth)`: `4^depth` squares, root-first, in
/// corner order, no two of which overlap.
pub fn subdivide_squares(root: Square, depth: u32) -> (r: Vec<Square>)
    requires
        depth <= MAX_DEPTH,
        fits(root),
    ensures
        r@ == fractal_set(root, depth as nat),
        r@.len() == pow4(depth as nat),
        pairwise_disjoint(r@),
        all_in_box(r@, root),
{
    let mut squares: Vec<Square> = Vec::new();
    squares.push(root);
    assert(squares@ =~= fractal_set(root, 0));
    proof {
        reveal_with_fuel(pow4, 12);
        assert(pow4(MAX_DEPTH as nat) == 4194304);
    }
    let mut round: u32 = 0;
    while round < depth
        invariant
            round <= depth,
            depth <= MAX_DEPTH,
            squares@ == fractal_set(root, round as nat),
            fits(root),
            pow4(MAX_DEPTH as nat) == 4194304,
        decreases depth - round,
    {
        proof {
            lemma_fractal_count(root, round as nat);
            crate::lemma_pow4_increases(round as nat, MAX_DEPTH as nat);
            lemma_fractal_in_box(root, round as nat);
        }
        let ghost prev = squares@;
        let mut next: Vec<Square> = Vec::new();
        let n = squares.len();
        let mut i: usize = 0;
        while i < n
            invariant
                i <= n,
                n == squares@.len(),
                squares@.len() <= 4194304,
                squares@ == prev,
                next@ == subdivide(prev.take(i as int)),
                forall|k: int| 0 <= k < prev.len() ==> fits(#[trigger] prev[k]),
            decreases n - i,
        {
            let sq = squares[i];
            proof {
                lemma_children_basics(sq);
            }
            let t = sq.side / 3;
            next.push(Square { x: sq.x, y: sq.y, side: t });
            next.push(Square { x: sq.x + 2 * t, y: sq.y, side: t });
            next.push(Square { x: sq.x, y: sq.y + 2 * t, side: t });
            next.push(Square { x: sq.x + 2 * t, y: sq.y + 2 * t, side: t });
            proof {
                lemma_subdivide_push(prev.take(i as int), sq);
                assert(prev.take(i as int).push(sq) =~= prev.take(i as int + 1));
                assert(next@ =~= subdivide(prev.take(i as int + 1)));
            }
            i = i + 1;
        }
        proof {
            assert(prev.take(n as int) =~= prev);
            lemma_subdivide_fractal(root, round as nat);
        }
        squares = next;
        round = round + 1;
    }
    proof {
        lemma_fractal_count(root, depth as nat);
        lemma_fractal_disjoint(root, depth as nat);
        lemma_fractal_in_box(root, depth as nat);
    }
    squares
}

/// The unit root of the normalized world square, on the grid of `1/3^depth`:
/// the world square `[0,1]x[0,1]` is `3^depth` grid units on a side.
pub fn world_root(depth: u32) -> (r: Square)
    requires
        depth <= MAX_DEPTH,
    ensures
        r.x == 0 && r.y == 0 && r.side == crate::pow3(depth as nat),
{
    Square { x: 0, y: 0, side: crate::pow3_exec(depth) }
}

/// The Cantor-dust set at `depth`, over the world square `[0,1]x[0,1]` in
/// grid units of `1/3^depth`. Depths beyond `MAX_DEPTH` (a set of `4^depth`
/// squares) are refused rather than allocated.
pub fn generate_cantor_squares(depth: u32) -> (r: Result<Vec<Square>, crate::ConfigError>)
    ensures
        r.is_ok() <==> depth <= MAX_DEPTH,
        r.is_ok() ==> r.unwrap()@ == fractal_set(
            Square { x: 0, y: 0, side: crate::pow3(depth as nat) as u64 },
            depth as nat,
        ),
        r.is_ok() ==> r.unwrap()@.len() == pow4(depth as nat) && pairwise_disjoint(r.unwrap()@)
            && all_in_box(
            r.unwrap()@,
            Square { x: 0, y: 0, side: crate::pow3(depth as nat) as u64 },
        ),
        !r.is_ok() ==> r == Result::<Vec<Square>, crate::ConfigError>::Err(
            crate::ConfigError::DepthTooLarge,
        ),
{
    if depth > MAX_DEPTH {
        return Err(crate::ConfigError::DepthTooLarge);
    }
    let root = world_root(depth);
    proof {
        crate::lemma_pow3_increases(depth as nat, MAX_DEPTH as nat);
        reveal_with_fuel(crate::pow3, 12);
        assert(crate::pow3(MAX_DEPTH as nat) == 177147);
    }
    Ok(subdivide_squares(root, depth))
}

} // verus!
