use vstd::prelude::*;

use crate::geometry::{fractal_set, in_box, lemma_fractal_in_box, lemma_fractal_min_side,
    subdivide_squares, Square};
use crate::palette::Rgb;
use crate::{pow3, pow4, ConfigError, MAX_DEPTH};

verus! {

/// An axis-aligned filled rectangle of the vector export, in pixel units
/// at infinite resolution.
#[derive(Clone, Copy, PartialEq, Eq, Structural, Debug)]
pub struct RectSpec {
    pub x: u64,
    pub y: u64,
    pub width: u64,
    pub height: u64,
    pub fill: Rgb,
}

/// The rectangle a square maps to.
pub open spec fn rect_of(sq: Square, fill: Rgb) -> RectSpec {
    RectSpec { x: sq.x, y: sq.y, width: sq.side, height: sq.side, fill }
}

/// The rectangles of the squares that kept a positive side, in the
/// squares' own order: a leaf whose side truncated to nothing is not
/// emitted.
pub open spec fn positive_rects(squares: Seq<Square>, fill: Rgb) -> Seq<RectSpec>
    decreases squares.len(),
{
    if squares.len() == 0 {
        Seq::empty()
    } else {
        let rest = positive_rects(squares.drop_last(), fill);
        if squares.last().side > 0 {
            rest.push(rect_of(squares.last(), fill))
        } else {
            rest
        }
    }
}

/// Lists where every square kept a positive side map one to one.
proof fn lemma_positive_rects_all(squares: Seq<Square>, fill: Rgb)
    requires
        forall|k: int| 0 <= k < squares.len() ==> (#[trigger] squares[k]).side > 0,
    ensures
        positive_rects(squares, fill).len() == squares.len(),
        forall|k: int|
            0 <= k < squares.len() ==> positive_rects(squares, fill)[k] == rect_of(
                #[trigger] squares[k],
                fill,
            ),
    decreases squares.len(),
{
    if squares.len() > 0 {
        assert forall|k: int| 0 <= k < squares.drop_last().len() implies (
        #[trigger] squares.drop_last()[k]).side > 0 by {
            assert(squares.drop_last()[k] == squares[k]);
        }
        lemma_positive_rects_all(squares.drop_last(), fill);
        let r = positive_rects(squares, fill);
        let rest = positive_rects(squares.drop_last(), fill);
        assert(squares.last() == squares[squares.len() - 1]);
        assert(r == rest.push(rect_of(squares.last(), fill)));
        assert forall|k: int| 0 <= k < squares.len() implies r[k] == rect_of(
            #[trigger] squares[k],
            fill,
        ) by {
            if k < squares.len() - 1 {
                assert(r[k] == rest[k]);
                assert(squares.drop_last()[k] == squares[k]);
            } else {
                assert(r[k] == rect_of(squares.last(), fill));
            }
        }
    }
}

/// Lists of fully degenerate squares map to nothing.
proof fn lemma_positive_rects_none(squares: Seq<Square>, fill: Rgb)
    requires
        forall|k: int| 0 <= k < squares.len() ==> (#[trigger] squares[k]).side == 0,
    ensures
        positive_rects(squares, fill) == Seq::<RectSpec>::empty(),
    decreases squares.len(),
{
    if squares.len() > 0 {
        assert forall|k: int| 0 <= k < squares.drop_last().len() implies (
        #[trigger] squares.drop_last()[k]).side == 0 by {
            assert(squares.drop_last()[k] == squares[k]);
        }
        lemma_positive_rects_none(squares.drop_last(), fill);
    }
}

/// The fractal's rectangles rooted at `(x, y)` with side `size`, one per
/// leaf square that kept a positive side under the truncating subdivision,
/// in construction order: root-first, corner order, recursively. A zero
/// canvas yields nothing; a canvas of at least `3^iterations` yields the
/// full `4^iterations` rectangles. Depths beyond the ceiling are refused.
pub fn generate_svg_rectangles(x: u64, y: u64, size: u64, iterations: u32, color: Rgb) -> (r:
    Result<Vec<RectSpec>, ConfigError>)
    requires
        x + size <= u64::MAX,
        y + size <= u64::MAX,
    ensures
        r.is_ok() <==> iterations <= MAX_DEPTH,
        !r.is_ok() ==> r == Result::<Vec<RectSpec>, ConfigError>::Err(
            ConfigError::DepthTooLarge,
        ),
        r.is_ok() ==> r.unwrap()@ == positive_rects(
            fractal_set(Square { x, y, side: size }, iterations as nat),
            color,
        ),
        r.is_ok() && size == 0 ==> r.unwrap()@.len() == 0,
        r.is_ok() && size >= pow3(iterations as nat) ==> ({
            let v = r.unwrap();
            let squares = fractal_set(Square { x, y, side: size }, iterations as nat);
            &&& v@.len() == pow4(iterations as nat)
            &&& forall|k: int| 0 <= k < v@.len() ==> v@[k] == rect_of(#[trigger] squares[k], color)
        }),
{
    if iterations > MAX_DEPTH {
        return Err(ConfigError::DepthTooLarge);
    }
    let root = Square { x, y, side: size };
    let squares = subdivide_squares(root, iterations);
    let ghost all = fractal_set(root, iterations as nat);
    let n = squares.len();
    let mut rects: Vec<RectSpec> = Vec::new();
    let mut k: usize = 0;
    proof {
        assert(all.take(0) =~= Seq::<Square>::empty());
    }
    while k < n
        invariant
            k <= n,
            n == squares@.len(),
            squares@ == all,
            rects@ == positive_rects(all.take(k as int), color),
        decreases n - k,
    {
        let sq = squares[k];
        proof {
            assert(all.take(k as int + 1).drop_last() =~= all.take(k as int));
            assert(all.take(k as int + 1).last() == sq);
        }
        if sq.side > 0 {
            rects.push(
                RectSpec { x: sq.x, y: sq.y, width: sq.side, height: sq.side, fill: color },
            );
        }
        k = k + 1;
    }
    proof {
        assert(all.take(n as int) =~= all);
        if size == 0 {
            // Every leaf sits inside the zero-sided root, so none survives.
            lemma_fractal_in_box(root, iterations as nat);
            assert forall|j: int| 0 <= j < all.len() implies (#[trigger] all[j]).side == 0 by {
                assert(in_box(all[j], root));
            }
            lemma_positive_rects_none(all, color);
        }
        if size >= pow3(iterations as nat) {
            lemma_fractal_min_side(root, iterations as nat);
            lemma_positive_rects_all(all, color);
            crate::geometry::lemma_fractal_count(root, iterations as nat);
        }
    }
    Ok(rects)
}

/// The complete vector export of a square fractal canvas: one background
/// rectangle covering everything, then the fractal's surviving rectangles
/// in construction order — the same geometry the raster path draws.
pub fn vector_export(size: u64, iterations: u32, color: Rgb, background: Rgb) -> (r: Result<
    Vec<RectSpec>,
    ConfigError,
>)
    ensures
        r.is_ok() <==> iterations <= MAX_DEPTH,
        !r.is_ok() ==> r == Result::<Vec<RectSpec>, ConfigError>::Err(
            ConfigError::DepthTooLarge,
        ),
        r.is_ok() ==> ({
            let v = r.unwrap();
            let leaves = positive_rects(
                fractal_set(Square { x: 0, y: 0, side: size }, iterations as nat),
                color,
            );
            &&& v@.len() == 1 + leaves.len()
            &&& v@[0] == (RectSpec { x: 0, y: 0, width: size, height: size, fill: background })
            &&& forall|k: int| 1 <= k < v@.len() ==> v@[k] == leaves[k - 1]
        }),
        r.is_ok() && size == 0 ==> r.unwrap()@.len() == 1,
        r.is_ok() && size >= pow3(iterations as nat) ==> ({
            let v = r.unwrap();
            let squares = fractal_set(Square { x: 0, y: 0, side: size }, iterations as nat);
            &&& v@.len() == 1 + pow4(iterations as nat)
            &&& forall|k: int|
                1 <= k < v@.len() ==> v@[k] == rect_of(#[trigger] squares[k - 1], color)
        }),
{
    let fractal = match generate_svg_rectangles(0, 0, size, iterations, color) {
        Ok(v) => v,
        Err(e) => {
            return Err(e);
        },
    };
    let mut out: Vec<RectSpec> = Vec::new();
    out.push(RectSpec { x: 0, y: 0, width: size, height: size, fill: background });
    let n = fractal.len();
    let mut k: usize = 0;
    while k < n
        invariant
            k <= n,
            n == fractal@.len(),
            out@.len() == 1 + k,
            out@[0] == (RectSpec { x: 0, y: 0, width: size, height: size, fill: background }),
            forall|j: int| 0 <= j < k ==> out@[j + 1] == fractal@[j],
        decreases n - k,
    {
        let rc = fractal[k];
        out.push(rc);
        k = k + 1;
    }
    proof {
        let leaves = positive_rects(
            fractal_set(Square { x: 0, y: 0, side: size }, iterations as nat),
            color,
        );
        assert forall|k: int| 1 <= k < out@.len() implies out@[k] == leaves[k - 1] by {
            assert(out@[(k - 1) + 1] == fractal@[k - 1]);
        }
    }
    Ok(out)
}

} // verus!
