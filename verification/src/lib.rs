use vstd::prelude::*;

pub mod animate;
pub mod encoder;
pub mod escape;
pub mod geometry;
pub mod palette;
pub mod pixel;
pub mod raster;
pub mod vector;
pub mod viewport;

verus! {

/// A configuration that must be rejected before any generation begins.
#[derive(Clone, Copy, PartialEq, Eq, Structural, Debug)]
pub enum ConfigError {
    /// The output image has a zero width or height.
    EmptyImage,
    /// The output image is too large for a byte-indexed buffer.
    ImageTooLarge,
    /// The recursion depth lies beyond the allocation ceiling `MAX_DEPTH`.
    DepthTooLarge,
    /// The palette is empty or holds more than 256 entries.
    BadPaletteSize,
    /// The zoom is below one, leaves the accepted range during the
    /// animation, or the viewport leaves the world square.
    BadViewport,
    /// The frame count is zero or beyond the batch ceiling.
    BadFrameCount,
    /// The per-frame delay does not fit the container's tick counter.
    BadDelay,
}

/// Any failure the pipeline surfaces to its caller: an invalid
/// configuration, rejected before generation begins, or an encoding fault,
/// which aborts the whole run.
#[derive(Clone, Copy, PartialEq, Eq, Structural, Debug)]
pub enum RenderError {
    Config(ConfigError),
    Encode(encoder::EncodeError),
}

/// Number of subdivision rounds beyond which the square set (of size
/// `4^depth`) is refused rather than allocated.
pub const MAX_DEPTH: u32 = 11;

/// `4^e`, the number of squares produced by `e` subdivision rounds.
pub open spec fn pow4(e: nat) -> nat
    decreases e,
{
    if e == 0 {
        1
    } else {
        4 * pow4((e - 1) as nat)
    }
}

/// `3^e`, the denominator of the world-coordinate grid at depth `e`.
pub open spec fn pow3(e: nat) -> nat
    decreases e,
{
    if e == 0 {
        1
    } else {
        3 * pow3((e - 1) as nat)
    }
}

/// Exact power of three, used to fix the coordinate grid of a fractal set.
pub fn pow3_exec(e: u32) -> (r: u64)
    requires
        e <= MAX_DEPTH,
    ensures
        r == pow3(e as nat),
{
    let mut r: u64 = 1;
    let mut i: u32 = 0;
    proof {
        reveal_with_fuel(pow3, 12);
        assert(pow3(MAX_DEPTH as nat) == 177147);
    }
    while i < e
        invariant
            i <= e,
            e <= MAX_DEPTH,
            r == pow3(i as nat),
            pow3(MAX_DEPTH as nat) == 177147,
        decreases e - i,
    {
        proof {
            lemma_pow3_increases(i as nat + 1, MAX_DEPTH as nat);
        }
        r = r * 3;
        i = i + 1;
    }
    r
}

pub proof fn lemma_pow3_increases(a: nat, b: nat)
    requires
        a <= b,
    ensures
        pow3(a) <= pow3(b),
    decreases b,
{
    if a < b {
        lemma_pow3_increases(a, (b - 1) as nat);
    }
}

/// The product of two 64-bit values always fits in 128 bits.
pub proof fn lemma_u64_mul_fits(a: u64, b: u64)
    ensures
        a * b <= u128::MAX,
        a * b >= 0,
{
    assert(a * b <= u64::MAX * u64::MAX && a * b >= 0) by (nonlinear_arith)
        requires
            0 <= a <= u64::MAX,
            0 <= b <= u64::MAX,
    ;
}

/// A product of bounded factors is bounded by the product of the bounds.
pub proof fn lemma_mul_bounds(a: int, b: int, ma: int, mb: int)
    requires
        0 <= a <= ma,
        0 <= b <= mb,
    ensures
        0 <= a * b <= ma * mb,
{
    assert(0 <= a * b <= ma * mb) by (nonlinear_arith)
        requires
            0 <= a <= ma,
            0 <= b <= mb,
    ;
}

pub proof fn lemma_pow4_increases(a: nat, b: nat)
    requires
        a <= b,
    ensures
        pow4(a) <= pow4(b),
    decreases b,
{
    if a < b {
        lemma_pow4_increases(a, (b - 1) as nat);
    }
}

} // verus!
