use vstd::prelude::*;

verus! {

/// The largest compressed length the exact distance arithmetic accepts.
/// Keeping every length at or below it lets a cross-multiplied comparison of
/// two distances fit in 128-bit machine integers.
pub const MAX_LEN: usize = 0xffff_ffff;

/// A normalized compression distance, kept as the exact rational
/// `num / den` instead of a truncating integer division or an inexact float:
/// `num = cx1x2 - min(cx1, cx2)` and `den = max(cx1, cx2)`, where `cx1` and
/// `cx2` are the compressed lengths of the two texts alone and `cx1x2` that
/// of their concatenation.
#[derive(Clone, Copy, PartialEq, Eq, Structural, Debug)]
pub struct Dist {
    pub num: i64,
    pub den: u64,
}

/// The distance value that the three compressed lengths determine.
pub open spec fn spec_dist(cx1: int, cx2: int, cx1x2: int) -> Dist {
    Dist {
        num: (cx1x2 - vstd::math::min(cx1, cx2)) as i64,
        den: vstd::math::max(cx1, cx2) as u64,
    }
}

/// `a` is at most `b` as a rational: `a.num / a.den <= b.num / b.den`,
/// stated by cross-multiplication so that a zero denominator still yields a
/// total comparison.
pub open spec fn dist_le(a: Dist, b: Dist) -> bool {
    a.num * b.den <= b.num * a.den
}

impl Dist {
    /// Builds the distance from the compressed length of the query (`cx1`),
    /// of the stored sample (`cx2`), and of their concatenation (`cx1x2`).
    pub fn new(cx1: usize, cx2: usize, cx1x2: usize) -> (r: Dist)
        requires
            cx1 <= MAX_LEN,
            cx2 <= MAX_LEN,
            cx1x2 <= MAX_LEN,
        ensures
            r == spec_dist(cx1 as int, cx2 as int, cx1x2 as int),
    {
        let mn: usize = if cx1 < cx2 {
            cx1
        } else {
            cx2
        };
        let mx: usize = if cx1 < cx2 {
            cx2
        } else {
            cx1
        };
        Dist { num: cx1x2 as i64 - mn as i64, den: mx as u64 }
    }

    /// Compares two distances exactly, without rounding or truncation.
    pub fn le(&self, other: &Dist) -> (r: bool)
        ensures
            r == dist_le(*self, *other),
    {
        let an: i128 = self.num as i128;
        let bd: i128 = other.den as i128;
        let bn: i128 = other.num as i128;
        let ad: i128 = self.den as i128;
        proof {
            lemma_i64_u64_product_fits(an as int, bd as int);
            lemma_i64_u64_product_fits(bn as int, ad as int);
        }
        an * bd <= bn * ad
    }
}

/// The product of an `i64` value and a `u64` value fits in an `i128`.
proof fn lemma_i64_u64_product_fits(x: int, y: int)
    requires
        -0x8000_0000_0000_0000 <= x <= 0x7fff_ffff_ffff_ffff,
        0 <= y <= 0xffff_ffff_ffff_ffff,
    ensures
        -0x8000_0000_0000_0000_0000_0000_0000_0000 <= x * y
            <= 0x7fff_ffff_ffff_ffff_ffff_ffff_ffff_ffff,
{
    assert(-0x8000_0000_0000_0000_0000_0000_0000_0000 <= x * y
        <= 0x7fff_ffff_ffff_ffff_ffff_ffff_ffff_ffff) by (nonlinear_arith)
        requires
            -0x8000_0000_0000_0000 <= x <= 0x7fff_ffff_ffff_ffff,
            0 <= y <= 0xffff_ffff_ffff_ffff,
    ;
}

/// The comparison is total: of any two distances, one is at most the other.
pub proof fn lemma_dist_le_total(a: Dist, b: Dist)
    ensures
        dist_le(a, b) || dist_le(b, a),
{
}

/// On distances with positive denominators the comparison is transitive, as
/// the order of the rational values is.
pub proof fn lemma_dist_le_trans(a: Dist, b: Dist, c: Dist)
    requires
        a.den > 0,
        b.den > 0,
        c.den > 0,
        dist_le(a, b),
        dist_le(b, c),
    ensures
        dist_le(a, c),
{
    assert((a.num * c.den) * b.den <= (c.num * a.den) * b.den) by (nonlinear_arith)
        requires
            a.num * b.den <= b.num * a.den,
            b.num * c.den <= c.num * b.den,
            a.den > 0,
            c.den > 0,
    ;
    assert(a.num * c.den <= c.num * a.den) by (nonlinear_arith)
        requires
            (a.num * c.den) * b.den <= (c.num * a.den) * b.den,
            b.den > 0,
    ;
}

} // verus!
