//! One pixel: a red, a green and a blue sample.

use crate::order::capped;
use vstd::prelude::*;

verus! {

/// Representation of an RGB pixel.
#[derive(Clone, Copy, Debug, PartialEq, Eq, Structural)]
pub struct PixelRGB {
    pub r: usize,
    pub g: usize,
    pub b: usize,
}

/// The square of the difference of two samples.
pub open spec fn sample_gap(a: usize, b: usize) -> int {
    (a - b) * (a - b)
}

pub proof fn lemma_sample_gap(a: usize, b: usize)
    ensures
        0 <= sample_gap(a, b),
        sample_gap(a, b) == sample_gap(b, a),
        a >= b ==> sample_gap(a, b) == (a - b) * (a - b) && a - b <= sample_gap(a, b),
        sample_gap(a, b) <= a * a || sample_gap(a, b) <= b * b,
{
    let d = a - b;
    assert(0 <= d * d && d * d == (-d) * (-d)) by (nonlinear_arith);
    assert(d >= 0 ==> d <= d * d) by (nonlinear_arith);
    if a >= b {
        assert(d * d <= a * a) by (nonlinear_arith)
            requires
                0 <= d <= a,
        ;
    } else {
        assert(d * d <= b * b) by (nonlinear_arith)
            requires
                -b <= d <= 0,
        ;
    }
}

fn gap(a: usize, b: usize) -> (d: usize)
    requires
        sample_gap(a, b) <= isize::MAX,
    ensures
        d == sample_gap(a, b),
{
    proof {
        lemma_sample_gap(a, b);
        lemma_sample_gap(b, a);
    }
    let d: usize = if a >= b {
        a - b
    } else {
        b - a
    };
    d * d
}

/// The square of the difference of two samples, as an `isize` holds it.
fn capped_gap(a: usize, b: usize) -> (g: u128)
    ensures
        g == capped(sample_gap(a, b)),
{
    proof {
        lemma_sample_gap(a, b);
        lemma_sample_gap(b, a);
    }
    let d: usize = if a >= b {
        a - b
    } else {
        b - a
    };
    assert(d * d <= 0xffff_ffff_ffff_ffff * 0xffff_ffff_ffff_ffff) by (nonlinear_arith)
        requires
            0 <= d <= 0xffff_ffff_ffff_ffff,
    ;
    let square: u128 = (d as u128) * (d as u128);
    if square > isize::MAX as u128 {
        isize::MAX as u128
    } else {
        square
    }
}

impl PixelRGB {
    /// The squared Euclidean distance between two pixels.
    pub open spec fn distance(self, other: PixelRGB) -> int {
        sample_gap(self.r, other.r) + sample_gap(self.g, other.g) + sample_gap(self.b, other.b)
    }

    /// The squared Euclidean distance between two pixels, as an `isize`
    /// holds it: the largest `isize` where the distance is more than that.
    pub fn capped_difference(&self, other: &PixelRGB) -> (d: isize)
        ensures
            d == capped(self.distance(*other)),
    {
        proof {
            lemma_sample_gap(self.r, other.r);
            lemma_sample_gap(self.g, other.g);
            lemma_sample_gap(self.b, other.b);
        }
        let sum: u128 = capped_gap(self.r, other.r) + capped_gap(self.g, other.g) + capped_gap(
            self.b,
            other.b,
        );
        if sum > isize::MAX as u128 {
            isize::MAX
        } else {
            sum as isize
        }
    }

    /// The squared Euclidean distance between two pixels, where it fits.
    pub fn squared_difference(&self, other: &PixelRGB) -> (d: isize)
        requires
            self.distance(*other) <= isize::MAX,
        ensures
            d == self.distance(*other),
    {
        proof {
            lemma_sample_gap(self.r, other.r);
            lemma_sample_gap(self.g, other.g);
            lemma_sample_gap(self.b, other.b);
        }
        let dr: usize = gap(self.r, other.r);
        let dg: usize = gap(self.g, other.g);
        let db: usize = gap(self.b, other.b);
        (dr + dg + db) as isize
    }
}

} // verus!
