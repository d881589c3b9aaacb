//! Scaling: resampling an image to another size, by the nearest pixel or by
//! interpolating between the four pixels around.

use crate::order::{larger, smaller};
use crate::grid::Grid;
use crate::image::{Image, Picture};
use crate::matrix::Matrix;
use vstd::prelude::*;

verus! {

/// Options available for scaling an image.
#[derive(Clone, Copy, Debug, PartialEq, Eq, Structural)]
pub enum ScaleMethod {
    Linear,
    Bilinear,
}

/// The value `num / den` of the way from `a` to `b`, rounded to the nearest
/// integer, a half rounded up.
pub open spec fn blend(a: int, b: int, num: int, den: int) -> int {
    (2 * (a * (den - num) + b * num) + den) / (2 * den)
}

/// `n / den` rounded to the nearest integer, a half rounded up.
pub open spec fn nearest(n: int, den: int) -> int {
    (n + den / 2) / den
}

/// Rounding `n / den` by adding half of `den` is rounding it by doubling.
pub proof fn lemma_nearest(n: int, den: int)
    requires
        0 <= n,
        0 < den,
    ensures
        nearest(n, den) == (2 * n + den) / (2 * den),
        0 <= nearest(n, den),
{
    let q = (n + den / 2) / den;
    let r = (n + den / 2) % den;
    vstd::arithmetic::div_mod::lemma_fundamental_div_mod(n + den / 2, den);
    vstd::arithmetic::div_mod::lemma_mod_bound(n + den / 2, den);
    vstd::arithmetic::div_mod::lemma_fundamental_div_mod(den, 2);
    vstd::arithmetic::div_mod::lemma_mod_bound(den, 2);
    let e = den % 2;
    assert(den == 2 * (den / 2) + e);
    assert(2 * n + den == q * (2 * den) + (2 * r + e)) by (nonlinear_arith)
        requires
            n + den / 2 == den * q + r,
            den == 2 * (den / 2) + e,
    ;
    vstd::arithmetic::div_mod::lemma_fundamental_div_mod_converse_div(
        2 * n + den,
        2 * den,
        q,
        2 * r + e,
    );
    vstd::arithmetic::div_mod::lemma_div_pos_is_pos(n + den / 2, den);
}

/// A blend is one end plus the rounded share of the distance to the other,
/// and lies between the two ends.
pub proof fn lemma_blend(a: int, b: int, num: int, den: int)
    requires
        0 <= a,
        0 <= b,
        0 <= num < den,
    ensures
        b >= a ==> blend(a, b, num, den) == a + nearest((b - a) * num, den),
        b < a ==> blend(a, b, num, den) == b + nearest((a - b) * (den - num), den),
        smaller(a, b) <= blend(a, b, num, den) <= larger(a, b),
{
    let s = a * (den - num) + b * num;
    if b >= a {
        let n = (b - a) * num;
        assert(0 <= n <= (b - a) * den - (b - a)) by (nonlinear_arith)
            requires
                n == (b - a) * num,
                0 <= num < den,
                b >= a,
        ;
        lemma_nearest(n, den);
        let q = nearest(n, den);
        let r = (2 * n + den) % (2 * den);
        vstd::arithmetic::div_mod::lemma_fundamental_div_mod(2 * n + den, 2 * den);
        vstd::arithmetic::div_mod::lemma_mod_bound(2 * n + den, 2 * den);
        assert(2 * s + den == (a + q) * (2 * den) + r) by (nonlinear_arith)
            requires
                s == a * (den - num) + b * num,
                n == (b - a) * num,
                2 * n + den == (2 * den) * q + r,
        ;
        vstd::arithmetic::div_mod::lemma_fundamental_div_mod_converse_div(
            2 * s + den,
            2 * den,
            a + q,
            r,
        );
        assert(q <= b - a) by (nonlinear_arith)
            requires
                2 * n + den == (2 * den) * q + r,
                0 <= r,
                n <= (b - a) * den - (b - a),
                0 < den,
                b >= a,
        ;
    } else {
        let n = (a - b) * (den - num);
        assert(0 <= n <= (a - b) * den) by (nonlinear_arith)
            requires
                n == (a - b) * (den - num),
                0 <= num < den,
                b < a,
        ;
        lemma_nearest(n, den);
        let q = nearest(n, den);
        let r = (2 * n + den) % (2 * den);
        vstd::arithmetic::div_mod::lemma_fundamental_div_mod(2 * n + den, 2 * den);
        vstd::arithmetic::div_mod::lemma_mod_bound(2 * n + den, 2 * den);
        assert(2 * s + den == (b + q) * (2 * den) + r) by (nonlinear_arith)
            requires
                s == a * (den - num) + b * num,
                n == (a - b) * (den - num),
                2 * n + den == (2 * den) * q + r,
        ;
        vstd::arithmetic::div_mod::lemma_fundamental_div_mod_converse_div(
            2 * s + den,
            2 * den,
            b + q,
            r,
        );
        assert(q <= a - b) by (nonlinear_arith)
            requires
                2 * n + den == (2 * den) * q + r,
                0 <= r,
                n <= (a - b) * den,
                0 < den,
                b < a,
        ;
    }
}

/// `nearest(d * k, den)`, computed without overflow.
fn share(d: usize, k: usize, den: usize) -> (q: usize)
    requires
        0 < den,
        k <= den,
        nearest(d * k, den as int) <= usize::MAX,
    ensures
        q == nearest(d * k, den as int),
{
    assert(d * k <= 0xffff_ffff_ffff_ffff * 0xffff_ffff_ffff_ffff) by (nonlinear_arith)
        requires
            0 <= d <= 0xffff_ffff_ffff_ffff,
            0 <= k <= 0xffff_ffff_ffff_ffff,
    ;
    let n: u128 = (d as u128) * (k as u128);
    let q: u128 = (n + (den as u128) / 2) / (den as u128);
    q as usize
}

/// The blend of two samples.
pub fn blend_samples(a: usize, b: usize, num: usize, den: usize) -> (v: usize)
    requires
        num < den,
    ensures
        v == blend(a as int, b as int, num as int, den as int),
        smaller(a as int, b as int) <= v <= larger(a as int, b as int),
{
    proof {
        lemma_blend(a as int, b as int, num as int, den as int);
    }
    if b >= a {
        a + share(b - a, num, den)
    } else {
        b + share(a - b, den - num, den)
    }
}

/// Where source index `i * from / to` falls, and how far past it: the
/// quotient and the remainder of `i * from` by `to`.
fn split(i: usize, from: usize, to: usize) -> (at: (usize, usize))
    requires
        i < to,
        0 < from,
    ensures
        at.0 == i * from / (to as int),
        at.1 == i * from % (to as int),
        at.0 < from,
        at.1 < to,
{
    proof {
        lemma_split(i as int, from as int, to as int);
    }
    assert(i * from <= 0xffff_ffff_ffff_ffff * 0xffff_ffff_ffff_ffff) by (nonlinear_arith)
        requires
            0 <= i <= 0xffff_ffff_ffff_ffff,
            0 <= from <= 0xffff_ffff_ffff_ffff,
    ;
    let n: u128 = (i as u128) * (from as u128);
    ((n / (to as u128)) as usize, (n % (to as u128)) as usize)
}

pub proof fn lemma_split(i: int, from: int, to: int)
    requires
        0 <= i < to,
        0 < from,
    ensures
        0 <= i * from,
        0 <= i * from / to < from,
        0 <= i * from % to < to,
{
    assert(0 <= i * from < to * from) by (nonlinear_arith)
        requires
            0 <= i < to,
            0 < from,
    ;
    assert(to * from == from * to) by (nonlinear_arith);
    vstd::arithmetic::div_mod::lemma_div_by_multiple_is_strongly_ordered(
        i * from,
        from * to,
        from,
        to,
    );
    vstd::arithmetic::div_mod::lemma_div_by_multiple(from, to);
    vstd::arithmetic::div_mod::lemma_div_pos_is_pos(i * from, to);
    vstd::arithmetic::div_mod::lemma_mod_bound(i * from, to);
}

/// The index after `k` in a row of `len` cells, or `k` itself at the end.
pub open spec fn beside(k: int, len: int) -> int {
    if k + 1 < len {
        k + 1
    } else {
        len - 1
    }
}

impl Grid<usize> {
    /// The sample that bilinear interpolation gives cell `(r, c)` of a grid
    /// of the given shape: the four cells around the point where `(r, c)`
    /// falls in `self` are blended along the row, and the two results down
    /// the column. At the last row and column the cell beside is the cell
    /// itself.
    pub open spec fn smooth_at(self, r: int, c: int, width: nat, height: nat) -> int {
        let w = self.width as int;
        let h = self.height() as int;
        let x0 = c * w / (width as int);
        let nx = c * w % (width as int);
        let x1 = beside(x0, w);
        let y0 = r * h / (height as int);
        let ny = r * h % (height as int);
        let y1 = beside(y0, h);
        let top = blend(self.rows[y0][x0] as int, self.rows[y0][x1] as int, nx, width as int);
        let bottom = blend(self.rows[y1][x0] as int, self.rows[y1][x1] as int, nx, width as int);
        blend(top, bottom, ny, height as int)
    }

    /// The grid of the given shape that bilinear interpolation makes of
    /// `self`.
    pub open spec fn smoothed(self, width: nat, height: nat) -> Grid<usize> {
        Grid::build(width, height, |r: int, c: int| self.smooth_at(r, c, width, height) as usize)
    }
}

/// One channel scaled by bilinear interpolation.
fn smooth_channel(src: &Matrix<usize>, width: usize, height: usize) -> (made: Matrix<usize>)
    requires
        width > 0 && height > 0 ==> src@.width > 0 && src@.height() > 0,
        width * height <= usize::MAX,
    ensures
        made@ == src@.smoothed(width as nat, height as nat),
        made@.wf(),
{
    let src_width = src.width();
    let src_height = src.height();
    let mut made: Matrix<usize> = Matrix::new_filled(width, height, 0);
    let ghost goal = src@.smoothed(width as nat, height as nat);
    let mut new_y: usize = 0;
    while new_y < height
        invariant
            new_y <= height,
            width > 0 && height > 0 ==> src_width > 0 && src_height > 0,
            src@.wf(),
            src@.width == src_width,
            src@.height() == src_height,
            goal == src@.smoothed(width as nat, height as nat),
            made@.wf(),
            made@.width == width,
            made@.height() == height,
            forall|r: int, c: int|
                made@.has(r, c) && r < new_y ==> #[trigger] made@.rows[r][c] == goal.rows[r][c],
        decreases height - new_y,
    {
        let mut new_x: usize = 0;
        while new_x < width
            invariant
                new_y < height,
                new_x <= width,
                width > 0 && height > 0 ==> src_width > 0 && src_height > 0,
                src@.wf(),
                src@.width == src_width,
                src@.height() == src_height,
                goal == src@.smoothed(width as nat, height as nat),
                made@.wf(),
                made@.width == width,
                made@.height() == height,
                forall|r: int, c: int|
                    made@.has(r, c) && (r < new_y || (r == new_y && c < new_x))
                        ==> #[trigger] made@.rows[r][c] == goal.rows[r][c],
            decreases width - new_x,
        {
            let (x0, nx) = split(new_x, src_width, width);
            let (y0, ny) = split(new_y, src_height, height);
            let x1: usize = if x0 + 1 < src_width {
                x0 + 1
            } else {
                src_width - 1
            };
            let y1: usize = if y0 + 1 < src_height {
                y0 + 1
            } else {
                src_height - 1
            };

            let p00 = *src.at(y0, x0);
            let p10 = *src.at(y0, x1);
            let p01 = *src.at(y1, x0);
            let p11 = *src.at(y1, x1);

            let top = blend_samples(p00, p10, nx, width);
            let bottom = blend_samples(p01, p11, nx, width);
            let value = blend_samples(top, bottom, ny, height);
            assert(value == src@.smooth_at(
                new_y as int,
                new_x as int,
                width as nat,
                height as nat,
            ));
            made.put(new_y, new_x, value);
            new_x += 1;
        }
        new_y += 1;
    }
    proof {
        made@.lemma_equal_by_cells(goal);
    }
    made
}

impl Picture {
    /// The image scaled to the given size by taking, for every pixel, the
    /// nearest pixel above and to the left of where it falls.
    pub open spec fn resampled(self, width: nat, height: nat) -> Picture {
        self.with_channels(
            self.red.resampled(width, height),
            self.green.resampled(width, height),
            self.blue.resampled(width, height),
        )
    }

    /// The image scaled to the given size by bilinear interpolation.
    pub open spec fn smoothed(self, width: nat, height: nat) -> Picture {
        self.with_channels(
            self.red.smoothed(width, height),
            self.green.smoothed(width, height),
            self.blue.smoothed(width, height),
        )
    }

    /// What scaling to the given size leaves: the image itself where it or
    /// the size asked for is empty.
    pub open spec fn scaled(self, width: nat, height: nat, method: ScaleMethod) -> Picture {
        if self.width() == 0 || self.height() == 0 || width == 0 || height == 0 {
            self
        } else {
            match method {
                ScaleMethod::Linear => self.resampled(width, height),
                ScaleMethod::Bilinear => self.smoothed(width, height),
            }
        }
    }
}

impl Image {
    /// Scales the image to the given size; every pixel is taken from the
    /// nearest pixel above and to the left of where it falls in the image.
    pub fn linear_scale(&mut self, new_width: usize, new_height: usize)
        requires
            new_width > 0 && new_height > 0 ==> old(self)@.width() > 0 && old(self)@.height() > 0,
            new_width * new_height <= usize::MAX,
        ensures
            final(self)@ == old(self)@.resampled(new_width as nat, new_height as nat),
            final(self)@.wf(),
    {
        let new_red = self.red_channel().resample(new_width, new_height);
        let new_green = self.green_channel().resample(new_width, new_height);
        let new_blue = self.blue_channel().resample(new_width, new_height);
        self.put_channels(new_red, new_green, new_blue);
    }

    /// Scales the image to the given size by bilinear interpolation; every
    /// sample is blended from the four samples around the point where it
    /// falls in the image.
    pub fn bilinear_scale(&mut self, new_width: usize, new_height: usize)
        requires
            new_width > 0 && new_height > 0 ==> old(self)@.width() > 0 && old(self)@.height() > 0,
            new_width * new_height <= usize::MAX,
        ensures
            final(self)@ == old(self)@.smoothed(new_width as nat, new_height as nat),
            final(self)@.wf(),
    {
        let new_red = smooth_channel(self.red_channel(), new_width, new_height);
        let new_green = smooth_channel(self.green_channel(), new_width, new_height);
        let new_blue = smooth_channel(self.blue_channel(), new_width, new_height);
        self.put_channels(new_red, new_green, new_blue);
    }

    /// Scales the image to the given size by the given method. Does nothing
    /// where the image or the size asked for is empty.
    pub fn scale(&mut self, new_width: usize, new_height: usize, method: ScaleMethod)
        requires
            new_width * new_height <= usize::MAX,
        ensures
            final(self)@ == old(self)@.scaled(new_width as nat, new_height as nat, method),
            final(self)@.wf(),
    {
        if self.width() == 0 || self.height() == 0 || new_width == 0 || new_height == 0 {
            return ;
        }
        match method {
            ScaleMethod::Linear => self.linear_scale(new_width, new_height),
            ScaleMethod::Bilinear => self.bilinear_scale(new_width, new_height),
        }
    }
}

} // verus!
